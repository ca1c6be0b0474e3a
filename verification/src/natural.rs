//! Natural ordering of variable names: names split into runs of digits,
//! letters and other octets; digit runs compare by value, letter runs
//! without regard to case, and a `[n]` array index counts like the digit run `n`.

use vstd::prelude::*;
use std::cmp::Ordering;

verus! {

/// The kind of a run of octets.
#[derive(Debug, Clone, Copy, PartialEq, Eq, Structural)]
pub enum SortTokenClass {
    Digit,
    Letter,
    Other,
}

/// The order of run kinds: digits before letters before other octets.
pub open spec fn class_rank(c: SortTokenClass) -> int {
    match c {
        SortTokenClass::Digit => 0,
        SortTokenClass::Letter => 1,
        SortTokenClass::Other => 2,
    }
}

pub open spec fn is_digit(b: u8) -> bool {
    0x30 <= b <= 0x39
}

pub open spec fn is_alpha(b: u8) -> bool {
    (0x41 <= b <= 0x5a) || (0x61 <= b <= 0x7a)
}

/// The kind of one octet.
pub open spec fn class_of(b: u8) -> SortTokenClass {
    if is_digit(b) { SortTokenClass::Digit } else if is_alpha(b) { SortTokenClass::Letter } else { SortTokenClass::Other }
}

/// The kind of an octet.
pub fn sort_token_class(byte: u8) -> (r: SortTokenClass)
    ensures
        r == class_of(byte),
{
    if byte >= 0x30 && byte <= 0x39 {
        SortTokenClass::Digit
    } else if (byte >= 0x41 && byte <= 0x5a) || (byte >= 0x61 && byte <= 0x7a) {
        SortTokenClass::Letter
    } else {
        SortTokenClass::Other
    }
}

/// The sign of a comparison: -1, 0 or 1.
pub open spec fn sign_of(o: Ordering) -> int {
    match o {
        Ordering::Less => -1,
        Ordering::Equal => 0,
        Ordering::Greater => 1,
    }
}

/// A position, widened to an integer.
pub open spec fn idx(i: usize) -> int {
    i as int
}

/// The sign of the comparison of two positions.
pub open spec fn usize_order(a: usize, b: usize) -> int {
    if a < b { -1 } else if a > b { 1 } else { 0 }
}

/// The sign of the comparison of two integers.
pub open spec fn int_order(a: int, b: int) -> int {
    if a < b { -1 } else if a > b { 1 } else { 0 }
}

/// Where the run that starts at `i` (of kind `c`) ends.
pub open spec fn run_end(s: Seq<u8>, i: int, c: SortTokenClass) -> int
    decreases s.len() - i,
{
    if 0 <= i < s.len() && class_of(s[i]) == c { run_end(s, i + 1, c) } else { i }
}

/// Where the value of the token at `o` starts: after a `[` that opens a number.
pub open spec fn token_start(s: Seq<u8>, o: int) -> int {
    if s[o] == 0x5b && o + 1 < s.len() && is_digit(s[o + 1]) { o + 1 } else { o }
}

/// Where the value of the token at `o` ends.
pub open spec fn token_value_end(s: Seq<u8>, o: int) -> int {
    let start = token_start(s, o);
    run_end(s, start + 1, class_of(s[start]))
}

/// Where the token at `o` ends: after its value, and after the `]` that
/// closes an array index.
pub open spec fn token_end(s: Seq<u8>, o: int) -> int {
    let start = token_start(s, o);
    let value_end = token_value_end(s, o);
    if start != o && value_end < s.len() && s[value_end] == 0x5d { value_end + 1 } else { value_end }
}

/// The kind of the token at `o`.
pub open spec fn token_class(s: Seq<u8>, o: int) -> SortTokenClass {
    class_of(s[token_start(s, o)])
}

/// The octets of the token's value.
pub open spec fn token_bytes(s: Seq<u8>, o: int) -> Seq<u8> {
    s.subrange(token_start(s, o), token_value_end(s, o))
}

/// Lexicographic comparison of octet sequences from position `i`.
pub open spec fn lex_from(a: Seq<u8>, b: Seq<u8>, i: int) -> int
    decreases a.len() - i,
{
    if i < 0 || (i >= a.len() && i >= b.len()) {
        0
    } else if i >= a.len() {
        -1
    } else if i >= b.len() {
        1
    } else if a[i] < b[i] {
        -1
    } else if a[i] > b[i] {
        1
    } else {
        lex_from(a, b, i + 1)
    }
}

/// Lexicographic comparison of octet sequences (the order of `[u8]`).
pub open spec fn lex_order(a: Seq<u8>, b: Seq<u8>) -> int {
    lex_from(a, b, 0)
}

/// ASCII lower case.
pub open spec fn lower(b: u8) -> u8 {
    if 0x41 <= b <= 0x5a { (b + 32) as u8 } else { b }
}

pub open spec fn lowered(s: Seq<u8>) -> Seq<u8> {
    s.map_values(|b: u8| lower(b))
}

/// Letters compare without regard to case, then by octet.
pub open spec fn letters_order(a: Seq<u8>, b: Seq<u8>) -> int {
    let c = lex_order(lowered(a), lowered(b));
    if c != 0 { c } else { lex_order(a, b) }
}

/// The position of the first octet that is not `0` (the length if none).
pub open spec fn first_nonzero(s: Seq<u8>, i: int) -> int
    decreases s.len() - i,
{
    if 0 <= i < s.len() && s[i] == 0x30 { first_nonzero(s, i + 1) } else { i }
}

/// A digit run without leading zeros; all zeros leave a single `0`.
pub open spec fn trim_zeros(s: Seq<u8>) -> Seq<u8> {
    let p = first_nonzero(s, 0);
    if p >= s.len() { seq![0x30u8] } else { s.subrange(p, s.len() as int) }
}

/// Digit runs compare by value, then by their number of leading zeros.
pub open spec fn digits_order(a: Seq<u8>, b: Seq<u8>) -> int {
    let ta = trim_zeros(a);
    let tb = trim_zeros(b);
    let c1 = int_order(ta.len() as int, tb.len() as int);
    let c2 = lex_order(ta, tb);
    if c1 != 0 { c1 } else if c2 != 0 { c2 } else { int_order(a.len() as int, b.len() as int) }
}

/// Two tokens compare by kind, then by value in the way their kind says.
pub open spec fn token_order(ca: SortTokenClass, a: Seq<u8>, cb: SortTokenClass, b: Seq<u8>) -> int {
    if class_rank(ca) != class_rank(cb) {
        int_order(class_rank(ca), class_rank(cb))
    } else if ca == SortTokenClass::Digit {
        digits_order(a, b)
    } else if ca == SortTokenClass::Letter {
        letters_order(a, b)
    } else {
        lex_order(a, b)
    }
}

/// Natural comparison from offsets `lo` and `ro`: token by token; when
/// either side runs out, the longer name is greater.
pub open spec fn natural_from(l: Seq<u8>, r: Seq<u8>, lo: int, ro: int) -> int
    decreases l.len() - lo,
{
    if 0 <= lo < l.len() && 0 <= ro < r.len() {
        let c = token_order(token_class(l, lo), token_bytes(l, lo), token_class(r, ro), token_bytes(r, ro));
        if c != 0 {
            c
        } else {
            proof { lemma_token_bounds(l, lo); }
            natural_from(l, r, token_end(l, lo), token_end(r, ro))
        }
    } else {
        int_order(l.len() as int, r.len() as int)
    }
}

/// The sign of the natural order of two names.
pub open spec fn natural_order(l: Seq<u8>, r: Seq<u8>) -> int {
    natural_from(l, r, 0, 0)
}

proof fn lemma_run_end(s: Seq<u8>, i: int, c: SortTokenClass)
    requires
        0 <= i <= s.len(),
    ensures
        i <= run_end(s, i, c) <= s.len(),
        forall|k: int| i <= k < run_end(s, i, c) ==> class_of(#[trigger] s[k]) == c,
        run_end(s, i, c) == s.len() || class_of(s[run_end(s, i, c)]) != c,
    decreases s.len() - i,
{
    if i < s.len() && class_of(s[i]) == c {
        lemma_run_end(s, i + 1, c);
    }
}

proof fn lemma_run_end_at(s: Seq<u8>, i: int, j: int, c: SortTokenClass)
    requires
        0 <= i <= j <= s.len(),
        forall|k: int| i <= k < j ==> class_of(#[trigger] s[k]) == c,
        j == s.len() || class_of(s[j]) != c,
    ensures
        run_end(s, i, c) == j,
    decreases j - i,
{
    if i < j {
        lemma_run_end_at(s, i + 1, j, c);
    }
}

/// The token at `o`: the end of its value follows its start, and the token
/// ends after its value, past `o`.
pub proof fn lemma_token_bounds(s: Seq<u8>, o: int)
    requires
        0 <= o < s.len(),
    ensures
        o <= token_start(s, o) < token_value_end(s, o) <= token_end(s, o) <= s.len(),
        o < token_end(s, o),
{
    let start = token_start(s, o);
    lemma_run_end(s, start + 1, class_of(s[start]));
}

/// A scanned token: its kind, the octets of its value and where it ends.
pub struct SortToken {
    pub class: SortTokenClass,
    pub bytes: Vec<u8>,
    pub end: usize,
}

/// Reads the token at `offset`.
pub fn next_sort_token(bytes: &[u8], offset: usize) -> (t: SortToken)
    requires
        offset < bytes@.len(),
    ensures
        t.class == token_class(bytes@, offset as int),
        t.bytes@ == token_bytes(bytes@, offset as int),
        t.end == token_end(bytes@, offset as int),
{
    let n = bytes.len();
    let start = if bytes[offset] == 0x5b && offset + 1 < n && bytes[offset + 1] >= 0x30 && bytes[offset + 1] <= 0x39 {
        offset + 1
    } else {
        offset
    };
    let class = sort_token_class(bytes[start]);
    let mut end = start + 1;
    while end < n && sort_token_class(bytes[end]) == class
        invariant
            n == bytes@.len(),
            start < end <= n,
            forall|k: int| start + 1 <= k < end ==> class_of(#[trigger] bytes@[k]) == class,
        decreases n - end,
    {
        end = end + 1;
    }
    proof { lemma_run_end_at(bytes@, start as int + 1, end as int, class); }
    let value_end = end;
    if start != offset && end < n && bytes[end] == 0x5d {
        end = end + 1;
    }
    let part = vstd::slice::slice_subrange(bytes, start, value_end);
    SortToken { class, bytes: vstd::slice::slice_to_vec(part), end }
}

fn class_position(c: SortTokenClass) -> (r: u8)
    ensures
        r == class_rank(c),
{
    match c {
        SortTokenClass::Digit => 0,
        SortTokenClass::Letter => 1,
        SortTokenClass::Other => 2,
    }
}

fn order_of(a: usize, b: usize) -> (r: Ordering)
    ensures
        sign_of(r) == usize_order(a, b),
{
    if a < b {
        Ordering::Less
    } else if a > b {
        Ordering::Greater
    } else {
        Ordering::Equal
    }
}

/// Lexicographic order of two octet sequences.
pub fn compare_bytes(a: &[u8], b: &[u8]) -> (r: Ordering)
    ensures
        sign_of(r) == lex_order(a@, b@),
{
    let mut i: usize = 0;
    while i < a.len() && i < b.len()
        invariant
            i <= a@.len(),
            i <= b@.len(),
            lex_from(a@, b@, 0) == lex_from(a@, b@, idx(i)),
        decreases a.len() - i,
    {
        if a[i] < b[i] {
            return Ordering::Less;
        }
        if a[i] > b[i] {
            return Ordering::Greater;
        }
        i = i + 1;
    }
    order_of(a.len(), b.len())
}

fn lower_byte(b: u8) -> (r: u8)
    ensures
        r == lower(b),
{
    if b >= 0x41 && b <= 0x5a { b + 32 } else { b }
}

/// ASCII letters without regard to case first, then by octet.
pub fn compare_ascii_case_insensitive(a: &[u8], b: &[u8]) -> (r: Ordering)
    ensures
        sign_of(r) == letters_order(a@, b@),
{
    let ghost la = lowered(a@);
    let ghost lb = lowered(b@);
    let mut i: usize = 0;
    while i < a.len() && i < b.len()
        invariant
            i <= a@.len(),
            i <= b@.len(),
            la == lowered(a@),
            lb == lowered(b@),
            lex_from(la, lb, 0) == lex_from(la, lb, idx(i)),
        decreases a.len() - i,
    {
        let x = lower_byte(a[i]);
        let y = lower_byte(b[i]);
        assert(la[idx(i)] == x && lb[idx(i)] == y);
        if x < y {
            return Ordering::Less;
        }
        if x > y {
            return Ordering::Greater;
        }
        i = i + 1;
    }
    if a.len() != b.len() {
        return order_of(a.len(), b.len());
    }
    compare_bytes(a, b)
}

/// The position of the first octet that is not `0`.
pub fn leading_zero_count(bytes: &[u8]) -> (r: usize)
    ensures
        r == first_nonzero(bytes@, 0),
        r <= bytes@.len(),
{
    let mut i: usize = 0;
    while i < bytes.len() && bytes[i] == 0x30
        invariant
            i <= bytes@.len(),
            first_nonzero(bytes@, 0) == first_nonzero(bytes@, i as int),
        decreases bytes.len() - i,
    {
        i = i + 1;
    }
    i
}

/// A digit run without its leading zeros (a lone `0` for all zeros).
pub fn trim_leading_zeroes(bytes: &[u8]) -> (r: Vec<u8>)
    ensures
        r@ == trim_zeros(bytes@),
{
    let p = leading_zero_count(bytes);
    if p == bytes.len() {
        let mut v: Vec<u8> = Vec::new();
        v.push(0x30);
        v
    } else {
        vstd::slice::slice_to_vec(vstd::slice::slice_subrange(bytes, p, bytes.len()))
    }
}

/// Digit runs by value, then by their count of leading zeros.
pub fn compare_digit_runs(a: &[u8], b: &[u8]) -> (r: Ordering)
    ensures
        sign_of(r) == digits_order(a@, b@),
{
    let ta = trim_leading_zeroes(a);
    let tb = trim_leading_zeroes(b);
    if ta.len() != tb.len() {
        return order_of(ta.len(), tb.len());
    }
    match compare_bytes(ta.as_slice(), tb.as_slice()) {
        Ordering::Equal => order_of(a.len(), b.len()),
        c => c,
    }
}

impl SortToken {
    /// Compares two tokens by kind, then by value.
    pub fn cmp_value(&self, other: &SortToken) -> (r: Ordering)
        ensures
            sign_of(r) == token_order(self.class, self.bytes@, other.class, other.bytes@),
    {
        let ca = class_position(self.class);
        let cb = class_position(other.class);
        if ca < cb {
            return Ordering::Less;
        }
        if ca > cb {
            return Ordering::Greater;
        }
        match self.class {
            SortTokenClass::Digit => compare_digit_runs(self.bytes.as_slice(), other.bytes.as_slice()),
            SortTokenClass::Letter => compare_ascii_case_insensitive(self.bytes.as_slice(), other.bytes.as_slice()),
            SortTokenClass::Other => compare_bytes(self.bytes.as_slice(), other.bytes.as_slice()),
        }
    }
}

/// Natural order of two names given as octets.
pub fn natural_descriptor_cmp(left: &[u8], right: &[u8]) -> (r: Ordering)
    ensures
        sign_of(r) == natural_order(left@, right@),
{
    let mut lo: usize = 0;
    let mut ro: usize = 0;
    while lo < left.len() && ro < right.len()
        invariant
            lo <= left@.len(),
            ro <= right@.len(),
            natural_from(left@, right@, 0, 0) == natural_from(left@, right@, idx(lo), idx(ro)),
        decreases left.len() - lo,
    {
        let lt = next_sort_token(left, lo);
        let rt = next_sort_token(right, ro);
        proof {
            lemma_token_bounds(left@, idx(lo));
            lemma_token_bounds(right@, idx(ro));
        }
        match lt.cmp_value(&rt) {
            Ordering::Equal => {},
            c => return c,
        }
        lo = lt.end;
        ro = rt.end;
    }
    order_of(left.len(), right.len())
}


proof fn lemma_lex_antisymmetric(a: Seq<u8>, b: Seq<u8>, i: int)
    ensures
        lex_from(a, b, i) == -lex_from(b, a, i),
    decreases a.len() - i,
{
    if i >= 0 && i < a.len() && i < b.len() && a[i] == b[i] {
        lemma_lex_antisymmetric(a, b, i + 1);
    }
}

proof fn lemma_lex_reflexive(a: Seq<u8>, i: int)
    ensures
        lex_from(a, a, i) == 0,
    decreases a.len() - i,
{
    if i >= 0 && i < a.len() {
        lemma_lex_reflexive(a, i + 1);
    }
}

proof fn lemma_token_order_antisymmetric(ca: SortTokenClass, a: Seq<u8>, cb: SortTokenClass, b: Seq<u8>)
    ensures
        token_order(ca, a, cb, b) == -token_order(cb, b, ca, a),
{
    lemma_lex_antisymmetric(a, b, 0);
    lemma_lex_antisymmetric(lowered(a), lowered(b), 0);
    lemma_lex_antisymmetric(trim_zeros(a), trim_zeros(b), 0);
}

proof fn lemma_natural_from_antisymmetric(l: Seq<u8>, r: Seq<u8>, lo: int, ro: int)
    ensures
        natural_from(l, r, lo, ro) == -natural_from(r, l, ro, lo),
    decreases l.len() - lo,
{
    if 0 <= lo < l.len() && 0 <= ro < r.len() {
        lemma_token_order_antisymmetric(token_class(l, lo), token_bytes(l, lo), token_class(r, ro), token_bytes(r, ro));
        lemma_token_bounds(l, lo);
        lemma_natural_from_antisymmetric(l, r, token_end(l, lo), token_end(r, ro));
    }
}

proof fn lemma_natural_from_reflexive(l: Seq<u8>, lo: int)
    ensures
        natural_from(l, l, lo, lo) == 0,
    decreases l.len() - lo,
{
    if 0 <= lo < l.len() {
        let b = token_bytes(l, lo);
        lemma_lex_reflexive(b, 0);
        lemma_lex_reflexive(lowered(b), 0);
        lemma_lex_reflexive(trim_zeros(b), 0);
        lemma_token_bounds(l, lo);
        lemma_natural_from_reflexive(l, token_end(l, lo));
    }
}

/// The natural order is antisymmetric and reflexive: swapping two names
/// negates their comparison, and every name is equal to itself.
pub proof fn law_natural_order_antisymmetric(l: Seq<u8>, r: Seq<u8>)
    ensures
        natural_order(l, r) == -natural_order(r, l),
        natural_order(l, l) == 0,
        -1 <= natural_order(l, r) <= 1,
{
    lemma_natural_from_antisymmetric(l, r, 0, 0);
    lemma_natural_from_reflexive(l, 0);
    lemma_natural_range(l, r, 0, 0);
}

proof fn lemma_lex_transitive(a: Seq<u8>, b: Seq<u8>, c: Seq<u8>, i: int)
    requires
        0 <= i,
        lex_from(a, b, i) <= 0,
        lex_from(b, c, i) <= 0,
    ensures
        lex_from(a, c, i) <= 0,
        (lex_from(a, b, i) < 0 || lex_from(b, c, i) < 0) ==> lex_from(a, c, i) < 0,
    decreases a.len() - i,
{
    if i < a.len() && i < b.len() && i < c.len() && a[i] == b[i] && b[i] == c[i] {
        lemma_lex_transitive(a, b, c, i + 1);
    }
}

proof fn lemma_lex_zero_equal(a: Seq<u8>, b: Seq<u8>, i: int)
    requires
        0 <= i <= a.len(),
        i <= b.len(),
        lex_from(a, b, i) == 0,
    ensures
        a.len() == b.len(),
        forall|k: int| i <= k < a.len() ==> a[k] == b[k],
    decreases a.len() - i,
{
    if i < a.len() {
        lemma_lex_zero_equal(a, b, i + 1);
    }
}

/// Two sequences that compare equal are the same sequence.
proof fn lemma_lex_order_zero(a: Seq<u8>, b: Seq<u8>)
    requires
        lex_order(a, b) == 0,
    ensures
        a == b,
{
    lemma_lex_zero_equal(a, b, 0);
    assert(a =~= b);
}

/// The order of letter runs is transitive, and only equal runs compare equal.
proof fn lemma_letters_transitive(a: Seq<u8>, b: Seq<u8>, c: Seq<u8>)
    requires
        letters_order(a, b) <= 0,
        letters_order(b, c) <= 0,
    ensures
        letters_order(a, c) <= 0,
        (letters_order(a, b) < 0 || letters_order(b, c) < 0) ==> letters_order(a, c) < 0,
{
    let (la, lb, lc) = (lowered(a), lowered(b), lowered(c));
    lemma_lex_antisymmetric(la, lb, 0);
    lemma_lex_antisymmetric(lb, lc, 0);
    lemma_lex_range(la, lb, 0);
    lemma_lex_range(lb, lc, 0);
    lemma_lex_transitive(la, lb, lc, 0);
    if lex_order(la, lb) == 0 {
        lemma_lex_order_zero(la, lb);
    }
    if lex_order(lb, lc) == 0 {
        lemma_lex_order_zero(lb, lc);
    }
    if lex_order(la, lb) == 0 && lex_order(lb, lc) == 0 {
        lemma_lex_reflexive(la, 0);
        lemma_lex_range(a, b, 0);
        lemma_lex_range(b, c, 0);
        lemma_lex_transitive(a, b, c, 0);
    }
}

/// The order of digit runs is transitive.
proof fn lemma_digits_transitive(a: Seq<u8>, b: Seq<u8>, c: Seq<u8>)
    requires
        digits_order(a, b) <= 0,
        digits_order(b, c) <= 0,
    ensures
        digits_order(a, c) <= 0,
        (digits_order(a, b) < 0 || digits_order(b, c) < 0) ==> digits_order(a, c) < 0,
{
    let (ta, tb, tc) = (trim_zeros(a), trim_zeros(b), trim_zeros(c));
    lemma_lex_range(ta, tb, 0);
    lemma_lex_range(tb, tc, 0);
    if ta.len() == tb.len() && tb.len() == tc.len() {
        lemma_lex_transitive(ta, tb, tc, 0);
        if lex_order(ta, tb) == 0 {
            lemma_lex_order_zero(ta, tb);
        }
        if lex_order(tb, tc) == 0 {
            lemma_lex_order_zero(tb, tc);
        }
        if lex_order(ta, tb) == 0 && lex_order(tb, tc) == 0 {
            lemma_lex_reflexive(ta, 0);
        }
    }
}

/// The order of tokens is transitive; tokens that compare equal are of one
/// kind and of one length.
proof fn lemma_token_transitive(ca: SortTokenClass, a: Seq<u8>, cb: SortTokenClass, b: Seq<u8>, cc: SortTokenClass, c: Seq<u8>)
    requires
        token_order(ca, a, cb, b) <= 0,
        token_order(cb, b, cc, c) <= 0,
    ensures
        token_order(ca, a, cc, c) <= 0,
        (token_order(ca, a, cb, b) < 0 || token_order(cb, b, cc, c) < 0) ==> token_order(ca, a, cc, c) < 0,
{
    if ca == cb && cb == cc {
        if ca == SortTokenClass::Digit {
            lemma_digits_transitive(a, b, c);
        } else if ca == SortTokenClass::Letter {
            lemma_letters_transitive(a, b, c);
        } else {
            lemma_lex_range(a, b, 0);
            lemma_lex_range(b, c, 0);
            lemma_lex_transitive(a, b, c, 0);
        }
    }
}

proof fn lemma_token_zero(ca: SortTokenClass, a: Seq<u8>, cb: SortTokenClass, b: Seq<u8>)
    requires
        token_order(ca, a, cb, b) == 0,
    ensures
        ca == cb,
        a.len() == b.len(),
{
    if ca == SortTokenClass::Letter && cb == SortTokenClass::Letter {
        if lex_order(lowered(a), lowered(b)) == 0 {
            lemma_lex_order_zero(a, b);
        }
    } else if ca == SortTokenClass::Other && cb == SortTokenClass::Other {
        lemma_lex_order_zero(a, b);
    }
}

/// A name without the octet `[`, so that no array index is read and every
/// token is a maximal run of one kind.
pub open spec fn bracket_free(s: Seq<u8>) -> bool {
    forall|i: int| 0 <= i < s.len() ==> s[i] != 0x5b
}

/// In a name without `[`, a token starts where it is read and ends after
/// its octets.
proof fn lemma_plain_token(s: Seq<u8>, o: int)
    requires
        bracket_free(s),
        0 <= o < s.len(),
    ensures
        token_start(s, o) == o,
        token_end(s, o) == o + token_bytes(s, o).len(),
        o < token_end(s, o) <= s.len(),
{
    assert(s[o] != 0x5b);
    lemma_token_bounds(s, o);
}

proof fn lemma_natural_from_transitive(a: Seq<u8>, b: Seq<u8>, c: Seq<u8>, o: int)
    requires
        bracket_free(a),
        bracket_free(b),
        bracket_free(c),
        0 <= o <= a.len(),
        o <= b.len(),
        o <= c.len(),
        natural_from(a, b, o, o) <= 0,
        natural_from(b, c, o, o) <= 0,
    ensures
        natural_from(a, c, o, o) <= 0,
        (natural_from(a, b, o, o) < 0 || natural_from(b, c, o, o) < 0) ==> natural_from(a, c, o, o) < 0,
    decreases a.len() - o,
{
    if o < a.len() && o < b.len() && o < c.len() {
        lemma_plain_token(a, o);
        lemma_plain_token(b, o);
        lemma_plain_token(c, o);
        let (ka, kb, kc) = (token_class(a, o), token_class(b, o), token_class(c, o));
        let (ta, tb, tc) = (token_bytes(a, o), token_bytes(b, o), token_bytes(c, o));
        lemma_token_order_antisymmetric(ka, ta, kb, tb);
        lemma_token_order_antisymmetric(kb, tb, kc, tc);
        lemma_token_order_antisymmetric(ka, ta, kc, tc);
        lemma_token_transitive(ka, ta, kb, tb, kc, tc);
        if token_order(ka, ta, kb, tb) == 0 && token_order(kb, tb, kc, tc) == 0 {
            lemma_token_transitive(kc, tc, kb, tb, ka, ta);
            lemma_token_zero(ka, ta, kb, tb);
            lemma_token_zero(kb, tb, kc, tc);
            lemma_natural_from_transitive(a, b, c, token_end(a, o));
        } else if token_order(ka, ta, kb, tb) == 0 {
            lemma_token_zero(ka, ta, kb, tb);
        } else if token_order(kb, tb, kc, tc) == 0 {
            lemma_token_zero(kb, tb, kc, tc);
        }
    }
}

/// On names without `[`, the natural order is transitive: when `a` sorts
/// no later than `b` and `b` no later than `c`, `a` sorts no later than
/// `c`, and strictly before it when either step is strict. Array indexes
/// break this, since a name that runs out of tokens compares with the other
/// by octet length: `x[5]` sorts before `x5aaaa`, which sorts before `x5b`,
/// which sorts before `x[5]`.
pub proof fn law_natural_order_transitive(a: Seq<u8>, b: Seq<u8>, c: Seq<u8>)
    requires
        bracket_free(a),
        bracket_free(b),
        bracket_free(c),
        natural_order(a, b) <= 0,
        natural_order(b, c) <= 0,
    ensures
        natural_order(a, c) <= 0,
        (natural_order(a, b) < 0 || natural_order(b, c) < 0) ==> natural_order(a, c) < 0,
{
    lemma_natural_from_transitive(a, b, c, 0);
}

proof fn lemma_lex_range(a: Seq<u8>, b: Seq<u8>, i: int)
    ensures
        -1 <= lex_from(a, b, i) <= 1,
    decreases a.len() - i,
{
    if i >= 0 && i < a.len() && i < b.len() && a[i] == b[i] {
        lemma_lex_range(a, b, i + 1);
    }
}

proof fn lemma_natural_range(l: Seq<u8>, r: Seq<u8>, lo: int, ro: int)
    ensures
        -1 <= natural_from(l, r, lo, ro) <= 1,
    decreases l.len() - lo,
{
    if 0 <= lo < l.len() && 0 <= ro < r.len() {
        let (a, b) = (token_bytes(l, lo), token_bytes(r, ro));
        lemma_lex_range(a, b, 0);
        lemma_lex_range(lowered(a), lowered(b), 0);
        lemma_lex_range(trim_zeros(a), trim_zeros(b), 0);
        lemma_token_bounds(l, lo);
        lemma_natural_range(l, r, token_end(l, lo), token_end(r, ro));
    }
}

} // verus!
