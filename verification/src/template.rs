//! File name templates: `{$token}` placeholders in literal text. A `{$`
//! without a closing `}` is literal text. The tokens name the date, the
//! time, both, or a variable with an optional `:precision`.

use vstd::prelude::*;
use vstd::string::*;
use crate::text::{chars_of, push_char, push_str, str_eq, string_from_chars};

verus! {

/// The first `}` at or after `from`.
pub open spec fn first_close(c: Seq<char>, from: int) -> Option<int>
    decreases c.len() - from,
{
    if from >= c.len() || from < 0 {
        None
    } else if c[from] == '}' {
        Some(from)
    } else {
        first_close(c, from + 1)
    }
}

/// A placeholder starts at `i`: `{$` followed somewhere by `}`.
pub open spec fn placeholder_at(c: Seq<char>, i: int) -> bool {
    0 <= i && i + 1 < c.len() && c[i] == '{' && c[i + 1] == '$' && first_close(c, i + 2) is Some
}

/// The tokens of the placeholders from position `i` on, in order.
pub open spec fn tokens_from(c: Seq<char>, i: int) -> Seq<Seq<char>>
    decreases c.len() - i,
{
    if i < 0 || i >= c.len() {
        Seq::empty()
    } else if placeholder_at(c, i) {
        let close = first_close(c, i + 2)->0;
        proof {
            lemma_first_close_bounds(c, i + 2);
        }
        seq![c.subrange(i + 2, close)] + tokens_from(c, close + 1)
    } else {
        tokens_from(c, i + 1)
    }
}

/// The text from position `i` on with its placeholders replaced, in order,
/// by `vals` from index `k`.
pub open spec fn fill_from(c: Seq<char>, i: int, vals: Seq<Seq<char>>, k: int) -> Seq<char>
    decreases c.len() - i,
{
    if i < 0 || i >= c.len() {
        Seq::empty()
    } else if placeholder_at(c, i) {
        let close = first_close(c, i + 2)->0;
        proof {
            lemma_first_close_bounds(c, i + 2);
        }
        vals[k] + fill_from(c, close + 1, vals, k + 1)
    } else {
        seq![c[i]] + fill_from(c, i + 1, vals, k)
    }
}

/// Where the first `}` from a position lies, and that none comes before it.
pub proof fn lemma_first_close_bounds(c: Seq<char>, from: int)
    ensures
        first_close(c, from) matches Some(j) ==> from <= j < c.len() && c[j] == '}'
            && forall|m: int| from <= m < j ==> c[m] != '}',
        first_close(c, from) is None && from >= 0 ==> forall|m: int| from <= m < c.len() ==> c[m] != '}',
    decreases c.len() - from,
{
    if from >= 0 && from < c.len() && c[from] != '}' {
        lemma_first_close_bounds(c, from + 1);
    }
}

/// Where the next placeholder from `i` closes: the index of its `}`, or
/// none when no placeholder starts at `i`.
fn placeholder_end(c: &Vec<char>, i: usize) -> (r: Option<usize>)
    requires
        i < c@.len(),
    ensures
        placeholder_at(c@, i as int) <==> r is Some,
        r matches Some(j) ==> first_close(c@, i + 2) == Some(j as int) && i + 2 <= j < c@.len(),
{
    if !(c.len() - i > 1 && c[i] == '{' && c[i + 1] == '$') {
        return None;
    }
    let mut j: usize = i + 2;
    while j < c.len() && c[j] != '}'
        invariant
            i + 2 <= j <= c@.len(),
            first_close(c@, i + 2) == first_close(c@, j as int),
        decreases c.len() - j,
    {
        j = j + 1;
    }
    if j == c.len() {
        None
    } else {
        Some(j)
    }
}

/// The tokens of a template's placeholders, in order.
pub fn template_tokens(template: &str) -> (r: Vec<String>)
    ensures
        r@.map_values(|s: String| s@) == tokens_from(template@, 0),
{
    let c = chars_of(template);
    let mut out: Vec<String> = Vec::new();
    let mut i: usize = 0;
    while i < c.len()
        invariant
            i <= c@.len(),
            c@ == template@,
            out@.map_values(|s: String| s@) + tokens_from(c@, i as int) == tokens_from(c@, 0),
        decreases c.len() - i,
    {
        let ghost before = out@.map_values(|s: String| s@);
        match placeholder_end(&c, i) {
            Some(close) => {
                let token = string_from_chars(vstd::slice::slice_subrange(c.as_slice(), i + 2, close));
                out.push(token);
                assert(out@.map_values(|s: String| s@) =~= before.push(c@.subrange(i + 2, close as int)));
                assert(before + tokens_from(c@, i as int) =~= before.push(c@.subrange(i + 2, close as int)) + tokens_from(c@, close + 1));
                i = close + 1;
            },
            None => {
                i = i + 1;
            },
        }
    }
    assert(tokens_from(c@, i as int) =~= Seq::<Seq<char>>::empty());
    assert(out@.map_values(|s: String| s@) + Seq::<Seq<char>>::empty() =~= out@.map_values(|s: String| s@));
    out
}

/// The template with each placeholder replaced by its value, in order.
pub fn fill_template(template: &str, values: &[String]) -> (r: String)
    requires
        values@.len() == tokens_from(template@, 0).len(),
    ensures
        r@ == fill_from(template@, 0, values@.map_values(|s: String| s@), 0),
{
    let ghost vals = values@.map_values(|s: String| s@);
    let c = chars_of(template);
    let mut out = String::new();
    let mut i: usize = 0;
    let mut k: usize = 0;
    while i < c.len()
        invariant
            i <= c@.len(),
            c@ == template@,
            vals == values@.map_values(|s: String| s@),
            values@.len() == tokens_from(c@, 0).len(),
            k + tokens_from(c@, i as int).len() == tokens_from(c@, 0).len(),
            out@ + fill_from(c@, i as int, vals, k as int) == fill_from(c@, 0, vals, 0),
        decreases c.len() - i,
    {
        let ghost before = out@;
        match placeholder_end(&c, i) {
            Some(close) => {
                assert(tokens_from(c@, i as int) == seq![c@.subrange(i + 2, close as int)] + tokens_from(c@, close + 1));
                push_str(&mut out, values[k].as_str());
                assert(before + fill_from(c@, i as int, vals, k as int) =~= out@ + fill_from(c@, close + 1, vals, k + 1));
                i = close + 1;
                k = k + 1;
            },
            None => {
                push_char(&mut out, c[i]);
                assert(before + fill_from(c@, i as int, vals, k as int) =~= out@ + fill_from(c@, i + 1, vals, k as int));
                i = i + 1;
            },
        }
    }
    assert(out@ + fill_from(c@, i as int, vals, k as int) =~= out@);
    out
}

/// A template without placeholders is its own result.
pub proof fn law_template_without_placeholders_is_literal(c: Seq<char>, i: int, vals: Seq<Seq<char>>, k: int)
    requires
        0 <= i <= c.len(),
        tokens_from(c, i).len() == 0,
    ensures
        fill_from(c, i, vals, k) == c.skip(i),
    decreases c.len() - i,
{
    if i < c.len() {
        if placeholder_at(c, i) {
            lemma_first_close_bounds(c, i + 2);
            assert(tokens_from(c, i).len() > 0);
        } else {
            law_template_without_placeholders_is_literal(c, i + 1, vals, k);
            assert(c.skip(i) =~= seq![c[i]] + c.skip(i + 1));
        }
    } else {
        assert(c.skip(i) =~= Seq::<char>::empty());
    }
}

/// What a placeholder stands for.
#[derive(Debug, Clone, PartialEq, Eq)]
pub enum TemplateToken {
    /// The date as `YYYYMMDD`.
    Date,
    /// The time as `HHMMSS`.
    Time,
    /// Both, as `YYYYMMDD_HHMMSS`.
    DateTime,
    /// A variable's value, with the text after the first `:` as its precision.
    Variable { name: String, precision: Option<String> },
}

/// The first `:` in a token.
pub open spec fn first_colon(t: Seq<char>) -> Option<int> {
    if exists|i: int| 0 <= i < t.len() && t[i] == ':' && forall|j: int| 0 <= j < i ==> t[j] != ':' {
        Some(choose|i: int| 0 <= i < t.len() && t[i] == ':' && forall|j: int| 0 <= j < i ==> t[j] != ':')
    } else {
        None
    }
}

/// Reads a placeholder's token.
pub fn classify_token(token: &str) -> (r: TemplateToken)
    ensures
        token@ == "Date"@ ==> r == TemplateToken::Date,
        token@ == "Time"@ ==> r == TemplateToken::Time,
        token@ == "DateTime"@ ==> r == TemplateToken::DateTime,
        token@ != "Date"@ && token@ != "Time"@ && token@ != "DateTime"@ ==> match first_colon(token@) {
            Some(i) => r matches TemplateToken::Variable { name, precision: Some(p) }
                && name@ == token@.take(i) && p@ == token@.skip(i + 1),
            None => r matches TemplateToken::Variable { name, precision: None } && name@ == token@,
        },
{
    proof {
        reveal_strlit("Date");
        reveal_strlit("Time");
        reveal_strlit("DateTime");
        assert("Date"@[0] != "Time"@[0]);
        assert("Date"@.len() != "DateTime"@.len());
        assert("Time"@[0] != "DateTime"@[0]);
    }
    if str_eq(token, "Date") {
        return TemplateToken::Date;
    }
    if str_eq(token, "Time") {
        return TemplateToken::Time;
    }
    if str_eq(token, "DateTime") {
        return TemplateToken::DateTime;
    }
    let c = chars_of(token);
    let mut i: usize = 0;
    while i < c.len() && c[i] != ':'
        invariant
            i <= c@.len(),
            c@ == token@,
            forall|j: int| 0 <= j < i ==> c@[j] != ':',
        decreases c.len() - i,
    {
        i = i + 1;
    }
    if i == c.len() {
        assert(first_colon(token@) is None) by {
            if exists|m: int| 0 <= m < token@.len() && token@[m] == ':' && forall|j: int| 0 <= j < m ==> token@[j] != ':' {
                let m = choose|m: int| 0 <= m < token@.len() && token@[m] == ':' && forall|j: int| 0 <= j < m ==> token@[j] != ':';
                assert(c@[m] != ':');
            }
        }
        let mut name = String::new();
        push_str(&mut name, token);
        return TemplateToken::Variable { name, precision: None };
    }
    proof {
        let m = choose|m: int| 0 <= m < token@.len() && token@[m] == ':' && forall|j: int| 0 <= j < m ==> token@[j] != ':';
        assert(0 <= i < token@.len() && token@[i as int] == ':' && forall|j: int| 0 <= j < i ==> token@[j] != ':');
        if m < i {
            assert(c@[m] != ':');
        } else if i < m {
            assert(token@[i as int] != ':');
        }
        assert(first_colon(token@) == Some(i as int));
    }
    let name = string_from_chars(vstd::slice::slice_subrange(c.as_slice(), 0, i));
    let precision = string_from_chars(vstd::slice::slice_subrange(c.as_slice(), i + 1, c.len()));
    assert(name@ =~= token@.take(i as int));
    assert(precision@ =~= token@.skip(i as int + 1));
    TemplateToken::Variable { name, precision: Some(precision) }
}

/// The error for a token naming no known variable.
pub fn unknown_variable_text(name: &str) -> (r: String)
    ensures
        r@ == "Unknown variable: "@ + name@,
{
    let mut s = String::new();
    push_str(&mut s, "Unknown variable: ");
    push_str(&mut s, name);
    s
}

/// The digits a variable shows without a precision.
pub const DEFAULT_PRECISION: usize = 6;

} // verus!
