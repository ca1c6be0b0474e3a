//! The variable tree: dotted names and `[n]` array indexes group
//! variables under their common prefixes, and every level is kept in
//! natural order.

use vstd::prelude::*;
use vstd::multiset::*;
use vstd::string::*;
use std::cmp::Ordering;
use crate::natural::{
    bracket_free, law_natural_order_antisymmetric, law_natural_order_transitive, natural_descriptor_cmp, natural_order,
    sign_of,
};
use crate::source::VarDescriptor;
use crate::text::{chars_of, push_char, str_eq, string_from_chars};

verus! {

broadcast use vstd::multiset::group_multiset_axioms;

/// A node of the variable tree: a variable (by its descriptor index) or a
/// group of members sharing a name prefix.
#[derive(Debug)]
pub enum DescriptorEntry {
    Var { label: String, full_name: String, index: usize },
    Group { label: String, full_name: String, members: Vec<DescriptorEntry> },
}

impl DescriptorEntry {
    /// The last part of the name, shown in the tree.
    pub open spec fn spec_label(self) -> Seq<char> {
        match self {
            DescriptorEntry::Var { label, .. } => label@,
            DescriptorEntry::Group { label, .. } => label@,
        }
    }

    /// The name up to and including this node.
    pub open spec fn spec_full_name(self) -> Seq<char> {
        match self {
            DescriptorEntry::Var { full_name, .. } => full_name@,
            DescriptorEntry::Group { full_name, .. } => full_name@,
        }
    }

    /// The label of this node.
    pub fn label(&self) -> (r: &str)
        ensures
            r@ == self.spec_label(),
    {
        match self {
            DescriptorEntry::Var { label, .. } => label.as_str(),
            DescriptorEntry::Group { label, .. } => label.as_str(),
        }
    }

    /// The full name of this node.
    pub fn full_name(&self) -> (r: &str)
        ensures
            r@ == self.spec_full_name(),
    {
        match self {
            DescriptorEntry::Var { full_name, .. } => full_name.as_str(),
            DescriptorEntry::Group { full_name, .. } => full_name.as_str(),
        }
    }
}

/// The full names of the variables under a node, in tree order.
pub open spec fn flat_names(e: DescriptorEntry) -> Seq<Seq<char>>
    decreases e,
{
    match e {
        DescriptorEntry::Var { full_name, .. } => seq![full_name@],
        DescriptorEntry::Group { members, .. } => flat_names_list(members@),
    }
}

/// The full names of the variables under a list of nodes, in order.
pub open spec fn flat_names_list(s: Seq<DescriptorEntry>) -> Seq<Seq<char>>
    decreases s,
{
    if s.len() == 0 {
        Seq::empty()
    } else {
        flat_names(s[0]) + flat_names_list(s.drop_first())
    }
}

/// The descriptor indexes of the variables under a node, in tree order.
pub open spec fn flat_indexes(e: DescriptorEntry) -> Seq<usize>
    decreases e,
{
    match e {
        DescriptorEntry::Var { index, .. } => seq![index],
        DescriptorEntry::Group { members, .. } => flat_indexes_list(members@),
    }
}

pub open spec fn flat_indexes_list(s: Seq<DescriptorEntry>) -> Seq<usize>
    decreases s,
{
    if s.len() == 0 {
        Seq::empty()
    } else {
        flat_indexes(s[0]) + flat_indexes_list(s.drop_first())
    }
}

proof fn lemma_flat_names_list_push(s: Seq<DescriptorEntry>, e: DescriptorEntry)
    ensures
        flat_names_list(s.push(e)) == flat_names_list(s) + flat_names(e),
    decreases s.len(),
{
    if s.len() == 0 {
        assert(s.push(e).drop_first() =~= Seq::<DescriptorEntry>::empty());
        assert(flat_names_list(s.push(e)) == flat_names(e) + flat_names_list(Seq::<DescriptorEntry>::empty()));
        assert(flat_names(e) + Seq::<Seq<char>>::empty() =~= flat_names(e));
    } else {
        assert(s.push(e).drop_first() =~= s.drop_first().push(e));
        lemma_flat_names_list_push(s.drop_first(), e);
        assert(flat_names_list(s.push(e)) == flat_names(s[0]) + flat_names_list(s.drop_first().push(e)));
        assert(flat_names(s[0]) + (flat_names_list(s.drop_first()) + flat_names(e))
            =~= (flat_names(s[0]) + flat_names_list(s.drop_first())) + flat_names(e));
    }
}

proof fn lemma_flat_indexes_list_push(s: Seq<DescriptorEntry>, e: DescriptorEntry)
    ensures
        flat_indexes_list(s.push(e)) == flat_indexes_list(s) + flat_indexes(e),
    decreases s.len(),
{
    if s.len() == 0 {
        assert(s.push(e).drop_first() =~= Seq::<DescriptorEntry>::empty());
        assert(flat_indexes_list(s.push(e)) == flat_indexes(e) + flat_indexes_list(Seq::<DescriptorEntry>::empty()));
        assert(flat_indexes(e) + Seq::<usize>::empty() =~= flat_indexes(e));
    } else {
        assert(s.push(e).drop_first() =~= s.drop_first().push(e));
        lemma_flat_indexes_list_push(s.drop_first(), e);
        assert(flat_indexes_list(s.push(e)) == flat_indexes(s[0]) + flat_indexes_list(s.drop_first().push(e)));
        assert(flat_indexes(s[0]) + (flat_indexes_list(s.drop_first()) + flat_indexes(e))
            =~= (flat_indexes(s[0]) + flat_indexes_list(s.drop_first())) + flat_indexes(e));
    }
}

impl DescriptorEntry {
    /// Appends the full names of the variables under this node, in tree order.
    #[verifier::loop_isolation(false)]
    pub fn flatten_names(&self, out: &mut Vec<String>)
        ensures
            final(out)@.map_values(|s: String| s@) == old(out)@.map_values(|s: String| s@) + flat_names(*self),
        decreases self,
    {
        match self {
            DescriptorEntry::Var { full_name, .. } => {
                out.push(full_name.clone());
                assert(final(out)@.map_values(|s: String| s@) =~= old(out)@.map_values(|s: String| s@) + seq![full_name@]);
            },
            DescriptorEntry::Group { members, .. } => {
                let mut i: usize = 0;
                while i < members.len()
                    invariant
                        i <= members@.len(),
                        out@.map_values(|s: String| s@) == old(out)@.map_values(|s: String| s@)
                            + flat_names_list(members@.take(i as int)),
                    decreases members.len() - i,
                {
                    let ghost before = out@.map_values(|s: String| s@);
                    proof {
                        assert(decreases_to!(*self => *members));
                        assert(decreases_to!(*members => members@));
                        assert(decreases_to!(members@ => members@[i as int]));
                    }
                    members[i].flatten_names(out);
                    proof {
                        assert(members@.take(i as int + 1) =~= members@.take(i as int).push(members@[i as int]));
                        lemma_flat_names_list_push(members@.take(i as int), members@[i as int]);
                    }
                    i = i + 1;
                }
                assert(members@.take(i as int) =~= members@);
            },
        }
    }

    /// Appends the descriptor indexes of the variables under this node, in tree order.
    #[verifier::loop_isolation(false)]
    pub fn leaf_indexes(&self, out: &mut Vec<usize>)
        ensures
            final(out)@ == old(out)@ + flat_indexes(*self),
        decreases self,
    {
        match self {
            DescriptorEntry::Var { index, .. } => {
                out.push(*index);
            },
            DescriptorEntry::Group { members, .. } => {
                let mut i: usize = 0;
                while i < members.len()
                    invariant
                        i <= members@.len(),
                        out@ == old(out)@ + flat_indexes_list(members@.take(i as int)),
                    decreases members.len() - i,
                {
                    proof {
                        assert(decreases_to!(*self => *members));
                        assert(decreases_to!(*members => members@));
                        assert(decreases_to!(members@ => members@[i as int]));
                    }
                    members[i].leaf_indexes(out);
                    proof {
                        assert(members@.take(i as int + 1) =~= members@.take(i as int).push(members@[i as int]));
                        lemma_flat_indexes_list_push(members@.take(i as int), members@[i as int]);
                    }
                    i = i + 1;
                }
                assert(members@.take(i as int) =~= members@);
            },
        }
    }
}

/// Where an `[...]` index label that continues at `i` ends: after its `]`,
/// or at the end of the name.
pub open spec fn index_label_end(s: Seq<char>, i: int) -> int
    decreases s.len() - i,
{
    if i < 0 || i >= s.len() {
        s.len() as int
    } else if s[i] == ']' {
        i + 1
    } else {
        index_label_end(s, i + 1)
    }
}

/// Where a plain label that continues at `i` ends: at the next `.` or `[`.
pub open spec fn plain_label_end(s: Seq<char>, i: int) -> int
    decreases s.len() - i,
{
    if i < 0 || i >= s.len() || s[i] == '.' || s[i] == '[' {
        i
    } else {
        plain_label_end(s, i + 1)
    }
}

/// Where the label that starts at `o` ends.
pub open spec fn label_end(s: Seq<char>, o: int) -> int {
    if s[o] == '[' { index_label_end(s, o + 1) } else { plain_label_end(s, o + 1) }
}

pub proof fn lemma_label_end(s: Seq<char>, o: int)
    requires
        0 <= o < s.len(),
    ensures
        o < label_end(s, o) <= s.len(),
{
    lemma_index_label_end(s, o + 1);
    lemma_plain_label_end(s, o + 1);
}

pub proof fn lemma_index_label_end(s: Seq<char>, i: int)
    requires
        0 <= i <= s.len(),
    ensures
        i <= index_label_end(s, i) <= s.len(),
    decreases s.len() - i,
{
    if i < s.len() && s[i] != ']' {
        lemma_index_label_end(s, i + 1);
    }
}

pub proof fn lemma_plain_label_end(s: Seq<char>, i: int)
    requires
        0 <= i <= s.len(),
    ensures
        i <= plain_label_end(s, i) <= s.len(),
    decreases s.len() - i,
{
    if i < s.len() && s[i] != '.' && s[i] != '[' {
        lemma_plain_label_end(s, i + 1);
    }
}

/// The parts of a name from `o` on, each a label and the full name up to
/// it: dots separate labels and are dropped, an `[...]` index is a label
/// of its own that joins its full name without a dot.
pub open spec fn path_from(s: Seq<char>, o: int, prefix: Seq<char>) -> Seq<(Seq<char>, Seq<char>)>
    decreases s.len() - o,
{
    if o < 0 || o >= s.len() {
        Seq::empty()
    } else if s[o] == '.' {
        path_from(s, o + 1, prefix)
    } else {
        proof { lemma_label_end(s, o); }
        let end = label_end(s, o);
        let label = s.subrange(o, end);
        let full = if prefix.len() > 0 && s[o] != '[' { prefix + seq!['.'] + label } else { prefix + label };
        seq![(label, full)] + path_from(s, end, full)
    }
}

/// The parts of a variable name.
pub open spec fn name_path(name: Seq<char>) -> Seq<(Seq<char>, Seq<char>)> {
    path_from(name, 0, Seq::empty())
}

/// One part of a name: its label and the full name up to it.
pub struct PathPart {
    pub label: String,
    pub full_name: String,
}

pub open spec fn part_views(parts: Seq<PathPart>) -> Seq<(Seq<char>, Seq<char>)> {
    parts.map_values(|p: PathPart| (p.label@, p.full_name@))
}

/// Splits a variable name into its parts.
pub fn descriptor_path(name: &str) -> (r: Vec<PathPart>)
    ensures
        part_views(r@) == name_path(name@),
{
    let chars = chars_of(name);
    let n = chars.len();
    let mut parts: Vec<PathPart> = Vec::new();
    let mut prefix = String::new();
    let mut offset: usize = 0;
    while offset < n
        invariant
            n == chars@.len(),
            chars@ == name@,
            offset <= n,
            part_views(parts@) + path_from(chars@, offset as int, prefix@) == name_path(name@),
        decreases n - offset,
    {
        if chars[offset] == '.' {
            offset = offset + 1;
            continue;
        }
        let ghost prefix_before = prefix@;
        let start = offset;
        let is_index = chars[offset] == '[';
        proof { lemma_label_end(chars@, start as int); }
        if is_index {
            offset = offset + 1;
            while offset < n && chars[offset] != ']'
                invariant
                    n == chars@.len(),
                    start < offset <= n,
                    index_label_end(chars@, start as int + 1) == index_label_end(chars@, offset as int),
                decreases n - offset,
            {
                offset = offset + 1;
            }
            if offset < n {
                offset = offset + 1;
            }
        } else {
            offset = offset + 1;
            while offset < n && chars[offset] != '.' && chars[offset] != '['
                invariant
                    n == chars@.len(),
                    start < offset <= n,
                    plain_label_end(chars@, start as int + 1) == plain_label_end(chars@, offset as int),
                decreases n - offset,
            {
                offset = offset + 1;
            }
        }
        assert(offset == label_end(chars@, start as int));
        let label = string_from_chars(vstd::slice::slice_subrange(chars.as_slice(), start, offset));
        let ghost old_prefix = prefix@;
        assert(old_prefix == prefix_before);
        if !prefix.as_str().is_empty() && !is_index {
            push_char(&mut prefix, '.');
        }
        let label_text = label.as_str();
        let mut joined = prefix;
        crate::text::push_str(&mut joined, label_text);
        prefix = joined;
        let ghost item = (label@, prefix@);
        assert(prefix@ == if old_prefix.len() > 0 && chars@[start as int] != '[' {
            old_prefix + seq!['.'] + label@
        } else {
            old_prefix + label@
        });
        let full_name = prefix.clone();
        let ghost before = parts@;
        assert(path_from(chars@, start as int, old_prefix) == seq![item] + path_from(chars@, offset as int, prefix@));
        parts.push(PathPart { label, full_name });
        assert(part_views(parts@) =~= part_views(before).push(item));
        assert(part_views(before).push(item) + path_from(chars@, offset as int, prefix@)
            =~= part_views(before) + (seq![item] + path_from(chars@, offset as int, prefix@)));
    }
    parts
}

/// The full name of the last part above, or nothing at the root.
pub open spec fn prev_full(above: Seq<(Seq<char>, Seq<char>)>) -> Seq<char> {
    if above.len() == 0 { Seq::empty() } else { above.last().1 }
}

/// The full name of a part labelled `label` below `prefix`: joined with a
/// dot, except at the root and for an `[...]` index.
pub open spec fn joined_name(prefix: Seq<char>, label: Seq<char>) -> Seq<char> {
    if prefix.len() > 0 && label[0] != '[' { prefix + seq!['.'] + label } else { prefix + label }
}

/// The parts under which a variable named `name` sits in the tree: those of
/// its name, or the name itself when it has none.
pub open spec fn leaf_path(name: Seq<char>) -> Seq<(Seq<char>, Seq<char>)> {
    if name_path(name).len() == 0 { seq![(name, name)] } else { name_path(name) }
}

/// Whether a node sits where its names say, below the parts `above` (each
/// a label and a full name): a variable of descriptor `index` is reached
/// through the parts of that descriptor's name, ending in its own label
/// and full name; a group has a nonempty label, a full name that joins its
/// label to the full name above, members, and its members placed below it.
pub open spec fn placed(e: DescriptorEntry, above: Seq<(Seq<char>, Seq<char>)>, ds: Seq<VarDescriptor>) -> bool
    decreases e,
{
    match e {
        DescriptorEntry::Var { label, full_name, index } =>
            (index as int) < ds.len() && above.push((label@, full_name@)) == leaf_path(ds[index as int].name@),
        DescriptorEntry::Group { label, full_name, members } => {
            &&& label@.len() > 0
            &&& full_name@ == joined_name(prev_full(above), label@)
            &&& members@.len() > 0
            &&& groups_distinct(members@)
            &&& placed_list(members@, above.push((label@, full_name@)), ds)
        },
    }
}

/// No two groups of a list have the same full name: the variables sharing
/// a prefix are gathered in one group.
pub open spec fn groups_distinct(s: Seq<DescriptorEntry>) -> bool {
    forall|i: int, j: int| 0 <= i < j < s.len() && (#[trigger] s[i]) is Group && (#[trigger] s[j]) is Group
        ==> s[i].spec_full_name() != s[j].spec_full_name()
}

/// Whether a list holds a group with full name `full`.
pub open spec fn has_group_named(s: Seq<DescriptorEntry>, full: Seq<char>) -> bool {
    exists|i: int| 0 <= i < s.len() && (#[trigger] s[i]) is Group && s[i].spec_full_name() == full
}

proof fn lemma_distinct_insert(s: Seq<DescriptorEntry>, i: int, e: DescriptorEntry)
    requires
        0 <= i <= s.len(),
        groups_distinct(s),
        e is Group ==> !has_group_named(s, e.spec_full_name()),
    ensures
        groups_distinct(s.insert(i, e)),
{
    let t = s.insert(i, e);
    assert forall|a: int, b: int| 0 <= a < b < t.len() && (#[trigger] t[a]) is Group && (#[trigger] t[b]) is Group
        implies t[a].spec_full_name() != t[b].spec_full_name() by {
        let sa = if a < i { a } else { a - 1 };
        let sb = if b < i { b } else { b - 1 };
        if a == i {
            assert(t[b] == s[sb]);
        } else if b == i {
            assert(t[a] == s[sa]);
        } else {
            assert(t[a] == s[sa] && t[b] == s[sb]);
            assert(sa < sb);
        }
    }
}

proof fn lemma_distinct_remove(s: Seq<DescriptorEntry>, i: int)
    requires
        0 <= i < s.len(),
        groups_distinct(s),
    ensures
        groups_distinct(s.remove(i)),
        s[i] is Group ==> !has_group_named(s.remove(i), s[i].spec_full_name()),
{
    let t = s.remove(i);
    assert forall|a: int, b: int| 0 <= a < b < t.len() && (#[trigger] t[a]) is Group && (#[trigger] t[b]) is Group
        implies t[a].spec_full_name() != t[b].spec_full_name() by {
        let sa = if a < i { a } else { a + 1 };
        let sb = if b < i { b } else { b + 1 };
        assert(t[a] == s[sa] && t[b] == s[sb]);
    }
    if s[i] is Group && has_group_named(t, s[i].spec_full_name()) {
        let a = choose|a: int| 0 <= a < t.len() && (#[trigger] t[a]) is Group && t[a].spec_full_name() == s[i].spec_full_name();
        let sa = if a < i { a } else { a + 1 };
        assert(t[a] == s[sa]);
        if sa < i {
            assert(s[sa] is Group && s[i] is Group);
        } else {
            assert(s[i] is Group && s[sa] is Group);
        }
    }
}

/// Every node of the list is placed below `above`.
pub open spec fn placed_list(s: Seq<DescriptorEntry>, above: Seq<(Seq<char>, Seq<char>)>, ds: Seq<VarDescriptor>) -> bool
    decreases s,
{
    s.len() == 0 || (placed(s[0], above, ds) && placed_list(s.drop_first(), above, ds))
}

proof fn lemma_placed_list_index(s: Seq<DescriptorEntry>, above: Seq<(Seq<char>, Seq<char>)>, ds: Seq<VarDescriptor>)
    ensures
        placed_list(s, above, ds) <==> forall|i: int| 0 <= i < s.len() ==> #[trigger] placed(s[i], above, ds),
    decreases s.len(),
{
    if s.len() > 0 {
        lemma_placed_list_index(s.drop_first(), above, ds);
        if forall|i: int| 0 <= i < s.len() ==> #[trigger] placed(s[i], above, ds) {
            assert forall|i: int| 0 <= i < s.drop_first().len() implies #[trigger] placed(s.drop_first()[i], above, ds) by {
                assert(s.drop_first()[i] == s[i + 1]);
                assert(placed(s[i + 1], above, ds));
            }
            assert(placed(s[0], above, ds));
            assert(placed_list(s, above, ds));
        }
        if placed_list(s, above, ds) {
            assert forall|i: int| 0 <= i < s.len() implies #[trigger] placed(s[i], above, ds) by {
                if i > 0 {
                    assert(s[i] == s.drop_first()[i - 1]);
                }
            }
        }
    }
}

proof fn lemma_placed_insert(s: Seq<DescriptorEntry>, i: int, e: DescriptorEntry, above: Seq<(Seq<char>, Seq<char>)>,
    ds: Seq<VarDescriptor>)
    requires
        0 <= i <= s.len(),
        placed_list(s, above, ds),
        placed(e, above, ds),
    ensures
        placed_list(s.insert(i, e), above, ds),
{
    lemma_placed_list_index(s, above, ds);
    lemma_placed_list_index(s.insert(i, e), above, ds);
    assert forall|k: int| 0 <= k < s.insert(i, e).len() implies #[trigger] placed(s.insert(i, e)[k], above, ds) by {
        if k < i {
            assert(s.insert(i, e)[k] == s[k]);
        } else if k > i {
            assert(s.insert(i, e)[k] == s[k - 1]);
        }
    }
}

proof fn lemma_placed_remove(s: Seq<DescriptorEntry>, i: int, above: Seq<(Seq<char>, Seq<char>)>, ds: Seq<VarDescriptor>)
    requires
        0 <= i < s.len(),
        placed_list(s, above, ds),
    ensures
        placed_list(s.remove(i), above, ds),
        placed(s[i], above, ds),
{
    lemma_placed_list_index(s, above, ds);
    lemma_placed_list_index(s.remove(i), above, ds);
    assert forall|k: int| 0 <= k < s.remove(i).len() implies #[trigger] placed(s.remove(i)[k], above, ds) by {
        if k < i {
            assert(s.remove(i)[k] == s[k]);
        } else {
            assert(s.remove(i)[k] == s[k + 1]);
        }
    }
}

/// Two labels joined to the same prefix give the same full name only when
/// they are the same label.
proof fn lemma_joined_injective(prefix: Seq<char>, a: Seq<char>, b: Seq<char>)
    requires
        a.len() > 0,
        b.len() > 0,
        joined_name(prefix, a) == joined_name(prefix, b),
    ensures
        a == b,
{
    let n = prefix.len() as int;
    let ja = joined_name(prefix, a);
    if n > 0 && a[0] != '[' && b[0] == '[' {
        assert(ja[n] == '.');
        assert(joined_name(prefix, b)[n] == b[0]);
    } else if n > 0 && a[0] == '[' && b[0] != '[' {
        assert(ja[n] == a[0]);
        assert(joined_name(prefix, b)[n] == '.');
    } else if n > 0 && a[0] != '[' {
        assert(a =~= ja.skip(n + 1));
        assert(b =~= joined_name(prefix, b).skip(n + 1));
    } else {
        assert(a =~= ja.skip(n));
        assert(b =~= joined_name(prefix, b).skip(n));
    }
}

/// Every part of a name has a nonempty label and a full name that joins
/// the label to the full name of the part before (or to the prefix).
proof fn lemma_path_joined(s: Seq<char>, o: int, prefix: Seq<char>)
    ensures
        forall|j: int| 0 <= j < path_from(s, o, prefix).len() ==> {
            &&& (#[trigger] path_from(s, o, prefix)[j]).0.len() > 0
            &&& path_from(s, o, prefix)[j].1 == joined_name(if j == 0 { prefix } else { path_from(s, o, prefix)[j - 1].1 },
                path_from(s, o, prefix)[j].0)
        },
    decreases s.len() - o,
{
    if o < 0 || o >= s.len() {
    } else if s[o] == '.' {
        lemma_path_joined(s, o + 1, prefix);
        assert(path_from(s, o, prefix) == path_from(s, o + 1, prefix));
    } else {
        lemma_label_end(s, o);
        let end = label_end(s, o);
        let label = s.subrange(o, end);
        let full = if prefix.len() > 0 && s[o] != '[' { prefix + seq!['.'] + label } else { prefix + label };
        lemma_path_joined(s, end, full);
        let rest = path_from(s, end, full);
        let p = path_from(s, o, prefix);
        assert(p == seq![(label, full)] + rest);
        assert(label[0] == s[o]);
        assert forall|j: int| 0 <= j < p.len() implies {
            &&& (#[trigger] p[j]).0.len() > 0
            &&& p[j].1 == joined_name(if j == 0 { prefix } else { p[j - 1].1 }, p[j].0)
        } by {
            if j == 0 {
                assert(p[0] == (label, full));
                assert(label.len() > 0);
            } else {
                assert(p[j] == rest[j - 1]);
                assert(rest[j - 1].0.len() > 0);
                if j == 1 {
                    assert(p[0] == (label, full));
                    assert(rest[0].1 == joined_name(full, rest[0].0));
                } else {
                    assert(p[j - 1] == rest[j - 2]);
                    assert(rest[j - 1].1 == joined_name(rest[j - 2].1, rest[j - 1].0));
                }
            }
        }
    }
}

/// The variables under a node, each by its descriptor index and full name.
pub open spec fn leaves(e: DescriptorEntry) -> Multiset<(usize, Seq<char>)>
    decreases e,
{
    match e {
        DescriptorEntry::Var { full_name, index, .. } => Multiset::singleton((index, full_name@)),
        DescriptorEntry::Group { members, .. } => leaves_list(members@),
    }
}

/// The variables under a list of nodes.
pub open spec fn leaves_list(s: Seq<DescriptorEntry>) -> Multiset<(usize, Seq<char>)>
    decreases s,
{
    if s.len() == 0 {
        Multiset::empty()
    } else {
        leaves(s[0]).add(leaves_list(s.drop_first()))
    }
}

proof fn lemma_leaves_insert(s: Seq<DescriptorEntry>, i: int, e: DescriptorEntry)
    requires
        0 <= i <= s.len(),
    ensures
        leaves_list(s.insert(i, e)) == leaves_list(s).add(leaves(e)),
    decreases s.len(),
{
    if i == 0 {
        assert(s.insert(0, e).drop_first() =~= s);
        assert(leaves_list(s.insert(i, e)) =~= leaves_list(s).add(leaves(e)));
    } else {
        assert(s.insert(i, e).drop_first() =~= s.drop_first().insert(i - 1, e));
        assert(s.insert(i, e)[0] == s[0]);
        lemma_leaves_insert(s.drop_first(), i - 1, e);
        assert(leaves_list(s.insert(i, e)) =~= leaves_list(s).add(leaves(e)));
    }
}

proof fn lemma_leaves_remove(s: Seq<DescriptorEntry>, i: int)
    requires
        0 <= i < s.len(),
    ensures
        leaves_list(s) == leaves_list(s.remove(i)).add(leaves(s[i])),
{
    assert(s.remove(i).insert(i, s[i]) =~= s);
    lemma_leaves_insert(s.remove(i), i, s[i]);
}

/// Whether an entry is the group with `full_name`.
pub open spec fn is_group_named(e: DescriptorEntry, full_name: Seq<char>) -> bool {
    e matches DescriptorEntry::Group { full_name: f, .. } && f@ == full_name
}

/// The position of the group with `full_name`, if there is one.
fn find_group(entries: &Vec<DescriptorEntry>, full_name: &str) -> (r: Option<usize>)
    ensures
        match r {
            Some(i) => i < entries@.len() && is_group_named(entries@[i as int], full_name@),
            None => forall|k: int| 0 <= k < entries@.len() ==> !is_group_named(#[trigger] entries@[k], full_name@),
        },
{
    let mut i: usize = 0;
    while i < entries.len()
        invariant
            i <= entries@.len(),
            forall|k: int| 0 <= k < i ==> !is_group_named(#[trigger] entries@[k], full_name@),
        decreases entries.len() - i,
    {
        match &entries[i] {
            DescriptorEntry::Group { full_name: f, .. } => {
                if str_eq(f.as_str(), full_name) {
                    return Some(i);
                }
            },
            DescriptorEntry::Var { .. } => {},
        }
        i = i + 1;
    }
    None
}

/// Every part has a nonempty label and a full name that joins the label to
/// the full name of the part before it.
pub open spec fn parts_joined(p: Seq<(Seq<char>, Seq<char>)>) -> bool {
    forall|j: int| 0 <= j < p.len() ==> {
        &&& (#[trigger] p[j]).0.len() > 0
        &&& p[j].1 == joined_name(if j == 0 { Seq::<char>::empty() } else { p[j - 1].1 }, p[j].0)
    }
}

/// Adds the variable `index` with parts `parts[k..]` below `entries`: the
/// last part becomes a variable, each earlier part the group of that name
/// (reused when present, else appended).
#[verifier::rlimit(60)]
fn insert_parts(entries: &mut Vec<DescriptorEntry>, parts: &Vec<PathPart>, k: usize, index: usize,
    Ghost(ds): Ghost<Seq<VarDescriptor>>)
    requires
        groups_distinct(old(entries)@),
        k < parts@.len(),
        (index as int) < ds.len(),
        part_views(parts@) == leaf_path(ds[index as int].name@),
        parts_joined(part_views(parts@)),
        placed_list(old(entries)@, part_views(parts@).take(k as int), ds),
    ensures
        leaves_list(final(entries)@) == leaves_list(old(entries)@).insert((index, parts@.last().full_name@)),
        placed_list(final(entries)@, part_views(parts@).take(k as int), ds),
        groups_distinct(final(entries)@),
        final(entries)@.len() > 0,
    decreases parts@.len() - k,
{
    let ghost pv = part_views(parts@);
    let ghost above = pv.take(k as int);
    let label = parts[k].label.clone();
    let full_name = parts[k].full_name.clone();
    proof {
        assert(pv[k as int] == (parts@[k as int].label@, parts@[k as int].full_name@));
        assert(above.push(pv[k as int]) =~= pv.take(k as int + 1));
        assert(pv[k as int].0.len() > 0);
        if k > 0 {
            assert(prev_full(above) == pv[k - 1].1);
        } else {
            assert(prev_full(above) == Seq::<char>::empty());
        }
        assert(pv[k as int].1 == joined_name(prev_full(above), pv[k as int].0));
    }
    if k == parts.len() - 1 {
        let ghost before = entries@;
        let var = DescriptorEntry::Var { label, full_name, index };
        proof {
            assert(pv.take(k as int + 1) =~= pv);
            assert(placed(var, above, ds));
            lemma_placed_insert(before, before.len() as int, var, above, ds);
            lemma_distinct_insert(before, before.len() as int, var);
        }
        entries.push(var);
        proof {
            assert(entries@ == before.insert(before.len() as int, entries@.last()));
            lemma_leaves_insert(before, before.len() as int, entries@.last());
        }
        return;
    }
    match find_group(entries, full_name.as_str()) {
        None => {
            let ghost before = entries@;
            let mut members: Vec<DescriptorEntry> = Vec::new();
            assert(leaves_list(members@) =~= Multiset::empty());
            assert(groups_distinct(members@));
            insert_parts(&mut members, parts, k + 1, index, Ghost(ds));
            let group = DescriptorEntry::Group { label, full_name, members };
            proof {
                assert(leaves(group) == Multiset::<(usize, Seq<char>)>::empty().insert((index, parts@.last().full_name@)));
                assert(placed(group, above, ds));
                lemma_placed_insert(before, before.len() as int, group, above, ds);
                assert(!has_group_named(before, group.spec_full_name())) by {
                    if has_group_named(before, group.spec_full_name()) {
                        let a = choose|a: int| 0 <= a < before.len() && (#[trigger] before[a]) is Group
                            && before[a].spec_full_name() == group.spec_full_name();
                        assert(!is_group_named(before[a], full_name@));
                    }
                }
                lemma_distinct_insert(before, before.len() as int, group);
            }
            entries.push(group);
            proof {
                assert(entries@ == before.insert(before.len() as int, entries@.last()));
                lemma_leaves_insert(before, before.len() as int, entries@.last());
                assert(leaves_list(entries@) =~= leaves_list(before).insert((index, parts@.last().full_name@)));
            }
        },
        Some(gi) => {
            let ghost with_group = entries@;
            proof {
                lemma_leaves_remove(with_group, gi as int);
                lemma_placed_remove(with_group, gi as int, above, ds);
                lemma_distinct_remove(with_group, gi as int);
            }
            let group = entries.remove(gi);
            let ghost rest = entries@;
            let updated = match group {
                DescriptorEntry::Group { label: glabel, full_name: gfull, members } => {
                    proof {
                        lemma_joined_injective(prev_full(above), glabel@, pv[k as int].0);
                        assert(above.push((glabel@, gfull@)) == pv.take(k as int + 1));
                    }
                    let mut members = members;
                    insert_parts(&mut members, parts, k + 1, index, Ghost(ds));
                    DescriptorEntry::Group { label: glabel, full_name: gfull, members }
                },
                DescriptorEntry::Var { label, full_name, index } => {
                    assert(false);
                    DescriptorEntry::Var { label, full_name, index }
                },
            };
            proof {
                lemma_leaves_insert(rest, gi as int, updated);
                assert(leaves(updated) =~= leaves(with_group[gi as int]).insert((index, parts@.last().full_name@)));
                assert(leaves_list(rest.insert(gi as int, updated)) =~=
                    leaves_list(with_group).insert((index, parts@.last().full_name@)));
                assert(placed(updated, above, ds));
                lemma_placed_insert(rest, gi as int, updated, above, ds);
                assert(updated.spec_full_name() == with_group[gi as int].spec_full_name());
                lemma_distinct_insert(rest, gi as int, updated);
            }
            entries.insert(gi, updated);
        },
    }
}

/// The full name a variable gets in the tree: that of its last part, or
/// the name itself when it has no parts.
pub open spec fn leaf_full_name(name: Seq<char>) -> Seq<char> {
    if name_path(name).len() == 0 { name } else { name_path(name).last().1 }
}

/// Adds the variable `index` named `name` to the tree, placed under the
/// parts of its name, when `ds` names it so.
pub fn insert_descriptor(entries: &mut Vec<DescriptorEntry>, name: &str, index: usize, Ghost(ds): Ghost<Seq<VarDescriptor>>)
    requires
        (index as int) < ds.len(),
        ds[index as int].name@ == name@,
        placed_list(old(entries)@, Seq::empty(), ds),
        groups_distinct(old(entries)@),
    ensures
        leaves_list(final(entries)@) == leaves_list(old(entries)@).insert((index, leaf_full_name(name@))),
        placed_list(final(entries)@, Seq::empty(), ds),
        groups_distinct(final(entries)@),
{
    let parts = descriptor_path(name);
    if parts.len() == 0 {
        let ghost before = entries@;
        let var = DescriptorEntry::Var { label: name.to_owned(), full_name: name.to_owned(), index };
        proof {
            assert(Seq::<(Seq<char>, Seq<char>)>::empty().push((name@, name@)) =~= leaf_path(name@));
            assert(placed(var, Seq::empty(), ds));
            lemma_placed_insert(before, before.len() as int, var, Seq::empty(), ds);
            lemma_distinct_insert(before, before.len() as int, var);
        }
        entries.push(var);
        proof {
            assert(entries@ == before.insert(before.len() as int, entries@.last()));
            lemma_leaves_insert(before, before.len() as int, entries@.last());
        }
        return;
    }
    proof {
        lemma_path_joined(name@, 0, Seq::empty());
        assert(part_views(parts@).take(0) =~= Seq::<(Seq<char>, Seq<char>)>::empty());
        assert(part_views(parts@).len() == parts@.len());
    }
    insert_parts(entries, &parts, 0, index, Ghost(ds));
    assert(part_views(parts@)[parts@.len() - 1] == (parts@.last().label@, parts@.last().full_name@));
}

/// The octets of an entry's label and full name.
pub open spec fn label_bytes(e: DescriptorEntry) -> Seq<u8> {
    vstd::utf8::encode_utf8(e.spec_label())
}

pub open spec fn full_bytes(e: DescriptorEntry) -> Seq<u8> {
    vstd::utf8::encode_utf8(e.spec_full_name())
}

/// Entries are ordered naturally by label, then by full name.
pub open spec fn entry_order(a: DescriptorEntry, b: DescriptorEntry) -> int {
    let c = natural_order(label_bytes(a), label_bytes(b));
    if c != 0 { c } else { natural_order(full_bytes(a), full_bytes(b)) }
}

/// No entry of the list is greater than the entry after it.
pub open spec fn in_order(s: Seq<DescriptorEntry>) -> bool {
    forall|i: int| 0 < i < s.len() ==> entry_order(s[i - 1], #[trigger] s[i]) != 1
}

/// Every group under a node lists its members in order.
pub open spec fn tree_sorted(e: DescriptorEntry) -> bool
    decreases e,
{
    match e {
        DescriptorEntry::Var { .. } => true,
        DescriptorEntry::Group { members, .. } => in_order(members@) && subtrees_sorted(members@),
    }
}

/// Every node of the list is sorted below.
pub open spec fn subtrees_sorted(s: Seq<DescriptorEntry>) -> bool
    decreases s,
{
    s.len() == 0 || (tree_sorted(s[0]) && subtrees_sorted(s.drop_first()))
}

/// A list in order whose nodes are all sorted below.
pub open spec fn tree_sorted_list(s: Seq<DescriptorEntry>) -> bool {
    in_order(s) && subtrees_sorted(s)
}

proof fn lemma_subtrees_sorted_insert(s: Seq<DescriptorEntry>, i: int, e: DescriptorEntry)
    requires
        0 <= i <= s.len(),
        subtrees_sorted(s),
        tree_sorted(e),
    ensures
        subtrees_sorted(s.insert(i, e)),
    decreases s.len(),
{
    if i == 0 {
        assert(s.insert(0, e).drop_first() =~= s);
    } else {
        assert(s.insert(i, e).drop_first() =~= s.drop_first().insert(i - 1, e));
        assert(s.insert(i, e)[0] == s[0]);
        lemma_subtrees_sorted_insert(s.drop_first(), i - 1, e);
    }
}

proof fn lemma_entry_order_antisymmetric(a: DescriptorEntry, b: DescriptorEntry)
    ensures
        entry_order(a, b) == -entry_order(b, a),
{
    law_natural_order_antisymmetric(label_bytes(a), label_bytes(b));
    law_natural_order_antisymmetric(full_bytes(a), full_bytes(b));
}

/// An entry whose label and full name hold no `[`.
pub open spec fn plain_entry(e: DescriptorEntry) -> bool {
    bracket_free(label_bytes(e)) && bracket_free(full_bytes(e))
}

proof fn lemma_entry_order_transitive(a: DescriptorEntry, b: DescriptorEntry, c: DescriptorEntry)
    requires
        plain_entry(a),
        plain_entry(b),
        plain_entry(c),
        entry_order(a, b) <= 0,
        entry_order(b, c) <= 0,
    ensures
        entry_order(a, c) <= 0,
{
    let (la, lb, lc) = (label_bytes(a), label_bytes(b), label_bytes(c));
    law_natural_order_antisymmetric(la, lb);
    law_natural_order_antisymmetric(lb, lc);
    law_natural_order_antisymmetric(la, lc);
    law_natural_order_transitive(la, lb, lc);
    if natural_order(la, lb) == 0 && natural_order(lb, lc) == 0 {
        law_natural_order_transitive(lc, lb, la);
        law_natural_order_transitive(full_bytes(a), full_bytes(b), full_bytes(c));
    }
}

/// Among entries whose labels and full names hold no `[`, a list in order
/// is sorted throughout: no entry sorts after any later one, not only
/// after the next.
pub proof fn law_in_order_sorted_throughout(s: Seq<DescriptorEntry>)
    requires
        in_order(s),
        forall|i: int| 0 <= i < s.len() ==> plain_entry(#[trigger] s[i]),
    ensures
        forall|i: int, j: int| 0 <= i < j < s.len() ==> entry_order(s[i], s[j]) <= 0,
{
    assert forall|i: int, j: int| 0 <= i < j < s.len() implies entry_order(s[i], s[j]) <= 0 by {
        lemma_in_order_from(s, i, j);
    }
}

proof fn lemma_in_order_from(s: Seq<DescriptorEntry>, i: int, j: int)
    requires
        in_order(s),
        forall|k: int| 0 <= k < s.len() ==> plain_entry(#[trigger] s[k]),
        0 <= i < j < s.len(),
    ensures
        entry_order(s[i], s[j]) <= 0,
    decreases j - i,
{
    assert(entry_order(s[j - 1], s[j]) != 1);
    law_natural_order_antisymmetric(label_bytes(s[j - 1]), label_bytes(s[j]));
    law_natural_order_antisymmetric(full_bytes(s[j - 1]), full_bytes(s[j]));
    if i < j - 1 {
        lemma_in_order_from(s, i, j - 1);
        assert(plain_entry(s[i]) && plain_entry(s[j - 1]) && plain_entry(s[j]));
        lemma_entry_order_transitive(s[i], s[j - 1], s[j]);
    }
}

/// Orders two entries naturally by label, then by full name.
pub fn compare_descriptor_entries(left: &DescriptorEntry, right: &DescriptorEntry) -> (r: Ordering)
    ensures
        sign_of(r) == entry_order(*left, *right),
{
    match natural_descriptor_cmp(left.label().as_bytes(), right.label().as_bytes()) {
        Ordering::Equal => natural_descriptor_cmp(left.full_name().as_bytes(), right.full_name().as_bytes()),
        c => c,
    }
}

fn precedes(left: &DescriptorEntry, right: &DescriptorEntry) -> (r: bool)
    ensures
        r == (entry_order(*left, *right) == -1),
{
    match compare_descriptor_entries(left, right) {
        Ordering::Less => true,
        _ => false,
    }
}

/// Sorts every level of a list of entries naturally, keeping entries that
/// compare equal in their order. The same variables stay in the tree.
#[verifier::loop_isolation(false)]
pub fn sorted_entries(entries: Vec<DescriptorEntry>) -> (r: Vec<DescriptorEntry>)
    ensures
        leaves_list(r@) == leaves_list(entries@),
        tree_sorted_list(r@),
        r@.len() == entries@.len(),
        forall|above: Seq<(Seq<char>, Seq<char>)>, ds: Seq<VarDescriptor>|
            #[trigger] placed_list(entries@, above, ds) ==> placed_list(r@, above, ds),
        groups_distinct(entries@) ==> groups_distinct(r@),
    decreases entries@,
{
    let ghost original = entries@;
    let mut rest = entries;
    let mut sorted: Vec<DescriptorEntry> = Vec::new();
    let ghost mut k: int = 0;
    assert(leaves_list(sorted@) =~= Multiset::empty());
    assert(leaves_list(sorted@).add(leaves_list(rest@)) =~= leaves_list(original));
    while rest.len() > 0
        invariant
            0 <= k <= original.len(),
            rest@ == original.subrange(k, original.len() as int),
            leaves_list(sorted@).add(leaves_list(rest@)) == leaves_list(original),
            in_order(sorted@),
            subtrees_sorted(sorted@),
            sorted@.len() == k,
            forall|a: Seq<(Seq<char>, Seq<char>)>, d: Seq<VarDescriptor>|
                #[trigger] placed_list(original, a, d) ==> placed_list(sorted@, a, d),
            forall|i: int| 0 <= i < sorted@.len() && (#[trigger] sorted@[i]) is Group ==>
                exists|m: int| 0 <= m < k && (#[trigger] original[m]) is Group
                    && original[m].spec_full_name() == sorted@[i].spec_full_name(),
            groups_distinct(original) ==> groups_distinct(sorted@),
        decreases rest.len(),
    {
        let ghost rest_before = rest@;
        let e = rest.remove(0);
        assert(e == original[k]);
        assert(rest@ =~= original.subrange(k + 1, original.len() as int));
        assert(rest_before.drop_first() =~= rest@);
        let e = match e {
            DescriptorEntry::Group { label, full_name, members } => {
                proof {
                    assert(decreases_to!(original => original[k]));
                    assert(decreases_to!(original[k] => members));
                    assert(decreases_to!(members => members@));
                    assert(decreases_to!(original => members@));
                }
                let members = sorted_entries(members);
                DescriptorEntry::Group { label, full_name, members }
            },
            other => other,
        };
        assert(leaves(e) == leaves(original[k]));
        assert(tree_sorted(e));
        assert forall|a: Seq<(Seq<char>, Seq<char>)>, d: Seq<VarDescriptor>|
            #[trigger] placed(original[k], a, d) implies placed(e, a, d) by {
            match original[k] {
                DescriptorEntry::Group { label, full_name, members } => {
                    assert(placed_list(members@, a.push((label@, full_name@)), d));
                    assert(groups_distinct(members@));
                },
                _ => {},
            }
        }
        assert((e is Group <==> original[k] is Group) && e.spec_full_name() == original[k].spec_full_name());
        let mut j = sorted.len();
        while j > 0 && precedes(&e, &sorted[j - 1])
            invariant
                j <= sorted@.len(),
                forall|m: int| j <= m < sorted@.len() ==> entry_order(e, #[trigger] sorted@[m]) == -1,
            decreases j,
        {
            j = j - 1;
        }
        let ghost prev = sorted@;
        assert(forall|m: int| j <= m < prev.len() ==> entry_order(e, #[trigger] prev[m]) == -1);
        assert(j == 0 || entry_order(e, prev[j - 1]) != -1);
        proof {
            lemma_leaves_insert(prev, j as int, e);
            lemma_subtrees_sorted_insert(prev, j as int, e);
            if j > 0 {
                lemma_entry_order_antisymmetric(prev[j - 1], e);
            }
        }
        sorted.insert(j, e);
        proof {
            assert(sorted@ == prev.insert(j as int, e));
            assert forall|a: Seq<(Seq<char>, Seq<char>)>, d: Seq<VarDescriptor>|
                #[trigger] placed_list(original, a, d) implies placed_list(sorted@, a, d) by {
                lemma_placed_list_index(original, a, d);
                assert(placed(original[k], a, d));
                lemma_placed_insert(prev, j as int, e, a, d);
            }
            if groups_distinct(original) {
                assert(!has_group_named(prev, e.spec_full_name()) || !(e is Group)) by {
                    if e is Group && has_group_named(prev, e.spec_full_name()) {
                        let i = choose|i: int| 0 <= i < prev.len() && (#[trigger] prev[i]) is Group
                            && prev[i].spec_full_name() == e.spec_full_name();
                        let m = choose|m: int| 0 <= m < k && (#[trigger] original[m]) is Group
                            && original[m].spec_full_name() == prev[i].spec_full_name();
                        assert(original[m] is Group && original[k] is Group);
                    }
                }
                lemma_distinct_insert(prev, j as int, e);
            }
            assert forall|i: int| 0 <= i < sorted@.len() && (#[trigger] sorted@[i]) is Group implies
                exists|m: int| 0 <= m < k + 1 && (#[trigger] original[m]) is Group
                    && original[m].spec_full_name() == sorted@[i].spec_full_name() by {
                if i < j {
                    assert(sorted@[i] == prev[i]);
                    let m = choose|m: int| 0 <= m < k && (#[trigger] original[m]) is Group
                        && original[m].spec_full_name() == prev[i].spec_full_name();
                    assert(original[m] is Group);
                } else if i == j {
                    assert(sorted@[i] == e);
                    assert(original[k] is Group);
                } else {
                    assert(sorted@[i] == prev[i - 1]);
                    let m = choose|m: int| 0 <= m < k && (#[trigger] original[m]) is Group
                        && original[m].spec_full_name() == prev[i - 1].spec_full_name();
                    assert(original[m] is Group);
                }
            }
            assert forall|i: int| 0 < i < sorted@.len() implies entry_order(sorted@[i - 1], #[trigger] sorted@[i]) != 1 by {
                if i < j {
                    assert(sorted@[i] == prev[i] && sorted@[i - 1] == prev[i - 1]);
                } else if i == j {
                    assert(sorted@[i] == e && sorted@[i - 1] == prev[i - 1]);
                } else if i == j + 1 {
                    assert(sorted@[i] == prev[j as int] && sorted@[i - 1] == e);
                } else {
                    assert(sorted@[i] == prev[i - 1] && sorted@[i - 1] == prev[i - 2]);
                }
            }
            assert(leaves_list(rest_before) == leaves(e).add(leaves_list(rest@)));
            assert(leaves_list(sorted@).add(leaves_list(rest@)) =~= leaves_list(original));
            k = k + 1;
        }
    }
    sorted
}

/// Sorts a list of entries in place (see `sorted_entries`).
pub fn sort_descriptor_entries(entries: &mut Vec<DescriptorEntry>)
    ensures
        leaves_list(final(entries)@) == leaves_list(old(entries)@),
        tree_sorted_list(final(entries)@),
        forall|above: Seq<(Seq<char>, Seq<char>)>, ds: Seq<VarDescriptor>|
            #[trigger] placed_list(old(entries)@, above, ds) ==> placed_list(final(entries)@, above, ds),
        groups_distinct(old(entries)@) ==> groups_distinct(final(entries)@),
{
    let mut taken: Vec<DescriptorEntry> = Vec::new();
    std::mem::swap(&mut taken, entries);
    *entries = sorted_entries(taken);
}

/// Which descriptors a tree shows.
#[derive(Debug, Clone, Copy, PartialEq, Eq, Structural)]
pub enum DescriptorScope {
    All,
    /// User variables (kind bit 2).
    User,
    /// System variables (the others).
    System,
}

/// Whether a descriptor belongs to a scope.
pub open spec fn in_scope(d: VarDescriptor, scope: DescriptorScope) -> bool {
    match scope {
        DescriptorScope::All => true,
        DescriptorScope::User => d.kind & crate::source::KIND_USER != 0,
        DescriptorScope::System => d.kind & crate::source::KIND_USER == 0,
    }
}

/// The variables of the first `n` descriptors that belong to the scope,
/// each by its index and the full name it gets in the tree.
pub open spec fn scoped_leaves(ds: Seq<VarDescriptor>, scope: DescriptorScope, n: int) -> Multiset<(usize, Seq<char>)>
    decreases n,
{
    if n <= 0 {
        Multiset::empty()
    } else if in_scope(ds[n - 1], scope) {
        scoped_leaves(ds, scope, n - 1).insert(((n - 1) as usize, leaf_full_name(ds[n - 1].name@)))
    } else {
        scoped_leaves(ds, scope, n - 1)
    }
}

/// Builds the naturally sorted tree of the descriptors in a scope: every
/// variable of the scope appears once, under the groups of its name's
/// prefixes.
pub fn build_descriptor_tree_filtered(descriptors: &[VarDescriptor], scope: DescriptorScope) -> (r: Vec<DescriptorEntry>)
    ensures
        leaves_list(r@) == scoped_leaves(descriptors@, scope, descriptors@.len() as int),
        tree_sorted_list(r@),
        placed_list(r@, Seq::empty(), descriptors@),
        groups_distinct(r@),
{
    let mut root: Vec<DescriptorEntry> = Vec::new();
    let mut index: usize = 0;
    assert(leaves_list(root@) =~= Multiset::empty());
    while index < descriptors.len()
        invariant
            index <= descriptors@.len(),
            leaves_list(root@) == scoped_leaves(descriptors@, scope, index as int),
            placed_list(root@, Seq::empty(), descriptors@),
            groups_distinct(root@),
        decreases descriptors.len() - index,
    {
        let descriptor = &descriptors[index];
        let wanted = match scope {
            DescriptorScope::All => true,
            DescriptorScope::User => descriptor.is_user(),
            DescriptorScope::System => !descriptor.is_user(),
        };
        if wanted {
            insert_descriptor(&mut root, descriptor.name.as_str(), index, Ghost(descriptors@));
        }
        index = index + 1;
    }
    let ghost unsorted = root@;
    sort_descriptor_entries(&mut root);
    assert(placed_list(unsorted, Seq::empty(), descriptors@));
    root
}

/// Builds the naturally sorted tree of all descriptors.
pub fn build_descriptor_tree(descriptors: &[VarDescriptor]) -> (r: Vec<DescriptorEntry>)
    ensures
        leaves_list(r@) == scoped_leaves(descriptors@, DescriptorScope::All, descriptors@.len() as int),
        tree_sorted_list(r@),
        placed_list(r@, Seq::empty(), descriptors@),
        groups_distinct(r@),
{
    build_descriptor_tree_filtered(descriptors, DescriptorScope::All)
}

/// A selected watch variable: its name, descriptor and pending write text.
#[derive(Debug, Clone)]
pub struct WatchEntry {
    pub var_name: String,
    pub descriptor_index: usize,
    pub write_buf: String,
    /// Whether the entry takes part in the next write.
    pub write_selected: bool,
}

} // verus!
