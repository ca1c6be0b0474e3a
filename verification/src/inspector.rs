//! The variable inspector's catalog: the descriptors of the connected
//! firmware with their user and system trees, the pinned and watched
//! variables (kept by name across catalog replacements), the raw value
//! bits last read, and the batches in which watched values are read.

use vstd::prelude::*;
use vstd::multiset::*;
use crate::acquisition::dc_voltage_read_indexes;
use crate::display::{dc_voltage_candidate_names, spec_dc_voltage_names};
use crate::source::{ParamWrite, ValueRead, VarDescriptor, CAL_READ_MAX, CAP_CAL, KIND_PARAMETER, KIND_USER};
use crate::state::hardware::HardwareState;
use crate::text::str_eq;
use crate::tree::{
    build_descriptor_tree_filtered, leaves_list, scoped_leaves, tree_sorted_list, DescriptorEntry, DescriptorScope,
    WatchEntry,
};

verus! {

broadcast use vstd::multiset::group_multiset_axioms, vstd::seq_lib::group_to_multiset_ensures;

/// `i` is the first descriptor named `name`.
pub open spec fn first_named(ds: Seq<VarDescriptor>, name: Seq<char>, i: int) -> bool {
    &&& 0 <= i < ds.len()
    &&& ds[i].name@ == name
    &&& forall|j: int| 0 <= j < i ==> (#[trigger] ds[j]).name@ != name
}

/// The index of the first descriptor named `name`, if any.
pub open spec fn index_named(ds: Seq<VarDescriptor>, name: Seq<char>) -> Option<int> {
    if exists|i: int| first_named(ds, name, i) {
        Some(choose|i: int| first_named(ds, name, i))
    } else {
        None
    }
}

/// The first descriptor of a name is the one `index_named` finds.
pub proof fn lemma_index_named(ds: Seq<VarDescriptor>, name: Seq<char>, i: int)
    requires
        first_named(ds, name, i),
    ensures
        index_named(ds, name) == Some(i),
{
    let c = choose|k: int| first_named(ds, name, k);
    assert(first_named(ds, name, c));
    if c < i {
        assert(ds[c].name@ != name);
    } else if i < c {
        assert(ds[i].name@ != name);
    }
}

/// The index of the first descriptor named `name`.
pub fn index_of_name(descriptors: &[VarDescriptor], name: &str) -> (r: Option<usize>)
    ensures
        r matches Some(k) ==> first_named(descriptors@, name@, k as int) && index_named(descriptors@, name@) == Some(k as int),
        r is None ==> index_named(descriptors@, name@) is None,
{
    let mut i: usize = 0;
    while i < descriptors.len()
        invariant
            i <= descriptors@.len(),
            forall|j: int| 0 <= j < i ==> (#[trigger] descriptors@[j]).name@ != name@,
        decreases descriptors.len() - i,
    {
        if str_eq(descriptors[i].name.as_str(), name) {
            proof {
                lemma_index_named(descriptors@, name@, i as int);
            }
            return Some(i);
        }
        i = i + 1;
    }
    proof {
        assert(!exists|k: int| first_named(descriptors@, name@, k)) by {
            if exists|k: int| first_named(descriptors@, name@, k) {
                let k = choose|k: int| first_named(descriptors@, name@, k);
                assert(descriptors@[k].name@ != name@);
            }
        }
    }
    None
}

/// What a watch entry holds: the name, the descriptor index, the pending
/// write text and whether it is selected for writing.
pub open spec fn watch_view(w: WatchEntry) -> (Seq<char>, usize, Seq<char>, bool) {
    (w.var_name@, w.descriptor_index, w.write_buf@, w.write_selected)
}

/// The pins kept across a catalog replacement: each pin that named a
/// descriptor of the old catalog moves to the first descriptor of that name
/// in the new one, and is dropped when there is none.
pub open spec fn kept_pins(old_ds: Seq<VarDescriptor>, new_ds: Seq<VarDescriptor>, pinned: Seq<usize>) -> Seq<usize>
    decreases pinned.len(),
{
    if pinned.len() == 0 {
        Seq::empty()
    } else {
        let prev = kept_pins(old_ds, new_ds, pinned.drop_last());
        let p = pinned.last() as int;
        if p < old_ds.len() && index_named(new_ds, old_ds[p].name@) is Some {
            prev.push(index_named(new_ds, old_ds[p].name@)->0 as usize)
        } else {
            prev
        }
    }
}

/// The watches kept across a catalog replacement: those whose name the new
/// catalog holds, pointing at its first descriptor of that name, with their
/// pending write text and selection.
pub open spec fn kept_watches(new_ds: Seq<VarDescriptor>, watches: Seq<WatchEntry>) -> Seq<(Seq<char>, usize, Seq<char>, bool)>
    decreases watches.len(),
{
    if watches.len() == 0 {
        Seq::empty()
    } else {
        let prev = kept_watches(new_ds, watches.drop_last());
        let w = watches.last();
        if index_named(new_ds, w.var_name@) is Some {
            prev.push((w.var_name@, index_named(new_ds, w.var_name@)->0 as usize, w.write_buf@, w.write_selected))
        } else {
            prev
        }
    }
}

/// After a catalog replacement every kept pin names a descriptor of the new
/// catalog.
pub proof fn law_kept_pins_are_valid(old_ds: Seq<VarDescriptor>, new_ds: Seq<VarDescriptor>, pinned: Seq<usize>)
    requires
        new_ds.len() <= usize::MAX,
    ensures
        forall|k: int| 0 <= k < kept_pins(old_ds, new_ds, pinned).len()
            ==> (#[trigger] kept_pins(old_ds, new_ds, pinned)[k] as int) < new_ds.len(),
    decreases pinned.len(),
{
    if pinned.len() > 0 {
        law_kept_pins_are_valid(old_ds, new_ds, pinned.drop_last());
        let prev = kept_pins(old_ds, new_ds, pinned.drop_last());
        let p = pinned.last() as int;
        if p < old_ds.len() && index_named(new_ds, old_ds[p].name@) is Some {
            let i = choose|i: int| first_named(new_ds, old_ds[p].name@, i);
            assert(first_named(new_ds, old_ds[p].name@, i));
            let cur = kept_pins(old_ds, new_ds, pinned);
            assert(cur == prev.push(i as usize));
            assert forall|k: int| 0 <= k < cur.len() implies (#[trigger] cur[k] as int) < new_ds.len() by {
                if k < prev.len() {
                    assert(cur[k] == prev[k]);
                }
            }
        }
    }
}

/// After a catalog replacement every kept watch names the first descriptor
/// of its own name.
pub proof fn law_kept_watches_are_valid(new_ds: Seq<VarDescriptor>, watches: Seq<WatchEntry>)
    requires
        new_ds.len() <= usize::MAX,
    ensures
        forall|k: int| 0 <= k < kept_watches(new_ds, watches).len()
            ==> first_named(new_ds, (#[trigger] kept_watches(new_ds, watches)[k]).0, kept_watches(new_ds, watches)[k].1 as int),
    decreases watches.len(),
{
    if watches.len() > 0 {
        law_kept_watches_are_valid(new_ds, watches.drop_last());
        let prev = kept_watches(new_ds, watches.drop_last());
        let w = watches.last();
        if index_named(new_ds, w.var_name@) is Some {
            let i = choose|i: int| first_named(new_ds, w.var_name@, i);
            assert(first_named(new_ds, w.var_name@, i));
            let cur = kept_watches(new_ds, watches);
            assert(cur == prev.push((w.var_name@, i as usize, w.write_buf@, w.write_selected)));
            assert forall|k: int| 0 <= k < cur.len() implies first_named(new_ds, (#[trigger] cur[k]).0, cur[k].1 as int) by {
                if k < prev.len() {
                    assert(cur[k] == prev[k]);
                    assert(first_named(new_ds, prev[k].0, prev[k].1 as int));
                } else {
                    assert(cur[k] == (w.var_name@, i as usize, w.write_buf@, w.write_selected));
                    assert(cur[k].1 as int == i);
                }
            }
        }
    }
}

/// The indexes a refresh reads: the pins, then each watched descriptor not
/// already among them.
pub open spec fn gathered(pinned: Seq<usize>, watches: Seq<WatchEntry>) -> Seq<usize>
    decreases watches.len(),
{
    if watches.len() == 0 {
        pinned
    } else {
        let prev = gathered(pinned, watches.drop_last());
        let d = watches.last().descriptor_index;
        if prev.contains(d) { prev } else { prev.push(d) }
    }
}

/// Ascending order.
pub open spec fn ascending(s: Seq<usize>) -> bool {
    forall|i: int, j: int| 0 <= i <= j < s.len() ==> s[i] <= s[j]
}

/// The reads for the given indexes that name a descriptor, in order.
pub open spec fn valid_reads(ds: Seq<VarDescriptor>, idx: Seq<usize>) -> Seq<ValueRead>
    decreases idx.len(),
{
    if idx.len() == 0 {
        Seq::empty()
    } else {
        let prev = valid_reads(ds, idx.drop_last());
        let d = idx.last();
        if (d as int) < ds.len() {
            prev.push(ValueRead { descriptor_index: d, var: ds[d as int].var })
        } else {
            prev
        }
    }
}

/// The read batches of a run of indexes: successive chunks of
/// `CAL_READ_MAX` indexes, each turned into its valid reads, the empty
/// ones left out.
pub open spec fn read_batches_of(ds: Seq<VarDescriptor>, idx: Seq<usize>) -> Seq<Seq<ValueRead>>
    decreases idx.len(),
{
    if idx.len() == 0 {
        Seq::empty()
    } else {
        let n = if idx.len() < CAL_READ_MAX { idx.len() as int } else { CAL_READ_MAX as int };
        let b = valid_reads(ds, idx.take(n));
        let rest = read_batches_of(ds, idx.skip(n));
        if b.len() > 0 { seq![b] + rest } else { rest }
    }
}

proof fn lemma_valid_reads_len(ds: Seq<VarDescriptor>, idx: Seq<usize>)
    ensures
        valid_reads(ds, idx).len() <= idx.len(),
    decreases idx.len(),
{
    if idx.len() > 0 {
        lemma_valid_reads_len(ds, idx.drop_last());
    }
}

proof fn lemma_valid_reads_concat(ds: Seq<VarDescriptor>, a: Seq<usize>, b: Seq<usize>)
    ensures
        valid_reads(ds, a + b) == valid_reads(ds, a) + valid_reads(ds, b),
    decreases b.len(),
{
    if b.len() == 0 {
        assert(a + b =~= a);
        assert(valid_reads(ds, a) + valid_reads(ds, b) =~= valid_reads(ds, a));
    } else {
        lemma_valid_reads_concat(ds, a, b.drop_last());
        assert((a + b).drop_last() =~= a + b.drop_last());
        assert((a + b).last() == b.last());
        let d = b.last();
        if (d as int) < ds.len() {
            assert(valid_reads(ds, a) + valid_reads(ds, b) =~= (valid_reads(ds, a) + valid_reads(ds, b.drop_last()))
                .push(ValueRead { descriptor_index: d, var: ds[d as int].var }));
        } else {
            assert(valid_reads(ds, a) + valid_reads(ds, b) =~= valid_reads(ds, a) + valid_reads(ds, b.drop_last()));
        }
    }
}

/// The read batches of a refresh read, one after another, are exactly the
/// reads of the watched indexes that name a descriptor, in order: no
/// watched value is skipped or read twice.
pub proof fn law_read_batches_cover_watched(ds: Seq<VarDescriptor>, idx: Seq<usize>)
    ensures
        read_batches_of(ds, idx).flatten() == valid_reads(ds, idx),
    decreases idx.len(),
{
    if idx.len() > 0 {
        let n = if idx.len() < CAL_READ_MAX { idx.len() as int } else { CAL_READ_MAX as int };
        let b = valid_reads(ds, idx.take(n));
        let rest = idx.skip(n);
        law_read_batches_cover_watched(ds, rest);
        assert(idx =~= idx.take(n) + rest);
        lemma_valid_reads_concat(ds, idx.take(n), rest);
        if b.len() > 0 {
            vstd::seq_lib::lemma_flatten_concat(seq![b], read_batches_of(ds, rest));
            seq![b].lemma_flatten_one_element();
        }
    } else {
        assert(read_batches_of(ds, idx).flatten() =~= Seq::<ValueRead>::empty());
    }
}

/// The reads of the named variables a catalog holds, in the order of the names.
pub open spec fn named_reads(ds: Seq<VarDescriptor>, names: Seq<Seq<char>>) -> Seq<ValueRead>
    decreases names.len(),
{
    if names.len() == 0 {
        Seq::empty()
    } else {
        let prev = named_reads(ds, names.drop_last());
        match index_named(ds, names.last()) {
            Some(i) => prev.push(ValueRead { descriptor_index: i as usize, var: ds[i].var }),
            None => prev,
        }
    }
}

/// The names of the system (non-user) descriptors, in catalog order.
pub open spec fn system_names(ds: Seq<VarDescriptor>) -> Seq<Seq<char>>
    decreases ds.len(),
{
    if ds.len() == 0 {
        Seq::empty()
    } else {
        let prev = system_names(ds.drop_last());
        if ds.last().kind & KIND_USER == 0 { prev.push(ds.last().name@) } else { prev }
    }
}

/// The raw values after a read: each (index, bits) pair, in order, sets
/// the value of a descriptor that exists.
pub open spec fn applied_values(vals: Seq<Option<u32>>, n: int, idx: Seq<usize>, bits: Seq<u32>, k: int) -> Seq<Option<u32>>
    decreases k,
{
    if k <= 0 {
        vals
    } else {
        let prev = applied_values(vals, n, idx, bits, k - 1);
        let i = idx[k - 1] as int;
        if i < n && i < prev.len() { prev.update(i, Some(bits[k - 1])) } else { prev }
    }
}

proof fn lemma_applied_len(vals: Seq<Option<u32>>, n: int, idx: Seq<usize>, bits: Seq<u32>, k: int)
    ensures
        applied_values(vals, n, idx, bits, k).len() == vals.len(),
    decreases k,
{
    if k > 0 {
        lemma_applied_len(vals, n, idx, bits, k - 1);
    }
}

/// The inspector's catalog state.
pub struct InspectorState {
    /// The tree of user variables.
    pub entries: Vec<DescriptorEntry>,
    /// The tree of system variables.
    pub system_entries: Vec<DescriptorEntry>,
    pub descriptors: Vec<VarDescriptor>,
    /// Pinned descriptor indexes.
    pub pinned: Vec<usize>,
    pub watch_vars: Vec<WatchEntry>,
    /// The raw bits last read for each descriptor.
    pub values: Vec<Option<u32>>,
}

impl InspectorState {
    /// An empty inspector.
    pub fn new() -> (r: Self)
        ensures
            r.entries@.len() == 0,
            r.system_entries@.len() == 0,
            r.descriptors@.len() == 0,
            r.pinned@.len() == 0,
            r.watch_vars@.len() == 0,
            r.values@.len() == 0,
    {
        InspectorState {
            entries: Vec::new(),
            system_entries: Vec::new(),
            descriptors: Vec::new(),
            pinned: Vec::new(),
            watch_vars: Vec::new(),
            values: Vec::new(),
        }
    }

    /// Replaces the catalog: both trees are rebuilt, every value is unknown,
    /// and pins and watches follow their variables by name into the new
    /// catalog (those whose name is gone are dropped).
    pub fn set_descriptors(&mut self, descriptors: Vec<VarDescriptor>)
        ensures
            final(self).descriptors@ == descriptors@,
            final(self).values@ == Seq::new(descriptors@.len(), |i: int| None::<u32>),
            leaves_list(final(self).entries@) == scoped_leaves(descriptors@, DescriptorScope::User, descriptors@.len() as int),
            leaves_list(final(self).system_entries@) == scoped_leaves(descriptors@, DescriptorScope::System, descriptors@.len() as int),
            tree_sorted_list(final(self).entries@),
            tree_sorted_list(final(self).system_entries@),
            final(self).pinned@ == kept_pins(old(self).descriptors@, descriptors@, old(self).pinned@),
            final(self).watch_vars@.map_values(|w: WatchEntry| watch_view(w)) == kept_watches(descriptors@, old(self).watch_vars@),
    {
        let mut pinned: Vec<usize> = Vec::new();
        let mut i: usize = 0;
        while i < self.pinned.len()
            invariant
                i <= self.pinned@.len(),
                pinned@ == kept_pins(self.descriptors@, descriptors@, self.pinned@.take(i as int)),
            decreases self.pinned.len() - i,
        {
            let p = self.pinned[i];
            proof {
                assert(self.pinned@.take(i as int + 1).drop_last() =~= self.pinned@.take(i as int));
            }
            if p < self.descriptors.len() {
                match index_of_name(descriptors.as_slice(), self.descriptors[p].name.as_str()) {
                    Some(k) => pinned.push(k),
                    None => {},
                }
            }
            i = i + 1;
        }
        assert(self.pinned@.take(self.pinned@.len() as int) =~= self.pinned@);
        let mut watches: Vec<WatchEntry> = Vec::new();
        let mut j: usize = 0;
        while j < self.watch_vars.len()
            invariant
                j <= self.watch_vars@.len(),
                watches@.map_values(|w: WatchEntry| watch_view(w)) == kept_watches(descriptors@, self.watch_vars@.take(j as int)),
            decreases self.watch_vars.len() - j,
        {
            let w = &self.watch_vars[j];
            proof {
                assert(self.watch_vars@.take(j as int + 1).drop_last() =~= self.watch_vars@.take(j as int));
            }
            let ghost before = watches@;
            match index_of_name(descriptors.as_slice(), w.var_name.as_str()) {
                Some(k) => {
                    watches.push(WatchEntry {
                        var_name: w.var_name.clone(),
                        descriptor_index: k,
                        write_buf: w.write_buf.clone(),
                        write_selected: w.write_selected,
                    });
                    assert(watches@.map_values(|w: WatchEntry| watch_view(w)) =~= before.map_values(|w: WatchEntry| watch_view(w)).push(
                        (w.var_name@, k, w.write_buf@, w.write_selected)));
                },
                None => {},
            }
            j = j + 1;
        }
        assert(self.watch_vars@.take(self.watch_vars@.len() as int) =~= self.watch_vars@);
        self.entries = build_descriptor_tree_filtered(descriptors.as_slice(), DescriptorScope::User);
        self.system_entries = build_descriptor_tree_filtered(descriptors.as_slice(), DescriptorScope::System);
        let mut values: Vec<Option<u32>> = Vec::new();
        let mut k: usize = 0;
        while k < descriptors.len()
            invariant
                k <= descriptors@.len(),
                values@ == Seq::new(k as nat, |i: int| None::<u32>),
            decreases descriptors.len() - k,
        {
            values.push(None);
            k = k + 1;
        }
        self.values = values;
        self.descriptors = descriptors;
        self.pinned = pinned;
        self.watch_vars = watches;
    }

    /// Forgets the catalog, the trees, the pins, the watches and the values.
    pub fn clear(&mut self)
        ensures
            final(self).entries@.len() == 0,
            final(self).system_entries@.len() == 0,
            final(self).descriptors@.len() == 0,
            final(self).pinned@.len() == 0,
            final(self).watch_vars@.len() == 0,
            final(self).values@.len() == 0,
    {
        self.entries.clear();
        self.system_entries.clear();
        self.descriptors.clear();
        self.pinned.clear();
        self.watch_vars.clear();
        self.values.clear();
    }

    /// The index of the first descriptor named `name`.
    pub fn index_by_name(&self, name: &str) -> (r: Option<usize>)
        ensures
            r matches Some(k) ==> first_named(self.descriptors@, name@, k as int) && index_named(self.descriptors@, name@) == Some(k as int),
            r is None ==> index_named(self.descriptors@, name@) is None,
    {
        index_of_name(self.descriptors.as_slice(), name)
    }

    /// The first descriptor named `name`.
    pub fn descriptor_by_name(&self, name: &str) -> (r: Option<&VarDescriptor>)
        ensures
            match index_named(self.descriptors@, name@) {
                Some(i) => r == Some(&self.descriptors@[i]),
                None => r is None,
            },
    {
        match index_of_name(self.descriptors.as_slice(), name) {
            Some(i) => Some(&self.descriptors[i]),
            None => None,
        }
    }

    /// Whether `index` names a system (non-user) descriptor.
    pub fn is_system_variable_index(&self, index: usize) -> (r: bool)
        ensures
            r == (index < self.descriptors@.len() && self.descriptors@[index as int].kind & KIND_USER == 0),
    {
        index < self.descriptors.len() && !self.descriptors[index].is_user()
    }

    /// Whether the first descriptor named `name` is a system descriptor.
    pub fn is_system_variable_name(&self, name: &str) -> (r: bool)
        ensures
            r == (index_named(self.descriptors@, name@) matches Some(i) && self.descriptors@[i].kind & KIND_USER == 0),
    {
        match index_of_name(self.descriptors.as_slice(), name) {
            Some(i) => !self.descriptors[i].is_user(),
            None => false,
        }
    }

    /// The names of the system descriptors, in catalog order.
    pub fn system_var_names(&self) -> (r: Vec<String>)
        ensures
            r@.map_values(|s: String| s@) == system_names(self.descriptors@),
    {
        let mut names: Vec<String> = Vec::new();
        let mut i: usize = 0;
        while i < self.descriptors.len()
            invariant
                i <= self.descriptors@.len(),
                names@.map_values(|s: String| s@) == system_names(self.descriptors@.take(i as int)),
            decreases self.descriptors.len() - i,
        {
            let ghost before = names@;
            proof {
                assert(self.descriptors@.take(i as int + 1).drop_last() =~= self.descriptors@.take(i as int));
            }
            if !self.descriptors[i].is_user() {
                names.push(self.descriptors[i].name.clone());
                assert(names@.map_values(|s: String| s@) =~= before.map_values(|s: String| s@).push(self.descriptors@[i as int].name@));
            }
            i = i + 1;
        }
        assert(self.descriptors@.take(self.descriptors@.len() as int) =~= self.descriptors@);
        names
    }

    /// The names of all descriptors, in catalog order.
    pub fn var_names(&self) -> (r: Vec<String>)
        ensures
            r@.map_values(|s: String| s@) == self.descriptors@.map_values(|d: VarDescriptor| d.name@),
    {
        let mut names: Vec<String> = Vec::new();
        let mut i: usize = 0;
        while i < self.descriptors.len()
            invariant
                i <= self.descriptors@.len(),
                names@.map_values(|s: String| s@) == self.descriptors@.take(i as int).map_values(|d: VarDescriptor| d.name@),
            decreases self.descriptors.len() - i,
        {
            let ghost before = names@;
            assert(self.descriptors@.take(i as int + 1) =~= self.descriptors@.take(i as int).push(self.descriptors@[i as int]));
            names.push(self.descriptors[i].name.clone());
            assert(names@.map_values(|s: String| s@) =~= before.map_values(|s: String| s@).push(self.descriptors@[i as int].name@));
            assert(self.descriptors@.take(i as int + 1).map_values(|d: VarDescriptor| d.name@)
                =~= self.descriptors@.take(i as int).map_values(|d: VarDescriptor| d.name@).push(self.descriptors@[i as int].name@));
            i = i + 1;
        }
        assert(self.descriptors@.take(self.descriptors@.len() as int) =~= self.descriptors@);
        names
    }

    /// The raw bits last read for the first descriptor named `name`.
    pub fn raw_value_by_name(&self, name: &str) -> (r: Option<u32>)
        ensures
            match index_named(self.descriptors@, name@) {
                Some(i) => r == if i < self.values@.len() { self.values@[i] } else { None },
                None => r is None,
            },
    {
        match index_of_name(self.descriptors.as_slice(), name) {
            Some(i) => if i < self.values.len() { self.values[i] } else { None },
            None => None,
        }
    }

    /// Stores the raw bits of a CAL_READ answer: each index paired with its
    /// value, for descriptors that exist.
    pub fn update_values(&mut self, indexes: &[usize], values: Vec<u32>)
        ensures
            final(self).values@ == applied_values(old(self).values@, old(self).descriptors@.len() as int, indexes@, values@,
                if indexes@.len() < values@.len() { indexes@.len() as int } else { values@.len() as int }),
            final(self).descriptors == old(self).descriptors,
            final(self).pinned == old(self).pinned,
            final(self).watch_vars == old(self).watch_vars,
    {
        let n = if indexes.len() < values.len() { indexes.len() } else { values.len() };
        let mut k: usize = 0;
        while k < n
            invariant
                k <= n,
                n <= indexes@.len(),
                n <= values@.len(),
                self.values@ == applied_values(old(self).values@, old(self).descriptors@.len() as int, indexes@, values@, k as int),
                self.descriptors == old(self).descriptors,
                self.pinned == old(self).pinned,
                self.watch_vars == old(self).watch_vars,
            decreases n - k,
        {
            proof {
                lemma_applied_len(old(self).values@, old(self).descriptors@.len() as int, indexes@, values@, k as int);
            }
            let index = indexes[k];
            if index < self.descriptors.len() && index < self.values.len() {
                self.values.set(index, Some(values[k]));
            }
            k = k + 1;
        }
    }

    /// The indexes a refresh reads, ascending: the pins and every watched
    /// descriptor.
    pub fn watched_indexes(&self) -> (r: Vec<usize>)
        ensures
            r@.to_multiset() == gathered(self.pinned@, self.watch_vars@).to_multiset(),
            ascending(r@),
    {
        let mut indexes: Vec<usize> = self.pinned.clone();
        assert(indexes@ =~= self.pinned@);
        let mut i: usize = 0;
        while i < self.watch_vars.len()
            invariant
                i <= self.watch_vars@.len(),
                indexes@ == gathered(self.pinned@, self.watch_vars@.take(i as int)),
            decreases self.watch_vars.len() - i,
        {
            let d = self.watch_vars[i].descriptor_index;
            proof {
                assert(self.watch_vars@.take(i as int + 1).drop_last() =~= self.watch_vars@.take(i as int));
            }
            if !contains_index(&indexes, d) {
                indexes.push(d);
            }
            i = i + 1;
        }
        assert(self.watch_vars@.take(self.watch_vars@.len() as int) =~= self.watch_vars@);
        sort_indexes(indexes)
    }

    /// The value reads of a refresh: the watched indexes in chunks of
    /// `CAL_READ_MAX`, each keeping the indexes that name a descriptor, and
    /// no empty batch.
    pub fn read_batches(&self) -> (r: Vec<Vec<ValueRead>>)
        ensures
            exists|w: Seq<usize>| #![trigger ascending(w)]
                ascending(w) && w.to_multiset() == gathered(self.pinned@, self.watch_vars@).to_multiset()
                && r@.map_values(|b: Vec<ValueRead>| b@) == read_batches_of(self.descriptors@, w),
            forall|k: int| 0 <= k < r@.len() ==> 0 < (#[trigger] r@[k])@.len() <= CAL_READ_MAX,
    {
        let indexes = self.watched_indexes();
        let ghost w = indexes@;
        let ghost ds = self.descriptors@;
        let mut out: Vec<Vec<ValueRead>> = Vec::new();
        let mut start: usize = 0;
        assert(w.skip(0) =~= w);
        while start < indexes.len()
            invariant
                start <= w.len(),
                w == indexes@,
                ds == self.descriptors@,
                out@.map_values(|b: Vec<ValueRead>| b@) + read_batches_of(ds, w.skip(start as int)) == read_batches_of(ds, w),
                forall|k: int| 0 <= k < out@.len() ==> 0 < (#[trigger] out@[k])@.len() <= CAL_READ_MAX,
            decreases indexes.len() - start,
        {
            let end = if indexes.len() - start < CAL_READ_MAX { indexes.len() } else { start + CAL_READ_MAX };
            let mut batch: Vec<ValueRead> = Vec::new();
            let mut k: usize = start;
            while k < end
                invariant
                    start <= k <= end,
                    end <= w.len(),
                    w == indexes@,
                    ds == self.descriptors@,
                    batch@ == valid_reads(ds, w.subrange(start as int, k as int)),
                decreases end - k,
            {
                let d = indexes[k];
                proof {
                    assert(w.subrange(start as int, k as int + 1).drop_last() =~= w.subrange(start as int, k as int));
                }
                if d < self.descriptors.len() {
                    batch.push(ValueRead { descriptor_index: d, var: self.descriptors[d].var });
                }
                k = k + 1;
            }
            let ghost s = w.skip(start as int);
            let ghost n = (end - start) as int;
            proof {
                assert(s.take(n) =~= w.subrange(start as int, end as int));
                assert(s.skip(n) =~= w.skip(end as int));
                lemma_valid_reads_len(ds, s.take(n));
                assert(read_batches_of(ds, s) == if batch@.len() > 0 { seq![batch@] + read_batches_of(ds, s.skip(n)) }
                    else { read_batches_of(ds, s.skip(n)) });
            }
            let ghost before = out@;
            if batch.len() > 0 {
                out.push(batch);
                assert(out@.map_values(|b: Vec<ValueRead>| b@) =~= before.map_values(|b: Vec<ValueRead>| b@).push(out@.last()@));
                assert(out@.map_values(|b: Vec<ValueRead>| b@) + read_batches_of(ds, w.skip(end as int))
                    =~= before.map_values(|b: Vec<ValueRead>| b@) + read_batches_of(ds, s));
            }
            start = end;
        }
        assert(w.skip(start as int) =~= Seq::<usize>::empty());
        assert(out@.map_values(|b: Vec<ValueRead>| b@) + read_batches_of(ds, Seq::<usize>::empty()) =~= out@.map_values(|b: Vec<ValueRead>| b@));
        out
    }

    /// The reads of the named variables the catalog holds, in the order of
    /// the names (each at its first descriptor of that name).
    pub fn reads_for_names(&self, names: &[&str]) -> (r: Vec<ValueRead>)
        ensures
            r@ == named_reads(self.descriptors@, names@.map_values(|n: &str| n@)),
    {
        let ghost nv = names@.map_values(|n: &str| n@);
        let mut out: Vec<ValueRead> = Vec::new();
        let mut i: usize = 0;
        while i < names.len()
            invariant
                i <= names@.len(),
                nv == names@.map_values(|n: &str| n@),
                out@ == named_reads(self.descriptors@, nv.take(i as int)),
            decreases names.len() - i,
        {
            proof {
                assert(nv.take(i as int + 1).drop_last() =~= nv.take(i as int));
                assert(nv.take(i as int + 1).last() == names@[i as int]@);
            }
            match index_of_name(self.descriptors.as_slice(), names[i]) {
                Some(k) => out.push(ValueRead { descriptor_index: k, var: self.descriptors[k].var }),
                None => {},
            }
            i = i + 1;
        }
        assert(nv.take(names@.len() as int) =~= nv);
        out
    }

    /// The write of `value_bits` to the descriptor at `descriptor_index`,
    /// when it exists and is a parameter.
    pub fn param_write_for(&self, descriptor_index: usize, value_bits: u32) -> (r: Option<ParamWrite>)
        ensures
            r is Some <==> (descriptor_index < self.descriptors@.len()
                && self.descriptors@[descriptor_index as int].kind & KIND_PARAMETER != 0),
            r matches Some(w) ==> w.var == self.descriptors@[descriptor_index as int].var && w.value_bits == value_bits,
    {
        if descriptor_index >= self.descriptors.len() {
            return None;
        }
        let descriptor = &self.descriptors[descriptor_index];
        if !descriptor.is_parameter() {
            return None;
        }
        Some(ParamWrite { var: descriptor.var, value_bits })
    }
}

impl Default for InspectorState {
    fn default() -> (r: Self)
        ensures
            r.descriptors@.len() == 0,
            r.pinned@.len() == 0,
            r.watch_vars@.len() == 0,
            r.values@.len() == 0,
    {
        InspectorState::new()
    }
}

/// Whether `v` holds `d`.
fn contains_index(v: &Vec<usize>, d: usize) -> (r: bool)
    ensures
        r == v@.contains(d),
{
    let mut i: usize = 0;
    while i < v.len()
        invariant
            i <= v@.len(),
            forall|j: int| 0 <= j < i ==> v@[j] != d,
        decreases v.len() - i,
    {
        if v[i] == d {
            assert(v@[i as int] == d);
            return true;
        }
        i = i + 1;
    }
    false
}

/// The same indexes in ascending order.
pub fn sort_indexes(v: Vec<usize>) -> (r: Vec<usize>)
    ensures
        r@.to_multiset() == v@.to_multiset(),
        ascending(r@),
{
    let mut rest = v;
    let ghost original = rest@;
    let mut sorted: Vec<usize> = Vec::new();
    while rest.len() > 0
        invariant
            sorted@.to_multiset().add(rest@.to_multiset()) == original.to_multiset(),
            ascending(sorted@),
        decreases rest.len(),
    {
        let ghost before_rest = rest@;
        let x = rest.remove(0);
        proof {
            assert(before_rest.remove(0).to_multiset() == before_rest.to_multiset().remove(x));
            assert(before_rest.to_multiset().count(x) > 0) by {
                assert(before_rest[0] == x);
                assert(before_rest.contains(x));
            }
        }
        let mut j = sorted.len();
        while j > 0 && x < sorted[j - 1]
            invariant
                j <= sorted.len(),
                forall|k: int| j <= k < sorted.len() ==> x < #[trigger] sorted@[k],
            decreases j,
        {
            j = j - 1;
        }
        let ghost prev = sorted@;
        sorted.insert(j, x);
        proof {
            assert(sorted@ == prev.insert(j as int, x));
            assert(prev.insert(j as int, x).to_multiset() == prev.to_multiset().insert(x));
            assert forall|a: int, b: int| 0 <= a <= b < sorted@.len() implies sorted@[a] <= sorted@[b] by {
                if a < j && b < j {
                    assert(sorted@[a] == prev[a] && sorted@[b] == prev[b]);
                } else if a < j && b == j {
                    assert(sorted@[a] == prev[a]);
                    assert(prev[a] <= prev[j - 1]);
                } else if a < j {
                    assert(sorted@[a] == prev[a] && sorted@[b] == prev[b - 1]);
                } else if a == j && b == j {
                } else if a == j {
                    assert(sorted@[b] == prev[b - 1]);
                } else {
                    assert(sorted@[a] == prev[a - 1] && sorted@[b] == prev[b - 1]);
                }
            }
        }
    }
    sorted
}

/// A pinned or watched variable as a workspace saves it: by name, with the
/// pending write text and selection of a watch.
#[derive(Debug, Clone, PartialEq, Eq)]
pub struct WatchRef {
    pub var_name: String,
    pub write_buf: String,
    pub write_selected: bool,
}

impl Default for WatchRef {
    fn default() -> (r: Self)
        ensures
            r.var_name@.len() == 0,
            r.write_buf@.len() == 0,
            !r.write_selected,
    {
        WatchRef { var_name: String::new(), write_buf: String::new(), write_selected: false }
    }
}

/// What a saved reference holds.
pub open spec fn ref_view(r: WatchRef) -> (Seq<char>, Seq<char>, bool) {
    (r.var_name@, r.write_buf@, r.write_selected)
}

/// The views of saved references.
pub open spec fn ref_views(refs: Seq<WatchRef>) -> Seq<(Seq<char>, Seq<char>, bool)> {
    refs.map_values(|r: WatchRef| ref_view(r))
}

/// The names of the pinned descriptors, in pin order.
pub open spec fn pin_names(ds: Seq<VarDescriptor>, pinned: Seq<usize>) -> Seq<Seq<char>>
    decreases pinned.len(),
{
    if pinned.len() == 0 {
        Seq::empty()
    } else {
        let prev = pin_names(ds, pinned.drop_last());
        let p = pinned.last() as int;
        if p < ds.len() { prev.push(ds[p].name@) } else { prev }
    }
}

/// `base` followed by each name of `extra` that is not yet there.
pub open spec fn extend_names(base: Seq<Seq<char>>, extra: Seq<Seq<char>>) -> Seq<Seq<char>>
    decreases extra.len(),
{
    if extra.len() == 0 {
        base
    } else {
        let prev = extend_names(base, extra.drop_last());
        if prev.contains(extra.last()) { prev } else { prev.push(extra.last()) }
    }
}

/// The names of saved references.
pub open spec fn ref_names(refs: Seq<(Seq<char>, Seq<char>, bool)>) -> Seq<Seq<char>> {
    refs.map_values(|r: (Seq<char>, Seq<char>, bool)| r.0)
}

/// `base` followed by a bare reference for each name of `extra` that no
/// reference has yet.
pub open spec fn extend_refs(base: Seq<(Seq<char>, Seq<char>, bool)>, extra: Seq<Seq<char>>) -> Seq<(Seq<char>, Seq<char>, bool)>
    decreases extra.len(),
{
    if extra.len() == 0 {
        base
    } else {
        let prev = extend_refs(base, extra.drop_last());
        if ref_names(prev).contains(extra.last()) { prev } else { prev.push((extra.last(), Seq::empty(), false)) }
    }
}

/// What the watch list saves of each watch.
pub open spec fn saved_watch(w: WatchEntry) -> (Seq<char>, Seq<char>, bool) {
    (w.var_name@, w.write_buf@, w.write_selected)
}

/// The descriptor indexes of saved pins found in a catalog.
pub open spec fn restored_pins(ds: Seq<VarDescriptor>, refs: Seq<WatchRef>) -> Seq<usize>
    decreases refs.len(),
{
    if refs.len() == 0 {
        Seq::empty()
    } else {
        let prev = restored_pins(ds, refs.drop_last());
        match index_named(ds, refs.last().var_name@) {
            Some(i) => prev.push(i as usize),
            None => prev,
        }
    }
}

/// The names of saved references a catalog does not hold, in order.
pub open spec fn missing_refs(ds: Seq<VarDescriptor>, refs: Seq<WatchRef>) -> Seq<Seq<char>>
    decreases refs.len(),
{
    if refs.len() == 0 {
        Seq::empty()
    } else {
        let prev = missing_refs(ds, refs.drop_last());
        if index_named(ds, refs.last().var_name@) is None { prev.push(refs.last().var_name@) } else { prev }
    }
}

/// The watches restored from saved references found in a catalog.
pub open spec fn restored_watches(ds: Seq<VarDescriptor>, refs: Seq<WatchRef>) -> Seq<(Seq<char>, usize, Seq<char>, bool)>
    decreases refs.len(),
{
    if refs.len() == 0 {
        Seq::empty()
    } else {
        let prev = restored_watches(ds, refs.drop_last());
        let r = refs.last();
        match index_named(ds, r.var_name@) {
            Some(i) => prev.push((r.var_name@, i as usize, r.write_buf@, r.write_selected)),
            None => prev,
        }
    }
}

fn contains_text(names: &Vec<String>, name: &String) -> (r: bool)
    ensures
        r == names@.map_values(|s: String| s@).contains(name@),
{
    let ghost views = names@.map_values(|s: String| s@);
    let mut i: usize = 0;
    while i < names.len()
        invariant
            i <= names@.len(),
            views == names@.map_values(|s: String| s@),
            forall|j: int| 0 <= j < i ==> views[j] != name@,
        decreases names.len() - i,
    {
        if str_eq(names[i].as_str(), name.as_str()) {
            assert(views[i as int] == name@);
            return true;
        }
        i = i + 1;
    }
    false
}

fn contains_ref(refs: &Vec<WatchRef>, name: &String) -> (r: bool)
    ensures
        r == ref_names(ref_views(refs@)).contains(name@),
{
    let ghost views = ref_names(ref_views(refs@));
    let mut i: usize = 0;
    while i < refs.len()
        invariant
            i <= refs@.len(),
            views == ref_names(ref_views(refs@)),
            forall|j: int| 0 <= j < i ==> views[j] != name@,
        decreases refs.len() - i,
    {
        if str_eq(refs[i].var_name.as_str(), name.as_str()) {
            assert(views[i as int] == name@);
            return true;
        }
        i = i + 1;
    }
    false
}

impl InspectorState {
    /// What a workspace saves of the pins and watches: the pinned names and
    /// the watches with their write inputs, each followed by the saved
    /// references that the current catalog could not resolve (once each).
    pub fn snapshot_watch_refs(&self, unresolved_pinned: &[String], unresolved_watch: &[String]) -> (r: (Vec<WatchRef>, Vec<WatchRef>))
        ensures
            ref_views(r.0@) == extend_names(pin_names(self.descriptors@, self.pinned@),
                unresolved_pinned@.map_values(|s: String| s@)).map_values(|n: Seq<char>| (n, Seq::<char>::empty(), false)),
            ref_views(r.1@) == extend_refs(self.watch_vars@.map_values(|w: WatchEntry| saved_watch(w)),
                unresolved_watch@.map_values(|s: String| s@)),
    {
        let mut names: Vec<String> = Vec::new();
        let mut i: usize = 0;
        while i < self.pinned.len()
            invariant
                i <= self.pinned@.len(),
                names@.map_values(|s: String| s@) == pin_names(self.descriptors@, self.pinned@.take(i as int)),
            decreases self.pinned.len() - i,
        {
            let p = self.pinned[i];
            let ghost before = names@;
            proof {
                assert(self.pinned@.take(i as int + 1).drop_last() =~= self.pinned@.take(i as int));
            }
            if p < self.descriptors.len() {
                names.push(self.descriptors[p].name.clone());
                assert(names@.map_values(|s: String| s@) =~= before.map_values(|s: String| s@).push(self.descriptors@[p as int].name@));
            }
            i = i + 1;
        }
        assert(self.pinned@.take(self.pinned@.len() as int) =~= self.pinned@);
        let ghost base_pins = names@.map_values(|s: String| s@);
        let ghost extra_pins = unresolved_pinned@.map_values(|s: String| s@);
        let mut j: usize = 0;
        while j < unresolved_pinned.len()
            invariant
                j <= unresolved_pinned@.len(),
                extra_pins == unresolved_pinned@.map_values(|s: String| s@),
                names@.map_values(|s: String| s@) == extend_names(base_pins, extra_pins.take(j as int)),
            decreases unresolved_pinned.len() - j,
        {
            let ghost before = names@;
            proof {
                assert(extra_pins.take(j as int + 1).drop_last() =~= extra_pins.take(j as int));
            }
            if !contains_text(&names, &unresolved_pinned[j]) {
                names.push(unresolved_pinned[j].clone());
                assert(names@.map_values(|s: String| s@) =~= before.map_values(|s: String| s@).push(unresolved_pinned@[j as int]@));
            }
            j = j + 1;
        }
        assert(extra_pins.take(unresolved_pinned@.len() as int) =~= extra_pins);
        let mut pinned: Vec<WatchRef> = Vec::new();
        let mut k: usize = 0;
        while k < names.len()
            invariant
                k <= names@.len(),
                ref_views(pinned@) == names@.take(k as int).map_values(|s: String| s@)
                    .map_values(|n: Seq<char>| (n, Seq::<char>::empty(), false)),
            decreases names.len() - k,
        {
            let ghost before = pinned@;
            pinned.push(WatchRef { var_name: names[k].clone(), write_buf: String::new(), write_selected: false });
            assert(ref_views(pinned@) =~= ref_views(before).push((names@[k as int]@, Seq::<char>::empty(), false)));
            assert(names@.take(k as int + 1).map_values(|s: String| s@).map_values(|n: Seq<char>| (n, Seq::<char>::empty(), false))
                =~= names@.take(k as int).map_values(|s: String| s@).map_values(|n: Seq<char>| (n, Seq::<char>::empty(), false))
                    .push((names@[k as int]@, Seq::<char>::empty(), false)));
            k = k + 1;
        }
        assert(names@.take(names@.len() as int) =~= names@);
        let mut watch: Vec<WatchRef> = Vec::new();
        let mut m: usize = 0;
        while m < self.watch_vars.len()
            invariant
                m <= self.watch_vars@.len(),
                ref_views(watch@) == self.watch_vars@.take(m as int).map_values(|w: WatchEntry| saved_watch(w)),
            decreases self.watch_vars.len() - m,
        {
            let w = &self.watch_vars[m];
            let ghost before = watch@;
            watch.push(WatchRef { var_name: w.var_name.clone(), write_buf: w.write_buf.clone(), write_selected: w.write_selected });
            assert(ref_views(watch@) =~= ref_views(before).push(saved_watch(*w)));
            assert(self.watch_vars@.take(m as int + 1).map_values(|w: WatchEntry| saved_watch(w))
                =~= self.watch_vars@.take(m as int).map_values(|w: WatchEntry| saved_watch(w)).push(saved_watch(*w)));
            m = m + 1;
        }
        assert(self.watch_vars@.take(self.watch_vars@.len() as int) =~= self.watch_vars@);
        let ghost base_watch = ref_views(watch@);
        let ghost extra_watch = unresolved_watch@.map_values(|s: String| s@);
        let mut n: usize = 0;
        while n < unresolved_watch.len()
            invariant
                n <= unresolved_watch@.len(),
                extra_watch == unresolved_watch@.map_values(|s: String| s@),
                ref_views(watch@) == extend_refs(base_watch, extra_watch.take(n as int)),
            decreases unresolved_watch.len() - n,
        {
            let ghost before = watch@;
            proof {
                assert(extra_watch.take(n as int + 1).drop_last() =~= extra_watch.take(n as int));
            }
            if !contains_ref(&watch, &unresolved_watch[n]) {
                watch.push(WatchRef { var_name: unresolved_watch[n].clone(), write_buf: String::new(), write_selected: false });
                assert(ref_views(watch@) =~= ref_views(before).push((unresolved_watch@[n as int]@, Seq::<char>::empty(), false)));
            }
            n = n + 1;
        }
        assert(extra_watch.take(unresolved_watch@.len() as int) =~= extra_watch);
        (pinned, watch)
    }

    /// Restores saved pins and watches by name into the current catalog;
    /// the names it does not hold are returned (pins, watches), in order.
    pub fn restore_watch_refs(&mut self, pinned: &[WatchRef], watch: &[WatchRef]) -> (r: (Vec<String>, Vec<String>))
        ensures
            final(self).descriptors == old(self).descriptors,
            final(self).values == old(self).values,
            final(self).pinned@ == restored_pins(old(self).descriptors@, pinned@),
            final(self).watch_vars@.map_values(|w: WatchEntry| watch_view(w)) == restored_watches(old(self).descriptors@, watch@),
            r.0@.map_values(|s: String| s@) == missing_refs(old(self).descriptors@, pinned@),
            r.1@.map_values(|s: String| s@) == missing_refs(old(self).descriptors@, watch@),
    {
        let mut pins: Vec<usize> = Vec::new();
        let mut missing_pinned: Vec<String> = Vec::new();
        let mut i: usize = 0;
        while i < pinned.len()
            invariant
                i <= pinned@.len(),
                pins@ == restored_pins(self.descriptors@, pinned@.take(i as int)),
                missing_pinned@.map_values(|s: String| s@) == missing_refs(self.descriptors@, pinned@.take(i as int)),
            decreases pinned.len() - i,
        {
            proof {
                assert(pinned@.take(i as int + 1).drop_last() =~= pinned@.take(i as int));
            }
            let ghost before = missing_pinned@;
            match index_of_name(self.descriptors.as_slice(), pinned[i].var_name.as_str()) {
                Some(k) => pins.push(k),
                None => {
                    missing_pinned.push(pinned[i].var_name.clone());
                    assert(missing_pinned@.map_values(|s: String| s@) =~= before.map_values(|s: String| s@).push(pinned@[i as int].var_name@));
                },
            }
            i = i + 1;
        }
        assert(pinned@.take(pinned@.len() as int) =~= pinned@);
        let mut watches: Vec<WatchEntry> = Vec::new();
        let mut missing_watch: Vec<String> = Vec::new();
        let mut j: usize = 0;
        while j < watch.len()
            invariant
                j <= watch@.len(),
                watches@.map_values(|w: WatchEntry| watch_view(w)) == restored_watches(self.descriptors@, watch@.take(j as int)),
                missing_watch@.map_values(|s: String| s@) == missing_refs(self.descriptors@, watch@.take(j as int)),
            decreases watch.len() - j,
        {
            proof {
                assert(watch@.take(j as int + 1).drop_last() =~= watch@.take(j as int));
            }
            let r = &watch[j];
            let ghost before_w = watches@;
            let ghost before_m = missing_watch@;
            match index_of_name(self.descriptors.as_slice(), r.var_name.as_str()) {
                Some(k) => {
                    watches.push(WatchEntry {
                        var_name: r.var_name.clone(),
                        descriptor_index: k,
                        write_buf: r.write_buf.clone(),
                        write_selected: r.write_selected,
                    });
                    assert(watches@.map_values(|w: WatchEntry| watch_view(w)) =~= before_w.map_values(|w: WatchEntry| watch_view(w))
                        .push((r.var_name@, k, r.write_buf@, r.write_selected)));
                },
                None => {
                    missing_watch.push(r.var_name.clone());
                    assert(missing_watch@.map_values(|s: String| s@) =~= before_m.map_values(|s: String| s@).push(r.var_name@));
                },
            }
            j = j + 1;
        }
        assert(watch@.take(watch@.len() as int) =~= watch@);
        self.pinned = pins;
        self.watch_vars = watches;
        (missing_pinned, missing_watch)
    }
}

/// Restoring saved references into a catalog that holds every name loses
/// nothing: no name is reported missing, the restored watches save back as
/// the same references (write text and selection included), and the
/// restored pins name the saved pins.
pub proof fn law_watch_refs_roundtrip(ds: Seq<VarDescriptor>, pins: Seq<WatchRef>, watches: Seq<WatchRef>)
    requires
        ds.len() <= usize::MAX,
        forall|k: int| 0 <= k < pins.len() ==> index_named(ds, (#[trigger] pins[k]).var_name@) is Some,
        forall|k: int| 0 <= k < watches.len() ==> index_named(ds, (#[trigger] watches[k]).var_name@) is Some,
    ensures
        missing_refs(ds, pins).len() == 0,
        missing_refs(ds, watches).len() == 0,
        pin_names(ds, restored_pins(ds, pins)) == ref_names(ref_views(pins)),
        restored_watches(ds, watches).map_values(|t: (Seq<char>, usize, Seq<char>, bool)| (t.0, t.2, t.3)) == ref_views(watches),
    decreases pins.len() + watches.len(),
{
    if pins.len() > 0 {
        let init = pins.drop_last();
        assert forall|k: int| 0 <= k < init.len() implies index_named(ds, (#[trigger] init[k]).var_name@) is Some by {
            assert(init[k] == pins[k]);
        }
        law_watch_refs_roundtrip(ds, init, Seq::empty());
        let last = pins.last();
        assert(index_named(ds, pins[pins.len() - 1].var_name@) is Some);
        let i = choose|i: int| first_named(ds, last.var_name@, i);
        assert(first_named(ds, last.var_name@, i));
        let prev = restored_pins(ds, init);
        assert(restored_pins(ds, pins) == prev.push(i as usize));
        assert(prev.push(i as usize).drop_last() =~= prev);
        assert(pin_names(ds, prev.push(i as usize)) == pin_names(ds, prev).push(ds[i].name@));
        assert(ref_names(ref_views(pins)) =~= ref_names(ref_views(init)).push(last.var_name@));
    }
    if watches.len() > 0 {
        let init = watches.drop_last();
        assert forall|k: int| 0 <= k < init.len() implies index_named(ds, (#[trigger] init[k]).var_name@) is Some by {
            assert(init[k] == watches[k]);
        }
        law_watch_refs_roundtrip(ds, Seq::empty(), init);
        let last = watches.last();
        assert(index_named(ds, watches[watches.len() - 1].var_name@) is Some);
        let prev = restored_watches(ds, init);
        let i = index_named(ds, last.var_name@)->0;
        assert(restored_watches(ds, watches) == prev.push((last.var_name@, i as usize, last.write_buf@, last.write_selected)));
        assert(restored_watches(ds, watches).map_values(|t: (Seq<char>, usize, Seq<char>, bool)| (t.0, t.2, t.3))
            =~= prev.map_values(|t: (Seq<char>, usize, Seq<char>, bool)| (t.0, t.2, t.3)).push(ref_view(last)));
        assert(ref_views(watches) =~= ref_views(init).push(ref_view(last)));
    }
    if pins.len() == 0 {
        assert(ref_names(ref_views(pins)) =~= Seq::<Seq<char>>::empty());
    }
    if watches.len() == 0 {
        assert(ref_views(watches) =~= Seq::<(Seq<char>, Seq<char>, bool)>::empty());
        assert(restored_watches(ds, watches).map_values(|t: (Seq<char>, usize, Seq<char>, bool)| (t.0, t.2, t.3))
            =~= Seq::<(Seq<char>, Seq<char>, bool)>::empty());
    }
}


/// The index of the first descriptor named by the first of `names` that
/// the catalog holds.
pub open spec fn first_index_of_names(ds: Seq<VarDescriptor>, names: Seq<Seq<char>>) -> Option<int>
    decreases names.len(),
{
    if names.len() == 0 {
        None
    } else {
        match index_named(ds, names[0]) {
            Some(i) => Some(i),
            None => first_index_of_names(ds, names.drop_first()),
        }
    }
}

/// The catalog index of the DC-link voltage of `channel`.
pub open spec fn dc_voltage_index(ds: Seq<VarDescriptor>, channel: u8) -> Option<usize> {
    match first_index_of_names(ds, spec_dc_voltage_names(channel)) {
        Some(i) => Some(i as usize),
        None => None,
    }
}

/// The DC-link voltage indexes to read: channel 1's, then channel 2's
/// where it is another descriptor.
pub open spec fn dc_voltage_indexes(ds: Seq<VarDescriptor>) -> Seq<usize> {
    match (dc_voltage_index(ds, 1), dc_voltage_index(ds, 2)) {
        (Some(a), Some(b)) => if a == b { seq![a] } else { seq![a, b] },
        (Some(a), None) => seq![a],
        (None, Some(b)) => seq![b],
        (None, None) => Seq::<usize>::empty(),
    }
}

impl InspectorState {
    /// The reads for `indexes` that name a descriptor, in order.
    fn reads_for_indexes(&self, indexes: &[usize]) -> (r: Vec<ValueRead>)
        ensures
            r@ == valid_reads(self.descriptors@, indexes@),
    {
        let ghost ds = self.descriptors@;
        let mut out: Vec<ValueRead> = Vec::new();
        let mut k: usize = 0;
        while k < indexes.len()
            invariant
                k <= indexes@.len(),
                ds == self.descriptors@,
                out@ == valid_reads(ds, indexes@.take(k as int)),
            decreases indexes.len() - k,
        {
            proof {
                assert(indexes@.take(k as int + 1).drop_last() =~= indexes@.take(k as int));
            }
            let d = indexes[k];
            if d < self.descriptors.len() {
                out.push(ValueRead { descriptor_index: d, var: self.descriptors[d].var });
            }
            k = k + 1;
        }
        assert(indexes@.take(indexes@.len() as int) =~= indexes@);
        out
    }

    /// The catalog index of the DC-link voltage of `channel` (1 or 2).
    pub fn dc_voltage_descriptor_index(&self, channel: u8) -> (r: Option<usize>)
        ensures
            r == dc_voltage_index(self.descriptors@, channel),
    {
        let names = dc_voltage_candidate_names(channel);
        let ghost nv = names@.map_values(|s: &'static str| s@);
        let ghost ds = self.descriptors@;
        let mut i: usize = 0;
        assert(nv.skip(0) =~= nv);
        while i < names.len()
            invariant
                i <= names@.len(),
                nv == names@.map_values(|s: &'static str| s@),
                nv == spec_dc_voltage_names(channel),
                ds == self.descriptors@,
                first_index_of_names(ds, nv) == first_index_of_names(ds, nv.skip(i as int)),
            decreases names.len() - i,
        {
            proof {
                assert(nv.skip(i as int).drop_first() =~= nv.skip(i as int + 1));
                assert(nv.skip(i as int)[0] == names@[i as int]@);
            }
            match self.index_by_name(names[i]) {
                Some(k) => return Some(k),
                None => {},
            }
            i = i + 1;
        }
        assert(nv.skip(i as int) =~= Seq::<Seq<char>>::empty());
        None
    }

    /// The reads of the DC-link voltages, each descriptor once.
    pub fn dc_voltage_reads(&self) -> (r: Vec<ValueRead>)
        ensures
            r@ == valid_reads(self.descriptors@, dc_voltage_indexes(self.descriptors@)),
    {
        let dc1 = self.dc_voltage_descriptor_index(1);
        let dc2 = self.dc_voltage_descriptor_index(2);
        let indexes = dc_voltage_read_indexes(dc1, dc2);
        self.reads_for_indexes(indexes.as_slice())
    }
}

pub const WATCH_READ_PERIOD_MS: u64 = 1000;

/// When the watched values are read next: a refresh was asked for
/// (`pending`), and the earliest time of the next read.
#[derive(Debug, Clone, Copy, PartialEq, Eq)]
pub struct WatchReadSchedule {
    pub pending: bool,
    pub next_read_ms: u64,
}

/// Watched values are read on a connected device that advertises
/// calibration reads, when a refresh was asked for or the refresh is
/// continuous, once the next read time has come.
pub open spec fn watch_reads_due(hardware: HardwareState, pending: bool, continuous: bool, next_read_ms: u64, now_ms: u64) -> bool {
    &&& hardware.connected
    &&& hardware.spec_has_capability(CAP_CAL)
    &&& (pending || continuous)
    &&& now_ms >= next_read_ms
}

impl WatchReadSchedule {
    /// A schedule with a refresh asked for and due at once.
    pub fn new() -> (r: Self)
        ensures
            r.pending,
            r.next_read_ms == 0,
    {
        WatchReadSchedule { pending: true, next_read_ms: 0 }
    }

    /// Asks for a refresh at the next poll.
    pub fn request(&mut self)
        ensures
            final(self).pending,
            final(self).next_read_ms == old(self).next_read_ms,
    {
        self.pending = true;
    }

    /// The periodic read of the watched values at `now_ms`: when due, the
    /// watched reads in batches followed by one batch of the DC-link
    /// voltages (where the catalog has them); the request is then served
    /// and the next read is one period later. Otherwise no read and no
    /// change.
    pub fn poll(&mut self, hardware: &HardwareState, inspector: &InspectorState, continuous: bool, now_ms: u64) -> (r: Vec<Vec<ValueRead>>)
        requires
            now_ms <= u64::MAX - WATCH_READ_PERIOD_MS,
        ensures
            watch_reads_due(*hardware, old(self).pending, continuous, old(self).next_read_ms, now_ms) ==> {
                let ds = inspector.descriptors@;
                let dc = valid_reads(ds, dc_voltage_indexes(ds));
                &&& exists|w: Seq<usize>| #![trigger ascending(w)]
                    ascending(w) && w.to_multiset() == gathered(inspector.pinned@, inspector.watch_vars@).to_multiset()
                    && r@.map_values(|b: Vec<ValueRead>| b@)
                        == read_batches_of(ds, w) + if dc.len() > 0 { seq![dc] } else { Seq::<Seq<ValueRead>>::empty() }
                &&& !final(self).pending
                &&& final(self).next_read_ms == now_ms + WATCH_READ_PERIOD_MS
            },
            !watch_reads_due(*hardware, old(self).pending, continuous, old(self).next_read_ms, now_ms) ==> {
                &&& r@.len() == 0
                &&& *final(self) == *old(self)
            },
    {
        if !hardware.connected || !hardware.has_capability(CAP_CAL) {
            return Vec::new();
        }
        if !self.pending && !continuous {
            return Vec::new();
        }
        if now_ms < self.next_read_ms {
            return Vec::new();
        }
        let mut batches = inspector.read_batches();
        let ghost before = batches@;
        let voltage = inspector.dc_voltage_reads();
        if voltage.len() > 0 {
            batches.push(voltage);
            assert(batches@.map_values(|b: Vec<ValueRead>| b@)
                =~= before.map_values(|b: Vec<ValueRead>| b@) + seq![batches@.last()@]);
        } else {
            assert(batches@.map_values(|b: Vec<ValueRead>| b@)
                =~= before.map_values(|b: Vec<ValueRead>| b@) + Seq::<Seq<ValueRead>>::empty());
        }
        self.pending = false;
        self.next_read_ms = now_ms + WATCH_READ_PERIOD_MS;
        batches
    }
}


/// The pins after inserting the descriptors of `names` at `pos`, and the
/// position after them: each name the catalog holds whose descriptor is
/// not pinned yet goes in, in order.
pub open spec fn pins_inserted(ds: Seq<VarDescriptor>, pinned: Seq<usize>, pos: int, names: Seq<Seq<char>>) -> (Seq<usize>, int)
    decreases names.len(),
{
    if names.len() == 0 {
        (pinned, pos)
    } else {
        let prev = pins_inserted(ds, pinned, pos, names.drop_last());
        match index_named(ds, names.last()) {
            Some(i) => if prev.0.contains(i as usize) { prev } else { (prev.0.insert(prev.1, i as usize), prev.1 + 1) },
            None => prev,
        }
    }
}

impl InspectorState {
    /// Pins the variables named by `names` at position `idx` (or at the end
    /// when `idx` is past it), in order, skipping names the catalog lacks
    /// and variables already pinned; true when any was pinned.
    pub fn insert_pinned_names(&mut self, idx: usize, names: Vec<String>) -> (r: bool)
        ensures
            ({
                let start = if (idx as int) < old(self).pinned@.len() { idx as int } else { old(self).pinned@.len() as int };
                final(self).pinned@ == pins_inserted(old(self).descriptors@, old(self).pinned@, start,
                    names@.map_values(|n: String| n@)).0
            }),
            r == (final(self).pinned@.len() != old(self).pinned@.len()),
            final(self).descriptors == old(self).descriptors,
            final(self).watch_vars == old(self).watch_vars,
            final(self).values == old(self).values,
            final(self).entries == old(self).entries,
            final(self).system_entries == old(self).system_entries,
    {
        let ghost nv = names@.map_values(|n: String| n@);
        let ghost orig = self.pinned@;
        let ghost ds = self.descriptors@;
        let orig_len = self.pinned.len();
        let mut pos: usize = if idx < self.pinned.len() { idx } else { self.pinned.len() };
        let ghost start = pos as int;
        let mut i: usize = 0;
        while i < names.len()
            invariant
                i <= names@.len(),
                nv == names@.map_values(|n: String| n@),
                ds == self.descriptors@,
                0 <= start <= orig.len(),
                (self.pinned@, pos as int) == pins_inserted(ds, orig, start, nv.take(i as int)),
                pos <= self.pinned@.len(),
                self.pinned@.len() >= orig.len(),
                self.pinned@.len() - orig.len() == pos - start,
                self.descriptors == old(self).descriptors,
                self.watch_vars == old(self).watch_vars,
                self.values == old(self).values,
                self.entries == old(self).entries,
                self.system_entries == old(self).system_entries,
            decreases names.len() - i,
        {
            proof {
                assert(nv.take(i as int + 1).drop_last() =~= nv.take(i as int));
                assert(nv.take(i as int + 1).last() == names@[i as int]@);
            }
            match index_of_name(self.descriptors.as_slice(), names[i].as_str()) {
                Some(k) => {
                    if !contains_index(&self.pinned, k) {
                        self.pinned.insert(pos, k);
                        let len = self.pinned.len();
                        assert(pos < len);
                        pos = pos + 1;
                    }
                },
                None => {},
            }
            i = i + 1;
        }
        assert(nv.take(names@.len() as int) =~= nv);
        self.pinned.len() != orig_len
    }
}


/// The parameter writes staged for the requested `(descriptor index, value
/// bits)` pairs: those naming a parameter descriptor, in order.
pub open spec fn staged_writes(ds: Seq<VarDescriptor>, writes: Seq<(usize, u32)>) -> Seq<ParamWrite>
    decreases writes.len(),
{
    if writes.len() == 0 {
        Seq::empty()
    } else {
        let prev = staged_writes(ds, writes.drop_last());
        let w = writes.last();
        if (w.0 as int) < ds.len() && ds[w.0 as int].kind & KIND_PARAMETER != 0 {
            prev.push(ParamWrite { var: ds[w.0 as int].var, value_bits: w.1 })
        } else {
            prev
        }
    }
}

/// The indexes of the requested writes, in order.
pub open spec fn write_indexes(writes: Seq<(usize, u32)>) -> Seq<usize> {
    writes.map_values(|w: (usize, u32)| w.0)
}

/// What a variable write sends.
#[derive(Debug, Clone, PartialEq, Eq)]
pub enum WritePlan {
    /// No requested variable is a parameter: nothing is sent.
    Nothing,
    /// More writes than the firmware stages at once: nothing is sent and the
    /// message is logged.
    TooMany(String),
    /// One staged batch, then a commit, then the read-backs in runs.
    Send { writes: Vec<ParamWrite>, reads: Vec<Vec<ValueRead>> },
}

impl InspectorState {
    /// The transaction for writing `writes`: the parameter writes all go in
    /// one batch committed at once (or, beyond the batch limit, none does),
    /// followed by reading back every requested variable the catalog holds.
    pub fn plan_variable_write(&self, writes: &[(usize, u32)]) -> (r: WritePlan)
        ensures
            ({
                let staged = staged_writes(self.descriptors@, writes@);
                &&& staged.len() == 0 ==> r == WritePlan::Nothing
                &&& staged.len() > crate::acquisition::PARAM_WRITE_BATCH_MAX ==> (r matches WritePlan::TooMany(m)
                    && m@ == "Parameter commit rejected: "@ + crate::text::decimal(staged.len())
                        + " writes exceed the native batch limit of 16"@)
                &&& 0 < staged.len() <= crate::acquisition::PARAM_WRITE_BATCH_MAX ==> (r matches WritePlan::Send { writes: w, reads: b }
                    && w@ == staged
                    && b@.map_values(|c: Vec<ValueRead>| c@)
                        == crate::acquisition::read_chunks(valid_reads(self.descriptors@, write_indexes(writes@))))
            }),
    {
        let ghost ds = self.descriptors@;
        let mut staged: Vec<ParamWrite> = Vec::new();
        let mut reads: Vec<ValueRead> = Vec::new();
        let mut i: usize = 0;
        while i < writes.len()
            invariant
                i <= writes@.len(),
                ds == self.descriptors@,
                staged@ == staged_writes(ds, writes@.take(i as int)),
                reads@ == valid_reads(ds, write_indexes(writes@.take(i as int))),
            decreases writes.len() - i,
        {
            let (index, bits) = writes[i];
            proof {
                assert(writes@.take(i as int + 1).drop_last() =~= writes@.take(i as int));
                assert(write_indexes(writes@.take(i as int + 1)).drop_last() =~= write_indexes(writes@.take(i as int)));
                assert(write_indexes(writes@.take(i as int + 1)).last() == index);
            }
            if index < self.descriptors.len() {
                reads.push(ValueRead { descriptor_index: index, var: self.descriptors[index].var });
            }
            match self.param_write_for(index, bits) {
                Some(w) => staged.push(w),
                None => {},
            }
            i = i + 1;
        }
        assert(writes@.take(writes@.len() as int) =~= writes@);
        if staged.len() == 0 {
            return WritePlan::Nothing;
        }
        match crate::acquisition::write_batch_error(staged.len()) {
            Some(message) => WritePlan::TooMany(message),
            None => {
                let chunks = crate::acquisition::chunk_reads(reads.as_slice());
                WritePlan::Send { writes: staged, reads: chunks }
            },
        }
    }
}

} // verus!
