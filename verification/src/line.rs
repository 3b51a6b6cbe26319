//! Component lines: one `sparseset::SparseSet` per component kind, keyed by
//! entity id. The set is an outside collection; the items below are the
//! trusted boundary to it, stated over the dense entry sequence it keeps.
use sparseset::SparseSet;
use vstd::prelude::*;

verus! {

/// What the library stores for one component of one entity.
pub type ComponentValue = u64;

/// The storage of one component kind: a slot per entity id.
pub type ComponentLine = SparseSet<Option<ComponentValue>>;

/// `sparseset::SparseSet`, opaque to Verus: what it holds is given by
/// [`line_entries`] and [`line_capacity`].
#[verifier::external_type_specification]
#[verifier::external_body]
#[verifier::reject_recursive_types(T)]
pub struct ExSparseSet<T>(SparseSet<T>);

/// `sparseset::Entry`, the dense entry type a set derefs to; opaque to Verus.
#[verifier::external_type_specification]
#[verifier::external_body]
#[verifier::reject_recursive_types(T)]
pub struct ExSparseEntry<T>(sparseset::Entry<T>);

/// The dense entries of a component line, as `(key, value)` pairs in the
/// order the set keeps them.
pub uninterp spec fn line_entries(line: SparseSet<Option<u64>>) -> Seq<(usize, Option<u64>)>;

/// The capacity a component line was created with (its key bound).
pub uninterp spec fn line_capacity(line: SparseSet<Option<u64>>) -> nat;

/// Whether `key` occurs among the dense entries.
pub open spec fn entries_have_key(entries: Seq<(usize, Option<u64>)>, key: usize) -> bool {
    exists|i: int| 0 <= i < entries.len() && #[trigger] entries[i].0 == key
}

/// The position of `key` among the dense entries (meaningful when present).
pub open spec fn entries_key_index(entries: Seq<(usize, Option<u64>)>, key: usize) -> int {
    choose|i: int| 0 <= i < entries.len() && #[trigger] entries[i].0 == key
}

/// The dense entries after storing `value` under `key`: an existing entry is
/// overwritten in place, a new one is appended.
pub open spec fn entries_set(
    entries: Seq<(usize, Option<u64>)>,
    key: usize,
    value: Option<u64>,
) -> Seq<(usize, Option<u64>)> {
    if entries_have_key(entries, key) {
        entries.update(entries_key_index(entries, key), (key, value))
    } else {
        entries.push((key, value))
    }
}

/// The value stored under `key`, `None` when the key is absent.
pub open spec fn entries_slot(entries: Seq<(usize, Option<u64>)>, key: usize) -> Option<u64> {
    if entries_have_key(entries, key) {
        entries[entries_key_index(entries, key)].1
    } else {
        None
    }
}

/// The shape every sparse set keeps: keys below the capacity, no key twice.
pub open spec fn entries_wf(entries: Seq<(usize, Option<u64>)>, capacity: nat) -> bool {
    &&& forall|i: int| 0 <= i < entries.len() ==> (#[trigger] entries[i]).0 < capacity
    &&& forall|i: int, j: int|
        0 <= i < entries.len() && 0 <= j < entries.len() && i != j ==> (#[trigger] entries[i]).0
            != (#[trigger] entries[j]).0
}

/// The well-formedness of a whole line.
pub open spec fn line_wf(line: ComponentLine) -> bool {
    entries_wf(line_entries(line), line_capacity(line))
}

/// `SparseSet::with_capacity`: an empty set whose keys may range below `size`.
/// The bound on `size` keeps the two vectors it allocates far below the
/// `isize::MAX` bytes past which `Vec::with_capacity` panics.
#[verifier::external_body]
pub(crate) fn line_with_capacity(size: usize) -> (line: ComponentLine)
    requires
        size <= 0x10_0000,
    ensures
        line_entries(line) == Seq::<(usize, Option<u64>)>::empty(),
        line_capacity(line) == size,
{
    SparseSet::with_capacity(size)
}

/// `SparseSet::len`: the number of dense entries.
#[verifier::external_body]
pub(crate) fn line_len(line: &ComponentLine) -> (len: usize)
    ensures
        len == line_entries(*line).len(),
{
    line.len()
}

/// `SparseSet::get`: the value of the entry whose key is `key`, `None` when
/// there is none.
#[verifier::external_body]
pub(crate) fn line_get(line: &ComponentLine, key: usize) -> (res: Option<&Option<u64>>)
    requires
        key < line_capacity(*line),
        line_wf(*line),
    ensures
        res is Some <==> entries_have_key(line_entries(*line), key),
        match res {
            Some(v) => *v == line_entries(*line)[entries_key_index(line_entries(*line), key)].1,
            None => true,
        },
{
    line.get(key)
}

/// `SparseSet::get_mut`: mutable access to the value of the entry whose key
/// is `key`; what is written through it becomes that entry's value.
#[verifier::external_body]
pub(crate) fn line_get_mut(line: &mut ComponentLine, key: usize) -> (res: Option<&mut Option<u64>>)
    requires
        key < line_capacity(*old(line)),
        line_wf(*old(line)),
    ensures
        line_capacity(*final(line)) == line_capacity(*old(line)),
        match res {
            Some(v) => {
                &&& entries_have_key(line_entries(*old(line)), key)
                &&& *v == line_entries(*old(line))[entries_key_index(line_entries(*old(line)), key)].1
                &&& line_entries(*final(line)) == entries_set(line_entries(*old(line)), key, *final(v))
            },
            None => {
                &&& !entries_have_key(line_entries(*old(line)), key)
                &&& line_entries(*final(line)) == line_entries(*old(line))
            },
        },
{
    line.get_mut(key)
}

/// `SparseSet::insert`: overwrites the entry for `key` in place, or appends a
/// new one; returns whether the key was new. The set keeps its shape.
#[verifier::external_body]
pub(crate) fn line_insert(line: &mut ComponentLine, key: usize, value: Option<u64>) -> (added: bool)
    requires
        key < line_capacity(*old(line)),
        line_wf(*old(line)),
    ensures
        added == !entries_have_key(line_entries(*old(line)), key),
        line_entries(*final(line)) == entries_set(line_entries(*old(line)), key, value),
        line_capacity(*final(line)) == line_capacity(*old(line)),
{
    line.insert(key, value)
}

/// Indexing the set as a slice of its dense entries: the value of the entry
/// at dense position `i`.
#[verifier::external_body]
pub(crate) fn line_entry_value(line: &ComponentLine, i: usize) -> (value: Option<u64>)
    requires
        i < line_entries(*line).len(),
    ensures
        value == line_entries(*line)[i as int].1,
{
    line[i].value
}

/// Storing a value keeps the line's shape.
pub proof fn lemma_entries_set_wf(
    entries: Seq<(usize, Option<u64>)>,
    capacity: nat,
    key: usize,
    value: Option<u64>,
)
    requires
        entries_wf(entries, capacity),
        key < capacity,
    ensures
        entries_wf(entries_set(entries, key, value), capacity),
        entries_slot(entries_set(entries, key, value), key) == value,
        forall|k: usize| k != key ==> entries_slot(entries_set(entries, key, value), k)
            == #[trigger] entries_slot(entries, k),
        forall|k: usize| entries_have_key(entries_set(entries, key, value), k)
            <==> (k == key || #[trigger] entries_have_key(entries, k)),
{
    let new = entries_set(entries, key, value);
    if entries_have_key(entries, key) {
        let idx = entries_key_index(entries, key);
        assert(new[idx].0 == key);
        assert(entries_have_key(new, key));
        assert forall|k: usize| entries_have_key(new, k)
            <==> (k == key || #[trigger] entries_have_key(entries, k)) by {
            if entries_have_key(entries, k) {
                let j = entries_key_index(entries, k);
                if j == idx {
                    assert(new[j].0 == k);
                } else {
                    assert(new[j] == entries[j]);
                }
            }
            if entries_have_key(new, k) {
                let j2 = entries_key_index(new, k);
                if j2 != idx {
                    assert(entries[j2].0 == k);
                }
            }
        }
    } else {
        assert(new[entries.len() as int].0 == key);
        assert(entries_have_key(new, key));
        assert forall|k: usize| entries_have_key(new, k)
            <==> (k == key || #[trigger] entries_have_key(entries, k)) by {
            if entries_have_key(entries, k) {
                let j = entries_key_index(entries, k);
                assert(new[j] == entries[j]);
            }
            if entries_have_key(new, k) {
                let j2 = entries_key_index(new, k);
                if j2 != entries.len() {
                    assert(entries[j2].0 == k);
                }
            }
        }
    }
    assert forall|k: usize| k != key implies entries_slot(new, k) == #[trigger] entries_slot(entries, k) by {
        if entries_have_key(entries, k) {
            let j = entries_key_index(entries, k);
            assert(new[j] == entries[j]);
            assert(entries_have_key(new, k));
            let j2 = entries_key_index(new, k);
            assert(j2 == j);
        } else if entries_have_key(new, k) {
            let j2 = entries_key_index(new, k);
            assert(entries[j2].0 == k);
        }
    }
}

} // verus!
