//! The key/value store: a mapping from key to value, with a separate
//! mapping from key to an absolute expiry deadline in epoch milliseconds.
//! A key absent from the expiry mapping never expires; a deadline is only
//! consulted lazily by readers, never swept.

use vstd::prelude::*;

use crate::bytes::bytes_eq;
use crate::value::{clone_value, value_view, Value, ValueView};

verus! {

/// One stored binding.
struct Entry {
    key: Vec<u8>,
    value: Value,
}

/// One expiry deadline, epoch milliseconds.
struct Deadline {
    key: Vec<u8>,
    at: i128,
}

/// The mathematical content of a store: the value of each key, and the
/// deadline of each key that has one.
pub struct StoreView {
    pub data: Map<Seq<u8>, ValueView>,
    pub expiry: Map<Seq<u8>, int>,
}

/// The map folded from a run of bindings; a later binding for the same
/// key would win, though a well-formed store never holds two.
spec fn entries_map(s: Seq<Entry>) -> Map<Seq<u8>, ValueView>
    decreases s.len(),
{
    if s.len() == 0 {
        Map::empty()
    } else {
        entries_map(s.drop_last()).insert(s.last().key@, value_view(&s.last().value))
    }
}

/// The map folded from a run of deadlines.
spec fn deadlines_map(s: Seq<Deadline>) -> Map<Seq<u8>, int>
    decreases s.len(),
{
    if s.len() == 0 {
        Map::empty()
    } else {
        deadlines_map(s.drop_last()).insert(s.last().key@, s.last().at as int)
    }
}

/// A key stands in the folded map exactly when some binding carries it.
proof fn lemma_entries_map_domain(s: Seq<Entry>, k: Seq<u8>)
    ensures
        entries_map(s).contains_key(k) <==> exists|i: int| 0 <= i < s.len() && s[i].key@ == k,
    decreases s.len(),
{
    if s.len() > 0 {
        lemma_entries_map_domain(s.drop_last(), k);
        if entries_map(s).contains_key(k) {
            if s.last().key@ == k {
                assert(s[s.len() - 1].key@ == k);
            } else {
                let i = choose|i: int| 0 <= i < s.drop_last().len() && s.drop_last()[i].key@ == k;
                assert(s[i].key@ == k);
            }
        }
        if exists|i: int| 0 <= i < s.len() && s[i].key@ == k {
            let i = choose|i: int| 0 <= i < s.len() && s[i].key@ == k;
            if i < s.len() - 1 {
                assert(s.drop_last()[i].key@ == k);
            }
        }
    }
}

/// In a run whose keys are distinct, the folded map sends each bound key
/// to its binding's value.
proof fn lemma_entries_map_at(s: Seq<Entry>, i: int)
    requires
        0 <= i < s.len(),
        forall|p: int, q: int| 0 <= p < q < s.len() ==> (#[trigger] s[p].key@) != (#[trigger] s[q].key@),
    ensures
        entries_map(s).contains_key(s[i].key@),
        entries_map(s)[s[i].key@] == value_view(&s[i].value),
    decreases s.len(),
{
    lemma_entries_map_domain(s, s[i].key@);
    if i < s.len() - 1 {
        assert(s.drop_last()[i] == s[i]);
        lemma_entries_map_at(s.drop_last(), i);
        assert(s.last().key@ != s[i].key@);
    }
}

/// The deadline counterpart of `lemma_entries_map_domain`.
proof fn lemma_deadlines_map_domain(s: Seq<Deadline>, k: Seq<u8>)
    ensures
        deadlines_map(s).contains_key(k) <==> exists|i: int| 0 <= i < s.len() && s[i].key@ == k,
    decreases s.len(),
{
    if s.len() > 0 {
        lemma_deadlines_map_domain(s.drop_last(), k);
        if deadlines_map(s).contains_key(k) {
            if s.last().key@ == k {
                assert(s[s.len() - 1].key@ == k);
            } else {
                let i = choose|i: int| 0 <= i < s.drop_last().len() && s.drop_last()[i].key@ == k;
                assert(s[i].key@ == k);
            }
        }
        if exists|i: int| 0 <= i < s.len() && s[i].key@ == k {
            let i = choose|i: int| 0 <= i < s.len() && s[i].key@ == k;
            if i < s.len() - 1 {
                assert(s.drop_last()[i].key@ == k);
            }
        }
    }
}

/// The deadline counterpart of `lemma_entries_map_at`.
proof fn lemma_deadlines_map_at(s: Seq<Deadline>, i: int)
    requires
        0 <= i < s.len(),
        forall|p: int, q: int| 0 <= p < q < s.len() ==> (#[trigger] s[p].key@) != (#[trigger] s[q].key@),
    ensures
        deadlines_map(s).contains_key(s[i].key@),
        deadlines_map(s)[s[i].key@] == s[i].at as int,
    decreases s.len(),
{
    lemma_deadlines_map_domain(s, s[i].key@);
    if i < s.len() - 1 {
        assert(s.drop_last()[i] == s[i]);
        lemma_deadlines_map_at(s.drop_last(), i);
        assert(s.last().key@ != s[i].key@);
    }
}

/// Updating the value of one binding in a distinct-key run folds to a map
/// insert at its key.
proof fn lemma_entries_map_update(s: Seq<Entry>, i: int, e: Entry)
    requires
        0 <= i < s.len(),
        e.key@ == s[i].key@,
        forall|p: int, q: int| 0 <= p < q < s.len() ==> (#[trigger] s[p].key@) != (#[trigger] s[q].key@),
    ensures
        entries_map(s.update(i, e)) == entries_map(s).insert(e.key@, value_view(&e.value)),
    decreases s.len(),
{
    let t = s.update(i, e);
    if i == s.len() - 1 {
        assert(t.drop_last() =~= s.drop_last());
        assert(t.last() == e);
        assert(entries_map(t) == entries_map(s.drop_last()).insert(e.key@, value_view(&e.value)));
        assert(entries_map(s) == entries_map(s.drop_last()).insert(
            s.last().key@,
            value_view(&s.last().value),
        ));
        assert(entries_map(s).insert(e.key@, value_view(&e.value)) =~= entries_map(
            s.drop_last(),
        ).insert(e.key@, value_view(&e.value)));
    } else {
        assert(t.drop_last() =~= s.drop_last().update(i, e));
        assert(t.last() == s.last());
        lemma_entries_map_update(s.drop_last(), i, e);
        assert(s.last().key@ != e.key@);
        assert(entries_map(s.drop_last()).insert(e.key@, value_view(&e.value)).insert(
            s.last().key@,
            value_view(&s.last().value),
        ) =~= entries_map(s.drop_last()).insert(s.last().key@, value_view(&s.last().value)).insert(
            e.key@,
            value_view(&e.value),
        ));
    }
}

/// The deadline counterpart of `lemma_entries_map_update`.
proof fn lemma_deadlines_map_update(s: Seq<Deadline>, i: int, e: Deadline)
    requires
        0 <= i < s.len(),
        e.key@ == s[i].key@,
        forall|p: int, q: int| 0 <= p < q < s.len() ==> (#[trigger] s[p].key@) != (#[trigger] s[q].key@),
    ensures
        deadlines_map(s.update(i, e)) == deadlines_map(s).insert(e.key@, e.at as int),
    decreases s.len(),
{
    let t = s.update(i, e);
    if i == s.len() - 1 {
        assert(t.drop_last() =~= s.drop_last());
        assert(t.last() == e);
        assert(deadlines_map(s).insert(e.key@, e.at as int) =~= deadlines_map(
            s.drop_last(),
        ).insert(e.key@, e.at as int));
    } else {
        assert(t.drop_last() =~= s.drop_last().update(i, e));
        assert(t.last() == s.last());
        lemma_deadlines_map_update(s.drop_last(), i, e);
        assert(s.last().key@ != e.key@);
        assert(deadlines_map(s.drop_last()).insert(e.key@, e.at as int).insert(
            s.last().key@,
            s.last().at as int,
        ) =~= deadlines_map(s.drop_last()).insert(s.last().key@, s.last().at as int).insert(
            e.key@,
            e.at as int,
        ));
    }
}

/// The shared key/value store with per-key optional expiry.
pub struct Store {
    entries: Vec<Entry>,
    deadlines: Vec<Deadline>,
}

impl View for Store {
    type V = StoreView;

    closed spec fn view(&self) -> StoreView {
        StoreView { data: entries_map(self.entries@), expiry: deadlines_map(self.deadlines@) }
    }
}

impl Store {
    /// Well-formed: each key is bound at most once on either side.
    pub closed spec fn wf(&self) -> bool {
        &&& forall|p: int, q: int|
            0 <= p < q < self.entries@.len() ==> (#[trigger] self.entries@[p].key@)
                != (#[trigger] self.entries@[q].key@)
        &&& forall|p: int, q: int|
            0 <= p < q < self.deadlines@.len() ==> (#[trigger] self.deadlines@[p].key@)
                != (#[trigger] self.deadlines@[q].key@)
    }

    /// An empty store: nothing bound, nothing expiring.
    pub fn new() -> (r: Self)
        ensures
            r.wf(),
            r@.data == Map::<Seq<u8>, ValueView>::empty(),
            r@.expiry == Map::<Seq<u8>, int>::empty(),
    {
        Store { entries: Vec::new(), deadlines: Vec::new() }
    }

    /// Binds `key` to `value`, overwriting any prior value; any prior
    /// expiry deadline on the key is left in place.
    pub fn put(&mut self, key: &[u8], value: Value)
        requires
            old(self).wf(),
        ensures
            final(self).wf(),
            final(self)@.data == old(self)@.data.insert(key@, value@),
            final(self)@.expiry == old(self)@.expiry,
    {
        let mut i: usize = 0;
        while i < self.entries.len()
            invariant
                old(self).wf(),
                self == old(self),
                i <= self.entries@.len(),
                forall|j: int| 0 <= j < i ==> (#[trigger] self.entries@[j].key@) != key@,
            decreases self.entries@.len() - i,
        {
            if bytes_eq(self.entries[i].key.as_slice(), key) {
                let ghost prior = self.entries@;
                let entry = Entry { key: vstd::slice::slice_to_vec(key), value };
                let slot = vstd::std_specs::vec::vec_index_mut(&mut self.entries, i);
                *slot = entry;
                proof {
                    assert(self.entries@ =~= prior.update(i as int, self.entries@[i as int]));
                    lemma_entries_map_update(prior, i as int, self.entries@[i as int]);
                }
                return;
            }
            i = i + 1;
        }
        let ghost prior = self.entries@;
        self.entries.push(Entry { key: vstd::slice::slice_to_vec(key), value });
        proof {
            assert(self.entries@.drop_last() =~= prior);
            lemma_entries_map_domain(prior, key@);
            assert forall|p: int, q: int|
                0 <= p < q < self.entries@.len() implies (#[trigger] self.entries@[p].key@)
                != (#[trigger] self.entries@[q].key@) by {
                if q < self.entries@.len() - 1 {
                    assert(prior[p].key@ != prior[q].key@);
                }
            }
        }
    }

    /// The value bound to `key`, regardless of any expiry deadline;
    /// interpreting expiry is the caller's concern.
    pub fn get(&mut self, key: &[u8]) -> (r: Option<Value>)
        requires
            old(self).wf(),
        ensures
            final(self).wf(),
            *final(self) == *old(self),
            match r {
                Some(v) => final(self)@.data.contains_key(key@) && v@ == final(self)@.data[key@],
                None => !final(self)@.data.contains_key(key@),
            },
    {
        let mut i: usize = 0;
        while i < self.entries.len()
            invariant
                old(self).wf(),
                self == old(self),
                i <= self.entries@.len(),
                forall|j: int| 0 <= j < i ==> (#[trigger] self.entries@[j].key@) != key@,
            decreases self.entries@.len() - i,
        {
            if bytes_eq(self.entries[i].key.as_slice(), key) {
                proof {
                    lemma_entries_map_at(self.entries@, i as int);
                }
                return Some(clone_value(&self.entries[i].value));
            }
            i = i + 1;
        }
        proof {
            lemma_entries_map_domain(self.entries@, key@);
        }
        None
    }

    /// Sets or overwrites the expiry deadline for `key`, epoch
    /// milliseconds; the value bindings are untouched.
    pub fn set_expiry(&mut self, key: &[u8], expiry_ts: i128)
        requires
            old(self).wf(),
        ensures
            final(self).wf(),
            final(self)@.data == old(self)@.data,
            final(self)@.expiry == old(self)@.expiry.insert(key@, expiry_ts as int),
    {
        let mut i: usize = 0;
        while i < self.deadlines.len()
            invariant
                old(self).wf(),
                self == old(self),
                i <= self.deadlines@.len(),
                forall|j: int| 0 <= j < i ==> (#[trigger] self.deadlines@[j].key@) != key@,
            decreases self.deadlines@.len() - i,
        {
            if bytes_eq(self.deadlines[i].key.as_slice(), key) {
                let ghost prior = self.deadlines@;
                let entry = Deadline { key: vstd::slice::slice_to_vec(key), at: expiry_ts };
                let slot = vstd::std_specs::vec::vec_index_mut(&mut self.deadlines, i);
                *slot = entry;
                proof {
                    assert(self.deadlines@ =~= prior.update(i as int, self.deadlines@[i as int]));
                    lemma_deadlines_map_update(prior, i as int, self.deadlines@[i as int]);
                }
                return;
            }
            i = i + 1;
        }
        let ghost prior = self.deadlines@;
        self.deadlines.push(Deadline { key: vstd::slice::slice_to_vec(key), at: expiry_ts });
        proof {
            assert(self.deadlines@.drop_last() =~= prior);
            lemma_deadlines_map_domain(prior, key@);
            assert forall|p: int, q: int|
                0 <= p < q < self.deadlines@.len() implies (#[trigger] self.deadlines@[p].key@)
                != (#[trigger] self.deadlines@[q].key@) by {
                if q < self.deadlines@.len() - 1 {
                    assert(prior[p].key@ != prior[q].key@);
                }
            }
        }
    }

    /// The expiry deadline bound to `key`, if any.
    pub fn get_expiry(&self, key: &[u8]) -> (r: Option<i128>)
        requires
            self.wf(),
        ensures
            match r {
                Some(t) => self@.expiry.contains_key(key@) && t as int == self@.expiry[key@],
                None => !self@.expiry.contains_key(key@),
            },
    {
        let mut i: usize = 0;
        while i < self.deadlines.len()
            invariant
                self.wf(),
                i <= self.deadlines@.len(),
                forall|j: int| 0 <= j < i ==> (#[trigger] self.deadlines@[j].key@) != key@,
            decreases self.deadlines@.len() - i,
        {
            if bytes_eq(self.deadlines[i].key.as_slice(), key) {
                proof {
                    lemma_deadlines_map_at(self.deadlines@, i as int);
                }
                return Some(self.deadlines[i].at);
            }
            i = i + 1;
        }
        proof {
            lemma_deadlines_map_domain(self.deadlines@, key@);
        }
        None
    }
}

} // verus!
