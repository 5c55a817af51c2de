use vstd::prelude::*;
use std::collections::BTreeMap;

verus! {

broadcast use vstd::std_specs::btree::group_btree_axioms;

/// An ordered list with a selection cursor.
///
/// The cursor is not required to point inside the list: after `clear` it
/// keeps its old position, and `current` then reports that nothing is selected.
#[derive(Debug)]
pub struct SelectionStorage<T> {
    storage: Vec<T>,
    current_selection: usize,
}

/// Cursor position after a step forward on a list of length `len`.
pub open spec fn next_index(cursor: nat, len: nat) -> nat {
    if cursor + 1 < len {
        cursor + 1
    } else {
        0
    }
}

/// Cursor position after a step backward on a list of length `len`.
pub open spec fn prev_index(cursor: nat, len: nat) -> nat {
    if cursor > 0 {
        (cursor - 1) as nat
    } else if len != 0 {
        (len - 1) as nat
    } else {
        cursor
    }
}

/// `s` without the first occurrence of `x`; `s` itself where `x` does not occur.
pub open spec fn without_first<A>(s: Seq<A>, x: A) -> Seq<A>
    decreases s.len(),
{
    if s.len() == 0 {
        s
    } else if s[0] == x {
        s.drop_first()
    } else {
        seq![s[0]] + without_first(s.drop_first(), x)
    }
}

/// Removing the item at the first position that holds `x` leaves `without_first(s, x)`.
pub proof fn lemma_without_first<A>(s: Seq<A>, x: A, p: int)
    requires
        0 <= p < s.len(),
        s[p] == x,
        forall|j: int| 0 <= j < p ==> s[j] != x,
    ensures
        without_first(s, x) == s.remove(p),
    decreases p,
{
    if p > 0 {
        lemma_without_first(s.drop_first(), x, p - 1);
        assert(s.remove(p) =~= seq![s[0]] + s.drop_first().remove(p - 1));
    } else {
        assert(s.remove(0) =~= s.drop_first());
    }
}

/// Taking out the first occurrence of an item that `s` holds takes one copy
/// of it out of the multiset of `s`.
pub proof fn lemma_without_first_multiset<A>(s: Seq<A>, x: A)
    requires
        s.contains(x),
    ensures
        without_first(s, x).to_multiset() == s.to_multiset().remove(x),
        without_first(s, x).push(x).to_multiset() == s.to_multiset(),
{
    s.index_of_first_ensures(x);
    let p = s.index_of_first(x).unwrap();
    lemma_without_first(s, x, p);
    vstd::seq_lib::to_multiset_remove(s, p);
    vstd::seq_lib::to_multiset_build(without_first(s, x), x);
    vstd::seq_lib::to_multiset_contains(s, x);
    assert(s.to_multiset().remove(x).insert(x) =~= s.to_multiset());
}

/// Appending an item that `s` does not hold and taking out its first
/// occurrence gives `s` back.
pub proof fn lemma_without_pushed<A>(s: Seq<A>, x: A)
    requires
        !s.contains(x),
    ensures
        without_first(s.push(x), x) == s,
    decreases s.len(),
{
    if s.len() == 0 {
        assert(s.push(x).drop_first() =~= s);
    } else {
        assert(s.push(x)[0] == s[0]);
        assert(s.push(x).drop_first() =~= s.drop_first().push(x));
        assert(!s.drop_first().contains(x)) by {
            if s.drop_first().contains(x) {
                let q = s.drop_first().index_of(x);
                assert(s[q + 1] == x);
            }
        }
        lemma_without_pushed(s.drop_first(), x);
        assert(seq![s[0]] + s.drop_first() =~= s);
    }
}

/// Cursor position after `k` steps forward.
pub open spec fn next_times(cursor: nat, len: nat, k: nat) -> nat
    decreases k,
{
    if k == 0 {
        cursor
    } else {
        next_index(next_times(cursor, len, (k - 1) as nat), len)
    }
}

/// Cursor position after `k` steps backward.
pub open spec fn prev_times(cursor: nat, len: nat, k: nat) -> nat
    decreases k,
{
    if k == 0 {
        cursor
    } else {
        prev_index(prev_times(cursor, len, (k - 1) as nat), len)
    }
}

/// Stepping forward `k` times from a position inside a list of length `len`
/// lands on position `(cursor + k) mod len`: the cursor passes every position
/// in turn and wraps from the last to the first.
pub proof fn lemma_next_cycles(cursor: nat, len: nat, k: nat)
    requires
        cursor < len,
    ensures
        next_times(cursor, len, k) == (cursor + k) as int % (len as int),
    decreases k,
{
    if k == 0 {
        vstd::arithmetic::div_mod::lemma_small_mod(cursor, len);
    } else {
        lemma_next_cycles(cursor, len, (k - 1) as nat);
        let p = (cursor + k - 1) % (len as int);
        vstd::arithmetic::div_mod::lemma_add_mod_noop(cursor + k - 1, 1, len as int);
        if len == 1 {
            assert(1int % 1 == 0);
        } else {
            vstd::arithmetic::div_mod::lemma_small_mod(1, len);
            if p + 1 < len {
                vstd::arithmetic::div_mod::lemma_small_mod((p + 1) as nat, len);
            } else {
                vstd::arithmetic::div_mod::lemma_mod_self_0(len as int);
            }
        }
    }
}

/// Stepping backward `k` times from a position inside a list of length `len`
/// lands on position `(cursor - k) mod len`: the cursor passes every position
/// in turn and wraps from the first to the last.
pub proof fn lemma_prev_cycles(cursor: nat, len: nat, k: nat)
    requires
        cursor < len,
    ensures
        prev_times(cursor, len, k) == (cursor - k) as int % (len as int),
    decreases k,
{
    if k == 0 {
        vstd::arithmetic::div_mod::lemma_small_mod(cursor, len);
    } else {
        lemma_prev_cycles(cursor, len, (k - 1) as nat);
        let p = (cursor - (k - 1)) % (len as int);
        vstd::arithmetic::div_mod::lemma_sub_mod_noop(cursor - (k - 1), 1, len as int);
        if len == 1 {
            assert(1int % 1 == 0);
        } else {
            vstd::arithmetic::div_mod::lemma_small_mod(1, len);
            if p > 0 {
                vstd::arithmetic::div_mod::lemma_small_mod((p - 1) as nat, len);
            } else {
                vstd::arithmetic::div_mod::lemma_mod_add_multiples_vanish(-1, len as int);
                vstd::arithmetic::div_mod::lemma_small_mod((len - 1) as nat, len);
            }
        }
    }
}

/// Cursor position after removing the selected item, the list now having `len` items.
pub open spec fn clamped_index(cursor: nat, len: nat) -> nat {
    if len <= cursor && cursor > 0 {
        (cursor - 1) as nat
    } else {
        cursor
    }
}

/// The item a cursor selects in `items`, if any.
pub open spec fn selected<T>(items: Seq<T>, cursor: nat) -> Option<T> {
    if cursor < items.len() {
        Some(items[cursor as int])
    } else {
        None
    }
}

impl<T> SelectionStorage<T> {
    /// The items, in order.
    pub closed spec fn items(&self) -> Seq<T> {
        self.storage@
    }

    /// The cursor position.
    pub closed spec fn cursor(&self) -> nat {
        self.current_selection as nat
    }

    /// Same items, in the same order, and the same cursor.
    pub open spec fn same_as(&self, other: &SelectionStorage<T>) -> bool {
        self.items() == other.items() && self.cursor() == other.cursor()
    }

    /// The selected item, if the cursor points inside the list.
    pub open spec fn current_spec(&self) -> Option<T> {
        selected(self.items(), self.cursor())
    }

    pub fn new() -> (r: SelectionStorage<T>)
        ensures
            r.items() == Seq::<T>::empty(),
            r.cursor() == 0,
    {
        SelectionStorage { storage: Vec::new(), current_selection: 0 }
    }

    pub fn new_from(storage: &Vec<T>) -> (r: SelectionStorage<T>)
        where
            T: Clone,
        ensures
            r.items().len() == storage@.len(),
            forall|i: int| 0 <= i < storage@.len() ==> cloned::<T>(storage@[i], #[trigger] r.items()[i]),
            r.cursor() == 0,
    {
        SelectionStorage { storage: storage.clone(), current_selection: 0 }
    }

    /// Moves the cursor one step back, wrapping from the first item to the last.
    pub fn prev(&mut self) -> (r: Option<&T>)
        ensures
            final(self).items() == old(self).items(),
            final(self).cursor() == prev_index(old(self).cursor(), old(self).items().len()),
            r.is_some() == final(self).current_spec().is_some(),
            r.is_some() ==> *r.unwrap() == final(self).current_spec().unwrap(),
    {
        if self.current_selection > 0 {
            self.current_selection = self.current_selection - 1;
        } else if self.storage.len() != 0 {
            self.current_selection = self.storage.len() - 1;
        }
        self.current()
    }

    /// Moves the cursor one step forward, wrapping from the last item to the first.
    pub fn next(&mut self) -> (r: Option<&T>)
        ensures
            final(self).items() == old(self).items(),
            final(self).cursor() == next_index(old(self).cursor(), old(self).items().len()),
            r.is_some() == final(self).current_spec().is_some(),
            r.is_some() ==> *r.unwrap() == final(self).current_spec().unwrap(),
    {
        let len = self.storage.len();
        if len > 0 && self.current_selection < len - 1 {
            self.current_selection = self.current_selection + 1;
        } else {
            self.current_selection = 0;
        }
        self.current()
    }

    /// The selected item; nothing on an empty list or an out-of-range cursor.
    pub fn current(&self) -> (r: Option<&T>)
        ensures
            r.is_some() == self.current_spec().is_some(),
            r.is_some() ==> *r.unwrap() == self.current_spec().unwrap(),
    {
        if self.current_selection < self.storage.len() {
            Some(&self.storage[self.current_selection])
        } else {
            None
        }
    }

    pub fn current_mut(&mut self) -> (r: Option<&mut T>)
        ensures
            r.is_some() == old(self).current_spec().is_some(),
            r.is_some() ==> *r.unwrap() == old(self).current_spec().unwrap(),
            final(self).cursor() == old(self).cursor(),
            r.is_none() ==> final(self).items() == old(self).items(),
            r.is_some() ==> final(self).items() == old(self).items().update(
                old(self).cursor() as int,
                *final(r.unwrap()),
            ),
    {
        if self.current_selection < self.storage.len() {
            Some(&mut self.storage[self.current_selection])
        } else {
            None
        }
    }

    /// Selects the last item.
    pub fn last(&mut self) -> (r: Option<&T>)
        ensures
            final(self).items() == old(self).items(),
            old(self).items().len() == 0 ==> final(self).cursor() == old(self).cursor() && r.is_none(),
            old(self).items().len() != 0 ==> final(self).cursor() == old(self).items().len() - 1
                && r.is_some() && *r.unwrap() == old(self).items().last(),
    {
        if self.storage.len() != 0 {
            self.current_selection = self.storage.len() - 1;
            Some(&self.storage[self.current_selection])
        } else {
            None
        }
    }

    /// Removes the selected item and hands it back, keeping the cursor inside the list.
    pub fn extract_current(&mut self) -> (r: Option<T>)
        ensures
            r == old(self).current_spec(),
            r.is_none() ==> *final(self) == *old(self),
            r.is_some() ==> final(self).items() == old(self).items().remove(old(self).cursor() as int),
            r.is_some() ==> final(self).cursor() == clamped_index(
                old(self).cursor(),
                final(self).items().len(),
            ),
    {
        if self.current_selection < self.storage.len() {
            let item = self.storage.remove(self.current_selection);
            if self.storage.len() <= self.current_selection && self.current_selection > 0 {
                self.current_selection = self.current_selection - 1;
            }
            Some(item)
        } else {
            None
        }
    }

    /// Selects the item at `index`, if there is one; else nothing changes.
    pub fn at(&mut self, index: usize) -> (r: Option<&T>)
        ensures
            final(self).items() == old(self).items(),
            index < old(self).items().len() ==> final(self).cursor() == index && r.is_some()
                && *r.unwrap() == old(self).items()[index as int],
            index >= old(self).items().len() ==> final(self).cursor() == old(self).cursor()
                && r.is_none(),
    {
        if self.storage.len() > index {
            self.current_selection = index;
            Some(&self.storage[index])
        } else {
            None
        }
    }

    pub fn current_index(&self) -> (r: usize)
        ensures
            r == self.cursor(),
    {
        self.current_selection
    }

    /// Appends an item; the cursor stays where it is.
    pub fn insert(&mut self, item: T)
        ensures
            final(self).items() == old(self).items().push(item),
            final(self).cursor() == old(self).cursor(),
    {
        self.storage.push(item);
    }

    pub fn iter(&self) -> (r: std::slice::Iter<'_, T>)
        ensures
            vstd::std_specs::iter::IteratorSpec::remaining(&r) == self.items().as_ref(),
    {
        self.storage.iter()
    }

    pub fn storage(&self) -> (r: &Vec<T>)
        ensures
            r@ == self.items(),
    {
        &self.storage
    }

    pub fn storage_mut(&mut self) -> (r: &mut Vec<T>)
        ensures
            r@ == old(self).items(),
            final(self).items() == final(r)@,
            final(self).cursor() == old(self).cursor(),
    {
        &mut self.storage
    }

    /// Removes every item; the cursor keeps its position.
    pub fn clear(&mut self)
        ensures
            final(self).items() == Seq::<T>::empty(),
            final(self).cursor() == old(self).cursor(),
    {
        self.storage.clear()
    }
}


impl<T: Clone> Clone for SelectionStorage<T> {
    fn clone(&self) -> (r: Self)
        ensures
            r.items().len() == self.items().len(),
            forall|i: int| 0 <= i < self.items().len() ==> cloned::<T>(self.items()[i], #[trigger] r.items()[i]),
            r.cursor() == self.cursor(),
    {
        SelectionStorage { storage: self.storage.clone(), current_selection: self.current_selection }
    }
}

/// Keys in strictly increasing order.
pub open spec fn increasing(keys: Seq<usize>) -> bool {
    forall|i: int, j: int| 0 <= i < j < keys.len() ==> keys[i] < keys[j]
}

/// A set has one listing in increasing order.
pub proof fn lemma_increasing_unique(a: Seq<usize>, b: Seq<usize>)
    requires
        increasing(a),
        increasing(b),
        a.to_set() == b.to_set(),
    ensures
        a == b,
    decreases a.len(),
{
    if a.len() == 0 {
        if b.len() > 0 {
            assert(b.to_set().contains(b[0]));
        }
        assert(a =~= b);
    } else {
        assert(a.to_set().contains(a[0]));
        assert(b.len() > 0) by {
            if b.len() == 0 {
                assert(b.to_set() =~= Set::<usize>::empty());
            }
        }
        assert(b.to_set().contains(b[0]));
        assert(a[0] == b[0]) by {
            assert(b.contains(a[0]));
            assert(a.contains(b[0]));
            let q = b.index_of(a[0]);
            let p = a.index_of(b[0]);
            if p > 0 {
                assert(a[0] < a[p]);
            }
            if q > 0 {
                assert(b[0] < b[q]);
            }
        }
        let a1 = a.drop_first();
        let b1 = b.drop_first();
        assert(a1.to_set() =~= b1.to_set()) by {
            assert forall|x: usize| a1.to_set().contains(x) implies b1.to_set().contains(x) by {
                assert(a1.contains(x));
                let i = a1.index_of(x);
                assert(a[i + 1] == x);
                assert(a.contains(x));
                assert(b.to_set().contains(x));
                let j = b.index_of(x);
                if j == 0 {
                    assert(a[0] < a[i + 1]);
                }
                assert(b1[j - 1] == x);
                assert(b1.contains(x));
            }
            assert forall|x: usize| b1.to_set().contains(x) implies a1.to_set().contains(x) by {
                assert(b1.contains(x));
                let i = b1.index_of(x);
                assert(b[i + 1] == x);
                assert(b.contains(x));
                assert(a.to_set().contains(x));
                let j = a.index_of(x);
                if j == 0 {
                    assert(b[0] < b[i + 1]);
                }
                assert(a1[j - 1] == x);
                assert(a1.contains(x));
            }
        }
        lemma_increasing_unique(a1, b1);
        assert(a =~= seq![a[0]] + a1);
        assert(b =~= seq![b[0]] + b1);
    }
}

/// The elements of `s` in increasing order.
pub open spec fn sorted_listing(s: Set<usize>) -> Seq<usize> {
    choose|q: Seq<usize>| increasing(q) && q.to_set() == s
}

/// Every finite set of ids can be listed in increasing order.
pub proof fn lemma_sorted_listing(s: Set<usize>)
    requires
        s.finite(),
    ensures
        increasing(sorted_listing(s)),
        sorted_listing(s).to_set() == s,
    decreases s.len(),
{
    if s.len() == 0 {
        vstd::set_lib::lemma_set_empty_equivalency_len(s);
        let q = Seq::<usize>::empty();
        assert(q.to_set() =~= s);
        assert(increasing(q) && q.to_set() == s);
    } else {
        let leq = |a: usize, b: usize| a <= b;
        assert(vstd::relations::total_ordering(leq)) by {
            assert(vstd::relations::reflexive(leq));
            assert(vstd::relations::antisymmetric(leq));
            assert(vstd::relations::transitive(leq));
            assert(vstd::relations::strongly_connected(leq));
        }
        s.find_unique_maximal_ensures(leq);
        let m = s.find_unique_maximal(leq);
        let rest = s.remove(m);
        lemma_sorted_listing(rest);
        let q0 = sorted_listing(rest);
        let q = q0.push(m);
        assert forall|i: int| 0 <= i < q0.len() implies q0[i] < m by {
            assert(q0.to_set().contains(q0[i]));
            assert(s.contains(q0[i]));
            assert(q0[i] != m);
            if leq(m, q0[i]) {
                assert(vstd::relations::is_maximal(leq, m, s));
                assert(leq(q0[i], m));
            }
        }
        assert(increasing(q));
        assert(q.to_set() =~= s) by {
            assert forall|x: usize| q.to_set().contains(x) implies s.contains(x) by {
                let i = q.index_of(x);
                if i < q0.len() {
                    assert(q0[i] == x);
                    assert(q0.to_set().contains(x));
                }
            }
            assert forall|x: usize| s.contains(x) implies q.to_set().contains(x) by {
                if x == m {
                    assert(q[q0.len() as int] == x);
                } else {
                    assert(rest.contains(x));
                    assert(q0.to_set().contains(x));
                    let i = q0.index_of(x);
                    assert(q[i] == x);
                }
            }
        }
        assert(increasing(q) && q.to_set() == s);
    }
}

/// A map from ids to items, kept in id order, with a selection cursor.
///
/// The cursor counts positions in id order, so "current" is the n-th entry.
#[derive(Debug)]
pub struct SelectionHashMap<T> {
    storage: BTreeMap<usize, T>,
    current_selection: usize,
}

impl<T> SelectionHashMap<T> {
    /// The ids, in increasing order.
    pub closed spec fn key_seq(&self) -> Seq<usize> {
        sorted_listing(self.storage@.dom())
    }

    /// The map from ids to items.
    pub closed spec fn map(&self) -> Map<usize, T> {
        self.storage@
    }

    /// The items, in the order of their ids.
    pub open spec fn value_seq(&self) -> Seq<T> {
        self.key_seq().map_values(|k: usize| self.map()[k])
    }

    pub closed spec fn cursor(&self) -> nat {
        self.current_selection as nat
    }

    /// The ids are listed once each, in increasing order, and are exactly the
    /// ids of the map.
    pub open spec fn wf(&self) -> bool {
        &&& self.key_seq().len() == self.value_seq().len()
        &&& increasing(self.key_seq())
        &&& forall|k: usize| #[trigger] self.map().contains_key(k) <==> self.key_seq().contains(k)
    }

    pub open spec fn len_spec(&self) -> nat {
        self.key_seq().len()
    }

    /// The item of the selected entry, if the cursor points inside the map.
    pub open spec fn current_spec(&self) -> Option<T> {
        selected(self.value_seq(), self.cursor())
    }

    /// Every such map is well formed.
    pub proof fn lemma_wf(&self)
        ensures
            self.wf(),
            self.map().dom().finite(),
            self.map().dom().len() == self.len_spec(),
            self.key_seq().to_set() == self.map().dom(),
    {
        lemma_sorted_listing(self.storage@.dom());
        assert forall|k: usize| #[trigger] self.map().contains_key(k) <==> self.key_seq().contains(k) by {
            if self.key_seq().contains(k) {
                assert(self.key_seq().to_set().contains(k));
            }
            if self.map().contains_key(k) {
                assert(self.key_seq().to_set().contains(k));
            }
        }
        assert(self.key_seq().no_duplicates()) by {
            assert forall|i: int, j: int|
                0 <= i < self.key_seq().len() && 0 <= j < self.key_seq().len() && i != j implies
                self.key_seq()[i] != self.key_seq()[j] by {
                if i < j {
                } else {
                }
            }
        }
        self.key_seq().unique_seq_to_set();
    }

    /// Two maps with the same ids list them the same way.
    proof fn lemma_same_keys(&self, other: &SelectionHashMap<T>)
        requires
            self.map().dom() == other.map().dom(),
        ensures
            self.key_seq() == other.key_seq(),
    {
    }

    pub proof fn lemma_index_of(&self, i: int)
        requires
            self.wf(),
            0 <= i < self.len_spec(),
        ensures
            self.key_seq().index_of(self.key_seq()[i]) == i,
            self.map().contains_key(self.key_seq()[i]),
            self.map()[self.key_seq()[i]] == self.value_seq()[i],
    {
        let k = self.key_seq()[i];
        assert(self.key_seq().contains(k));
        let j = self.key_seq().index_of(k);
        if j < i {
            assert(self.key_seq()[j] < self.key_seq()[i]);
        } else if i < j {
            assert(self.key_seq()[i] < self.key_seq()[j]);
        }
    }

    /// The ids, in increasing order.
    fn key_list(&self) -> (r: Vec<usize>)
        ensures
            r@ == self.key_seq(),
    {
        let mut out: Vec<usize> = Vec::new();
        let ghost ks = vstd::std_specs::iter::IteratorSpec::remaining(&vstd::std_specs::btree::spec_keys_iter(&self.storage));
        for k in it: self.storage.keys()
            invariant
                it.seq() == ks,
                out@ == it.seq().take(it.index() as int).map_values(|x: &usize| *x),
        {
            out.push(*k);
            proof {
                assert(it.seq().take(it.index() + 1) =~= it.seq().take(it.index() as int).push(it.seq()[it.index() as int]));
            }
        }
        assert(out@.len() == ks.len());
        assert(out@ =~= ks.unref());
        proof {
            vstd::std_specs::btree::axiom_spec_keys_iter(&self.storage);
            vstd::std_specs::btree::axiom_increasing_seq_meaning(ks);
            assert forall|i: int, j: int| 0 <= i < j < out@.len() implies out@[i] < out@[j] by {
                assert(vstd::std_specs::cmp::OrdSpec::cmp_spec(&ks[i], &ks[j]) is Less);
            }
            self.lemma_wf();
            lemma_increasing_unique(out@, self.key_seq());
        }
        out
    }

    pub fn new() -> (r: SelectionHashMap<T>)
        ensures
            r.wf(),
            r.key_seq() == Seq::<usize>::empty(),
            r.value_seq() == Seq::<T>::empty(),
            r.map() == Map::<usize, T>::empty(),
            r.cursor() == 0,
    {
        let r = SelectionHashMap { storage: BTreeMap::new(), current_selection: 0 };
        proof {
            r.lemma_wf();
            assert(r.key_seq().to_set().len() == 0);
            if r.key_seq().len() > 0 {
                assert(r.key_seq().to_set().contains(r.key_seq()[0]));
            }
            assert(r.key_seq() =~= Seq::<usize>::empty());
            assert(r.value_seq() =~= Seq::<T>::empty());
        }
        r
    }

    pub fn len(&self) -> (r: usize)
        requires
            self.wf(),
        ensures
            r == self.len_spec(),
            r == self.map().dom().len(),
    {
        proof {
            self.lemma_wf();
        }
        self.storage.len()
    }

    /// Moves the cursor one step back, wrapping from the first entry to the last.
    pub fn prev(&mut self) -> (r: Option<&T>)
        requires
            old(self).wf(),
        ensures
            final(self).wf(),
            final(self).key_seq() == old(self).key_seq(),
            final(self).value_seq() == old(self).value_seq(),
            final(self).cursor() == prev_index(old(self).cursor(), old(self).len_spec()),
            r.is_some() == final(self).current_spec().is_some(),
            r.is_some() ==> *r.unwrap() == final(self).current_spec().unwrap(),
    {
        let len = self.len();
        if self.current_selection > 0 {
            self.current_selection = self.current_selection - 1;
        } else if len != 0 {
            self.current_selection = len - 1;
        }
        self.current()
    }

    /// Moves the cursor one step forward, wrapping from the last entry to the first.
    pub fn next(&mut self) -> (r: Option<&T>)
        requires
            old(self).wf(),
        ensures
            final(self).wf(),
            final(self).key_seq() == old(self).key_seq(),
            final(self).value_seq() == old(self).value_seq(),
            final(self).cursor() == next_index(old(self).cursor(), old(self).len_spec()),
            r.is_some() == final(self).current_spec().is_some(),
            r.is_some() ==> *r.unwrap() == final(self).current_spec().unwrap(),
    {
        let len = self.len();
        if len > 0 && self.current_selection < len - 1 {
            self.current_selection = self.current_selection + 1;
        } else {
            self.current_selection = 0;
        }
        self.current()
    }

    /// The item of the selected entry.
    pub fn current(&self) -> (r: Option<&T>)
        requires
            self.wf(),
        ensures
            r.is_some() == self.current_spec().is_some(),
            r.is_some() ==> *r.unwrap() == self.current_spec().unwrap(),
    {
        if self.current_selection < self.len() {
            Some(self.nth(self.current_selection).1)
        } else {
            None
        }
    }

    /// Selects the entry with the largest id.
    pub fn last(&mut self) -> (r: Option<&T>)
        requires
            old(self).wf(),
        ensures
            final(self).wf(),
            final(self).key_seq() == old(self).key_seq(),
            final(self).value_seq() == old(self).value_seq(),
            old(self).len_spec() == 0 ==> r.is_none() && final(self).cursor() == old(self).cursor(),
            old(self).len_spec() != 0 ==> r.is_some() && *r.unwrap() == old(self).value_seq().last()
                && final(self).cursor() == old(self).len_spec() - 1,
    {
        let len = self.len();
        if len != 0 {
            self.current_selection = len - 1;
            Some(self.nth(len - 1).1)
        } else {
            None
        }
    }

    /// Selects the entry with id `id` and hands back its item; where there is
    /// none, nothing changes and nothing is handed back.
    pub fn at(&mut self, id: usize) -> (r: Option<&T>)
        requires
            old(self).wf(),
        ensures
            final(self).wf(),
            final(self).key_seq() == old(self).key_seq(),
            final(self).value_seq() == old(self).value_seq(),
            r.is_some() == old(self).map().contains_key(id),
            old(self).map().contains_key(id) ==> final(self).cursor() == old(self).key_seq().index_of(id)
                && final(self).key_seq()[final(self).cursor() as int] == id
                && *r.unwrap() == old(self).map()[id],
            !old(self).map().contains_key(id) ==> final(self).cursor() == old(self).cursor(),
    {
        let keys = self.key_list();
        let mut index: usize = 0;
        while index < keys.len()
            invariant
                self.wf(),
                keys@ == self.key_seq(),
                self.key_seq() == old(self).key_seq(),
                self.value_seq() == old(self).value_seq(),
                self.map() == old(self).map(),
                0 <= index <= self.len_spec(),
                forall|j: int| 0 <= j < index ==> self.key_seq()[j] != id,
                self.cursor() == old(self).cursor(),
            decreases self.len_spec() - index,
        {
            if keys[index] == id {
                self.current_selection = index;
                proof {
                    self.lemma_index_of(index as int);
                }
                return self.storage.get(&id);
            }
            index = index + 1;
        }
        None
    }

    pub fn current_index(&self) -> (r: usize)
        ensures
            r == self.cursor(),
    {
        self.current_selection
    }

    /// The item with id `key`.
    pub fn get(&self, key: usize) -> (r: Option<&T>)
        requires
            self.wf(),
        ensures
            r.is_some() == self.map().contains_key(key),
            r.is_some() ==> *r.unwrap() == self.map()[key],
    {
        self.storage.get(&key)
    }

    /// The id and item of the entry at position `n` in id order.
    pub fn nth(&self, n: usize) -> (r: (usize, &T))
        requires
            self.wf(),
            n < self.len_spec(),
        ensures
            r.0 == self.key_seq()[n as int],
            *r.1 == self.value_seq()[n as int],
            self.map().contains_key(r.0),
            self.map()[r.0] == *r.1,
    {
        let keys = self.key_list();
        let key = keys[n];
        proof {
            self.lemma_index_of(n as int);
        }
        match self.storage.get(&key) {
            Some(item) => (key, item),
            None => {
                proof {
                    assert(false);
                }
                (key, self.storage.get(&key).unwrap())
            },
        }
    }

    /// Replaces the item at position `n` in id order, keeping its id.
    pub fn replace_nth(&mut self, n: usize, item: T)
        requires
            old(self).wf(),
            n < old(self).len_spec(),
        ensures
            final(self).wf(),
            final(self).key_seq() == old(self).key_seq(),
            final(self).value_seq() == old(self).value_seq().update(n as int, item),
            final(self).cursor() == old(self).cursor(),
            final(self).map() == old(self).map().insert(old(self).key_seq()[n as int], item),
    {
        let keys = self.key_list();
        let key = keys[n];
        proof {
            old(self).lemma_index_of(n as int);
        }
        self.storage.insert(key, item);
        proof {
            assert(self.map().dom() =~= old(self).map().dom());
            self.lemma_same_keys(old(self));
            self.lemma_wf();
            assert(self.value_seq() =~= old(self).value_seq().update(n as int, item)) by {
                assert forall|i: int| 0 <= i < self.len_spec() && i != n implies self.key_seq()[i] != key by {
                    if i < n {
                        assert(self.key_seq()[i] < self.key_seq()[n as int]);
                    } else {
                        assert(self.key_seq()[n as int] < self.key_seq()[i]);
                    }
                }
            }
        }
    }

    /// Inserts or replaces the item with id `key`; the cursor does not move.
    pub fn insert(&mut self, key: usize, item: T)
        requires
            old(self).wf(),
        ensures
            final(self).wf(),
            final(self).map() == old(self).map().insert(key, item),
            final(self).cursor() == old(self).cursor(),
    {
        self.storage.insert(key, item);
        proof {
            self.lemma_wf();
        }
    }

    /// The entries, in the order of their ids.
    pub fn iter(&self) -> (r: std::collections::btree_map::Iter<'_, usize, T>)
        requires
            self.wf(),
        ensures
            vstd::std_specs::iter::IteratorSpec::remaining(&r).len() == self.len_spec(),
            forall|i: int|
                0 <= i < self.len_spec() ==> {
                    &&& *(#[trigger] vstd::std_specs::iter::IteratorSpec::remaining(&r)[i]).0 == self.key_seq()[i]
                    &&& *vstd::std_specs::iter::IteratorSpec::remaining(&r)[i].1 == self.value_seq()[i]
                },
    {
        let r = self.storage.iter();
        proof {
            self.lemma_wf();
            let v = vstd::std_specs::iter::IteratorSpec::remaining(&r);
            let ks = v.map_values(|kv: (&usize, &T)| *kv.0);
            vstd::std_specs::btree::axiom_increasing_seq_meaning(ks);
            assert(increasing(ks)) by {
                assert forall|i: int, j: int| 0 <= i < j < ks.len() implies ks[i] < ks[j] by {
                    assert(vstd::std_specs::cmp::OrdSpec::cmp_spec(&ks[i], &ks[j]) is Less);
                }
            }
            assert(ks.to_set() =~= self.key_seq().to_set()) by {
                assert forall|k: usize| ks.to_set().contains(k) implies self.map().contains_key(k) by {
                    let i = ks.index_of(k);
                    assert(self.map().contains_key(*v[i].0));
                }
                assert forall|k: usize| self.map().contains_key(k) implies ks.to_set().contains(k) by {
                    assert(v.contains((&k, &self.map()[k])));
                    let i = v.index_of((&k, &self.map()[k]));
                    assert(ks[i] == k);
                }
            }
            lemma_increasing_unique(ks, self.key_seq());
            assert forall|i: int| 0 <= i < self.len_spec() implies *(#[trigger] v[i]).1 == self.value_seq()[i] by {
                assert(ks[i] == *v[i].0);
                assert(self.map().contains_key(*v[i].0));
            }
        }
        r
    }

    /// The map from ids to items.
    pub fn storage(&self) -> (r: &BTreeMap<usize, T>)
        ensures
            r@ == self.map(),
    {
        &self.storage
    }

    /// The map from ids to items, for changing in place.
    pub fn storage_mut(&mut self) -> (r: &mut BTreeMap<usize, T>)
        ensures
            r@ == old(self).map(),
            final(self).map() == final(r)@,
            final(self).cursor() == old(self).cursor(),
    {
        &mut self.storage
    }

    /// Removes every entry; the cursor keeps its position.
    pub fn clear(&mut self)
        ensures
            final(self).wf(),
            final(self).map() == Map::<usize, T>::empty(),
            final(self).len_spec() == 0,
            final(self).cursor() == old(self).cursor(),
    {
        self.storage.clear();
        proof {
            self.lemma_wf();
        }
    }
}

impl<T: Clone> Clone for SelectionHashMap<T> {
    fn clone(&self) -> (r: Self)
        ensures
            r.key_seq() == self.key_seq(),
            r.value_seq().len() == self.value_seq().len(),
            forall|i: int| 0 <= i < self.value_seq().len() ==> cloned::<T>(self.value_seq()[i], #[trigger] r.value_seq()[i]),
            r.cursor() == self.cursor(),
    {
        let r = SelectionHashMap { storage: self.storage.clone(), current_selection: self.current_selection };
        proof {
            r.lemma_same_keys(self);
        }
        r
    }
}

} // verus!
