//! Small collections: 0/1/n containers, a sum type, scope-stacked maps and invertible sets.

use vstd::prelude::*;

use std::collections::{HashMap, HashSet};
use std::hash::Hash;

use vstd::std_specs::hash::{obeys_key_model, spec_hash_keys_iter};
use vstd::std_specs::iter::IteratorSpec;

verus! {

/// Container holding 0/1/n items, avoiding allocation in the 0/1 cases.
pub enum ZeroOneMany<T> {
    Zero,
    One(T),
    Many(Vec<T>),
}

impl<T> ZeroOneMany<T> {
    /// The items held, in order.
    pub open spec fn items(&self) -> Seq<T> {
        match self {
            ZeroOneMany::Zero => Seq::empty(),
            ZeroOneMany::One(x) => seq![*x],
            ZeroOneMany::Many(v) => v@,
        }
    }

    pub fn into_vec(self) -> (r: Vec<T>)
        ensures
            r@ == self.items(),
    {
        match self {
            ZeroOneMany::Zero => Vec::new(),
            ZeroOneMany::One(x) => {
                let mut v = Vec::new();
                v.push(x);
                v
            },
            ZeroOneMany::Many(v) => v,
        }
    }

    pub fn into_iter(self) -> (r: ZeroOneManyIter<T>)
        ensures
            r.remaining() == self.items(),
    {
        match self {
            ZeroOneMany::Zero => ZeroOneManyIter::Option(None),
            ZeroOneMany::One(x) => ZeroOneManyIter::Option(Some(x)),
            ZeroOneMany::Many(v) => {
                let mut v = v;
                let ghost items = v@;
                let mut rev: Vec<T> = Vec::new();
                while v.len() > 0
                    invariant
                        items == v@ + rev@.reverse(),
                    decreases v@.len(),
                {
                    let x = v.pop().unwrap();
                    let ghost rv = rev@;
                    rev.push(x);
                    assert(rev@.reverse() =~= seq![x] + rv.reverse());
                    assert(items =~= v@ + rev@.reverse());
                }
                assert(items =~= rev@.reverse());
                ZeroOneManyIter::Vec(rev)
            },
        }
    }
}

/// Iterator over a `ZeroOneMany`; a `Vec` is held in reverse so items come off its end.
pub enum ZeroOneManyIter<T> {
    Option(Option<T>),
    Vec(Vec<T>),
}

impl<T> ZeroOneManyIter<T> {
    /// The items still to come, in order.
    pub open spec fn remaining(&self) -> Seq<T> {
        match self {
            ZeroOneManyIter::Option(None) => Seq::empty(),
            ZeroOneManyIter::Option(Some(x)) => seq![*x],
            ZeroOneManyIter::Vec(v) => v@.reverse(),
        }
    }

    pub fn next(&mut self) -> (r: Option<T>)
        ensures
            old(self).remaining().len() == 0 ==> r is None && final(self).remaining().len() == 0,
            old(self).remaining().len() > 0 ==> r == Some(old(self).remaining()[0])
                && final(self).remaining() == old(self).remaining().drop_first(),
    {
        match self {
            ZeroOneManyIter::Option(o) => {
                let r = o.take();
                r
            },
            ZeroOneManyIter::Vec(v) => {
                let ghost old_v = v@;
                let r = v.pop();
                proof {
                    if old_v.len() > 0 {
                        assert(old_v.reverse()[0] == old_v.last());
                        assert(v@.reverse() =~= old_v.reverse().drop_first());
                    }
                }
                r
            },
        }
    }

    /// The last item still to come, taken from the back.
    pub fn next_back(&mut self) -> (r: Option<T>)
        ensures
            old(self).remaining().len() == 0 ==> r is None && final(self).remaining().len() == 0,
            old(self).remaining().len() > 0 ==> r == Some(old(self).remaining().last())
                && final(self).remaining() == old(self).remaining().drop_last(),
    {
        match self {
            ZeroOneManyIter::Option(o) => {
                let r = o.take();
                r
            },
            ZeroOneManyIter::Vec(v) => {
                if v.len() == 0 {
                    None
                } else {
                    let ghost old_v = v@;
                    let r = v.remove(0);
                    proof {
                        assert(old_v.reverse().last() == old_v[0]);
                        assert(v@.reverse() =~= old_v.reverse().drop_last());
                    }
                    Some(r)
                }
            },
        }
    }

    pub fn size_hint(&self) -> (r: (usize, Option<usize>))
        ensures
            r.0 == self.remaining().len(),
            r.1 == Some(r.0),
    {
        match self {
            ZeroOneManyIter::Option(None) => (0, Some(0)),
            ZeroOneManyIter::Option(Some(_)) => (1, Some(1)),
            ZeroOneManyIter::Vec(v) => (v.len(), Some(v.len())),
        }
    }
}

/// The fundamental sum type.
pub enum Either<A, B> {
    A(A),
    B(B),
}

/// A HashMap holding a reference to its parent, allowing efficient scope-based lookup.
pub struct StackedMap<'a, K, V> {
    pub parent: Option<&'a StackedMap<'a, K, V>>,
    pub map: HashMap<K, V>,
}

impl<'a, K, V> StackedMap<'a, K, V> {
    /// All entries visible from this map: its own entries shadow those of its ancestors.
    pub open spec fn view_all(&self) -> Map<K, V>
        decreases self,
    {
        match self.parent {
            None => self.map@,
            Some(p) => p.view_all().union_prefer_right(self.map@),
        }
    }
}

impl<'a, K: Eq + Hash, V> StackedMap<'a, K, V> {
    pub fn new() -> (r: Self)
        ensures
            r.parent is None,
            r.map@ == Map::<K, V>::empty(),
    {
        StackedMap { parent: None, map: HashMap::new() }
    }

    /// A new, empty map whose lookups fall back to `self`.
    pub fn child(&self) -> (r: StackedMap<'_, K, V>)
        ensures
            r.parent == Some(self),
            r.map@ == Map::<K, V>::empty(),
            r.view_all() == self.view_all(),
    {
        let r = StackedMap { parent: Some(self), map: HashMap::new() };
        assert(r.view_all() =~= self.view_all());
        r
    }

    /// Looks a key up in this map, then in its ancestors, nearest first.
    pub fn get_all(&self, k: &K) -> (r: Option<&V>)
        requires
            obeys_key_model::<K>(),
        ensures
            match r {
                Some(v) => self.view_all().contains_key(*k) && *v == self.view_all()[*k],
                None => !self.view_all().contains_key(*k),
            },
        decreases self,
    {
        broadcast use vstd::std_specs::hash::group_hash_axioms;
        match self.get_self(k) {
            Some(v) => Some(v),
            None => match self.parent {
                Some(p) => p.get_all(k),
                None => None,
            },
        }
    }

    /// Looks a key up in this map only.
    pub fn get_self(&self, k: &K) -> (r: Option<&V>)
        requires
            obeys_key_model::<K>(),
        ensures
            match r {
                Some(v) => self.map@.contains_key(*k) && *v == self.map@[*k],
                None => !self.map@.contains_key(*k),
            },
    {
        broadcast use vstd::std_specs::hash::group_hash_axioms;
        self.map.get(k)
    }

    /// Inserts into this map, returning the value it held for the key before.
    pub fn insert_self(&mut self, k: K, v: V) -> (r: Option<V>)
        requires
            obeys_key_model::<K>(),
        ensures
            final(self).parent == old(self).parent,
            final(self).map@ == old(self).map@.insert(k, v),
            match r {
                Some(old_v) => old(self).map@.contains_key(k) && old_v == old(self).map@[k],
                None => !old(self).map@.contains_key(k),
            },
    {
        broadcast use vstd::std_specs::hash::group_hash_axioms;
        self.map.insert(k, v)
    }

    /// Removes from this map only, returning the value it held for the key.
    pub fn remove_self(&mut self, k: &K) -> (r: Option<V>)
        requires
            obeys_key_model::<K>(),
        ensures
            final(self).parent == old(self).parent,
            final(self).map@ == old(self).map@.remove(*k),
            match r {
                Some(old_v) => old(self).map@.contains_key(*k) && old_v == old(self).map@[*k],
                None => !old(self).map@.contains_key(*k),
            },
    {
        broadcast use vstd::std_specs::hash::group_hash_axioms;
        self.map.remove(k)
    }

    /// Empties this map, leaving its ancestors alone.
    pub fn clear_self(&mut self)
        ensures
            final(self).parent == old(self).parent,
            final(self).map@ == Map::<K, V>::empty(),
    {
        self.map.clear();
    }
}

impl<'a, K: Eq + Hash, V> Default for StackedMap<'a, K, V> {
    fn default() -> (r: Self)
        ensures
            r.parent is None,
            r.map@ == Map::<K, V>::empty(),
    {
        Self::new()
    }
}

/// Set capable of representing normal "X ∈ {A, B, C}" but also "X ∉ {X, Y, Z}".
pub struct InvertibleSet<T>(pub InvertibleSetInner<T>);

pub enum InvertibleSetInner<T> {
    Included(HashSet<T>),
    Excluded(HashSet<T>),
}

impl<T: Eq + Hash + Copy> Default for InvertibleSet<T> {
    fn default() -> (r: Self)
        ensures
            r.view() == Set::<T>::empty(),
            !r.is_excluded(),
    {
        Self::new()
    }
}

/// The set of all values outside `s`.
pub open spec fn complement<T>(s: Set<T>) -> Set<T> {
    Set::new(|x: T| !s.contains(x))
}

impl<T> InvertibleSet<T> {
    /// The values the set holds (possibly infinitely many).
    pub open spec fn view(&self) -> Set<T> {
        match self.0 {
            InvertibleSetInner::Included(s) => s@,
            InvertibleSetInner::Excluded(s) => complement(s@),
        }
    }

    /// Whether the set is held as the values it leaves out.
    pub open spec fn is_excluded(&self) -> bool {
        self.0 is Excluded
    }
}

impl<T: Eq + Hash + Copy> InvertibleSet<T> {
    pub fn new() -> (r: Self)
        ensures
            r.view() == Set::<T>::empty(),
            !r.is_excluded(),
    {
        InvertibleSet(InvertibleSetInner::Included(HashSet::new()))
    }

    fn collect(values: Vec<T>) -> (r: HashSet<T>)
        requires
            obeys_key_model::<T>(),
        ensures
            r@ == values@.to_set(),
    {
        broadcast use vstd::std_specs::hash::group_hash_axioms;
        let mut r: HashSet<T> = HashSet::new();
        let mut i: usize = 0;
        while i < values.len()
            invariant
                obeys_key_model::<T>(),
                i <= values@.len(),
                r@ == values@.take(i as int).to_set(),
            decreases values@.len() - i,
        {
            let ghost prev = r@;
            r.insert(values[i]);
            assert(values@.take(i + 1) == values@.take(i as int).push(values@[i as int]));
            proof {
                values@.take(i as int).lemma_push_to_set_commute(values@[i as int]);
            }
            i += 1;
        }
        assert(values@.take(values@.len() as int) == values@);
        r
    }

    /// The set holding exactly `values`.
    pub fn from_included(values: Vec<T>) -> (r: Self)
        requires
            obeys_key_model::<T>(),
        ensures
            r.view() == values@.to_set(),
            !r.is_excluded(),
    {
        InvertibleSet(InvertibleSetInner::Included(Self::collect(values)))
    }

    /// The set holding everything but `values`.
    pub fn from_excluded(values: Vec<T>) -> (r: Self)
        requires
            obeys_key_model::<T>(),
        ensures
            r.view() == complement(values@.to_set()),
            r.is_excluded(),
    {
        InvertibleSet(InvertibleSetInner::Excluded(Self::collect(values)))
    }

    pub fn contains(&self, value: &T) -> (r: bool)
        requires
            obeys_key_model::<T>(),
        ensures
            r == self.view().contains(*value),
    {
        broadcast use vstd::std_specs::hash::group_hash_axioms;
        match &self.0 {
            InvertibleSetInner::Included(included) => included.contains(value),
            InvertibleSetInner::Excluded(excluded) => !excluded.contains(value),
        }
    }

    /// Adds a value; returns whether it was absent before.
    pub fn insert(&mut self, value: T) -> (r: bool)
        requires
            obeys_key_model::<T>(),
        ensures
            final(self).view() == old(self).view().insert(value),
            r == !old(self).view().contains(value),
    {
        broadcast use vstd::std_specs::hash::group_hash_axioms;
        let r = match &mut self.0 {
            InvertibleSetInner::Included(included) => included.insert(value),
            InvertibleSetInner::Excluded(excluded) => excluded.remove(&value),
        };
        assert(self.view() =~= old(self).view().insert(value));
        r
    }

    /// Removes a value; returns whether it was present before.
    pub fn remove(&mut self, value: T) -> (r: bool)
        requires
            obeys_key_model::<T>(),
        ensures
            final(self).view() == old(self).view().remove(value),
            r == old(self).view().contains(value),
    {
        broadcast use vstd::std_specs::hash::group_hash_axioms;
        let r = match &mut self.0 {
            InvertibleSetInner::Included(included) => included.remove(&value),
            InvertibleSetInner::Excluded(excluded) => excluded.insert(value),
        };
        assert(self.view() =~= old(self).view().remove(value));
        r
    }

    /// Adds every value except `values`.
    pub fn insert_everything_except(&mut self, values: Vec<T>)
        requires
            obeys_key_model::<T>(),
        ensures
            final(self).view() == old(self).view().union(complement(values@.to_set())),
    {
        self.union_with(Self::from_excluded(values));
    }

    /// `a` minus every element of `b`, as a hash set.
    fn difference_into(a: HashSet<T>, b: &HashSet<T>) -> (r: HashSet<T>)
        requires
            obeys_key_model::<T>(),
        ensures
            r@ == a@.difference(b@),
    {
        broadcast use vstd::std_specs::hash::group_hash_axioms;
        let mut a = a;
        let ghost a0 = a@;
        let ghost items = spec_hash_keys_iter(b).remaining();
        for v in it: b.iter()
            invariant
                obeys_key_model::<T>(),
                it.seq() == items,
                items == spec_hash_keys_iter(b).remaining(),
                a@ == a0.difference(items.take(it.index() as int).map_values(|p: &T| *p).to_set()),
        {
            let ghost i = it.index() as int;
            a.remove(v);
            assert(items.take(i + 1).map_values(|p: &T| *p) =~= items.take(i).map_values(|p: &T| *p).push(*v));
            proof {
                items.take(i).map_values(|p: &T| *p).lemma_push_to_set_commute(*v);
            }
            assert(a@ =~= a0.difference(items.take(i + 1).map_values(|p: &T| *p).to_set()));
        }
        assert(items.take(items.len() as int) == items);
        assert(items.map_values(|p: &T| *p).to_set() =~= b@) by {
            assert(items.unref().to_set() == b@);
            assert(items.map_values(|p: &T| *p) =~= items.unref());
        }
        assert(a@ =~= a0.difference(b@));
        a
    }

    /// The elements of `a` that are also in `b`, as a hash set.
    fn intersection_of(a: &HashSet<T>, b: &HashSet<T>) -> (r: HashSet<T>)
        requires
            obeys_key_model::<T>(),
        ensures
            r@ == a@.intersect(b@),
    {
        broadcast use vstd::std_specs::hash::group_hash_axioms;
        let mut r: HashSet<T> = HashSet::new();
        let ghost items = spec_hash_keys_iter(a).remaining();
        for v in it: a.iter()
            invariant
                obeys_key_model::<T>(),
                it.seq() == items,
                items == spec_hash_keys_iter(a).remaining(),
                r@ == items.take(it.index() as int).map_values(|p: &T| *p).to_set().intersect(b@),
        {
            let ghost i = it.index() as int;
            if b.contains(v) {
                r.insert(*v);
            }
            assert(items.take(i + 1).map_values(|p: &T| *p) =~= items.take(i).map_values(|p: &T| *p).push(*v));
            proof {
                items.take(i).map_values(|p: &T| *p).lemma_push_to_set_commute(*v);
            }
            assert(r@ =~= items.take(i + 1).map_values(|p: &T| *p).to_set().intersect(b@));
        }
        assert(items.take(items.len() as int) == items);
        assert(items.map_values(|p: &T| *p).to_set() =~= a@) by {
            assert(items.unref().to_set() == a@);
            assert(items.map_values(|p: &T| *p) =~= items.unref());
        }
        r
    }

    /// Makes this set the union of itself and `other`.
    pub fn union_with(&mut self, other: Self)
        requires
            obeys_key_model::<T>(),
        ensures
            final(self).view() == old(self).view().union(other.view()),
    {
        let mut this = InvertibleSetInner::Included(HashSet::new());
        core::mem::swap(&mut this, &mut self.0);
        let result = match (this, other.0) {
            // both included: union
            (InvertibleSetInner::Included(this), InvertibleSetInner::Included(other)) => {
                InvertibleSetInner::Included(Self::add_all(this, &other))
            },
            // both excluded: intersection
            (InvertibleSetInner::Excluded(this), InvertibleSetInner::Excluded(other)) => {
                let both = if this.len() < other.len() {
                    Self::intersection_of(&this, &other)
                } else {
                    let r = Self::intersection_of(&other, &this);
                    assert(r@ =~= this@.intersect(other@));
                    r
                };
                InvertibleSetInner::Excluded(both)
            },
            // one of each: remove included from excluded
            (InvertibleSetInner::Included(this_incl), InvertibleSetInner::Excluded(other_excl)) => {
                InvertibleSetInner::Excluded(Self::difference_into(other_excl, &this_incl))
            },
            (InvertibleSetInner::Excluded(this_excl), InvertibleSetInner::Included(other_incl)) => {
                InvertibleSetInner::Excluded(Self::difference_into(this_excl, &other_incl))
            },
        };
        self.0 = result;
        assert(self.view() =~= old(self).view().union(other.view()));
    }

    /// `a` with every element of `b` added.
    fn add_all(a: HashSet<T>, b: &HashSet<T>) -> (r: HashSet<T>)
        requires
            obeys_key_model::<T>(),
        ensures
            r@ == a@.union(b@),
    {
        broadcast use vstd::std_specs::hash::group_hash_axioms;
        let mut a = a;
        let ghost a0 = a@;
        let ghost items = spec_hash_keys_iter(b).remaining();
        for v in it: b.iter()
            invariant
                obeys_key_model::<T>(),
                it.seq() == items,
                items == spec_hash_keys_iter(b).remaining(),
                a@ == a0.union(items.take(it.index() as int).map_values(|p: &T| *p).to_set()),
        {
            let ghost i = it.index() as int;
            a.insert(*v);
            assert(items.take(i + 1).map_values(|p: &T| *p) =~= items.take(i).map_values(|p: &T| *p).push(*v));
            proof {
                items.take(i).map_values(|p: &T| *p).lemma_push_to_set_commute(*v);
            }
            assert(a@ =~= a0.union(items.take(i + 1).map_values(|p: &T| *p).to_set()));
        }
        assert(items.take(items.len() as int) == items);
        assert(items.map_values(|p: &T| *p).to_set() =~= b@) by {
            assert(items.unref().to_set() == b@);
            assert(items.map_values(|p: &T| *p) =~= items.unref());
        }
        a
    }
}

/// An entry inserted into a map is what lookups from it find, and the other entries visible
/// from it are unchanged.
pub proof fn law_stacked_insert_then_get<'a, K, V>(before: StackedMap<'a, K, V>, after: StackedMap<'a, K, V>, k: K, v: V)
    requires
        after.parent == before.parent,
        after.map@ == before.map@.insert(k, v),
    ensures
        after.view_all().contains_key(k),
        after.view_all()[k] == v,
        forall|k2: K| k2 != k ==> (#[trigger] after.view_all().contains_key(k2) == before.view_all().contains_key(k2)
            && (before.view_all().contains_key(k2) ==> after.view_all()[k2] == before.view_all()[k2])),
{
}

/// Inserting a key the map does not hold itself, then removing it again, gives back what
/// was visible before: the parent's binding for the key, if any, and everything else.
pub proof fn law_stacked_insert_then_remove<'a, K, V>(
    before: StackedMap<'a, K, V>,
    mid: StackedMap<'a, K, V>,
    after: StackedMap<'a, K, V>,
    k: K,
    v: V,
)
    requires
        !before.map@.contains_key(k),
        mid.parent == before.parent,
        mid.map@ == before.map@.insert(k, v),
        after.parent == mid.parent,
        after.map@ == mid.map@.remove(k),
    ensures
        after.view_all() == before.view_all(),
        !after.map@.contains_key(k),
{
    assert(after.map@ =~= before.map@);
}

/// Removing an entry from a nested map uncovers what its parent holds for the key.
pub proof fn law_stacked_remove_uncovers_parent<'a, K, V>(before: StackedMap<'a, K, V>, after: StackedMap<'a, K, V>, k: K)
    requires
        before.parent is Some,
        after.parent == before.parent,
        after.map@ == before.map@.remove(k),
    ensures
        after.view_all().contains_key(k) == before.parent->0.view_all().contains_key(k),
        after.view_all().contains_key(k) ==> after.view_all()[k] == before.parent->0.view_all()[k],
{
}

/// A set built from excluded values holds exactly what the set built from the same values
/// as included does not hold.
pub proof fn law_invertible_complement<T>(incl: InvertibleSet<T>, excl: InvertibleSet<T>, values: Seq<T>, x: T)
    requires
        incl.view() == values.to_set(),
        excl.view() == complement(values.to_set()),
    ensures
        excl.view().contains(x) == !incl.view().contains(x),
{
}

} // verus!
