//! A map from ids to values that hands its entries out in the order of the ids.

use vstd::prelude::*;

use crate::order::{
    ascending, ascending_in_one_way, comes_before, text_less, text_less_is_an_order,
};

verus! {

/// A map from ids to values.
///
/// It stands for a `Map` from texts to values, see [`View`], and besides knows the order
/// of its ids, see [`IdMap::ids`].
pub struct IdMap<V> {
    entries: Vec<(String, V)>,
}

impl<V> View for IdMap<V> {
    type V = Map<Seq<char>, V>;

    closed spec fn view(&self) -> Map<Seq<char>, V> {
        Map::new(
            |id: Seq<char>| self.ids().contains(id),
            |id: Seq<char>| self.entries@[self.ids().index_of(id)].1,
        )
    }
}

impl<V> IdMap<V> {
    /// The ids, first to last.
    pub closed spec fn ids(self) -> Seq<Seq<char>> {
        self.entries@.map_values(|e: (String, V)| e.0@)
    }

    /// Each id comes before those after it, so none occurs twice.
    pub open spec fn wf(self) -> bool {
        ascending(self.ids())
    }

    /// The ids are exactly those that have a value.
    pub proof fn ids_are_the_domain(self, id: Seq<char>)
        ensures
            self@.contains_key(id) <==> self.ids().contains(id),
    {
    }

    /// No id occurs twice.
    pub proof fn ids_are_distinct(self)
        requires
            self.wf(),
        ensures
            self.ids().no_duplicates(),
    {
        assert forall|i: int, j: int|
            0 <= i < self.ids().len() && 0 <= j < self.ids().len() && i
                != j implies self.ids()[i] != self.ids()[j] by {
            let (a, b) = (self.ids()[i], self.ids()[j]);
            text_less_is_an_order(a, b, a);
            if i < j {
                assert(text_less(a, b));
            } else {
                assert(text_less(b, a));
            }
        }
    }

    /// The order of the ids depends on what the map holds alone, not on how it came to hold it.
    pub proof fn same_contents_same_ids(self, other: IdMap<V>)
        requires
            self.wf(),
            other.wf(),
            self@ == other@,
        ensures
            self.ids() == other.ids(),
    {
        assert forall|id: Seq<char>| self.ids().contains(id) <==> other.ids().contains(id) by {
            self.ids_are_the_domain(id);
            other.ids_are_the_domain(id);
        }
        ascending_in_one_way(self.ids(), other.ids());
    }

    /// The value at a position.
    proof fn at_position(self, i: int)
        requires
            self.wf(),
            0 <= i < self.ids().len(),
        ensures
            self@.contains_key(self.ids()[i]),
            self@[self.ids()[i]] == self.entries@[i].1,
    {
        self.ids_are_distinct();
        let id = self.ids()[i];
        assert(self.ids().contains(id));
        let k = self.ids().index_of(id);
        assert(self.ids()[k] == id);
    }

    /// A map with no entries.
    pub fn new() -> (r: Self)
        ensures
            r.wf(),
            r@ == Map::<Seq<char>, V>::empty(),
            r.ids() == Seq::<Seq<char>>::empty(),
    {
        let r = IdMap { entries: Vec::new() };
        assert(r.ids() =~= Seq::<Seq<char>>::empty());
        assert(r@ =~= Map::<Seq<char>, V>::empty());
        r
    }

    /// How many entries there are.
    pub fn len(&self) -> (r: usize)
        ensures
            r == self.ids().len(),
    {
        self.entries.len()
    }

    /// The entry at a position in the order of the ids.
    pub fn entry(&self, i: usize) -> (r: (&String, &V))
        requires
            self.wf(),
            i < self.ids().len(),
        ensures
            r.0@ == self.ids()[i as int],
            self@.contains_key(r.0@),
            *r.1 == self@[r.0@],
    {
        proof {
            self.at_position(i as int);
        }
        let e: &(String, V) = &self.entries[i];
        (&e.0, &e.1)
    }

    /// How many ids come before `id`.
    fn position(&self, id: &str) -> (r: usize)
        requires
            self.wf(),
        ensures
            r <= self.ids().len(),
            forall|i: int| 0 <= i < r ==> text_less(#[trigger] self.ids()[i], id@),
            forall|i: int| r <= i < self.ids().len() ==> !text_less(#[trigger] self.ids()[i], id@),
    {
        let mut k: usize = 0;
        while k < self.entries.len() && comes_before(self.entries[k].0.as_str(), id)
            invariant
                k <= self.ids().len(),
                self.ids().len() == self.entries@.len(),
                forall|i: int| 0 <= i < k ==> text_less(#[trigger] self.ids()[i], id@),
            decreases self.entries@.len() - k,
        {
            assert(self.ids()[k as int] == self.entries@[k as int].0@);
            k = k + 1;
        }
        proof {
            assert forall|i: int| k <= i < self.ids().len() implies !text_less(
                #[trigger] self.ids()[i],
                id@,
            ) by {
                assert(self.ids()[k as int] == self.entries@[k as int].0@);
                text_less_is_an_order(self.ids()[k as int], self.ids()[i], id@);
            }
        }
        k
    }

    /// The position of `id`, if it has a value.
    fn find(&self, id: &str) -> (r: Option<usize>)
        requires
            self.wf(),
        ensures
            match r {
                Some(i) => i < self.ids().len() && self.ids()[i as int] == id@,
                None => !self@.contains_key(id@),
            },
    {
        let k: usize = self.position(id);
        if k < self.entries.len() && !comes_before(id, self.entries[k].0.as_str()) {
            proof {
                assert(self.ids()[k as int] == self.entries@[k as int].0@);
                text_less_is_an_order(self.ids()[k as int], id@, id@);
            }
            Some(k)
        } else {
            proof {
                if self@.contains_key(id@) {
                    let i = self.ids().index_of(id@);
                    assert(self.ids()[i] == id@);
                    text_less_is_an_order(id@, self.ids()[k as int], id@);
                    if i != k {
                        text_less_is_an_order(self.ids()[k as int], id@, id@);
                        assert(text_less(self.ids()[k as int], self.ids()[i]));
                    }
                    assert(self.ids()[k as int] == self.entries@[k as int].0@);
                }
            }
            None
        }
    }

    /// The value of `id`.
    pub fn get(&self, id: &str) -> (r: Option<&V>)
        requires
            self.wf(),
        ensures
            match r {
                Some(v) => self@.contains_key(id@) && *v == self@[id@],
                None => !self@.contains_key(id@),
            },
    {
        match self.find(id) {
            Some(i) => {
                proof {
                    self.at_position(i as int);
                }
                Some(&self.entries[i].1)
            },
            None => None,
        }
    }

    /// Takes the entry at a position out.
    pub fn remove_at(&mut self, i: usize)
        requires
            old(self).wf(),
            i < old(self).ids().len(),
        ensures
            final(self).wf(),
            final(self).ids() == old(self).ids().remove(i as int),
            final(self)@ == old(self)@.remove(old(self).ids()[i as int]),
    {
        let ghost before = *self;
        let _ = self.entries.remove(i);
        proof {
            before.ids_are_distinct();
            let id = before.ids()[i as int];
            assert(self.ids() =~= before.ids().remove(i as int));
            assert(self.wf());
            self.ids_are_distinct();
            assert forall|k: Seq<char>|
                #![auto]
                self@.contains_key(k) <==> before@.remove(id).contains_key(k) by {
                if self@.contains_key(k) {
                    let j = self.ids().index_of(k);
                    assert(self.ids()[j] == k);
                    let h = if j < i { j } else { j + 1 };
                    assert(before.ids()[h] == k);
                    assert(before.ids().contains(k));
                }
                if before@.remove(id).contains_key(k) {
                    let h = before.ids().index_of(k);
                    assert(before.ids()[h] == k);
                    let j = if h < i { h } else { h - 1 };
                    assert(self.ids()[j] == k);
                }
            }
            assert forall|k: Seq<char>| #[trigger] self@.contains_key(k) implies self@[k]
                == before@.remove(id)[k] by {
                let j = self.ids().index_of(k);
                assert(self.ids()[j] == k);
                self.at_position(j);
                let h = if j < i { j } else { j + 1 };
                before.at_position(h);
            }
            assert(self@ =~= before@.remove(id));
        }
    }

    /// Takes the entry of `id` out, if there is one.
    pub fn remove(&mut self, id: &str)
        requires
            old(self).wf(),
        ensures
            final(self).wf(),
            final(self)@ == old(self)@.remove(id@),
    {
        match self.find(id) {
            Some(i) => self.remove_at(i),
            None => {
                assert(self@ =~= self@.remove(id@));
            },
        }
    }

    /// Gives `id` the value `value`, in place of the one it had.
    pub fn insert(&mut self, id: String, value: V)
        requires
            old(self).wf(),
        ensures
            final(self).wf(),
            final(self)@ == old(self)@.insert(id@, value),
    {
        self.remove(id.as_str());
        let k: usize = self.position(id.as_str());
        let ghost before = *self;
        let ghost name = id@;
        self.entries.insert(k, (id, value));
        proof {
            assert(self.ids() =~= before.ids().insert(k as int, name));
            assert forall|i: int, j: int| 0 <= i < j < self.ids().len() implies text_less(
                #[trigger] self.ids()[i],
                #[trigger] self.ids()[j],
            ) by {
                let f = |n: int| if n < k { n } else { n - 1 };
                if i != k {
                    assert(self.ids()[i] == before.ids()[f(i)]);
                }
                if j != k {
                    assert(self.ids()[j] == before.ids()[f(j)]);
                }
                if i == k {
                    let other = before.ids()[j - 1];
                    assert(!text_less(other, name));
                    text_less_is_an_order(other, name, name);
                    assert(before.ids().contains(other));
                    assert(!before@.contains_key(name));
                }
            }
            before.ids_are_distinct();
            self.ids_are_distinct();
            assert forall|x: Seq<char>|
                #![auto]
                self@.contains_key(x) <==> before@.insert(name, value).contains_key(x) by {
                if self@.contains_key(x) {
                    let j = self.ids().index_of(x);
                    assert(self.ids()[j] == x);
                    if j != k {
                        let h = if j < k { j } else { j - 1 };
                        assert(before.ids()[h] == x);
                    }
                }
                if before@.insert(name, value).contains_key(x) {
                    if x == name {
                        assert(self.ids()[k as int] == x);
                    } else {
                        let h = before.ids().index_of(x);
                        assert(before.ids()[h] == x);
                        let j = if h < k { h } else { h + 1 };
                        assert(self.ids()[j] == x);
                    }
                }
            }
            assert forall|x: Seq<char>| #[trigger] self@.contains_key(x) implies self@[x]
                == before@.insert(name, value)[x] by {
                let j = self.ids().index_of(x);
                assert(self.ids()[j] == x);
                self.at_position(j);
                if j != k {
                    let h = if j < k { j } else { j - 1 };
                    before.at_position(h);
                    assert(before.ids()[h] == x);
                }
            }
            assert(self@ =~= before@.insert(name, value));
            assert(self@ =~= old(self)@.insert(name, value));
        }
    }
}

} // verus!
