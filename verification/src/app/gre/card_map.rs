use vstd::prelude::*;

use crate::app::card_library::{Card, CardV};

verus! {

/// The identifiers of a sequence of entries.
pub open spec fn keys_of(s: Seq<(u64, CardV)>) -> Seq<u64> {
    s.map_values(|p: (u64, CardV)| p.0)
}

/// Whether no identifier occurs twice.
pub open spec fn distinct_keys(s: Seq<(u64, CardV)>) -> bool {
    forall|i: int, j: int| 0 <= i < s.len() && 0 <= j < s.len() && i != j ==> (#[trigger] s[i]).0 != (#[trigger] s[j]).0
}

/// Whether some entry has identifier `k`.
pub open spec fn has_key(s: Seq<(u64, CardV)>, k: u64) -> bool {
    exists|i: int| 0 <= i < s.len() && (#[trigger] s[i]).0 == k
}

/// The position of identifier `k` (meaningful where `k` occurs).
pub open spec fn index_of(s: Seq<(u64, CardV)>, k: u64) -> int {
    choose|i: int| 0 <= i < s.len() && (#[trigger] s[i]).0 == k
}

/// Where no identifier occurs twice, the position of an identifier is the one position that holds it.
pub proof fn lemma_index_of(s: Seq<(u64, CardV)>, k: u64, i: int)
    requires
        distinct_keys(s),
        0 <= i < s.len(),
        s[i].0 == k,
    ensures
        index_of(s, k) == i,
        has_key(s, k),
{
    let j = index_of(s, k);
    assert(0 <= j < s.len() && s[j].0 == k);
}

/// Replacing the card of an entry keeps the identifiers, and so keeps them distinct.
pub proof fn lemma_update_card(s: Seq<(u64, CardV)>, i: int, c: CardV)
    requires
        distinct_keys(s),
        0 <= i < s.len(),
    ensures
        distinct_keys(s.update(i, (s[i].0, c))),
        keys_of(s.update(i, (s[i].0, c))) == keys_of(s),
{
    assert(keys_of(s.update(i, (s[i].0, c))) =~= keys_of(s));
}

/// Cards on the battlefield by identifier, kept in the order in which they arrived.
#[derive(Debug)]
pub struct CardMap {
    items: Vec<(u64, Card)>,
}

impl CardMap {
    /// The entries, in order.
    pub closed spec fn entries(&self) -> Seq<(u64, CardV)> {
        self.items@.map_values(|p: (u64, Card)| (p.0, p.1@))
    }

    /// No identifier occurs twice.
    pub open spec fn wf(&self) -> bool {
        distinct_keys(self.entries())
    }

    pub fn new() -> (r: Self)
        ensures
            r.entries() == Seq::<(u64, CardV)>::empty(),
            r.wf(),
    {
        let r = CardMap { items: Vec::new() };
        assert(r.entries() =~= Seq::<(u64, CardV)>::empty());
        r
    }

    /// The number of entries (no identifier occurs twice).
    pub fn len(&self) -> (r: usize)
        ensures
            r == self.entries().len(),
    {
        self.items.len()
    }

    /// The position of the entry with identifier `k`, if any.
    pub fn position(&self, k: u64) -> (r: Option<usize>)
        ensures
            match r {
                Some(i) => i < self.entries().len() && self.entries()[i as int].0 == k,
                None => !has_key(self.entries(), k),
            },
    {
        let mut i: usize = 0;
        while i < self.items.len()
            invariant
                i <= self.items@.len(),
                forall|j: int| 0 <= j < i ==> self.entries()[j].0 != k,
            decreases self.items.len() - i,
        {
            if self.items[i].0 == k {
                return Some(i);
            }
            i += 1;
        }
        None
    }

    pub fn contains_key(&self, k: u64) -> (r: bool)
        ensures
            r == has_key(self.entries(), k),
    {
        self.position(k).is_some()
    }

    /// The identifier at a position.
    pub fn key_at(&self, i: usize) -> (r: u64)
        requires
            i < self.entries().len(),
        ensures
            r == self.entries()[i as int].0,
    {
        self.items[i].0
    }

    /// The card at a position.
    pub fn card_at(&self, i: usize) -> (r: &Card)
        requires
            i < self.entries().len(),
        ensures
            r@ == self.entries()[i as int].1,
    {
        &self.items[i].1
    }

    /// The card with identifier `k`, if any.
    pub fn get(&self, k: u64) -> (r: Option<&Card>)
        ensures
            match r {
                Some(c) => exists|i: int| 0 <= i < self.entries().len() && self.entries()[i].0 == k && self.entries()[i].1 == c@,
                None => !has_key(self.entries(), k),
            },
    {
        match self.position(k) {
            Some(i) => Some(&self.items[i].1),
            None => None,
        }
    }

    /// Replaces the card at a position, keeping its identifier.
    pub fn set_at(&mut self, i: usize, card: Card)
        requires
            i < old(self).entries().len(),
            old(self).wf(),
        ensures
            final(self).wf(),
            final(self).entries() == old(self).entries().update(i as int, (old(self).entries()[i as int].0, card@)),
    {
        let k = self.items[i].0;
        let ghost c = card@;
        let ghost before = self.entries();
        self.items.set(i, (k, card));
        proof {
            assert(self.entries() =~= before.update(i as int, (k, c)));
        }
    }

    /// Inserts a card: an entry with the same identifier is replaced in place and its card
    /// returned; otherwise the entry goes last.
    pub fn insert(&mut self, k: u64, card: Card) -> (r: Option<Card>)
        requires
            old(self).wf(),
        ensures
            final(self).wf(),
            match r {
                Some(old_card) => exists|i: int|
                    0 <= i < old(self).entries().len() && old(self).entries()[i].0 == k
                        && old(self).entries()[i].1 == old_card@
                        && final(self).entries() == old(self).entries().update(i, (k, card@)),
                None => !has_key(old(self).entries(), k) && final(self).entries() == old(self).entries().push((k, card@)),
            },
    {
        let ghost before = self.entries();
        let ghost c = card@;
        match self.position(k) {
            Some(i) => {
                let mut pair = (k, card);
                std::mem::swap(&mut self.items[i], &mut pair);
                proof {
                    assert(self.entries() =~= before.update(i as int, (k, c)));
                }
                Some(pair.1)
            },
            None => {
                self.items.push((k, card));
                proof {
                    assert(self.entries() =~= before.push((k, c)));
                }
                None
            },
        }
    }

    /// Removes the entry with identifier `k`, keeping the order of the others.
    pub fn remove(&mut self, k: u64) -> (r: Option<Card>)
        requires
            old(self).wf(),
        ensures
            final(self).wf(),
            match r {
                Some(c) => exists|i: int|
                    0 <= i < old(self).entries().len() && old(self).entries()[i].0 == k && old(self).entries()[i].1 == c@
                        && final(self).entries() == old(self).entries().remove(i),
                None => !has_key(old(self).entries(), k) && final(self).entries() == old(self).entries(),
            },
    {
        let ghost before = self.entries();
        match self.position(k) {
            Some(i) => {
                let pair = self.items.remove(i);
                proof {
                    assert(self.entries() =~= before.remove(i as int));
                }
                Some(pair.1)
            },
            None => None,
        }
    }

    /// The identifiers, in order.
    pub fn keys(&self) -> (r: Vec<u64>)
        ensures
            r@ == keys_of(self.entries()),
    {
        let mut r: Vec<u64> = Vec::new();
        let mut i: usize = 0;
        while i < self.items.len()
            invariant
                i <= self.items@.len(),
                r@ == keys_of(self.entries()).take(i as int),
            decreases self.items.len() - i,
        {
            r.push(self.items[i].0);
            i += 1;
            assert(r@ =~= keys_of(self.entries()).take(i as int));
        }
        assert(keys_of(self.entries()).take(i as int) =~= keys_of(self.entries()));
        r
    }

    /// Copies of the cards, in order.
    pub fn values(&self) -> (r: Vec<Card>)
        ensures
            r@.len() == self.entries().len(),
            forall|i: int| 0 <= i < r@.len() ==> #[trigger] r@[i]@ == self.entries()[i].1,
    {
        let mut r: Vec<Card> = Vec::new();
        let mut i: usize = 0;
        while i < self.items.len()
            invariant
                i <= self.items@.len(),
                r@.len() == i,
                forall|j: int| 0 <= j < i ==> #[trigger] r@[j]@ == self.entries()[j].1,
            decreases self.items.len() - i,
        {
            r.push(self.items[i].1.clone());
            i += 1;
        }
        r
    }
}

impl Clone for CardMap {
    fn clone(&self) -> (r: Self)
        ensures
            r.entries() == self.entries(),
    {
        let mut items: Vec<(u64, Card)> = Vec::new();
        let mut i: usize = 0;
        while i < self.items.len()
            invariant
                i <= self.items@.len(),
                items@.len() == i,
                forall|j: int| 0 <= j < i ==> (#[trigger] items@[j]).0 == self.items@[j].0 && items@[j].1@ == self.items@[j].1@,
            decreases self.items.len() - i,
        {
            items.push((self.items[i].0, self.items[i].1.clone()));
            i += 1;
        }
        let r = CardMap { items };
        assert(r.entries() =~= self.entries());
        r
    }
}

} // verus!
