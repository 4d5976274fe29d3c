//! Storage keyed by address: one value per account, where an account without a
//! value reads as storage's default.
use crate::config::{lemma_position_of, position_of};
use crate::types::Address;
use vstd::prelude::*;

verus! {

/// The addresses of a list of entries.
pub open spec fn keys_of<T>(s: Seq<(Seq<u8>, T)>) -> Seq<Seq<u8>> {
    s.map_values(|e: (Seq<u8>, T)| e.0)
}

/// The value stored for `k`, if any.
pub open spec fn lookup<T>(s: Seq<(Seq<u8>, T)>, k: Seq<u8>) -> Option<T> {
    let p = position_of(keys_of(s), k);
    if p == 0 {
        None
    } else {
        Some(s[p - 1].1)
    }
}

/// The entries after `v` is stored for `k`: in place where `k` has an entry,
/// at the end where it has none.
pub open spec fn stored<T>(s: Seq<(Seq<u8>, T)>, k: Seq<u8>, v: T) -> Seq<(Seq<u8>, T)> {
    let p = position_of(keys_of(s), k);
    if p == 0 {
        s.push((k, v))
    } else {
        s.update(p - 1, (k, v))
    }
}

/// In a list of entries without repeated keys, the entry at `i` is the one
/// found for its key.
pub proof fn lemma_lookup_at<T>(s: Seq<(Seq<u8>, T)>, i: int)
    requires
        keys_of(s).no_duplicates(),
        0 <= i < s.len(),
    ensures
        position_of(keys_of(s), s[i].0) == i + 1,
        lookup(s, s[i].0) == Some(s[i].1),
{
    lemma_position_of(keys_of(s), s[i].0);
    assert(keys_of(s)[i] == s[i].0);
}

/// Storing keeps keys unrepeated; it gives `v` for `k` and leaves every other
/// key as it was.
pub proof fn lemma_stored<T>(s: Seq<(Seq<u8>, T)>, k: Seq<u8>, v: T)
    requires
        keys_of(s).no_duplicates(),
    ensures
        keys_of(stored(s, k, v)).no_duplicates(),
        forall|j: Seq<u8>| #[trigger]
            lookup(stored(s, k, v), j) == if j == k {
                Some(v)
            } else {
                lookup(s, j)
            },
{
    let t = stored(s, k, v);
    let p = position_of(keys_of(s), k);
    lemma_position_of(keys_of(s), k);
    if p == 0 {
        assert(keys_of(t) =~= keys_of(s).push(k));
    } else {
        assert(keys_of(t) =~= keys_of(s));
    }
    assert(keys_of(t).no_duplicates()) by {
        if p == 0 {
            assert forall|a: int, b: int|
                0 <= a < keys_of(t).len() && 0 <= b < keys_of(t).len() && a != b implies keys_of(
                t,
            )[a] != keys_of(t)[b] by {
                if a < s.len() && b < s.len() {
                } else if a < s.len() {
                    assert(keys_of(s).contains(keys_of(t)[a]));
                } else {
                    assert(keys_of(s).contains(keys_of(t)[b]));
                }
            }
        }
    }
    assert forall|j: Seq<u8>| #[trigger]
        lookup(t, j) == if j == k {
            Some(v)
        } else {
            lookup(s, j)
        } by {
        lemma_position_of(keys_of(t), j);
        lemma_position_of(keys_of(s), j);
        let q = position_of(keys_of(s), j);
        if j == k {
            let i = if p == 0 { s.len() as int } else { p - 1 };
            assert(t[i] == (k, v));
            lemma_lookup_at(t, i);
        } else if q > 0 {
            assert(s[q - 1].0 == j);
            assert(t[q - 1] == s[q - 1]);
            lemma_lookup_at(t, q - 1);
            lemma_lookup_at(s, q - 1);
        } else {
            assert(!keys_of(s).contains(j));
            if keys_of(t).contains(j) {
                let i = choose|i: int| 0 <= i < keys_of(t).len() && keys_of(t)[i] == j;
                if i < s.len() && i != p - 1 {
                    assert(keys_of(s)[i] == j);
                }
            }
        }
    }
}

/// One value per address.
pub struct AddressMap<T> {
    entries: Vec<(Address, T)>,
}

impl<T> View for AddressMap<T> {
    type V = Seq<(Seq<u8>, T)>;

    closed spec fn view(&self) -> Seq<(Seq<u8>, T)> {
        self.entries@.map_values(|e: (Address, T)| (e.0@, e.1))
    }
}

impl<T> AddressMap<T> {
    /// No address has a repeated entry.
    pub open spec fn wf(&self) -> bool {
        keys_of(self@).no_duplicates()
    }

    /// No entries.
    pub fn new() -> (r: AddressMap<T>)
        ensures
            r.wf(),
            r@ == Seq::<(Seq<u8>, T)>::empty(),
    {
        let r = AddressMap { entries: Vec::new() };
        assert(r@ =~= Seq::<(Seq<u8>, T)>::empty());
        assert(keys_of(r@) =~= Seq::<Seq<u8>>::empty());
        r
    }

    /// The map with these entries, where no address has two of them.
    pub fn from_entries(entries: Vec<(Address, T)>) -> (r: Option<AddressMap<T>>)
        ensures
            r is Some <==> keys_of(entries@.map_values(|e: (Address, T)| (e.0@, e.1))).no_duplicates(),
            r matches Some(m) ==> m@ == entries@.map_values(|e: (Address, T)| (e.0@, e.1)),
    {
        let ghost s = entries@.map_values(|e: (Address, T)| (e.0@, e.1));
        let ghost keys = keys_of(s);
        let mut i: usize = 0;
        while i < entries.len()
            invariant
                i <= entries.len(),
                s == entries@.map_values(|e: (Address, T)| (e.0@, e.1)),
                keys == keys_of(s),
                keys.len() == entries.len(),
                forall|a: int, b: int| 0 <= a < b < i ==> keys[a] != keys[b],
            decreases entries.len() - i,
        {
            let mut j: usize = 0;
            while j < i
                invariant
                    j <= i < entries.len(),
                    s == entries@.map_values(|e: (Address, T)| (e.0@, e.1)),
                    keys == keys_of(s),
                    keys.len() == entries.len(),
                    forall|a: int, b: int| 0 <= a < b < i ==> keys[a] != keys[b],
                    forall|a: int| 0 <= a < j ==> keys[a] != keys[i as int],
                decreases i - j,
            {
                assert(keys[j as int] == entries@[j as int].0@);
                assert(keys[i as int] == entries@[i as int].0@);
                if entries[j].0.same_as(&entries[i].0) {
                    assert(!keys.no_duplicates());
                    return None;
                }
                j = j + 1;
            }
            i = i + 1;
        }
        assert(keys.no_duplicates()) by {
            assert forall|a: int, b: int| 0 <= a < keys.len() && 0 <= b < keys.len() && a != b implies keys[a]
                != keys[b] by {
                if a < b {
                } else {
                }
            }
        }
        let r = AddressMap { entries };
        assert(r@ =~= s);
        Some(r)
    }

    /// The entries, in storage order.
    pub fn entries(&self) -> (r: &Vec<(Address, T)>)
        ensures
            r@.map_values(|e: (Address, T)| (e.0@, e.1)) == self@,
    {
        &self.entries
    }

    /// The 1-based position of the entry for `k`, 0 where there is none.
    fn find(&self, k: &Address) -> (r: usize)
        ensures
            r == position_of(keys_of(self@), k@),
            r <= self@.len(),
    {
        let ghost s = keys_of(self@);
        proof {
            lemma_position_of(s, k@);
        }
        let mut i: usize = self.entries.len();
        assert(s.take(i as int) =~= s);
        while i > 0
            invariant
                i <= self.entries.len(),
                s == keys_of(self@),
                s.len() == self.entries.len(),
                position_of(s, k@) == position_of(s.take(i as int), k@),
            decreases i,
        {
            assert(s.take(i as int).drop_last() =~= s.take(i - 1));
            assert(s[i - 1] == self.entries@[i - 1].0@);
            if self.entries[i - 1].0.same_as(k) {
                return i;
            }
            i = i - 1;
        }
        assert(s.take(0) =~= Seq::<Seq<u8>>::empty());
        0
    }

    /// The value stored for `k`, if any.
    pub fn get(&self, k: &Address) -> (r: Option<&T>)
        ensures
            match r {
                Some(v) => lookup(self@, k@) == Some(*v),
                None => lookup(self@, k@) is None,
            },
    {
        let p = self.find(k);
        if p == 0 {
            None
        } else {
            Some(&self.entries[p - 1].1)
        }
    }

    /// Stores `v` for `k`.
    pub fn insert(&mut self, k: Address, v: T)
        requires
            old(self).wf(),
        ensures
            final(self).wf(),
            final(self)@ == stored(old(self)@, k@, v),
    {
        let ghost s = self@;
        let ghost kv = k@;
        let p = self.find(&k);
        if p == 0 {
            self.entries.push((k, v));
            assert(self@ =~= s.push((kv, v)));
        } else {
            self.entries.set(p - 1, (k, v));
            assert(self@ =~= s.update(p - 1, (kv, v)));
        }
        proof {
            lemma_stored(s, kv, v);
        }
    }

    /// Removes the entry for `k`, if any.
    pub fn remove(&mut self, k: &Address)
        requires
            old(self).wf(),
        ensures
            final(self).wf(),
            forall|j: Seq<u8>| #[trigger]
                lookup(final(self)@, j) == if j == k@ {
                    None
                } else {
                    lookup(old(self)@, j)
                },
    {
        let ghost s = self@;
        let p = self.find(k);
        proof {
            lemma_position_of(keys_of(s), k@);
        }
        if p > 0 {
            self.entries.remove(p - 1);
            let ghost t = self@;
            assert(t =~= s.remove(p - 1));
            assert(keys_of(t) =~= keys_of(s).remove(p - 1));
            assert forall|a: int, b: int|
                0 <= a < keys_of(t).len() && 0 <= b < keys_of(t).len() && a != b implies keys_of(
                t,
            )[a] != keys_of(t)[b] by {
                let aa = if a < p - 1 { a } else { a + 1 };
                let bb = if b < p - 1 { b } else { b + 1 };
                assert(keys_of(t)[a] == keys_of(s)[aa]);
                assert(keys_of(t)[b] == keys_of(s)[bb]);
            }
            assert forall|j: Seq<u8>| #[trigger]
                lookup(t, j) == if j == k@ {
                    None
                } else {
                    lookup(s, j)
                } by {
                lemma_position_of(keys_of(t), j);
                lemma_position_of(keys_of(s), j);
                let q = position_of(keys_of(t), j);
                if q > 0 {
                    let qq: int = if q - 1 < p - 1 { q - 1 } else { q as int };
                    assert(t[q - 1] == s[qq]);
                    lemma_lookup_at(s, qq);
                    assert(s[qq].0 != k@);
                } else {
                    if keys_of(s).contains(j) && j != k@ {
                        let i = choose|i: int| 0 <= i < keys_of(s).len() && keys_of(s)[i] == j;
                        let ii = if i < p - 1 { i } else { i - 1 };
                        assert(keys_of(t)[ii] == j);
                    }
                }
            }
        }
    }
}

} // verus!
