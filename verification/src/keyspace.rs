//! The keyspace: a mapping from key bytes to stored items, with lazy
//! expiration checked on read.

use vstd::prelude::*;
use vstd::slice::slice_index_get;
use crate::redis_item::{ItemModel, RedisItem, item_live};

verus! {

/// What a `GET` observes: the stored bytes when the key is present and
/// still live at `now_ms`, absence otherwise.
pub open spec fn lookup_model(m: Map<Seq<u8>, ItemModel>, k: Seq<u8>, now_ms: u64) -> Option<Seq<u8>> {
    if m.contains_key(k) && item_live(m[k], now_ms) {
        Some(m[k].data)
    } else {
        None
    }
}

/// The keyspace, stored as a list of key/item pairs with pairwise
/// distinct keys.
pub struct Keyspace {
    entries: Vec<(Vec<u8>, RedisItem)>,
}

/// The map described by an association list: a later pair for the same
/// key overrides an earlier one.
pub open spec fn assoc_map(es: Seq<(Vec<u8>, RedisItem)>) -> Map<Seq<u8>, ItemModel>
    decreases es.len(),
{
    if es.len() == 0 {
        Map::empty()
    } else {
        assoc_map(es.drop_last()).insert(es.last().0@, es.last().1@)
    }
}

/// The keys of an association list, in storage order.
pub open spec fn assoc_keys(es: Seq<(Vec<u8>, RedisItem)>) -> Seq<Seq<u8>> {
    es.map_values(|e: (Vec<u8>, RedisItem)| e.0@)
}

proof fn lemma_assoc_map_domain(es: Seq<(Vec<u8>, RedisItem)>)
    ensures
        forall|k: Seq<u8>| assoc_map(es).contains_key(k) <==> assoc_keys(es).contains(k),
    decreases es.len(),
{
    if es.len() > 0 {
        lemma_assoc_map_domain(es.drop_last());
        let ks = assoc_keys(es);
        let ksd = assoc_keys(es.drop_last());
        assert(forall|j: int| 0 <= j < es.len() ==> ks[j] == es[j].0@);
        assert(forall|j: int| 0 <= j < es.len() - 1 ==> ksd[j] == es[j].0@);
        assert forall|k: Seq<u8>| assoc_map(es).contains_key(k) implies ks.contains(k) by {
            if k == es.last().0@ {
                assert(ks[es.len() - 1] == k);
            } else {
                assert(ksd.contains(k));
                let i = choose|i: int| 0 <= i < ksd.len() && ksd[i] == k;
                assert(ks[i] == k);
            }
        }
        assert forall|k: Seq<u8>| ks.contains(k) implies assoc_map(es).contains_key(k) by {
            let i = choose|i: int| 0 <= i < ks.len() && ks[i] == k;
            if i < es.len() - 1 {
                assert(ksd[i] == k);
                assert(ksd.contains(k));
            } else {
                assert(k == es.last().0@);
            }
        }
    }
}

/// With pairwise distinct keys, the pair at any index gives the map's
/// value for its key.
proof fn lemma_assoc_map_index(es: Seq<(Vec<u8>, RedisItem)>, i: int)
    requires
        forall|p: int, q: int|
            0 <= p < q < es.len() ==> es[p].0@ != es[q].0@,
        0 <= i < es.len(),
    ensures
        assoc_map(es).contains_key(es[i].0@),
        assoc_map(es)[es[i].0@] == es[i].1@,
    decreases es.len(),
{
    if i < es.len() - 1 {
        lemma_assoc_map_index(es.drop_last(), i);
        assert(es[i].0@ != es.last().0@);
    }
}

impl Keyspace {
    /// The abstract mapping from key bytes to items.
    pub closed spec fn view(&self) -> Map<Seq<u8>, ItemModel> {
        assoc_map(self.entries@)
    }

    /// The keys currently stored, in insertion order.
    pub closed spec fn key_seq(&self) -> Seq<Seq<u8>> {
        assoc_keys(self.entries@)
    }

    /// Keys are pairwise distinct.
    pub closed spec fn wf(&self) -> bool {
        forall|p: int, q: int|
            0 <= p < q < self.entries@.len() ==> self.entries@[p].0@ != self.entries@[q].0@
    }

    /// With the invariant, every stored key appears in `key_seq` exactly
    /// once, so a `keys()` snapshot lists each key of the map once.
    pub proof fn lemma_keys_distinct(&self)
        requires
            self.wf(),
        ensures
            forall|p: int, q: int|
                0 <= p < q < self.key_seq().len() ==> self.key_seq()[p] != self.key_seq()[q],
    {
        assert forall|p: int, q: int|
            0 <= p < q < self.key_seq().len() implies self.key_seq()[p] != self.key_seq()[q] by {
            assert(self.key_seq()[p] == self.entries@[p].0@);
            assert(self.key_seq()[q] == self.entries@[q].0@);
        }
    }

    /// Every key of `key_seq` is in the map and conversely.
    pub proof fn lemma_keys_complete(&self)
        ensures
            forall|k: Seq<u8>| self@.contains_key(k) <==> self.key_seq().contains(k),
    {
        lemma_assoc_map_domain(self.entries@);
    }

    /// An empty keyspace.
    pub fn new() -> (r: Self)
        ensures
            r.wf(),
            r@ == Map::<Seq<u8>, ItemModel>::empty(),
            r.key_seq() == Seq::<Seq<u8>>::empty(),
    {
        let r = Keyspace { entries: Vec::new() };
        proof {
            assert(r.key_seq() =~= Seq::<Seq<u8>>::empty());
        }
        r
    }

    /// Inserts `item` under `key`, overwriting any previous entry for the
    /// same key (and with it any previous expiration).
    pub fn insert(&mut self, key: Vec<u8>, item: RedisItem)
        requires
            old(self).wf(),
        ensures
            final(self).wf(),
            final(self)@ == old(self)@.insert(key@, item@),
            old(self).key_seq().contains(key@) ==> final(self).key_seq() == old(self).key_seq(),
            !old(self).key_seq().contains(key@) ==> final(self).key_seq() == old(self).key_seq().push(
                key@,
            ),
    {
        let ghost es0 = old(self).entries@;
        let n = self.entries.len();
        let mut i: usize = 0;
        while i < n
            invariant
                old(self).wf(),
                es0 == old(self).entries@,
                n == self.entries@.len(),
                i <= n,
                self.entries@ == es0,
                forall|j: int| 0 <= j < i ==> es0[j].0@ != key@,
            decreases n - i,
        {
            if bytes_eq(self.entries[i].0.as_slice(), key.as_slice()) {
                proof {
                    assert(es0[i as int].0@ == key@);
                    assert forall|j: int| 0 <= j < es0.len() && j != i implies
                        es0[j].0@ != es0[i as int].0@ by {
                        if j < i {
                            assert(es0[j].0@ != key@);
                        } else {
                            assert(old(self).entries@[i as int].0@ != old(self).entries@[j].0@);
                        }
                    }
                }
                let replaced = (key, item);
                self.entries.set(i, replaced);
                proof {
                    lemma_assoc_update(es0, self.entries@, i as int);
                    assert(self@ =~= old(self)@.insert(key@, item@));
                    assert(old(self).key_seq()[i as int] == key@);
                    assert(self.key_seq() =~= old(self).key_seq());
                }
                return;
            }
            i += 1;
        }
        self.entries.push((key, item));
        proof {
            assert(self.entries@.drop_last() =~= es0);
            assert(self.key_seq()[n as int] == key@);
            assert(forall|j: int| 0 <= j < n ==> self.entries@[j] == es0[j]);
            assert(!old(self).key_seq().contains(key@)) by {
                if old(self).key_seq().contains(key@) {
                    let j = choose|j: int|
                        0 <= j < old(self).key_seq().len() && old(self).key_seq()[j] == key@;
                    assert(es0[j].0@ == key@);
                }
            }
            assert(self.key_seq() =~= old(self).key_seq().push(key@));
        }
    }

    /// Looks the key up with lazy expiration: an entry whose expiration
    /// lies strictly before `now_ms` is reported as absent.
    pub fn get(&self, key: &Vec<u8>, now_ms: u64) -> (r: Option<Vec<u8>>)
        requires
            self.wf(),
        ensures
            match r {
                Some(v) => lookup_model(self@, key@, now_ms) == Some(v@),
                None => lookup_model(self@, key@, now_ms) is None,
            },
    {
        proof {
            self.lemma_keys_complete();
        }
        let n = self.entries.len();
        let mut i: usize = 0;
        while i < n
            invariant
                self.wf(),
                n == self.entries@.len(),
                i <= n,
                forall|j: int| 0 <= j < i ==> self.entries@[j].0@ != key@,
            decreases n - i,
        {
            if bytes_eq(self.entries[i].0.as_slice(), key.as_slice()) {
                proof {
                    lemma_assoc_map_index(self.entries@, i as int);
                }
                let item = &self.entries[i].1;
                if item.is_expired(now_ms) {
                    return None;
                }
                let mut out: Vec<u8> = Vec::new();
                push_bytes(&mut out, item.get_data().as_slice());
                return Some(out);
            }
            i += 1;
        }
        proof {
            assert(!self.key_seq().contains(key@)) by {
                if self.key_seq().contains(key@) {
                    let j = choose|j: int| 0 <= j < self.key_seq().len() && self.key_seq()[j] == key@;
                    assert(self.entries@[j].0@ == key@);
                }
            }
        }
        None
    }

    /// A snapshot of the current keys, in insertion order. Expired entries
    /// are not filtered out.
    pub fn keys(&self) -> (r: Vec<Vec<u8>>)
        ensures
            r@.len() == self.key_seq().len(),
            forall|i: int| 0 <= i < r@.len() ==> r@[i]@ == self.key_seq()[i],
    {
        let n = self.entries.len();
        let mut out: Vec<Vec<u8>> = Vec::new();
        let mut i: usize = 0;
        while i < n
            invariant
                n == self.entries@.len(),
                i <= n,
                out@.len() == i,
                forall|j: int| 0 <= j < i ==> out@[j]@ == self.key_seq()[j],
            decreases n - i,
        {
            let mut k: Vec<u8> = Vec::new();
            push_bytes(&mut k, self.entries[i].0.as_slice());
            out.push(k);
            i += 1;
        }
        out
    }
}

/// Replacing the pair at index `i` with one carrying the same key (in view)
/// updates the association map at exactly that key, provided no earlier
/// pair used the key.
proof fn lemma_assoc_update(es0: Seq<(Vec<u8>, RedisItem)>, es1: Seq<(Vec<u8>, RedisItem)>, i: int)
    requires
        0 <= i < es0.len(),
        es1.len() == es0.len(),
        forall|j: int| 0 <= j < es0.len() && j != i ==> es1[j] == es0[j],
        es1[i].0@ == es0[i].0@,
        forall|j: int| 0 <= j < es0.len() && j != i ==> es0[j].0@ != es0[i].0@,
    ensures
        assoc_map(es1) == assoc_map(es0).insert(es0[i].0@, es1[i].1@),
        forall|j: int| 0 <= j < es0.len() ==> es1[j].0@ == es0[j].0@,
    decreases es0.len(),
{
    if i == es0.len() - 1 {
        assert(es1.drop_last() =~= es0.drop_last());
        assert(assoc_map(es1) =~= assoc_map(es0).insert(es0[i].0@, es1[i].1@));
    } else {
        lemma_assoc_update(es0.drop_last(), es1.drop_last(), i);
        assert(es1.last() == es0.last());
        assert(es0.last().0@ != es0[i].0@);
        assert(assoc_map(es1) =~= assoc_map(es0).insert(es0[i].0@, es1[i].1@)) by {
            assert(assoc_map(es1.drop_last()) == assoc_map(es0.drop_last()).insert(es0[i].0@, es1.drop_last()[i].1@));
            assert(es1.drop_last()[i].1@ == es1[i].1@);
        }
    }
}

/// Byte-for-byte equality of two slices.
pub fn bytes_eq(a: &[u8], b: &[u8]) -> (r: bool)
    ensures
        r == (a@ == b@),
{
    if a.len() != b.len() {
        return false;
    }
    let n = a.len();
    let mut i: usize = 0;
    while i < n
        invariant
            n == a@.len(),
            n == b@.len(),
            i <= n,
            forall|j: int| 0 <= j < i ==> a@[j] == b@[j],
        decreases n - i,
    {
        if *slice_index_get(a, i) != *slice_index_get(b, i) {
            return false;
        }
        i += 1;
    }
    proof {
        assert(a@ =~= b@);
    }
    true
}

/// Appends every byte of `src` to `out`.
pub fn push_bytes(out: &mut Vec<u8>, src: &[u8])
    ensures
        final(out)@ == old(out)@ + src@,
{
    let n = src.len();
    let mut i: usize = 0;
    while i < n
        invariant
            n == src@.len(),
            i <= n,
            out@ == old(out)@ + src@.subrange(0, i as int),
        decreases n - i,
    {
        out.push(*slice_index_get(src, i));
        proof {
            assert(out@ =~= old(out)@ + src@.subrange(0, i + 1));
        }
        i += 1;
    }
    proof {
        assert(out@ =~= old(out)@ + src@);
    }
}

} // verus!
