//! A multimap from byte strings to lists of positions, kept as a hash table
//! with chaining: std's `HashMap` keyed by a hash of the key bytes, each
//! bucket holding the keys of that hash with their positions.
use std::collections::HashMap;
use vstd::prelude::*;
use crate::bytes::bytes_equal;

verus! {

broadcast use vstd::std_specs::hash::group_hash_axioms;

/// The modulus of the polynomial hash: 2^61 - 1.
pub const HASH_MODULUS: u128 = 2305843009213693951;

/// The polynomial hash of a byte string, modulo `HASH_MODULUS`.
pub open spec fn hash_spec(s: Seq<u8>) -> u64
    decreases s.len(),
{
    if s.len() == 0 {
        0
    } else {
        ((hash_spec(s.drop_last()) as int * 131 + s.last() as int + 1) % (HASH_MODULUS as int)) as u64
    }
}

proof fn lemma_hash_bound(s: Seq<u8>)
    ensures
        (hash_spec(s) as u128) < HASH_MODULUS,
    decreases s.len(),
{
    if s.len() > 0 {
        lemma_hash_bound(s.drop_last());
    }
}

/// The hash of `key`.
fn hash_bytes(key: &[u8]) -> (res: u64)
    ensures
        res == hash_spec(key@),
{
    let mut h: u64 = 0;
    let mut i: usize = 0;
    assert(key@.subrange(0, 0) =~= Seq::<u8>::empty());
    while i < key.len()
        invariant
            i <= key@.len(),
            h == hash_spec(key@.subrange(0, i as int)),
        decreases key@.len() - i,
    {
        proof {
            lemma_hash_bound(key@.subrange(0, i as int));
        }
        let x: u128 = (h as u128) * 131 + (key[i] as u128) + 1;
        let r: u128 = x % HASH_MODULUS;
        assert(key@.subrange(0, i + 1).drop_last() =~= key@.subrange(0, i as int));
        h = r as u64;
        i = i + 1;
    }
    assert(key@.subrange(0, key@.len() as int) =~= key@);
    h
}

/// One key of a bucket, with the positions recorded under it.
pub struct KeyEntry {
    pub key: Vec<u8>,
    pub positions: Vec<usize>,
}

/// Every entry of bucket `b` hashes to `h`, agrees with `m`, and no key occurs twice.
pub open spec fn bucket_ok(b: Seq<KeyEntry>, h: u64, m: Map<Seq<u8>, Seq<usize>>) -> bool {
    &&& forall|j: int|
        0 <= j < b.len() ==> {
            &&& hash_spec(#[trigger] b[j].key@) == h
            &&& m.contains_key(b[j].key@)
            &&& m[b[j].key@] == b[j].positions@
        }
    &&& forall|i: int, j: int| 0 <= i < j < b.len() ==> b[i].key@ != b[j].key@
}

/// Bucket `b` holds key `k`.
pub open spec fn bucket_has(b: Seq<KeyEntry>, k: Seq<u8>) -> bool {
    exists|j: int| 0 <= j < b.len() && #[trigger] b[j].key@ == k
}

/// A multimap from byte strings to position lists.
pub struct ByteKeyIndex {
    buckets: HashMap<u64, Vec<KeyEntry>>,
    model: Ghost<Map<Seq<u8>, Seq<usize>>>,
}

impl View for ByteKeyIndex {
    type V = Map<Seq<u8>, Seq<usize>>;

    closed spec fn view(&self) -> Map<Seq<u8>, Seq<usize>> {
        self.model@
    }
}

impl ByteKeyIndex {
    /// The buckets agree with the abstract map.
    pub closed spec fn wf(&self) -> bool {
        &&& forall|h: u64| #[trigger]
            self.buckets@.contains_key(h) ==> bucket_ok(self.buckets@[h]@, h, self.model@)
        &&& forall|k: Seq<u8>| #[trigger]
            self.model@.contains_key(k) ==> self.buckets@.contains_key(hash_spec(k))
                && bucket_has(self.buckets@[hash_spec(k)]@, k)
    }

    /// An empty index.
    pub fn new() -> (res: Self)
        ensures
            res.wf(),
            res@ == Map::<Seq<u8>, Seq<usize>>::empty(),
    {
        ByteKeyIndex { buckets: HashMap::new(), model: Ghost(Map::empty()) }
    }

    /// The positions recorded under `key`, if any.
    pub fn get(&self, key: &[u8]) -> (res: Option<&Vec<usize>>)
        requires
            self.wf(),
        ensures
            match res {
                Some(v) => self@.contains_key(key@) && v@ == self@[key@],
                None => !self@.contains_key(key@),
            },
    {
        let h = hash_bytes(key);
        match self.buckets.get(&h) {
            None => {
                assert(!self@.contains_key(key@));
                None
            },
            Some(b) => {
                assert(bucket_ok(b@, h, self.model@));
                let mut j: usize = 0;
                while j < b.len()
                    invariant
                        j <= b@.len(),
                        bucket_ok(b@, h, self.model@),
                        forall|i: int| 0 <= i < j ==> b@[i].key@ != key@,
                    decreases b@.len() - j,
                {
                    if bytes_equal(b[j].key.as_slice(), key) {
                        return Some(&b[j].positions);
                    }
                    j = j + 1;
                }
                assert(!bucket_has(b@, key@));
                None
            },
        }
    }

    /// Records `pos` under `key`, after the positions already recorded there.
    pub fn push(&mut self, key: &[u8], pos: usize)
        requires
            old(self).wf(),
        ensures
            final(self).wf(),
            final(self)@ == old(self)@.insert(
                key@,
                if old(self)@.contains_key(key@) {
                    old(self)@[key@].push(pos)
                } else {
                    seq![pos]
                },
            ),
    {
        let h = hash_bytes(key);
        let ghost old_map = self.buckets@;
        let ghost m0 = self.model@;
        let ghost newv = if m0.contains_key(key@) {
            m0[key@].push(pos)
        } else {
            seq![pos]
        };
        let mut bucket: Vec<KeyEntry> = match self.buckets.remove(&h) {
            Some(b) => b,
            None => Vec::new(),
        };
        assert(bucket_ok(bucket@, h, m0));
        let mut j: usize = 0;
        let mut found = false;
        while j < bucket.len()
            invariant_except_break
                !found,
            invariant
                j <= bucket@.len(),
                forall|i: int| 0 <= i < j ==> bucket@[i].key@ != key@,
            ensures
                found ==> j < bucket@.len() && bucket@[j as int].key@ == key@,
                !found ==> forall|i: int| 0 <= i < bucket@.len() ==> bucket@[i].key@ != key@,
            decreases bucket@.len() - j,
        {
            if bytes_equal(bucket[j].key.as_slice(), key) {
                found = true;
                break;
            }
            j = j + 1;
        }
        let ghost b0 = bucket@;
        if found {
            assert(m0.contains_key(key@));
            bucket[j].positions.push(pos);
            assert(bucket@[j as int].positions@ == newv);
            assert(forall|i: int| 0 <= i < bucket@.len() && i != j ==> bucket@[i] == b0[i]);
        } else {
            assert(!bucket_has(b0, key@));
            assert(!m0.contains_key(key@)) by {
                if m0.contains_key(key@) {
                    assert(old_map.contains_key(hash_spec(key@)));
                }
            }
            let mut k: Vec<u8> = Vec::new();
            let mut t: usize = 0;
            while t < key.len()
                invariant
                    t <= key@.len(),
                    k@ == key@.subrange(0, t as int),
                decreases key@.len() - t,
            {
                k.push(key[t]);
                t = t + 1;
                assert(k@ =~= key@.subrange(0, t as int));
            }
            assert(k@ =~= key@);
            bucket.push(KeyEntry { key: k, positions: vec![pos] });
            assert(bucket@.last().positions@ =~= seq![pos]);
        }
        let ghost m1 = m0.insert(key@, newv);
        assert(bucket_ok(bucket@, h, m1)) by {
            assert forall|a: int| 0 <= a < bucket@.len() implies {
                &&& hash_spec(#[trigger] bucket@[a].key@) == h
                &&& m1.contains_key(bucket@[a].key@)
                &&& m1[bucket@[a].key@] == bucket@[a].positions@
            } by {
                if found {
                    if a != j {
                        assert(bucket@[a] == b0[a]);
                    }
                } else if a < b0.len() {
                    assert(bucket@[a] == b0[a]);
                }
            }
            assert forall|a: int, c: int| 0 <= a < c < bucket@.len() implies bucket@[a].key@
                != bucket@[c].key@ by {
                if found {
                    if a != j && c != j {
                        assert(bucket@[a] == b0[a]);
                        assert(bucket@[c] == b0[c]);
                    } else if a == j {
                        assert(bucket@[c] == b0[c]);
                    } else {
                        assert(bucket@[a] == b0[a]);
                    }
                } else if c < b0.len() {
                    assert(bucket@[a] == b0[a]);
                    assert(bucket@[c] == b0[c]);
                } else {
                    assert(bucket@[a] == b0[a]);
                }
            }
        }
        let ghost bnew = bucket@;
        self.buckets.insert(h, bucket);
        self.model = Ghost(m1);
        assert(self.buckets@.contains_key(h) && self.buckets@[h]@ == bnew);
        assert(forall|g: u64| g != h ==> (#[trigger] self.buckets@.contains_key(g) == old_map.contains_key(g)));
        assert(forall|g: u64| g != h && old_map.contains_key(g) ==> #[trigger] self.buckets@[g] == old_map[g]);
        assert forall|g: u64| #[trigger] self.buckets@.contains_key(g) implies bucket_ok(
            self.buckets@[g]@,
            g,
            self.model@,
        ) by {
            if g != h {
                let bg = old_map[g]@;
                assert(bucket_ok(bg, g, m0));
                assert forall|a: int| 0 <= a < bg.len() implies {
                    &&& hash_spec(#[trigger] bg[a].key@) == g
                    &&& m1.contains_key(bg[a].key@)
                    &&& m1[bg[a].key@] == bg[a].positions@
                } by {
                    assert(bg[a].key@ != key@);
                }
            }
        }
        assert forall|k2: Seq<u8>| #[trigger] self.model@.contains_key(k2) implies self.buckets@.contains_key(
            hash_spec(k2),
        ) && bucket_has(self.buckets@[hash_spec(k2)]@, k2) by {
            if k2 == key@ {
                if found {
                    assert(bnew[j as int].key@ == key@);
                } else {
                    assert(bnew[bnew.len() - 1].key@ == key@);
                }
            } else {
                assert(m0.contains_key(k2));
                let hk = hash_spec(k2);
                if hk == h {
                    let jj = choose|jj: int| 0 <= jj < b0.len() && #[trigger] b0[jj].key@ == k2;
                    if found {
                        if jj != j {
                            assert(bnew[jj] == b0[jj]);
                        }
                    } else {
                        assert(bnew[jj] == b0[jj]);
                    }
                }
            }
        }
    }
}

} // verus!
