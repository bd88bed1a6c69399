//! The runtime engine: a store over [`Record`] with a hash index per
//! indexed field (`a` and `b`) and a scan-based lookup for the
//! non-indexed field `c`.
//!
//! Each index maps a field value to the bucket of records sharing it,
//! in insertion order; the buckets share the records through reference
//! counting, so one insert never copies record data. The store's view
//! is the sequence of record models in insertion order, and every
//! operation is specified against it.

use vstd::prelude::*;
use std::collections::HashMap;
use std::rc::Rc;
use crate::record::{Record, RecordModel};
use crate::laws::{
    lemma_matching_c_insert, lemma_models_of_empty, lemma_models_of_push,
    lemma_non_indexed_correctness, lemma_order_preservation_a, lemma_order_preservation_b,
};

verus! {

broadcast use vstd::std_specs::hash::group_hash_axioms;

/// The record models of a sequence of shared record handles, in order.
pub open spec fn models_of(s: Seq<Rc<Record>>) -> Seq<RecordModel> {
    s.map_values(|rc: Rc<Record>| rc@)
}

/// The records of `s` whose field `a` equals `k`, in insertion order:
/// what the index on `a` holds under key `k`.
pub open spec fn bucket_a(s: Seq<RecordModel>, k: u8) -> Seq<RecordModel> {
    s.filter(|r: RecordModel| r.a == k)
}

/// The records of `s` whose field `b` equals `k`, in insertion order:
/// what the index on `b` holds under key `k`.
pub open spec fn bucket_b(s: Seq<RecordModel>, k: u16) -> Seq<RecordModel> {
    s.filter(|r: RecordModel| r.b == k)
}

/// The records of `s` whose field `c` equals `key`, in insertion order.
pub open spec fn matching_c(s: Seq<RecordModel>, key: Seq<char>) -> Seq<RecordModel> {
    s.filter(|r: RecordModel| r.c == key)
}

/// What the non-indexed lookup on `c` returns: the buckets of the `a`
/// index with keys below `n`, visited in ascending key order, each
/// filtered for records whose `c` equals `key`.
pub open spec fn scan_c(s: Seq<RecordModel>, key: Seq<char>, n: int) -> Seq<RecordModel>
    decreases n,
{
    if n <= 0 {
        Seq::empty()
    } else {
        scan_c(s, key, n - 1) + matching_c(bucket_a(s, (n - 1) as u8), key)
    }
}

/// The store: one hash index per indexed field of [`Record`]. Field `c`
/// is not indexed and has no mapping of its own; its lookups scan the
/// index on `a`, the first indexed field. The inserted records exist
/// once and are shared by both indices through reference counting.
pub struct RecordStore {
    index_a: HashMap<u8, Vec<Rc<Record>>>,
    index_b: HashMap<u16, Vec<Rc<Record>>>,
    inserted: Ghost<Seq<RecordModel>>,
}

impl View for RecordStore {
    type V = Seq<RecordModel>;

    /// A store is modelled by its records in insertion order.
    closed spec fn view(&self) -> Seq<RecordModel> {
        self.inserted@
    }
}

impl RecordStore {
    /// Well-formed: each index holds, under every present key, exactly
    /// the inserted records with that key in insertion order, and no
    /// inserted record hides under an absent key.
    pub closed spec fn wf(&self) -> bool {
        &&& forall|k: u8|
            #![trigger self.index_a@.contains_key(k)]
            {
                &&& (self.index_a@.contains_key(k) ==> models_of(self.index_a@[k]@) == bucket_a(
                    self.inserted@,
                    k,
                ))
                &&& (!self.index_a@.contains_key(k) ==> bucket_a(self.inserted@, k)
                    == Seq::<RecordModel>::empty())
            }
        &&& forall|k: u16|
            #![trigger self.index_b@.contains_key(k)]
            {
                &&& (self.index_b@.contains_key(k) ==> models_of(self.index_b@[k]@) == bucket_b(
                    self.inserted@,
                    k,
                ))
                &&& (!self.index_b@.contains_key(k) ==> bucket_b(self.inserted@, k)
                    == Seq::<RecordModel>::empty())
            }
    }

    /// An empty store: one empty mapping per indexed field.
    pub fn new() -> (s: Self)
        ensures
            s.wf(),
            s@ == Seq::<RecordModel>::empty(),
    {
        let s = RecordStore {
            index_a: HashMap::new(),
            index_b: HashMap::new(),
            inserted: Ghost(Seq::empty()),
        };
        proof {
            assert forall|k: u8| bucket_a(s.inserted@, k) == Seq::<RecordModel>::empty() by {
                assert(bucket_a(Seq::<RecordModel>::empty(), k) =~= Seq::<RecordModel>::empty());
            }
            assert forall|k: u16| bucket_b(s.inserted@, k) == Seq::<RecordModel>::empty() by {
                assert(bucket_b(Seq::<RecordModel>::empty(), k) =~= Seq::<RecordModel>::empty());
            }
        }
        s
    }

    /// Insert one record. The record is wrapped in a single shared
    /// handle and appended to the bucket of its key in every index, so
    /// it becomes observable through all indexed lookups at once, at
    /// the end of each matching bucket.
    pub fn insert(&mut self, item: Record)
        requires
            old(self).wf(),
        ensures
            final(self).wf(),
            final(self)@ == old(self)@.push(item@),
    {
        let ghost s0 = self.inserted@;
        let ghost m = item@;
        let ka = item.a;
        let kb = item.b;
        let rc = Rc::new(item);

        let mut bucket = match self.index_a.remove(&ka) {
            Some(b) => b,
            None => Vec::new(),
        };
        proof {
            lemma_models_of_empty();
            assert(models_of(bucket@) == bucket_a(s0, ka));
        }
        let ghost bucket0 = bucket@;
        bucket.push(rc.clone());
        self.index_a.insert(ka, bucket);

        let mut bucket = match self.index_b.remove(&kb) {
            Some(b) => b,
            None => Vec::new(),
        };
        proof {
            lemma_models_of_empty();
            assert(models_of(bucket@) == bucket_b(s0, kb));
        }
        let ghost bucket0b = bucket@;
        bucket.push(rc.clone());
        self.index_b.insert(kb, bucket);

        self.inserted = Ghost(s0.push(m));

        proof {
            lemma_models_of_push(bucket0, rc);
            lemma_models_of_push(bucket0b, rc);
            assert forall|k: u8|
                {
                    &&& (self.index_a@.contains_key(k) ==> models_of(self.index_a@[k]@) == bucket_a(
                        self.inserted@,
                        k,
                    ))
                    &&& (!self.index_a@.contains_key(k) ==> bucket_a(self.inserted@, k)
                        == Seq::<RecordModel>::empty())
                } by {
                lemma_order_preservation_a(s0, m, k);
            }
            assert forall|k: u16|
                {
                    &&& (self.index_b@.contains_key(k) ==> models_of(self.index_b@[k]@) == bucket_b(
                        self.inserted@,
                        k,
                    ))
                    &&& (!self.index_b@.contains_key(k) ==> bucket_b(self.inserted@, k)
                        == Seq::<RecordModel>::empty())
                } by {
                lemma_order_preservation_b(s0, m, k);
            }
        }
    }

    /// Indexed lookup on field `a`: the bucket under `key`, exactly the
    /// inserted records whose `a` equals `key`, in insertion order. A
    /// key never inserted yields the empty sequence. The returned
    /// handles share the stored records; no record data is copied.
    pub fn lookup_a(&self, key: &u8) -> (out: Vec<Rc<Record>>)
        requires
            self.wf(),
        ensures
            models_of(out@) == bucket_a(self@, *key),
    {
        match self.index_a.get(key) {
            Some(bucket) => {
                let mut out: Vec<Rc<Record>> = Vec::new();
                let mut i: usize = 0;
                while i < bucket.len()
                    invariant
                        0 <= i <= bucket@.len(),
                        out@ == bucket@.subrange(0, i as int),
                    decreases bucket@.len() - i,
                {
                    out.push(bucket[i].clone());
                    assert(out@ =~= bucket@.subrange(0, i + 1 as int));
                    i = i + 1;
                }
                assert(out@ =~= bucket@);
                out
            },
            None => {
                let out: Vec<Rc<Record>> = Vec::new();
                proof {
                    lemma_models_of_empty();
                }
                out
            },
        }
    }

    /// Indexed lookup on field `b`, exactly as [`Self::lookup_a`].
    pub fn lookup_b(&self, key: &u16) -> (out: Vec<Rc<Record>>)
        requires
            self.wf(),
        ensures
            models_of(out@) == bucket_b(self@, *key),
    {
        match self.index_b.get(key) {
            Some(bucket) => {
                let mut out: Vec<Rc<Record>> = Vec::new();
                let mut i: usize = 0;
                while i < bucket.len()
                    invariant
                        0 <= i <= bucket@.len(),
                        out@ == bucket@.subrange(0, i as int),
                    decreases bucket@.len() - i,
                {
                    out.push(bucket[i].clone());
                    assert(out@ =~= bucket@.subrange(0, i + 1 as int));
                    i = i + 1;
                }
                assert(out@ =~= bucket@);
                out
            },
            None => {
                let out: Vec<Rc<Record>> = Vec::new();
                proof {
                    lemma_models_of_empty();
                }
                out
            },
        }
    }
    /// Non-indexed lookup on field `c`: no mapping exists for `c`, so
    /// the store scans the buckets of the first indexed field's mapping
    /// — the index on `a` — in ascending key order, and collects every
    /// record whose `c` equals `key`. The result holds exactly the
    /// inserted records matching `key`, each as often as it was
    /// inserted (see [`crate::laws::lemma_non_indexed_correctness`]);
    /// the cost is a scan over the whole store rather than one bucket.
    pub fn lookup_c(&self, key: &String) -> (out: Vec<Rc<Record>>)
        requires
            self.wf(),
        ensures
            models_of(out@) == scan_c(self@, key@, 256),
            models_of(out@).to_multiset() == matching_c(self@, key@).to_multiset(),
    {
        let ghost s = self.inserted@;
        let mut out: Vec<Rc<Record>> = Vec::new();
        proof {
            lemma_models_of_empty();
        }
        let mut k: u16 = 0;
        while k < 256
            invariant
                self.wf(),
                s == self.inserted@,
                0 <= k <= 256,
                models_of(out@) == scan_c(s, key@, k as int),
            decreases 256 - k,
        {
            let kk: u8 = k as u8;
            match self.index_a.get(&kk) {
                Some(bucket) => {
                    let ghost bm = models_of(bucket@);
                    assert(bm == bucket_a(s, kk));
                    let mut i: usize = 0;
                    while i < bucket.len()
                        invariant
                            0 <= i <= bucket@.len(),
                            bm == models_of(bucket@),
                            models_of(out@) == scan_c(s, key@, k as int) + matching_c(
                                bm.subrange(0, i as int),
                                key@,
                            ),
                        decreases bucket@.len() - i,
                    {
                        let ghost out0 = out@;
                        let ghost prefix = bm.subrange(0, i as int);
                        let rc = bucket[i].clone();
                        if rc.c == *key {
                            out.push(rc);
                        }
                        proof {
                            assert(bm.subrange(0, i + 1 as int) =~= prefix.push(bm[i as int]));
                            lemma_matching_c_insert(prefix, bm[i as int], key@);
                            if bm[i as int].c == key@ {
                                lemma_models_of_push(out0, bucket@[i as int]);
                            }
                        }
                        i = i + 1;
                    }
                    proof {
                        assert(bm.subrange(0, bucket@.len() as int) =~= bm);
                    }
                },
                None => {
                    proof {
                        assert(bucket_a(s, kk) == Seq::<RecordModel>::empty());
                        assert(matching_c(Seq::<RecordModel>::empty(), key@)
                            =~= Seq::<RecordModel>::empty());
                        assert(scan_c(s, key@, k as int) + matching_c(bucket_a(s, kk), key@)
                            =~= scan_c(s, key@, k as int));
                    }
                },
            }
            proof {
                assert(scan_c(s, key@, k + 1 as int) == scan_c(s, key@, k as int) + matching_c(
                    bucket_a(s, kk),
                    key@,
                ));
            }
            k = k + 1;
        }
        proof {
            lemma_non_indexed_correctness(s, key@);
        }
        out
    }
}

} // verus!
