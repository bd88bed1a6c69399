//! The laws of the store, stated over its mathematical model: the
//! sequence of record models in insertion order.

use vstd::prelude::*;
use crate::record::{Record, RecordModel};
use crate::store::{bucket_a, bucket_b, matching_c, models_of, scan_c};
use std::rc::Rc;

verus! {

/// Order preservation for the index on field `a`: inserting a record
/// appends it to the bucket of its own key and leaves every other
/// bucket unchanged, so each bucket lists its records first inserted,
/// first returned.
pub proof fn lemma_order_preservation_a(s: Seq<RecordModel>, r: RecordModel, k: u8)
    ensures
        bucket_a(s.push(r), k) == if r.a == k {
            bucket_a(s, k).push(r)
        } else {
            bucket_a(s, k)
        },
{
    reveal_with_fuel(Seq::filter, 2);
    assert(s.push(r).drop_last() =~= s);
    assert(s.push(r).last() == r);
}

/// Order preservation for the index on field `b`.
pub proof fn lemma_order_preservation_b(s: Seq<RecordModel>, r: RecordModel, k: u16)
    ensures
        bucket_b(s.push(r), k) == if r.b == k {
            bucket_b(s, k).push(r)
        } else {
            bucket_b(s, k)
        },
{
    reveal_with_fuel(Seq::filter, 2);
    assert(s.push(r).drop_last() =~= s);
    assert(s.push(r).last() == r);
}

/// The records matching a `c` key grow in insertion order as well:
/// inserting a record appends it to the matching set of its own `c`
/// value and to no other.
pub proof fn lemma_matching_c_insert(s: Seq<RecordModel>, r: RecordModel, key: Seq<char>)
    ensures
        matching_c(s.push(r), key) == if r.c == key {
            matching_c(s, key).push(r)
        } else {
            matching_c(s, key)
        },
{
    reveal_with_fuel(Seq::filter, 2);
    assert(s.push(r).drop_last() =~= s);
    assert(s.push(r).last() == r);
}

/// A sequence of no record handles models the empty record sequence.
pub proof fn lemma_models_of_empty()
    ensures
        models_of(Seq::<Rc<Record>>::empty()) == Seq::<RecordModel>::empty(),
{
    assert(models_of(Seq::<Rc<Record>>::empty()) =~= Seq::<RecordModel>::empty());
}

/// Pushing one record handle onto a sequence of handles pushes its
/// model onto the modelled sequence.
pub proof fn lemma_models_of_push(s: Seq<Rc<Record>>, x: Rc<Record>)
    ensures
        models_of(s.push(x)) == models_of(s).push(x@),
{
    assert(models_of(s.push(x)) =~= models_of(s).push(x@));
}

/// Index completeness: a record appears in the bucket of its own key
/// exactly as many times as it was inserted — once per insert, never
/// deduplicated and never dropped — in the index on `a` and in the
/// index on `b` alike.
pub proof fn lemma_index_completeness(s: Seq<RecordModel>, r: RecordModel)
    ensures
        bucket_a(s, r.a).to_multiset().count(r) == s.to_multiset().count(r),
        bucket_b(s, r.b).to_multiset().count(r) == s.to_multiset().count(r),
    decreases s.len(),
{
    broadcast use vstd::seq_lib::group_to_multiset_ensures;
    broadcast use vstd::multiset::group_multiset_axioms;

    if s.len() == 0 {
        reveal_with_fuel(Seq::filter, 1);
        assert(bucket_a(s, r.a) == Seq::<RecordModel>::empty());
        assert(bucket_b(s, r.b) == Seq::<RecordModel>::empty());
        assert(!s.contains(r));
        assert(s.to_multiset().count(r) == 0);
        assert(!Seq::<RecordModel>::empty().contains(r));
        assert(Seq::<RecordModel>::empty().to_multiset().count(r) == 0);
    } else {
        let t = s.drop_last();
        let x = s.last();
        lemma_index_completeness(t, r);
        assert(s =~= t.push(x));
        lemma_order_preservation_a(t, x, r.a);
        lemma_order_preservation_b(t, x, r.b);
        assert(s.to_multiset() == t.to_multiset().insert(x));
        if x.a == r.a {
            assert(bucket_a(s, r.a).to_multiset() == bucket_a(t, r.a).to_multiset().insert(x));
        } else {
            assert(x != r);
        }
        if x.b == r.b {
            assert(bucket_b(s, r.b).to_multiset() == bucket_b(t, r.b).to_multiset().insert(x));
        } else {
            assert(x != r);
        }
    }
}

/// Index locality: every record in the bucket under key `k` has that
/// key, and every inserted record with that key is in the bucket — for
/// the index on `a` and for the index on `b` alike.
pub proof fn lemma_index_locality(s: Seq<RecordModel>, ka: u8, kb: u16)
    ensures
        forall|i: int| 0 <= i < bucket_a(s, ka).len() ==> (#[trigger] bucket_a(s, ka)[i]).a == ka,
        forall|r: RecordModel| s.contains(r) && r.a == ka ==> bucket_a(s, ka).contains(r),
        forall|i: int| 0 <= i < bucket_b(s, kb).len() ==> (#[trigger] bucket_b(s, kb)[i]).b == kb,
        forall|r: RecordModel| s.contains(r) && r.b == kb ==> bucket_b(s, kb).contains(r),
{
    broadcast use vstd::seq_lib::group_filter_ensures;

    assert forall|r: RecordModel| s.contains(r) && r.a == ka implies bucket_a(s, ka).contains(
        r,
    ) by {
        let i = choose|i: int| 0 <= i < s.len() && s[i] == r;
        assert(bucket_a(s, ka).contains(s[i]));
    }
    assert forall|r: RecordModel| s.contains(r) && r.b == kb implies bucket_b(s, kb).contains(
        r,
    ) by {
        let i = choose|i: int| 0 <= i < s.len() && s[i] == r;
        assert(bucket_b(s, kb).contains(s[i]));
    }
}

/// Insert atomicity: one insert appends the record to the bucket of its
/// key in every index at once, so as soon as the insert returns, the
/// record is observable through each indexed lookup, at the end of each
/// bucket, with no state in which one index shows it and another does
/// not.
pub proof fn lemma_insert_atomicity(s: Seq<RecordModel>, r: RecordModel)
    ensures
        bucket_a(s.push(r), r.a) == bucket_a(s, r.a).push(r),
        bucket_b(s.push(r), r.b) == bucket_b(s, r.b).push(r),
        bucket_a(s.push(r), r.a).len() > 0 && bucket_a(s.push(r), r.a).last() == r,
        bucket_b(s.push(r), r.b).len() > 0 && bucket_b(s.push(r), r.b).last() == r,
{
    lemma_order_preservation_a(s, r, r.a);
    lemma_order_preservation_b(s, r, r.b);
}

/// Empty-store behavior: with no record inserted, every bucket of both
/// indices is empty and the scan for any `c` key collects nothing, so
/// every lookup returns the empty sequence.
pub proof fn lemma_empty_store(ka: u8, kb: u16, key: Seq<char>)
    ensures
        bucket_a(Seq::<RecordModel>::empty(), ka) == Seq::<RecordModel>::empty(),
        bucket_b(Seq::<RecordModel>::empty(), kb) == Seq::<RecordModel>::empty(),
        matching_c(Seq::<RecordModel>::empty(), key) == Seq::<RecordModel>::empty(),
        scan_c(Seq::<RecordModel>::empty(), key, 256) == Seq::<RecordModel>::empty(),
{
    reveal_with_fuel(Seq::filter, 1);
    lemma_scan_c_empty(key, 256);
}

proof fn lemma_scan_c_empty(key: Seq<char>, n: int)
    ensures
        scan_c(Seq::<RecordModel>::empty(), key, n) == Seq::<RecordModel>::empty(),
    decreases n,
{
    reveal_with_fuel(Seq::filter, 1);
    if n > 0 {
        lemma_scan_c_empty(key, n - 1);
        assert(scan_c(Seq::<RecordModel>::empty(), key, n) =~= Seq::<RecordModel>::empty());
    }
}

/// One insert changes what a scan collects by exactly that record, when
/// its `c` matches and its `a` key lies in the scanned range.
proof fn lemma_scan_c_insert(s: Seq<RecordModel>, r: RecordModel, key: Seq<char>, n: int)
    requires
        n <= 256,
    ensures
        scan_c(s.push(r), key, n).to_multiset() == if (r.a as int) < n && r.c == key {
            scan_c(s, key, n).to_multiset().insert(r)
        } else {
            scan_c(s, key, n).to_multiset()
        },
    decreases n,
{
    broadcast use vstd::seq_lib::group_to_multiset_ensures;
    broadcast use vstd::multiset::group_multiset_axioms;
    broadcast use vstd::seq_lib::lemma_multiset_commutative;

    if n > 0 {
        lemma_scan_c_insert(s, r, key, n - 1);
        let kk = (n - 1) as u8;
        lemma_order_preservation_a(s, r, kk);
        let old_prefix = scan_c(s, key, n - 1);
        let new_prefix = scan_c(s.push(r), key, n - 1);
        let old_match = matching_c(bucket_a(s, kk), key);
        let new_match = matching_c(bucket_a(s.push(r), kk), key);
        assert(scan_c(s, key, n) == old_prefix + old_match);
        assert(scan_c(s.push(r), key, n) == new_prefix + new_match);
        vstd::seq_lib::lemma_multiset_commutative(old_prefix, old_match);
        vstd::seq_lib::lemma_multiset_commutative(new_prefix, new_match);
        lemma_matching_c_insert(bucket_a(s, kk), r, key);
        if r.a == kk && r.c == key {
            assert(new_match.to_multiset() == old_match.to_multiset().insert(r));
            assert(new_prefix.to_multiset() == old_prefix.to_multiset());
            assert(old_prefix.to_multiset().add(old_match.to_multiset().insert(r))
                =~= old_prefix.to_multiset().add(old_match.to_multiset()).insert(r));
        } else if (r.a as int) < n - 1 && r.c == key {
            assert(new_match == old_match);
            assert(new_prefix.to_multiset() == old_prefix.to_multiset().insert(r));
            assert(old_prefix.to_multiset().insert(r).add(old_match.to_multiset())
                =~= old_prefix.to_multiset().add(old_match.to_multiset()).insert(r));
        } else {
            assert(new_match == old_match);
            assert(new_prefix.to_multiset() == old_prefix.to_multiset());
        }
    }
}

/// Non-indexed correctness: the scan over the buckets of the `a` index
/// collects exactly the inserted records whose `c` equals `key`, with
/// their exact multiplicities — whichever index is scanned, the result
/// depends only on the inserted records.
pub proof fn lemma_non_indexed_correctness(s: Seq<RecordModel>, key: Seq<char>)
    ensures
        scan_c(s, key, 256).to_multiset() == matching_c(s, key).to_multiset(),
    decreases s.len(),
{
    broadcast use vstd::seq_lib::group_to_multiset_ensures;
    broadcast use vstd::multiset::group_multiset_axioms;

    if s.len() == 0 {
        assert(s =~= Seq::<RecordModel>::empty());
        lemma_empty_store(0, 0, key);
    } else {
        let t = s.drop_last();
        let x = s.last();
        assert(s =~= t.push(x));
        lemma_non_indexed_correctness(t, key);
        lemma_scan_c_insert(t, x, key, 256);
        lemma_matching_c_insert(t, x, key);
    }
}

} // verus!
