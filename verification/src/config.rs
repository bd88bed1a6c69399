//! Store configuration: the once-per-shape decision of which fields are
//! indexed.
//!
//! A record shape is described by an ordered list of field descriptors.
//! If no field carries an explicit index mark, every field is indexed;
//! otherwise exactly the marked fields are indexed. A field whose value
//! type cannot be compared and hashed must not end up indexed, and a
//! shape that yields no index at all is rejected, because a non-indexed
//! lookup needs an existing index to scan.

use vstd::prelude::*;

verus! {

/// What the configuration step needs to know of one field: whether it
/// carries an explicit index mark, and whether its value type supports
/// equality comparison and hashing (a precondition for being indexed).
pub struct FieldDescriptor {
    pub indexed: bool,
    pub supports_index: bool,
}

/// Why a record shape admits no store.
pub enum ConfigError {
    /// The field at this position would be indexed, but its value type
    /// does not support equality comparison and hashing.
    UnindexableField { position: usize },
    /// The shape yields no indexed field, so there is no index for
    /// non-indexed lookups to scan.
    NoIndexedField,
}

/// The fixed configuration of a store: the positions of the indexed
/// fields and of the non-indexed fields, each in declaration order.
pub struct StoreConfig {
    pub indexed: Vec<usize>,
    pub non_indexed: Vec<usize>,
}

/// True when no field of the shape carries an explicit index mark.
pub open spec fn none_flagged(fields: Seq<FieldDescriptor>) -> bool {
    forall|j: int| 0 <= j < fields.len() ==> !fields[j].indexed
}

/// True when the field at position `j` is effectively indexed: every
/// field is indexed when none is explicitly marked, otherwise exactly
/// the marked ones are.
pub open spec fn field_indexed(fields: Seq<FieldDescriptor>, j: int) -> bool {
    none_flagged(fields) || fields[j].indexed
}

/// The positions among `0 .. n` of the effectively indexed fields, in
/// ascending order.
pub open spec fn indexed_positions(fields: Seq<FieldDescriptor>, n: int) -> Seq<usize>
    decreases n,
{
    if n <= 0 {
        Seq::empty()
    } else if field_indexed(fields, n - 1) {
        indexed_positions(fields, n - 1).push((n - 1) as usize)
    } else {
        indexed_positions(fields, n - 1)
    }
}

/// The positions among `0 .. n` of the non-indexed fields, in ascending
/// order.
pub open spec fn non_indexed_positions(fields: Seq<FieldDescriptor>, n: int) -> Seq<usize>
    decreases n,
{
    if n <= 0 {
        Seq::empty()
    } else if !field_indexed(fields, n - 1) {
        non_indexed_positions(fields, n - 1).push((n - 1) as usize)
    } else {
        non_indexed_positions(fields, n - 1)
    }
}

/// The two position lists partition the field positions: a position is
/// in the indexed list exactly when its field is effectively indexed,
/// and in the non-indexed list exactly otherwise.
pub proof fn lemma_config_partition(fields: Seq<FieldDescriptor>, n: int, j: int)
    requires
        0 <= j < n <= usize::MAX,
    ensures
        indexed_positions(fields, n).contains(j as usize) <==> field_indexed(fields, j),
        non_indexed_positions(fields, n).contains(j as usize) <==> !field_indexed(fields, j),
    decreases n,
{
    lemma_positions_bounded(fields, n - 1);
    let si = indexed_positions(fields, n - 1);
    let sn = non_indexed_positions(fields, n - 1);
    if j == n - 1 {
        if field_indexed(fields, j) {
            assert(si.push(j as usize)[si.len() as int] == j as usize);
            assert(forall|k: int| 0 <= k < sn.len() ==> sn[k] != j as usize);
        } else {
            assert(sn.push(j as usize)[sn.len() as int] == j as usize);
            assert(forall|k: int| 0 <= k < si.len() ==> si[k] != j as usize);
        }
    } else {
        lemma_config_partition(fields, n - 1, j);
        if field_indexed(fields, n - 1) {
            let p = si.push((n - 1) as usize);
            assert(forall|k: int| 0 <= k < si.len() ==> p[k] == si[k]);
            assert(p[si.len() as int] == (n - 1) as usize);
            assert(si.contains(j as usize) <==> p.contains(j as usize));
        } else {
            let p = sn.push((n - 1) as usize);
            assert(forall|k: int| 0 <= k < sn.len() ==> p[k] == sn[k]);
            assert(p[sn.len() as int] == (n - 1) as usize);
            assert(sn.contains(j as usize) <==> p.contains(j as usize));
        }
    }
}

/// Every position in either list lies below `n`.
pub proof fn lemma_positions_bounded(fields: Seq<FieldDescriptor>, n: int)
    requires
        n <= usize::MAX,
    ensures
        forall|k: int|
            0 <= k < indexed_positions(fields, n).len() ==> (#[trigger] indexed_positions(
                fields,
                n,
            )[k]) < n,
        forall|k: int|
            0 <= k < non_indexed_positions(fields, n).len() ==> (#[trigger] non_indexed_positions(
                fields,
                n,
            )[k]) < n,
    decreases n,
{
    if n > 0 {
        lemma_positions_bounded(fields, n - 1);
        let si = indexed_positions(fields, n - 1);
        let sn = non_indexed_positions(fields, n - 1);
        if field_indexed(fields, n - 1) {
            let p = si.push((n - 1) as usize);
            assert forall|k: int| 0 <= k < p.len() implies p[k] < n by {
                if k < si.len() {
                    assert(p[k] == si[k]);
                }
            }
        } else {
            let p = sn.push((n - 1) as usize);
            assert forall|k: int| 0 <= k < p.len() implies p[k] < n by {
                if k < sn.len() {
                    assert(p[k] == sn[k]);
                }
            }
        }
    }
}

/// A shape with at least one field always yields at least one indexed
/// field: either none is marked and all are indexed, or a marked one is.
pub proof fn lemma_some_field_indexed(fields: Seq<FieldDescriptor>)
    requires
        0 < fields.len() <= usize::MAX,
    ensures
        indexed_positions(fields, fields.len() as int).len() > 0,
{
    let n = fields.len() as int;
    if none_flagged(fields) {
        lemma_config_partition(fields, n, 0);
    } else {
        let j = choose|j: int| 0 <= j < n && fields[j].indexed;
        lemma_config_partition(fields, n, j);
    }
}

/// Decide the store configuration for a record shape: apply the
/// index-all-fields default when no field is explicitly marked, reject
/// a field that would be indexed without supporting equality and
/// hashing, and reject a shape with no indexed field at all.
pub fn build_config(fields: &Vec<FieldDescriptor>) -> (r: Result<StoreConfig, ConfigError>)
    ensures
        match r {
            Ok(c) => {
                &&& c.indexed@ == indexed_positions(fields@, fields@.len() as int)
                &&& c.non_indexed@ == non_indexed_positions(fields@, fields@.len() as int)
                &&& c.indexed@.len() > 0
                &&& forall|j: int|
                    0 <= j < fields@.len() && field_indexed(fields@, j)
                        ==> fields@[j].supports_index
            },
            Err(ConfigError::UnindexableField { position }) => {
                &&& position < fields@.len()
                &&& field_indexed(fields@, position as int)
                &&& !fields@[position as int].supports_index
                &&& forall|j: int|
                    0 <= j < position && field_indexed(fields@, j) ==> fields@[j].supports_index
            },
            Err(ConfigError::NoIndexedField) => fields@.len() == 0,
        },
{
    let ghost all = fields@;
    let n = fields.len();

    let mut any_flagged = false;
    let mut i: usize = 0;
    while i < n
        invariant
            n == all.len(),
            all == fields@,
            0 <= i <= n,
            any_flagged <==> exists|j: int| 0 <= j < i && all[j].indexed,
        decreases n - i,
    {
        if fields[i].indexed {
            any_flagged = true;
        }
        i = i + 1;
    }
    assert(any_flagged <==> !none_flagged(all));

    let mut indexed: Vec<usize> = Vec::new();
    let mut non_indexed: Vec<usize> = Vec::new();
    let mut i: usize = 0;
    while i < n
        invariant
            n == all.len(),
            all == fields@,
            0 <= i <= n,
            any_flagged <==> !none_flagged(all),
            indexed@ == indexed_positions(all, i as int),
            non_indexed@ == non_indexed_positions(all, i as int),
            forall|j: int| 0 <= j < i && field_indexed(all, j) ==> all[j].supports_index,
        decreases n - i,
    {
        let effectively_indexed = !any_flagged || fields[i].indexed;
        assert(effectively_indexed == field_indexed(all, i as int));
        if effectively_indexed {
            if !fields[i].supports_index {
                return Err(ConfigError::UnindexableField { position: i });
            }
            indexed.push(i);
        } else {
            non_indexed.push(i);
        }
        i = i + 1;
    }

    if indexed.len() == 0 {
        proof {
            if all.len() > 0 {
                lemma_some_field_indexed(all);
            }
        }
        return Err(ConfigError::NoIndexedField);
    }
    Ok(StoreConfig { indexed, non_indexed })
}

} // verus!
