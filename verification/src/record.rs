//! The record shape stored by the engine: two indexed integer fields and
//! one unindexed string field.

use vstd::prelude::*;
use crate::config::FieldDescriptor;

verus! {

/// One immutable record. Field `a` and field `b` are indexed; field `c`
/// is deliberately left unindexed and is looked up by scanning.
pub struct Record {
    pub a: u8,
    pub b: u16,
    pub c: String,
}

/// The mathematical value of a record: its fields with the string taken
/// as a sequence of characters.
#[verifier::ext_equal]
pub struct RecordModel {
    pub a: u8,
    pub b: u16,
    pub c: Seq<char>,
}

impl View for Record {
    type V = RecordModel;

    open spec fn view(&self) -> RecordModel {
        RecordModel { a: self.a, b: self.b, c: self.c@ }
    }
}

/// The field layout of [`Record`], in declaration order: fields `a`
/// and `b` carry an explicit index mark, field `c` carries none, and
/// every field's value type supports equality comparison and hashing.
/// Feeding this layout to [`crate::config::build_config`] yields the
/// configuration the store is built on: indices on `a` and `b`, a
/// scan-based fallback for `c`.
pub fn record_fields() -> (fields: Vec<FieldDescriptor>)
    ensures
        fields@.len() == 3,
        fields@[0] == (FieldDescriptor { indexed: true, supports_index: true }),
        fields@[1] == (FieldDescriptor { indexed: true, supports_index: true }),
        fields@[2] == (FieldDescriptor { indexed: false, supports_index: true }),
{
    let mut fields: Vec<FieldDescriptor> = Vec::new();
    fields.push(FieldDescriptor { indexed: true, supports_index: true });
    fields.push(FieldDescriptor { indexed: true, supports_index: true });
    fields.push(FieldDescriptor { indexed: false, supports_index: true });
    fields
}

} // verus!
