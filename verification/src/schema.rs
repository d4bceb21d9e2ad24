//! Field descriptors and header schemas.
//!
//! A schema is an ordered list of field descriptors, one per output field,
//! in the output record's field order. Each descriptor carries the field's
//! canonical key (ASCII, hyphen-separated, compared case-insensitively),
//! its cardinality, its necessity, and its value type. Keys written with
//! underscores are normalized to hyphens and lower case when a descriptor
//! is built.

use vstd::prelude::*;
use crate::scan::{to_lower, keys_match};
use crate::value::TypeTag;

verus! {

/// Whether a field accepts one value or an ordered list.
#[derive(Clone, Copy, Debug, PartialEq, Eq, Structural)]
pub enum Cardinality {
    Single,
    Repeated,
}

/// Whether a field's absence is an error or allowed.
#[derive(Clone, Copy, Debug, PartialEq, Eq, Structural)]
pub enum Necessity {
    Required,
    Optional,
}

/// ASCII case-folding plus underscore-to-hyphen normalization of one byte.
pub open spec fn normalize_byte(b: u8) -> u8 {
    if b == 95 {
        45
    } else {
        to_lower(b)
    }
}

/// The canonical form of a field key.
pub open spec fn spec_normalize_key(s: Seq<u8>) -> Seq<u8> {
    Seq::new(s.len(), |i: int| normalize_byte(s[i]))
}

/// One output field of a schema.
#[derive(Debug)]
pub struct FieldDescriptor {
    /// The canonical key, lower case with hyphens.
    pub canonical_key: Vec<u8>,
    pub cardinality: Cardinality,
    pub necessity: Necessity,
    pub value_type: TypeTag,
}

impl FieldDescriptor {
    /// Builds a descriptor, normalizing the key: ASCII upper case folds to
    /// lower case and underscores become hyphens.
    pub fn new(key: &[u8], cardinality: Cardinality, necessity: Necessity, value_type: TypeTag)
        -> (r: FieldDescriptor)
        ensures
            r.canonical_key@ == spec_normalize_key(key@),
            r.cardinality == cardinality,
            r.necessity == necessity,
            r.value_type == value_type,
    {
        let mut canonical: Vec<u8> = Vec::new();
        let mut i: usize = 0;
        while i < key.len()
            invariant
                0 <= i <= key@.len(),
                canonical@.len() == i,
                forall|j: int| 0 <= j < i ==> canonical@[j] == normalize_byte(key@[j]),
            decreases key@.len() - i,
        {
            let b = key[i];
            let nb: u8 = if b == 95 {
                45
            } else if 65 <= b && b <= 90 {
                b + 32
            } else {
                b
            };
            canonical.push(nb);
            i = i + 1;
        }
        proof {
            assert(canonical@ =~= spec_normalize_key(key@));
        }
        FieldDescriptor { canonical_key: canonical, cardinality, necessity, value_type }
    }
}

/// An ordered, immutable set of field descriptors with pairwise distinct
/// keys (compared case-insensitively).
#[derive(Debug)]
pub struct HeaderSchema {
    fields: Vec<FieldDescriptor>,
}

impl View for HeaderSchema {
    type V = Seq<FieldDescriptor>;

    closed spec fn view(&self) -> Seq<FieldDescriptor> {
        self.fields@
    }
}

/// Keys of the descriptor list are pairwise distinct, case-insensitively.
pub open spec fn distinct_keys(fields: Seq<FieldDescriptor>) -> bool {
    forall|i: int, j: int|
        0 <= i < j < fields.len() ==> !keys_match(
            fields[i].canonical_key@,
            fields[j].canonical_key@,
        )
}

impl HeaderSchema {
    /// The schema's descriptors, in output-field order.
    pub fn fields(&self) -> (r: &Vec<FieldDescriptor>)
        ensures
            r@ == self@,
    {
        &self.fields
    }

    /// The number of fields.
    pub fn len(&self) -> (r: usize)
        ensures
            r == self@.len(),
    {
        self.fields.len()
    }

    /// Builds a schema from descriptors, refusing duplicate keys: every
    /// pair of keys must differ under case-insensitive comparison.
    pub fn new(fields: Vec<FieldDescriptor>) -> (r: Option<HeaderSchema>)
        ensures
            match r {
                Some(s) => s@ == fields@ && distinct_keys(fields@),
                None => !distinct_keys(fields@),
            },
    {
        let n = fields.len();
        let mut i: usize = 0;
        while i < n
            invariant
                0 <= i <= n,
                n == fields@.len(),
                forall|a: int, b: int|
                    0 <= a < b < fields@.len() && a < i ==> !keys_match(
                        fields@[a].canonical_key@,
                        fields@[b].canonical_key@,
                    ),
            decreases n - i,
        {
            let mut j: usize = i + 1;
            while j < n
                invariant
                    0 <= i < j <= n,
                    n == fields@.len(),
                    forall|b: int|
                        i < b < j ==> !keys_match(
                            fields@[i as int].canonical_key@,
                            fields@[b].canonical_key@,
                        ),
                decreases n - j,
            {
                if crate::scan::eq_ignore_ascii_case(
                    fields[i].canonical_key.as_slice(),
                    fields[j].canonical_key.as_slice(),
                ) {
                    return None;
                }
                j = j + 1;
            }
            i = i + 1;
        }
        Some(HeaderSchema { fields })
    }
}

} // verus!
