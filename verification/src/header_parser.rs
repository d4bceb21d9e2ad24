//! The schema-driven head parser.
//!
//! [`HeaderSchema::parse_headers`] locates the head/body boundary in a raw
//! buffer, validates that the head is pure ASCII, walks the header lines,
//! and builds a typed record. Every step is fail-fast: the first error
//! aborts the whole parse and no partial record is ever produced.
//!
//! The whole computation is mirrored by the spec function [`spec_parse`]:
//! each parse returns exactly what `spec_parse` says for its buffer and
//! schema, so parsing is a pure function of its inputs.

use vstd::prelude::*;
use crate::scan::{
    spec_split, spec_find_sep, spec_find_byte, is_sep_at, keys_match, all_ascii,
    lemma_find_sep_at, lemma_find_sep_none, lemma_find_byte_at, lemma_find_byte_none,
    split_on, find_byte, is_all_ascii, eq_ignore_ascii_case,
};
use crate::schema::{HeaderSchema, FieldDescriptor, Cardinality, Necessity};
use crate::value::{
    Value, ValueModel, spec_convert, spec_convert_list, convert_value, convert_list, bytes_eq,
};

verus! {

/// Why a parse failed. Field-naming variants carry the canonical key of
/// the field concerned.
#[derive(Debug)]
pub enum Error {
    /// The head/body delimiter was not found in the buffer.
    IncompleteHead,
    /// The head section contains a byte outside 7-bit ASCII.
    NonAscii,
    /// A required field has no value after all lines were processed.
    MissingHeader(Vec<u8>),
    /// A header line lacks a `:` separator.
    MalformedHeader,
    /// A matched header's value failed type conversion.
    InvalidHeaderValue(Vec<u8>),
}

/// The mathematical shape of an [`Error`].
pub ghost enum ErrorModel {
    IncompleteHead,
    NonAscii,
    MissingHeader(Seq<u8>),
    MalformedHeader,
    InvalidHeaderValue(Seq<u8>),
}

impl DeepView for Error {
    type V = ErrorModel;

    open spec fn deep_view(&self) -> ErrorModel {
        match self {
            Error::IncompleteHead => ErrorModel::IncompleteHead,
            Error::NonAscii => ErrorModel::NonAscii,
            Error::MissingHeader(k) => ErrorModel::MissingHeader(k@),
            Error::MalformedHeader => ErrorModel::MalformedHeader,
            Error::InvalidHeaderValue(k) => ErrorModel::InvalidHeaderValue(k@),
        }
    }
}

impl vstd::std_specs::cmp::PartialEqSpecImpl for Error {
    open spec fn obeys_eq_spec() -> bool {
        true
    }

    open spec fn eq_spec(&self, other: &Error) -> bool {
        self.deep_view() == other.deep_view()
    }
}

impl PartialEq for Error {
    fn eq(&self, other: &Error) -> (r: bool) {
        match (self, other) {
            (Error::IncompleteHead, Error::IncompleteHead) => true,
            (Error::NonAscii, Error::NonAscii) => true,
            (Error::MissingHeader(a), Error::MissingHeader(b)) => bytes_eq(
                a.as_slice(),
                b.as_slice(),
            ),
            (Error::MalformedHeader, Error::MalformedHeader) => true,
            (Error::InvalidHeaderValue(a), Error::InvalidHeaderValue(b)) => bytes_eq(
                a.as_slice(),
                b.as_slice(),
            ),
            _ => false,
        }
    }
}

/// One field of a parsed record, shaped by the field's cardinality and
/// necessity.
#[derive(Debug)]
pub enum FieldValue {
    /// A required single-valued field: always bound.
    Single(Value),
    /// An optional single-valued field.
    OptSingle(Option<Value>),
    /// A required repeated field: always non-empty.
    Repeated(Vec<Value>),
    /// An optional repeated field: absent rather than empty.
    OptRepeated(Option<Vec<Value>>),
}

/// The mathematical shape of a [`FieldValue`].
pub ghost enum FieldModel {
    Single(ValueModel),
    OptSingle(Option<ValueModel>),
    Repeated(Seq<ValueModel>),
    OptRepeated(Option<Seq<ValueModel>>),
}

impl DeepView for FieldValue {
    type V = FieldModel;

    open spec fn deep_view(&self) -> FieldModel {
        match self {
            FieldValue::Single(v) => FieldModel::Single(v.deep_view()),
            FieldValue::OptSingle(o) => FieldModel::OptSingle(o.deep_view()),
            FieldValue::Repeated(vs) => FieldModel::Repeated(vs.deep_view()),
            FieldValue::OptRepeated(o) => FieldModel::OptRepeated(o.deep_view()),
        }
    }
}

/// Equality of two value lists, element by element.
fn values_eq(a: &Vec<Value>, b: &Vec<Value>) -> (r: bool)
    ensures
        r == (a.deep_view() == b.deep_view()),
{
    if a.len() != b.len() {
        proof {
            assert(a.deep_view().len() == a@.len());
            assert(b.deep_view().len() == b@.len());
        }
        return false;
    }
    let mut i: usize = 0;
    while i < a.len()
        invariant
            0 <= i <= a@.len(),
            a@.len() == b@.len(),
            forall|j: int| 0 <= j < i ==> a@[j].deep_view() == b@[j].deep_view(),
        decreases a@.len() - i,
    {
        if !(a[i] == b[i]) {
            proof {
                assert(a.deep_view()[i as int] != b.deep_view()[i as int]);
            }
            return false;
        }
        i = i + 1;
    }
    proof {
        assert(a.deep_view() =~= b.deep_view());
    }
    true
}

impl vstd::std_specs::cmp::PartialEqSpecImpl for FieldValue {
    open spec fn obeys_eq_spec() -> bool {
        true
    }

    open spec fn eq_spec(&self, other: &FieldValue) -> bool {
        self.deep_view() == other.deep_view()
    }
}

impl PartialEq for FieldValue {
    fn eq(&self, other: &FieldValue) -> (r: bool) {
        match (self, other) {
            (FieldValue::Single(a), FieldValue::Single(b)) => a == b,
            (FieldValue::OptSingle(a), FieldValue::OptSingle(b)) => match (a, b) {
                (Some(x), Some(y)) => x == y,
                (None, None) => true,
                _ => false,
            },
            (FieldValue::Repeated(a), FieldValue::Repeated(b)) => values_eq(a, b),
            (FieldValue::OptRepeated(a), FieldValue::OptRepeated(b)) => match (a, b) {
                (Some(x), Some(y)) => values_eq(x, y),
                (None, None) => true,
                _ => false,
            },
            _ => false,
        }
    }
}

/// A parsed head section: one field value per schema descriptor, in
/// schema order.
#[derive(Debug)]
pub struct ParsedRecord {
    /// The field values, in the order of the schema's descriptors.
    pub fields: Vec<FieldValue>,
}

impl DeepView for ParsedRecord {
    type V = Seq<FieldModel>;

    open spec fn deep_view(&self) -> Seq<FieldModel> {
        self.fields.deep_view()
    }
}

impl vstd::std_specs::cmp::PartialEqSpecImpl for ParsedRecord {
    open spec fn obeys_eq_spec() -> bool {
        true
    }

    open spec fn eq_spec(&self, other: &ParsedRecord) -> bool {
        self.deep_view() == other.deep_view()
    }
}

impl PartialEq for ParsedRecord {
    fn eq(&self, other: &ParsedRecord) -> (r: bool) {
        if self.fields.len() != other.fields.len() {
            proof {
                assert(self.deep_view().len() == self.fields@.len());
                assert(other.deep_view().len() == other.fields@.len());
            }
            return false;
        }
        let mut i: usize = 0;
        while i < self.fields.len()
            invariant
                0 <= i <= self.fields@.len(),
                self.fields@.len() == other.fields@.len(),
                forall|j: int|
                    0 <= j < i ==> self.fields@[j].deep_view() == other.fields@[j].deep_view(),
            decreases self.fields@.len() - i,
        {
            if !(self.fields[i] == other.fields[i]) {
                proof {
                    assert(self.deep_view()[i as int] != other.deep_view()[i as int]);
                }
                return false;
            }
            i = i + 1;
        }
        proof {
            assert(self.deep_view() =~= other.deep_view());
        }
        true
    }
}

/// The two-byte line separator.
pub open spec fn crlf() -> Seq<u8> {
    seq![13u8, 10u8]
}

/// The four-byte head/body delimiter: an empty line after the last header
/// line.
pub open spec fn head_delim() -> Seq<u8> {
    seq![13u8, 10u8, 13u8, 10u8]
}

/// The head's lines: none for an empty head, otherwise the head split on
/// the line separator.
pub open spec fn spec_lines(head: Seq<u8>) -> Seq<Seq<u8>> {
    if head.len() == 0 {
        Seq::empty()
    } else {
        spec_split(head, crlf())
    }
}

/// A line's key and value: the text before the first `:` and the text
/// after it. A line without `:` is malformed.
pub open spec fn spec_line_kv(line: Seq<u8>) -> Option<(Seq<u8>, Seq<u8>)> {
    match spec_find_byte(line, 58) {
        Some(p) => Some((line.subrange(0, p), line.subrange(p + 1, line.len() as int))),
        None => None,
    }
}

/// Empty accumulators, one per field.
pub open spec fn spec_init_accs(n: int) -> Seq<Seq<ValueModel>> {
    Seq::new(n as nat, |i: int| Seq::<ValueModel>::empty())
}

/// One line applied to the fields from index `j` on: a single-valued field
/// binds on its first match and ignores later ones, a repeated field
/// appends every match's comma-split values; a failed conversion aborts.
pub open spec fn spec_apply_line_fields(
    fields: Seq<FieldDescriptor>,
    accs: Seq<Seq<ValueModel>>,
    key: Seq<u8>,
    value: Seq<u8>,
    j: int,
) -> Result<Seq<Seq<ValueModel>>, ErrorModel>
    decreases fields.len() - j,
{
    if !(0 <= j < fields.len()) {
        Ok(accs)
    } else {
        let d = fields[j];
        if keys_match(key, d.canonical_key@) {
            match d.cardinality {
                Cardinality::Single => {
                    if accs[j].len() == 0 {
                        match spec_convert(d.value_type, value) {
                            Some(v) => spec_apply_line_fields(
                                fields,
                                accs.update(j, seq![v]),
                                key,
                                value,
                                j + 1,
                            ),
                            None => Err(ErrorModel::InvalidHeaderValue(d.canonical_key@)),
                        }
                    } else {
                        spec_apply_line_fields(fields, accs, key, value, j + 1)
                    }
                },
                Cardinality::Repeated => match spec_convert_list(d.value_type, value) {
                    Some(vs) => spec_apply_line_fields(
                        fields,
                        accs.update(j, accs[j] + vs),
                        key,
                        value,
                        j + 1,
                    ),
                    None => Err(ErrorModel::InvalidHeaderValue(d.canonical_key@)),
                },
            }
        } else {
            spec_apply_line_fields(fields, accs, key, value, j + 1)
        }
    }
}

/// The lines applied in order to the accumulators; the first malformed
/// line or failed conversion aborts.
pub open spec fn spec_run_lines(
    fields: Seq<FieldDescriptor>,
    accs: Seq<Seq<ValueModel>>,
    lines: Seq<Seq<u8>>,
) -> Result<Seq<Seq<ValueModel>>, ErrorModel>
    decreases lines.len(),
{
    if lines.len() == 0 {
        Ok(accs)
    } else {
        match spec_line_kv(lines[0]) {
            None => Err(ErrorModel::MalformedHeader),
            Some(kv) => match spec_apply_line_fields(fields, accs, kv.0, kv.1, 0) {
                Ok(a2) => spec_run_lines(fields, a2, lines.drop_first()),
                Err(e) => Err(e),
            },
        }
    }
}

/// The first required field from index `j` on whose accumulator is empty.
pub open spec fn spec_first_missing(
    fields: Seq<FieldDescriptor>,
    accs: Seq<Seq<ValueModel>>,
    j: int,
) -> Option<int>
    decreases fields.len() - j,
{
    if !(0 <= j < fields.len()) {
        None
    } else if fields[j].necessity is Required && accs[j].len() == 0 {
        Some(j)
    } else {
        spec_first_missing(fields, accs, j + 1)
    }
}

/// One record field built from a validated accumulator, per the field's
/// cardinality and necessity.
pub open spec fn spec_build_field(d: FieldDescriptor, a: Seq<ValueModel>) -> FieldModel {
    match (d.cardinality, d.necessity) {
        (Cardinality::Single, Necessity::Required) => FieldModel::Single(a[0]),
        (Cardinality::Single, Necessity::Optional) => FieldModel::OptSingle(
            if a.len() == 0 {
                None
            } else {
                Some(a[0])
            },
        ),
        (Cardinality::Repeated, Necessity::Required) => FieldModel::Repeated(a),
        (Cardinality::Repeated, Necessity::Optional) => FieldModel::OptRepeated(
            if a.len() == 0 {
                None
            } else {
                Some(a)
            },
        ),
    }
}

/// The record built from validated accumulators, field by field.
pub open spec fn spec_build(
    fields: Seq<FieldDescriptor>,
    accs: Seq<Seq<ValueModel>>,
) -> Seq<FieldModel> {
    Seq::new(fields.len(), |j: int| spec_build_field(fields[j], accs[j]))
}

/// What parsing a head section returns: the record when every line is
/// well formed, every matched value converts, and every required field
/// is populated; otherwise the first error encountered.
pub open spec fn spec_parse_head(head: Seq<u8>, fields: Seq<FieldDescriptor>) -> Result<
    Seq<FieldModel>,
    ErrorModel,
> {
    match spec_run_lines(fields, spec_init_accs(fields.len() as int), spec_lines(head)) {
        Err(e) => Err(e),
        Ok(accs) => match spec_first_missing(fields, accs, 0) {
            Some(j) => Err(ErrorModel::MissingHeader(fields[j].canonical_key@)),
            None => Ok(spec_build(fields, accs)),
        },
    }
}

/// What parsing a whole buffer returns: the head before the first
/// head/body delimiter is parsed per [`spec_parse_head`] and the body is
/// everything after the delimiter; a buffer without the delimiter, or
/// with a non-ASCII head, fails.
pub open spec fn spec_parse(buf: Seq<u8>, fields: Seq<FieldDescriptor>) -> Result<
    (Seq<FieldModel>, Seq<u8>),
    ErrorModel,
> {
    match spec_find_sep(buf, head_delim()) {
        None => Err(ErrorModel::IncompleteHead),
        Some(i) => {
            let head = buf.subrange(0, i);
            let body = buf.subrange(i + 4, buf.len() as int);
            if !all_ascii(head) {
                Err(ErrorModel::NonAscii)
            } else {
                match spec_parse_head(head, fields) {
                    Ok(rec) => Ok((rec, body)),
                    Err(e) => Err(e),
                }
            }
        },
    }
}

/// When no field from `j` on is both required and empty, every required
/// field from `j` on has a populated accumulator.
proof fn lemma_first_missing_none(
    fields: Seq<FieldDescriptor>,
    accs: Seq<Seq<ValueModel>>,
    j: int,
)
    requires
        0 <= j,
        spec_first_missing(fields, accs, j) is None,
    ensures
        forall|k: int|
            j <= k < fields.len() && fields[k].necessity is Required ==> accs[k].len() > 0,
    decreases fields.len() - j,
{
    if 0 <= j < fields.len() {
        assert(!(fields[j].necessity is Required && accs[j].len() == 0));
        lemma_first_missing_none(fields, accs, j + 1);
        assert forall|k: int|
            j <= k < fields.len() && fields[k].necessity is Required implies accs[k].len()
            > 0 by {
            if k == j {
            }
        }
    }
}

/// Relies on memchr::memmem::find for the head/body delimiter: it returns
/// the index of the first occurrence of the needle in the haystack, and
/// `None` when the needle occurs nowhere.
#[verifier::external_body]
fn find_head_delim(buf: &[u8]) -> (r: Option<usize>)
    ensures
        match r {
            Some(i) => is_sep_at(buf@, head_delim(), i as int) && forall|j: int|
                0 <= j < i ==> !is_sep_at(buf@, head_delim(), j),
            None => forall|j: int| !is_sep_at(buf@, head_delim(), j),
        },
{
    memchr::memmem::find(buf, b"\r\n\r\n")
}

impl HeaderSchema {
    /// Parses the head section of a message: walks its `CRLF`-separated
    /// lines, matches keys against this schema case-insensitively,
    /// converts and accumulates values, validates required fields, and
    /// builds the record. Returns exactly what [`spec_parse_head`] says.
    pub fn parse_head_section(&self, head: &[u8]) -> (r: Result<ParsedRecord, Error>)
        ensures
            match r {
                Ok(rec) => spec_parse_head(head@, self@) == Ok::<_, ErrorModel>(rec.deep_view()),
                Err(e) => spec_parse_head(head@, self@) == Err::<Seq<FieldModel>, _>(
                    e.deep_view(),
                ),
            },
    {
        let ghost fields = self@;
        let fv = self.fields();
        let n = fv.len();

        // one empty accumulator per field
        let mut accs: Vec<Vec<Value>> = Vec::new();
        while accs.len() < n
            invariant
                accs@.len() <= n,
                forall|i: int| 0 <= i < accs@.len() ==> accs@[i]@.len() == 0,
            decreases n - accs@.len(),
        {
            accs.push(Vec::new());
        }
        proof {
            assert forall|i: int| 0 <= i < accs@.len() implies accs.deep_view()[i] == Seq::<
                ValueModel,
            >::empty() by {
                assert(accs@[i].deep_view() =~= Seq::<ValueModel>::empty());
            }
            assert(accs.deep_view() =~= spec_init_accs(n as int));
        }

        // the head's lines
        let sep: Vec<u8> = vec![13u8, 10u8];
        proof {
            assert(sep@ =~= crlf());
        }
        let lines: Vec<Vec<u8>> = if head.len() == 0 {
            Vec::new()
        } else {
            split_on(head, sep.as_slice())
        };
        let ghost slines = spec_lines(head@);
        proof {
            if head@.len() == 0 {
                assert(lines.deep_view() =~~= slines);
            }
        }

        // walk the lines
        let nl = lines.len();
        let mut li: usize = 0;
        proof {
            assert(slines.subrange(0, slines.len() as int) =~= slines);
        }
        while li < nl
            invariant
                0 <= li <= nl,
                nl == lines@.len(),
                n == fields.len(),
                fields == self@,
                fv@ == fields,
                lines.deep_view() == slines,
                slines == spec_lines(head@),
                accs.deep_view().len() == n,
                spec_run_lines(fields, spec_init_accs(n as int), slines) == spec_run_lines(
                    fields,
                    accs.deep_view(),
                    slines.subrange(li as int, slines.len() as int),
                ),
            decreases nl - li,
        {
            let ghost stail = slines.subrange(li as int, slines.len() as int);
            let line: &Vec<u8> = &lines[li];
            proof {
                assert(stail[0] == lines.deep_view()[li as int]);
                assert(lines@[li as int].deep_view() =~= lines@[li as int]@);
                assert(stail[0] == line@);
                assert(stail.drop_first() =~= slines.subrange(
                    li + 1,
                    slines.len() as int,
                ));
            }
            match find_byte(line.as_slice(), 58) {
                None => {
                    proof {
                        lemma_find_byte_none(line@, 58);
                        assert(spec_run_lines(fields, accs.deep_view(), stail)
                            == Err::<Seq<Seq<ValueModel>>, _>(ErrorModel::MalformedHeader));
                    }
                    return Err(Error::MalformedHeader);
                },
                Some(p) => {
                    let ll = line.len();
                    assert(p < ll);
                    let key = vstd::slice::slice_subrange(line.as_slice(), 0, p);
                    let value = vstd::slice::slice_subrange(line.as_slice(), p + 1, ll);
                    proof {
                        lemma_find_byte_at(line@, 58, p as int);
                        assert(spec_line_kv(stail[0]) == Some((key@, value@)));
                    }

                    // apply this line to each field in schema order
                    let ghost a0 = accs.deep_view();
                    let mut j: usize = 0;
                    while j < n
                        invariant
                            0 <= j <= n,
                            n == fields.len(),
                            fields == self@,
                            fv@ == fields,
                            slines == spec_lines(head@),
                            stail.len() > 0,
                            spec_line_kv(stail[0]) == Some((key@, value@)),
                            spec_run_lines(fields, spec_init_accs(n as int), slines)
                                == spec_run_lines(fields, a0, stail),
                            accs.deep_view().len() == n,
                            spec_apply_line_fields(fields, a0, key@, value@, 0)
                                == spec_apply_line_fields(
                                fields,
                                accs.deep_view(),
                                key@,
                                value@,
                                j as int,
                            ),
                        decreases n - j,
                    {
                        let ghost adv = accs.deep_view();
                        let d = &fv[j];
                        proof {
                            assert(*d == fields[j as int]);
                            assert(adv[j as int] == accs@[j as int].deep_view());
                        }
                        if eq_ignore_ascii_case(key, d.canonical_key.as_slice()) {
                            match d.cardinality {
                                Cardinality::Single => {
                                    if accs[j].len() == 0 {
                                        match convert_value(d.value_type, value) {
                                            Some(v) => {
                                                let mut nv: Vec<Value> = Vec::new();
                                                nv.push(v);
                                                let ghost pv = accs@;
                                                accs[j] = nv;
                                                proof {
                                                    let target = adv.update(
                                                        j as int,
                                                        seq![v.deep_view()],
                                                    );
                                                    assert(nv.deep_view() =~= seq![
                                                        v.deep_view(),
                                                    ]);
                                                    assert forall|k: int|
                                                        0 <= k < accs@.len() implies accs
                                                        .deep_view()[k] == target[k] by {
                                                        if k != j {
                                                            assert(accs@[k] == pv[k]);
                                                        }
                                                    }
                                                    assert(accs.deep_view() =~= target);
                                                }
                                            },
                                            None => {
                                                proof {
                                                    assert(spec_apply_line_fields(
                                                        fields,
                                                        adv,
                                                        key@,
                                                        value@,
                                                        j as int,
                                                    ) == Err::<Seq<Seq<ValueModel>>, _>(
                                                        ErrorModel::InvalidHeaderValue(
                                                            fields[j as int].canonical_key@,
                                                        ),
                                                    ));
                                                }
                                                let kc = vstd::slice::slice_to_vec(
                                                    d.canonical_key.as_slice(),
                                                );
                                                return Err(Error::InvalidHeaderValue(kc));
                                            },
                                        }
                                    }
                                },
                                Cardinality::Repeated => {
                                    match convert_list(d.value_type, value) {
                                        Some(mut vs) => {
                                            let ghost vsdv = vs.deep_view();
                                            let ghost pv = accs@;
                                            let mut cur: Vec<Value> = accs.remove(j);
                                            let ghost qv = accs@;
                                            proof {
                                                assert(cur.deep_view() == adv[j as int]);
                                            }
                                            let ghost cv = cur@;
                                            cur.append(&mut vs);
                                            proof {
                                                assert forall|k: int|
                                                    0 <= k < cur@.len() implies cur
                                                    .deep_view()[k] == (adv[j as int]
                                                    + vsdv)[k] by {
                                                    if k < cv.len() {
                                                        assert(cur@[k] == cv[k]);
                                                    }
                                                }
                                                assert(cur.deep_view() =~= adv[j as int]
                                                    + vsdv);
                                            }
                                            accs.insert(j, cur);
                                            proof {
                                                let target = adv.update(
                                                    j as int,
                                                    adv[j as int] + vsdv,
                                                );
                                                assert forall|k: int|
                                                    0 <= k < accs@.len() implies accs
                                                    .deep_view()[k] == target[k] by {
                                                    if k < j {
                                                        assert(accs@[k] == qv[k]);
                                                        assert(qv[k] == pv[k]);
                                                    } else if k == j {
                                                        assert(accs@[k] == cur);
                                                    } else {
                                                        assert(accs@[k] == qv[k - 1]);
                                                        assert(qv[k - 1] == pv[k]);
                                                    }
                                                }
                                                assert(accs.deep_view() =~= target);
                                            }
                                        },
                                        None => {
                                            proof {
                                                assert(spec_apply_line_fields(
                                                    fields,
                                                    adv,
                                                    key@,
                                                    value@,
                                                    j as int,
                                                ) == Err::<Seq<Seq<ValueModel>>, _>(
                                                    ErrorModel::InvalidHeaderValue(
                                                        fields[j as int].canonical_key@,
                                                    ),
                                                ));
                                            }
                                            let kc = vstd::slice::slice_to_vec(
                                                d.canonical_key.as_slice(),
                                            );
                                            return Err(Error::InvalidHeaderValue(kc));
                                        },
                                    }
                                },
                            }
                        }
                        j = j + 1;
                    }
                    proof {
                        assert(spec_apply_line_fields(fields, a0, key@, value@, 0)
                            == Ok::<_, ErrorModel>(accs.deep_view()));
                        assert(spec_run_lines(fields, a0, stail) == spec_run_lines(
                            fields,
                            accs.deep_view(),
                            stail.drop_first(),
                        ));
                    }
                },
            }
            li = li + 1;
        }
        let ghost adv = accs.deep_view();
        proof {
            assert(slines.subrange(slines.len() as int, slines.len() as int)
                =~= Seq::<Seq<u8>>::empty());
            assert(spec_run_lines(fields, spec_init_accs(n as int), slines)
                == Ok::<_, ErrorModel>(adv));
        }

        // validate required fields
        let mut j: usize = 0;
        while j < n
            invariant
                0 <= j <= n,
                n == fields.len(),
                fields == self@,
                fv@ == fields,
                slines == spec_lines(head@),
                adv == accs.deep_view(),
                accs@.len() == n,
                adv.len() == n,
                spec_run_lines(fields, spec_init_accs(n as int), slines) == Ok::<
                    _,
                    ErrorModel,
                >(adv),
                spec_first_missing(fields, adv, 0) == spec_first_missing(fields, adv, j as int),
            decreases n - j,
        {
            let d = &fv[j];
            proof {
                assert(*d == fields[j as int]);
                assert(adv[j as int] == accs@[j as int].deep_view());
            }
            let missing = match d.necessity {
                Necessity::Required => accs[j].len() == 0,
                Necessity::Optional => false,
            };
            if missing {
                proof {
                    assert(spec_first_missing(fields, adv, j as int) == Some(j as int));
                }
                let kc = vstd::slice::slice_to_vec(d.canonical_key.as_slice());
                return Err(Error::MissingHeader(kc));
            }
            j = j + 1;
        }
        proof {
            assert(spec_first_missing(fields, adv, 0) is None);
            lemma_first_missing_none(fields, adv, 0);
        }

        // build the record
        let mut outf: Vec<FieldValue> = Vec::new();
        let mut j: usize = 0;
        proof {
            assert(accs.deep_view() =~= adv.subrange(0, n as int));
        }
        while j < n
            invariant
                0 <= j <= n,
                n == fields.len(),
                fields == self@,
                fv@ == fields,
                accs.deep_view() == adv.subrange(j as int, n as int),
                accs@.len() == n - j,
                adv.len() == n,
                outf.deep_view().len() == j,
                forall|k: int|
                    0 <= k < j ==> outf.deep_view()[k] == spec_build_field(fields[k], adv[k]),
                forall|k: int|
                    0 <= k < fields.len() && fields[k].necessity is Required ==> adv[k].len()
                        > 0,
            decreases n - j,
        {
            let ghost odv = outf.deep_view();
            let ghost pv = accs@;
            let ghost pdv = accs.deep_view();
            let mut slot: Vec<Value> = accs.remove(0);
            proof {
                assert(slot == pv[0]);
                assert(slot.deep_view() == pdv[0]);
                assert(slot.deep_view() == adv[j as int]);
                assert forall|k: int|
                    0 <= k < accs@.len() implies accs.deep_view()[k] == adv.subrange(
                    j + 1,
                    n as int,
                )[k] by {
                    assert(accs@[k] == pv[k + 1]);
                    assert(accs.deep_view()[k] == pdv[k + 1]);
                }
                assert(accs.deep_view() =~= adv.subrange(j + 1, n as int));
            }
            let d = &fv[j];
            proof {
                assert(*d == fields[j as int]);
            }
            let built: FieldValue = match (d.cardinality, d.necessity) {
                (Cardinality::Single, Necessity::Required) => {
                    let v0 = slot.remove(0);
                    FieldValue::Single(v0)
                },
                (Cardinality::Single, Necessity::Optional) => {
                    if slot.len() == 0 {
                        FieldValue::OptSingle(None)
                    } else {
                        let v0 = slot.remove(0);
                        FieldValue::OptSingle(Some(v0))
                    }
                },
                (Cardinality::Repeated, Necessity::Required) => FieldValue::Repeated(slot),
                (Cardinality::Repeated, Necessity::Optional) => {
                    if slot.len() == 0 {
                        FieldValue::OptRepeated(None)
                    } else {
                        FieldValue::OptRepeated(Some(slot))
                    }
                },
            };
            proof {
                assert(built.deep_view() == spec_build_field(fields[j as int], adv[j as int]));
            }
            outf.push(built);
            proof {
                assert(outf.deep_view() =~= odv.push(built.deep_view()));
            }
            j = j + 1;
        }
        proof {
            assert(outf.deep_view() =~= spec_build(fields, adv));
        }
        Ok(ParsedRecord { fields: outf })
    }

    /// Parses a whole message buffer: splits it at the first head/body
    /// delimiter, validates the head is pure ASCII, parses the head
    /// section, and returns the record together with the body, a borrowed
    /// view of the buffer after the delimiter. Returns exactly what
    /// [`spec_parse`] says.
    pub fn parse_headers<'a>(&self, head_and_body: &'a [u8]) -> (r: Result<
        (ParsedRecord, &'a [u8]),
        Error,
    >)
        ensures
            match r {
                Ok(p) => spec_parse(head_and_body@, self@) == Ok::<_, ErrorModel>(
                    (p.0.deep_view(), p.1@),
                ),
                Err(e) => spec_parse(head_and_body@, self@) == Err::<
                    (Seq<FieldModel>, Seq<u8>),
                    _,
                >(e.deep_view()),
            },
    {
        match find_head_delim(head_and_body) {
            None => {
                proof {
                    lemma_find_sep_none(head_and_body@, head_delim());
                }
                Err(Error::IncompleteHead)
            },
            Some(i) => {
                proof {
                    lemma_find_sep_at(head_and_body@, head_delim(), i as int);
                }
                let bl = head_and_body.len();
                assert(i + 4 <= bl);
                let head = vstd::slice::slice_subrange(head_and_body, 0, i);
                let body = vstd::slice::slice_subrange(head_and_body, i + 4, bl);
                if !is_all_ascii(head) {
                    Err(Error::NonAscii)
                } else {
                    match self.parse_head_section(head) {
                        Ok(rec) => Ok((rec, body)),
                        Err(e) => Err(e),
                    }
                }
            },
        }
    }
}

} // verus!
