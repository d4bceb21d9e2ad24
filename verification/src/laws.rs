//! Engine-wide laws, proved against the parse model.
//!
//! These proof functions state the load-bearing tie-break and completeness
//! rules of the extraction engine: a single-valued field keeps its first
//! value, a repeated field accumulates every matching line in order, a
//! fully convertible and covered head parses successfully, and a missing
//! required field is reported by name.

use vstd::prelude::*;
use crate::scan::{keys_match, lemma_split_len};
use crate::schema::{FieldDescriptor, Cardinality, Necessity};
use crate::value::{ValueModel, spec_convert, spec_convert_list, lemma_convert_parts_len, comma};
use crate::header_parser::{
    ErrorModel, FieldModel, spec_line_kv, spec_lines, spec_init_accs, spec_apply_line_fields,
    spec_run_lines, spec_first_missing, spec_build, spec_build_field, spec_parse_head,
};

verus! {

/// The line names this field: it has a `:` and its key equals the field's
/// canonical key, ignoring ASCII case.
pub open spec fn line_matches(d: FieldDescriptor, line: Seq<u8>) -> bool {
    match spec_line_kv(line) {
        Some(kv) => keys_match(kv.0, d.canonical_key@),
        None => false,
    }
}

/// What one line contributes to a repeated field: its comma-split
/// converted values when it names the field and converts, nothing
/// otherwise.
pub open spec fn line_contrib(d: FieldDescriptor, line: Seq<u8>) -> Seq<ValueModel> {
    match spec_line_kv(line) {
        Some(kv) => if keys_match(kv.0, d.canonical_key@) {
            match spec_convert_list(d.value_type, kv.1) {
                Some(vs) => vs,
                None => Seq::empty(),
            }
        } else {
            Seq::empty()
        },
        None => Seq::empty(),
    }
}

/// What a run of lines contributes to a repeated field, line order first,
/// intra-line order second.
pub open spec fn line_contribs(d: FieldDescriptor, lines: Seq<Seq<u8>>) -> Seq<ValueModel>
    decreases lines.len(),
{
    if lines.len() == 0 {
        Seq::empty()
    } else {
        line_contrib(d, lines[0]) + line_contribs(d, lines.drop_first())
    }
}

/// A field's accumulator after one line: a single-valued field binds the
/// converted value when it was empty and the line names it, a repeated
/// field appends the line's converted values when the line names it.
spec fn slot_after_line(
    d: FieldDescriptor,
    a: Seq<ValueModel>,
    key: Seq<u8>,
    value: Seq<u8>,
) -> Seq<ValueModel> {
    match d.cardinality {
        Cardinality::Single => if keys_match(key, d.canonical_key@) && a.len() == 0 {
            match spec_convert(d.value_type, value) {
                Some(v) => seq![v],
                None => a,
            }
        } else {
            a
        },
        Cardinality::Repeated => if keys_match(key, d.canonical_key@) {
            match spec_convert_list(d.value_type, value) {
                Some(vs) => a + vs,
                None => a,
            }
        } else {
            a
        },
    }
}

/// Applying one line leaves every field's accumulator exactly as
/// [`slot_after_line`] says, and succeeds only when every named field's
/// value converts (where conversion is attempted).
proof fn lemma_apply_effect(
    fields: Seq<FieldDescriptor>,
    accs: Seq<Seq<ValueModel>>,
    key: Seq<u8>,
    value: Seq<u8>,
    j: int,
)
    requires
        0 <= j,
        accs.len() == fields.len(),
    ensures
        match spec_apply_line_fields(fields, accs, key, value, j) {
            Ok(a2) => a2.len() == accs.len() && (forall|idx: int|
                0 <= idx < fields.len() ==> a2[idx] == (if idx < j {
                    accs[idx]
                } else {
                    slot_after_line(fields[idx], accs[idx], key, value)
                })) && (forall|idx: int|
                j <= idx < fields.len() && keys_match(key, fields[idx].canonical_key@)
                    ==> (match fields[idx].cardinality {
                    Cardinality::Single => accs[idx].len() > 0 || spec_convert(
                        fields[idx].value_type,
                        value,
                    ) is Some,
                    Cardinality::Repeated => spec_convert_list(
                        fields[idx].value_type,
                        value,
                    ) is Some,
                })),
            Err(e) => true,
        },
    decreases fields.len() - j,
{
    if j >= fields.len() {
    } else {
        let d = fields[j];
        if keys_match(key, d.canonical_key@) {
            match d.cardinality {
                Cardinality::Single => {
                    if accs[j].len() == 0 {
                        match spec_convert(d.value_type, value) {
                            Some(v) => {
                                lemma_apply_effect(fields, accs.update(j, seq![v]), key, value, j + 1);
                            },
                            None => {},
                        }
                    } else {
                        lemma_apply_effect(fields, accs, key, value, j + 1);
                    }
                },
                Cardinality::Repeated => {
                    match spec_convert_list(d.value_type, value) {
                        Some(vs) => {
                            lemma_apply_effect(fields, accs.update(j, accs[j] + vs), key, value, j + 1);
                        },
                        None => {},
                    }
                },
            }
        } else {
            lemma_apply_effect(fields, accs, key, value, j + 1);
        }
    }
}

/// A successful run keeps one accumulator per field.
proof fn lemma_run_len(fields: Seq<FieldDescriptor>, accs: Seq<Seq<ValueModel>>, lines: Seq<Seq<u8>>)
    requires
        accs.len() == fields.len(),
    ensures
        match spec_run_lines(fields, accs, lines) {
            Ok(fin) => fin.len() == accs.len(),
            Err(_) => true,
        },
    decreases lines.len(),
{
    if lines.len() > 0 {
        match spec_line_kv(lines[0]) {
            None => {},
            Some(kv) => {
                lemma_apply_effect(fields, accs, kv.0, kv.1, 0);
                match spec_apply_line_fields(fields, accs, kv.0, kv.1, 0) {
                    Ok(a2) => {
                        lemma_run_len(fields, a2, lines.drop_first());
                    },
                    Err(_) => {},
                }
            },
        }
    }
}

/// Running a concatenation of line blocks runs the first block, then the
/// second from where the first left off.
proof fn lemma_run_append(
    fields: Seq<FieldDescriptor>,
    accs: Seq<Seq<ValueModel>>,
    a: Seq<Seq<u8>>,
    b: Seq<Seq<u8>>,
)
    ensures
        spec_run_lines(fields, accs, a + b) == (match spec_run_lines(fields, accs, a) {
            Ok(m) => spec_run_lines(fields, m, b),
            Err(e) => Err(e),
        }),
    decreases a.len(),
{
    if a.len() == 0 {
        assert(a + b =~= b);
    } else {
        assert((a + b)[0] == a[0]);
        assert((a + b).len() > 0);
        match spec_line_kv(a[0]) {
            None => {},
            Some(kv) => {
                match spec_apply_line_fields(fields, accs, kv.0, kv.1, 0) {
                    Ok(a2) => {
                        assert((a + b).drop_first() =~= a.drop_first() + b);
                        lemma_run_append(fields, a2, a.drop_first(), b);
                    },
                    Err(_) => {},
                }
            },
        }
    }
}

/// A bound single-valued accumulator survives any further lines.
proof fn lemma_single_preserved(
    fields: Seq<FieldDescriptor>,
    accs: Seq<Seq<ValueModel>>,
    lines: Seq<Seq<u8>>,
    idx: int,
)
    requires
        0 <= idx < fields.len(),
        accs.len() == fields.len(),
        fields[idx].cardinality is Single,
        accs[idx].len() > 0,
    ensures
        match spec_run_lines(fields, accs, lines) {
            Ok(fin) => fin[idx] == accs[idx],
            Err(_) => true,
        },
    decreases lines.len(),
{
    if lines.len() > 0 {
        match spec_line_kv(lines[0]) {
            None => {},
            Some(kv) => {
                lemma_apply_effect(fields, accs, kv.0, kv.1, 0);
                match spec_apply_line_fields(fields, accs, kv.0, kv.1, 0) {
                    Ok(a2) => {
                        assert(a2[idx] == accs[idx]);
                        lemma_single_preserved(fields, a2, lines.drop_first(), idx);
                    },
                    Err(_) => {},
                }
            },
        }
    }
}

/// A field no line names keeps its accumulator unchanged.
proof fn lemma_unmatched_preserved(
    fields: Seq<FieldDescriptor>,
    accs: Seq<Seq<ValueModel>>,
    lines: Seq<Seq<u8>>,
    idx: int,
)
    requires
        0 <= idx < fields.len(),
        accs.len() == fields.len(),
        forall|li: int| 0 <= li < lines.len() ==> !line_matches(fields[idx], lines[li]),
    ensures
        match spec_run_lines(fields, accs, lines) {
            Ok(fin) => fin[idx] == accs[idx],
            Err(_) => true,
        },
    decreases lines.len(),
{
    if lines.len() > 0 {
        match spec_line_kv(lines[0]) {
            None => {},
            Some(kv) => {
                lemma_apply_effect(fields, accs, kv.0, kv.1, 0);
                assert(!line_matches(fields[idx], lines[0]));
                match spec_apply_line_fields(fields, accs, kv.0, kv.1, 0) {
                    Ok(a2) => {
                        assert(a2[idx] == accs[idx]);
                        assert forall|li: int|
                            0 <= li < lines.drop_first().len() implies !line_matches(
                            fields[idx],
                            lines.drop_first()[li],
                        ) by {
                            assert(lines.drop_first()[li] == lines[li + 1]);
                        }
                        lemma_unmatched_preserved(fields, a2, lines.drop_first(), idx);
                    },
                    Err(_) => {},
                }
            },
        }
    }
}

/// A populated accumulator never empties.
proof fn lemma_nonempty_preserved(
    fields: Seq<FieldDescriptor>,
    accs: Seq<Seq<ValueModel>>,
    lines: Seq<Seq<u8>>,
    idx: int,
)
    requires
        0 <= idx < fields.len(),
        accs.len() == fields.len(),
        accs[idx].len() > 0,
    ensures
        match spec_run_lines(fields, accs, lines) {
            Ok(fin) => fin[idx].len() > 0,
            Err(_) => true,
        },
    decreases lines.len(),
{
    if lines.len() > 0 {
        match spec_line_kv(lines[0]) {
            None => {},
            Some(kv) => {
                lemma_apply_effect(fields, accs, kv.0, kv.1, 0);
                match spec_apply_line_fields(fields, accs, kv.0, kv.1, 0) {
                    Ok(a2) => {
                        assert(a2[idx].len() > 0);
                        lemma_nonempty_preserved(fields, a2, lines.drop_first(), idx);
                    },
                    Err(_) => {},
                }
            },
        }
    }
}

/// A field some line names ends with a populated accumulator.
proof fn lemma_matched_nonempty(
    fields: Seq<FieldDescriptor>,
    accs: Seq<Seq<ValueModel>>,
    lines: Seq<Seq<u8>>,
    idx: int,
)
    requires
        0 <= idx < fields.len(),
        accs.len() == fields.len(),
        exists|li: int| 0 <= li < lines.len() && line_matches(fields[idx], lines[li]),
    ensures
        match spec_run_lines(fields, accs, lines) {
            Ok(fin) => fin[idx].len() > 0,
            Err(_) => true,
        },
    decreases lines.len(),
{
    let wli = choose|li: int| 0 <= li < lines.len() && line_matches(fields[idx], lines[li]);
    match spec_line_kv(lines[0]) {
        None => {},
        Some(kv) => {
            lemma_apply_effect(fields, accs, kv.0, kv.1, 0);
            match spec_apply_line_fields(fields, accs, kv.0, kv.1, 0) {
                Ok(a2) => {
                    if line_matches(fields[idx], lines[0]) {
                        match fields[idx].cardinality {
                            Cardinality::Single => {
                                assert(a2[idx].len() > 0);
                            },
                            Cardinality::Repeated => {
                                let vs = spec_convert_list(fields[idx].value_type, kv.1).unwrap();
                                lemma_convert_parts_len(
                                    fields[idx].value_type,
                                    crate::scan::spec_split(kv.1, comma()),
                                );
                                lemma_split_len(kv.1, comma());
                                assert(vs.len() > 0);
                                assert(a2[idx].len() > 0);
                            },
                        }
                        lemma_nonempty_preserved(fields, a2, lines.drop_first(), idx);
                    } else {
                        assert(wli > 0);
                        assert(a2[idx] == accs[idx]);
                        assert(lines.drop_first()[wli - 1] == lines[wli]);
                        assert(exists|li: int|
                            0 <= li < lines.drop_first().len() && line_matches(
                                fields[idx],
                                lines.drop_first()[li],
                            ));
                        lemma_matched_nonempty(fields, a2, lines.drop_first(), idx);
                    }
                },
                Err(_) => {},
            }
        },
    }
}

/// Applying a line whose named fields all convert cannot fail.
proof fn lemma_apply_total(
    fields: Seq<FieldDescriptor>,
    accs: Seq<Seq<ValueModel>>,
    key: Seq<u8>,
    value: Seq<u8>,
    j: int,
)
    requires
        0 <= j,
        accs.len() == fields.len(),
        forall|idx: int|
            j <= idx < fields.len() && keys_match(key, fields[idx].canonical_key@)
                ==> (match fields[idx].cardinality {
                Cardinality::Single => spec_convert(fields[idx].value_type, value) is Some,
                Cardinality::Repeated => spec_convert_list(fields[idx].value_type, value) is Some,
            }),
    ensures
        spec_apply_line_fields(fields, accs, key, value, j) is Ok,
    decreases fields.len() - j,
{
    if j < fields.len() {
        let d = fields[j];
        if keys_match(key, d.canonical_key@) {
            match d.cardinality {
                Cardinality::Single => {
                    if accs[j].len() == 0 {
                        let v = spec_convert(d.value_type, value).unwrap();
                        lemma_apply_total(fields, accs.update(j, seq![v]), key, value, j + 1);
                    } else {
                        lemma_apply_total(fields, accs, key, value, j + 1);
                    }
                },
                Cardinality::Repeated => {
                    let vs = spec_convert_list(d.value_type, value).unwrap();
                    lemma_apply_total(fields, accs.update(j, accs[j] + vs), key, value, j + 1);
                },
            }
        } else {
            lemma_apply_total(fields, accs, key, value, j + 1);
        }
    }
}

/// Running lines that are all well formed and whose matched values all
/// convert cannot fail.
proof fn lemma_run_total(
    fields: Seq<FieldDescriptor>,
    accs: Seq<Seq<ValueModel>>,
    lines: Seq<Seq<u8>>,
)
    requires
        accs.len() == fields.len(),
        forall|li: int| 0 <= li < lines.len() ==> spec_line_kv(lines[li]) is Some,
        forall|li: int, idx: int|
            0 <= li < lines.len() && 0 <= idx < fields.len() && line_matches(
                fields[idx],
                lines[li],
            ) ==> (match fields[idx].cardinality {
                Cardinality::Single => spec_convert(
                    fields[idx].value_type,
                    spec_line_kv(lines[li]).unwrap().1,
                ) is Some,
                Cardinality::Repeated => spec_convert_list(
                    fields[idx].value_type,
                    spec_line_kv(lines[li]).unwrap().1,
                ) is Some,
            }),
    ensures
        spec_run_lines(fields, accs, lines) is Ok,
    decreases lines.len(),
{
    if lines.len() > 0 {
        let kv = spec_line_kv(lines[0]).unwrap();
        assert forall|idx: int|
            0 <= idx < fields.len() && keys_match(kv.0, fields[idx].canonical_key@)
                implies (match fields[idx].cardinality {
                Cardinality::Single => spec_convert(fields[idx].value_type, kv.1) is Some,
                Cardinality::Repeated => spec_convert_list(fields[idx].value_type, kv.1) is Some,
            }) by {
            assert(line_matches(fields[idx], lines[0]));
        }
        lemma_apply_total(fields, accs, kv.0, kv.1, 0);
        lemma_apply_effect(fields, accs, kv.0, kv.1, 0);
        match spec_apply_line_fields(fields, accs, kv.0, kv.1, 0) {
            Ok(a2) => {
                assert forall|li: int|
                    0 <= li < lines.drop_first().len() implies spec_line_kv(
                    lines.drop_first()[li],
                ) is Some by {
                    assert(lines.drop_first()[li] == lines[li + 1]);
                }
                assert forall|li: int, idx: int|
                    0 <= li < lines.drop_first().len() && 0 <= idx < fields.len()
                        && line_matches(fields[idx], lines.drop_first()[li])
                        implies (match fields[idx].cardinality {
                        Cardinality::Single => spec_convert(
                            fields[idx].value_type,
                            spec_line_kv(lines.drop_first()[li]).unwrap().1,
                        ) is Some,
                        Cardinality::Repeated => spec_convert_list(
                            fields[idx].value_type,
                            spec_line_kv(lines.drop_first()[li]).unwrap().1,
                        ) is Some,
                    }) by {
                    assert(lines.drop_first()[li] == lines[li + 1]);
                }
                lemma_run_total(fields, a2, lines.drop_first());
            },
            Err(_) => {},
        }
    }
}

/// When every required field from `j` on is populated, validation finds
/// nothing missing.
proof fn lemma_first_missing_all_nonempty(
    fields: Seq<FieldDescriptor>,
    accs: Seq<Seq<ValueModel>>,
    j: int,
)
    requires
        0 <= j,
        forall|k: int|
            j <= k < fields.len() && fields[k].necessity is Required ==> accs[k].len() > 0,
    ensures
        spec_first_missing(fields, accs, j) is None,
    decreases fields.len() - j,
{
    if j < fields.len() {
        lemma_first_missing_all_nonempty(fields, accs, j + 1);
    }
}

/// First-wins: when the earliest line naming a single-valued field is at
/// `li` and the run succeeds, the field's accumulator ends as exactly
/// that line's converted value; later lines for the same key change
/// nothing.
pub proof fn lemma_first_wins(
    fields: Seq<FieldDescriptor>,
    lines: Seq<Seq<u8>>,
    li: int,
    idx: int,
)
    requires
        0 <= idx < fields.len(),
        fields[idx].cardinality is Single,
        0 <= li < lines.len(),
        line_matches(fields[idx], lines[li]),
        forall|k: int| 0 <= k < li ==> !line_matches(fields[idx], lines[k]),
    ensures
        match spec_run_lines(fields, spec_init_accs(fields.len() as int), lines) {
            Ok(fin) => spec_convert(
                fields[idx].value_type,
                spec_line_kv(lines[li]).unwrap().1,
            ) is Some && fin[idx] == seq![
                spec_convert(fields[idx].value_type, spec_line_kv(lines[li]).unwrap().1).unwrap(),
            ],
            Err(_) => true,
        },
{
    let init = spec_init_accs(fields.len() as int);
    assert(init.len() == fields.len());
    let prefix = lines.subrange(0, li);
    let rest = lines.subrange(li, lines.len() as int);
    assert(prefix + rest =~= lines);
    lemma_run_append(fields, init, prefix, rest);
    match spec_run_lines(fields, init, prefix) {
        Ok(m) => {
            lemma_run_len(fields, init, prefix);
            assert forall|k: int| 0 <= k < prefix.len() implies !line_matches(
                fields[idx],
                prefix[k],
            ) by {
                assert(prefix[k] == lines[k]);
            }
            lemma_unmatched_preserved(fields, init, prefix, idx);
            assert(m[idx] == init[idx]);
            assert(m[idx].len() == 0);
            assert(rest.len() > 0);
            assert(rest[0] == lines[li]);
            let kv = spec_line_kv(lines[li]).unwrap();
            lemma_apply_effect(fields, m, kv.0, kv.1, 0);
            match spec_apply_line_fields(fields, m, kv.0, kv.1, 0) {
                Ok(a2) => {
                    assert(spec_convert(fields[idx].value_type, kv.1) is Some);
                    assert(a2[idx] == seq![spec_convert(fields[idx].value_type, kv.1).unwrap()]);
                    lemma_single_preserved(fields, a2, rest.drop_first(), idx);
                },
                Err(_) => {},
            }
        },
        Err(_) => {},
    }
}

/// Accumulation: a successful run gives a repeated field its starting
/// values followed by every matching line's comma-split converted values,
/// line order first, intra-line order second.
pub proof fn lemma_repeated_accumulation(
    fields: Seq<FieldDescriptor>,
    accs: Seq<Seq<ValueModel>>,
    lines: Seq<Seq<u8>>,
    idx: int,
)
    requires
        0 <= idx < fields.len(),
        accs.len() == fields.len(),
        fields[idx].cardinality is Repeated,
    ensures
        match spec_run_lines(fields, accs, lines) {
            Ok(fin) => fin[idx] == accs[idx] + line_contribs(fields[idx], lines),
            Err(_) => true,
        },
    decreases lines.len(),
{
    if lines.len() == 0 {
        assert(accs[idx] + Seq::<ValueModel>::empty() =~= accs[idx]);
    } else {
        match spec_line_kv(lines[0]) {
            None => {},
            Some(kv) => {
                lemma_apply_effect(fields, accs, kv.0, kv.1, 0);
                match spec_apply_line_fields(fields, accs, kv.0, kv.1, 0) {
                    Ok(a2) => {
                        let lc = line_contrib(fields[idx], lines[0]);
                        if keys_match(kv.0, fields[idx].canonical_key@) {
                            assert(a2[idx] == accs[idx] + lc);
                        } else {
                            assert(a2[idx] == accs[idx]);
                            assert(accs[idx] + lc =~= accs[idx]);
                        }
                        lemma_repeated_accumulation(fields, a2, lines.drop_first(), idx);
                        match spec_run_lines(fields, a2, lines.drop_first()) {
                            Ok(fin) => {
                                assert((accs[idx] + lc) + line_contribs(
                                    fields[idx],
                                    lines.drop_first(),
                                ) =~= accs[idx] + (lc + line_contribs(
                                    fields[idx],
                                    lines.drop_first(),
                                )));
                            },
                            Err(_) => {},
                        }
                    },
                    Err(_) => {},
                }
            },
        }
    }
}

/// Accumulation at the record: a successful parse gives a repeated field
/// exactly the concatenated contributions of its matching lines, shaped
/// by the field's necessity.
pub proof fn lemma_record_accumulation(head: Seq<u8>, fields: Seq<FieldDescriptor>, idx: int)
    requires
        0 <= idx < fields.len(),
        fields[idx].cardinality is Repeated,
    ensures
        match spec_parse_head(head, fields) {
            Ok(rec) => rec[idx] == spec_build_field(
                fields[idx],
                line_contribs(fields[idx], spec_lines(head)),
            ),
            Err(_) => true,
        },
{
    let init = spec_init_accs(fields.len() as int);
    assert(init.len() == fields.len());
    lemma_repeated_accumulation(fields, init, spec_lines(head), idx);
    match spec_run_lines(fields, init, spec_lines(head)) {
        Ok(fin) => {
            assert(init[idx] + line_contribs(fields[idx], spec_lines(head)) =~= line_contribs(
                fields[idx],
                spec_lines(head),
            ));
            assert(fin[idx] == line_contribs(fields[idx], spec_lines(head)));
        },
        Err(_) => {},
    }
}

/// Success: a head whose lines are all well formed, whose matched values
/// all convert, and whose required fields are all named by some line,
/// parses successfully.
pub proof fn lemma_parse_head_success(head: Seq<u8>, fields: Seq<FieldDescriptor>)
    requires
        forall|li: int|
            0 <= li < spec_lines(head).len() ==> spec_line_kv(spec_lines(head)[li]) is Some,
        forall|li: int, idx: int|
            0 <= li < spec_lines(head).len() && 0 <= idx < fields.len() && line_matches(
                fields[idx],
                spec_lines(head)[li],
            ) ==> (match fields[idx].cardinality {
                Cardinality::Single => spec_convert(
                    fields[idx].value_type,
                    spec_line_kv(spec_lines(head)[li]).unwrap().1,
                ) is Some,
                Cardinality::Repeated => spec_convert_list(
                    fields[idx].value_type,
                    spec_line_kv(spec_lines(head)[li]).unwrap().1,
                ) is Some,
            }),
        forall|idx: int|
            0 <= idx < fields.len() && fields[idx].necessity is Required ==> exists|li: int|
                0 <= li < spec_lines(head).len() && line_matches(
                    fields[idx],
                    spec_lines(head)[li],
                ),
    ensures
        spec_parse_head(head, fields) is Ok,
{
    let lines = spec_lines(head);
    let init = spec_init_accs(fields.len() as int);
    assert(init.len() == fields.len());
    lemma_run_total(fields, init, lines);
    let fin = spec_run_lines(fields, init, lines)->Ok_0;
    assert forall|idx: int|
        0 <= idx < fields.len() && fields[idx].necessity is Required implies fin[idx].len()
        > 0 by {
        lemma_matched_nonempty(fields, init, lines, idx);
    }
    lemma_first_missing_all_nonempty(fields, fin, 0);
}

/// Boundary: a head with no lines and a schema with no required fields
/// parse to a record whose every field is absent.
pub proof fn lemma_empty_head_all_optional(fields: Seq<FieldDescriptor>)
    requires
        forall|j: int| 0 <= j < fields.len() ==> fields[j].necessity is Optional,
    ensures
        spec_parse_head(Seq::<u8>::empty(), fields) == Ok::<_, ErrorModel>(
            Seq::new(
                fields.len(),
                |j: int|
                    match fields[j].cardinality {
                        Cardinality::Single => FieldModel::OptSingle(None),
                        Cardinality::Repeated => FieldModel::OptRepeated(None),
                    },
            ),
        ),
{
    let init = spec_init_accs(fields.len() as int);
    assert(spec_lines(Seq::<u8>::empty()) =~= Seq::<Seq<u8>>::empty());
    assert(spec_run_lines(fields, init, spec_lines(Seq::<u8>::empty())) == Ok::<
        _,
        ErrorModel,
    >(init));
    lemma_first_missing_all_nonempty(fields, init, 0);
    let target = Seq::new(
        fields.len(),
        |j: int|
            match fields[j].cardinality {
                Cardinality::Single => FieldModel::OptSingle(None),
                Cardinality::Repeated => FieldModel::OptRepeated(None),
            },
    );
    assert forall|j: int| 0 <= j < fields.len() implies spec_build(fields, init)[j]
        == target[j] by {
        assert(init[j].len() == 0);
    }
    assert(spec_build(fields, init) =~= target);
}

/// Boundary: when a required field is named by no line and line
/// processing itself succeeds, the parse fails with `MissingHeader`
/// naming a required field that stayed empty.
/// When nothing before `idx` is both required and empty while `idx` is,
/// validation reports exactly `idx`.
proof fn lemma_first_missing_exact(
    fields: Seq<FieldDescriptor>,
    accs: Seq<Seq<ValueModel>>,
    j: int,
    idx: int,
)
    requires
        0 <= j <= idx < fields.len(),
        forall|k: int|
            j <= k < idx ==> !(fields[k].necessity is Required && accs[k].len() == 0),
        fields[idx].necessity is Required,
        accs[idx].len() == 0,
    ensures
        spec_first_missing(fields, accs, j) == Some(idx),
    decreases idx - j,
{
    if j < idx {
        lemma_first_missing_exact(fields, accs, j + 1, idx);
    }
}

/// Boundary: when no line names a required field, every earlier required
/// field is named by some line, and line processing itself succeeds, the
/// parse fails with `MissingHeader` naming exactly that field.
pub proof fn lemma_missing_required_fails(head: Seq<u8>, fields: Seq<FieldDescriptor>, idx: int)
    requires
        0 <= idx < fields.len(),
        fields[idx].necessity is Required,
        forall|li: int|
            0 <= li < spec_lines(head).len() ==> !line_matches(
                fields[idx],
                spec_lines(head)[li],
            ),
        forall|k: int|
            0 <= k < idx && fields[k].necessity is Required ==> exists|li: int|
                0 <= li < spec_lines(head).len() && line_matches(
                    fields[k],
                    spec_lines(head)[li],
                ),
        spec_run_lines(
            fields,
            spec_init_accs(fields.len() as int),
            spec_lines(head),
        ) is Ok,
    ensures
        spec_parse_head(head, fields) == Err::<Seq<FieldModel>, _>(
            ErrorModel::MissingHeader(fields[idx].canonical_key@),
        ),
{
    let init = spec_init_accs(fields.len() as int);
    assert(init.len() == fields.len());
    let lines = spec_lines(head);
    lemma_unmatched_preserved(fields, init, lines, idx);
    let fin = spec_run_lines(fields, init, lines)->Ok_0;
    assert(fin[idx] == init[idx]);
    assert(fin[idx].len() == 0);
    assert forall|k: int|
        0 <= k < idx && fields[k].necessity is Required implies fin[k].len() > 0 by {
        lemma_matched_nonempty(fields, init, lines, k);
    }
    lemma_first_missing_exact(fields, fin, 0, idx);
}

/// First-wins at the record: when the earliest line naming a
/// single-valued field is at `li`, a successful parse gives the record
/// field that line's converted value, shaped by the field's necessity.
pub proof fn lemma_record_first_wins(head: Seq<u8>, fields: Seq<FieldDescriptor>, li: int, idx: int)
    requires
        0 <= idx < fields.len(),
        fields[idx].cardinality is Single,
        0 <= li < spec_lines(head).len(),
        line_matches(fields[idx], spec_lines(head)[li]),
        forall|k: int| 0 <= k < li ==> !line_matches(fields[idx], spec_lines(head)[k]),
    ensures
        match spec_parse_head(head, fields) {
            Ok(rec) => spec_convert(
                fields[idx].value_type,
                spec_line_kv(spec_lines(head)[li]).unwrap().1,
            ) is Some && rec[idx] == spec_build_field(
                fields[idx],
                seq![
                    spec_convert(
                        fields[idx].value_type,
                        spec_line_kv(spec_lines(head)[li]).unwrap().1,
                    ).unwrap(),
                ],
            ),
            Err(_) => true,
        },
{
    let lines = spec_lines(head);
    lemma_first_wins(fields, lines, li, idx);
}

} // verus!
