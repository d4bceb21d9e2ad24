//! Byte-level scanning over head text: separator search, splitting, ASCII
//! validation, and case-insensitive key comparison.
//!
//! Head text is pure ASCII, so every operation works on raw bytes. Splitting
//! follows the usual leftmost, non-overlapping separator discipline: a string
//! with no separator is one piece, and each separator occurrence ends the
//! piece before it.

use vstd::prelude::*;

verus! {

/// The separator `sep` occurs in `s` at position `i`.
pub open spec fn is_sep_at(s: Seq<u8>, sep: Seq<u8>, i: int) -> bool {
    0 <= i && i + sep.len() <= s.len() && s.subrange(i, i + sep.len() as int) == sep
}

/// `s` split on `sep`: one piece when `sep` never occurs, otherwise the text
/// before the leftmost occurrence followed by the split of the text after it.
pub open spec fn spec_split(s: Seq<u8>, sep: Seq<u8>) -> Seq<Seq<u8>>
    decreases s.len(),
{
    if sep.len() == 0 || s.len() < sep.len() {
        seq![s]
    } else if s.subrange(0, sep.len() as int) == sep {
        seq![Seq::<u8>::empty()] + spec_split(s.subrange(sep.len() as int, s.len() as int), sep)
    } else {
        let rest = spec_split(s.drop_first(), sep);
        rest.update(0, seq![s[0]] + rest[0])
    }
}

/// A split always has at least one piece.
pub proof fn lemma_split_len(s: Seq<u8>, sep: Seq<u8>)
    ensures
        spec_split(s, sep).len() >= 1,
    decreases s.len(),
{
    if !(sep.len() == 0 || s.len() < sep.len()) {
        if s.subrange(0, sep.len() as int) == sep {
            lemma_split_len(s.subrange(sep.len() as int, s.len() as int), sep);
        } else {
            lemma_split_len(s.drop_first(), sep);
        }
    }
}

/// Unfolding at the leftmost occurrence: when `sep` first occurs at `i`, the
/// split is the prefix before `i` followed by the split of what comes after.
pub proof fn lemma_split_found(s: Seq<u8>, sep: Seq<u8>, i: int)
    requires
        sep.len() > 0,
        is_sep_at(s, sep, i),
        forall|j: int| 0 <= j < i ==> !is_sep_at(s, sep, j),
    ensures
        spec_split(s, sep) == seq![s.subrange(0, i)] + spec_split(
            s.subrange(i + sep.len(), s.len() as int),
            sep,
        ),
    decreases s.len(),
{
    if i == 0 {
        assert(s.subrange(0, sep.len() as int) == sep);
        assert(s.subrange(0, 0) =~= Seq::<u8>::empty());
        assert(spec_split(s, sep) =~= seq![s.subrange(0, 0)] + spec_split(
            s.subrange(sep.len() as int, s.len() as int),
            sep,
        ));
    } else {
        assert(!is_sep_at(s, sep, 0));
        assert(s.subrange(0, sep.len() as int) != sep);
        let t = s.drop_first();
        assert(t.subrange(i - 1, i - 1 + sep.len()) =~= s.subrange(i, i + sep.len() as int));
        assert(is_sep_at(t, sep, i - 1));
        assert forall|j: int| 0 <= j < i - 1 implies !is_sep_at(t, sep, j) by {
            if is_sep_at(t, sep, j) {
                assert(s.subrange(j + 1, j + 1 + sep.len() as int) =~= t.subrange(
                    j,
                    j + sep.len() as int,
                ));
                assert(is_sep_at(s, sep, j + 1));
            }
        }
        lemma_split_found(t, sep, i - 1);
        let rest = spec_split(t, sep);
        lemma_split_len(s.subrange(i + sep.len(), s.len() as int), sep);
        assert(t.subrange(0, i - 1) =~= s.subrange(1, i));
        assert(t.subrange(i - 1 + sep.len(), t.len() as int) =~= s.subrange(
            i + sep.len(),
            s.len() as int,
        ));
        assert(seq![s[0]] + rest[0] =~= s.subrange(0, i));
        assert(spec_split(s, sep) =~= seq![s.subrange(0, i)] + spec_split(
            s.subrange(i + sep.len(), s.len() as int),
            sep,
        ));
    }
}

/// Unfolding when `sep` occurs nowhere: the split is the whole string.
pub proof fn lemma_split_none(s: Seq<u8>, sep: Seq<u8>)
    requires
        sep.len() > 0,
        forall|j: int| !is_sep_at(s, sep, j),
    ensures
        spec_split(s, sep) == seq![s],
    decreases s.len(),
{
    if s.len() < sep.len() {
    } else {
        assert(!is_sep_at(s, sep, 0));
        assert(s.subrange(0, sep.len() as int) != sep);
        let t = s.drop_first();
        assert forall|j: int| !is_sep_at(t, sep, j) by {
            if is_sep_at(t, sep, j) {
                assert(s.subrange(j + 1, j + 1 + sep.len() as int) =~= t.subrange(
                    j,
                    j + sep.len() as int,
                ));
                assert(is_sep_at(s, sep, j + 1));
            }
        }
        lemma_split_none(t, sep);
        assert(seq![s[0]] + t =~= s);
        assert(spec_split(s, sep) =~= seq![s]);
    }
}

/// Finds the leftmost occurrence of `sep` at or after `from`.
fn find_sep_from(s: &[u8], sep: &[u8], from: usize) -> (r: Option<usize>)
    requires
        sep@.len() > 0,
        from <= s@.len(),
    ensures
        match r {
            Some(i) => from <= i && is_sep_at(s@, sep@, i as int) && forall|j: int|
                from <= j < i ==> !is_sep_at(s@, sep@, j),
            None => forall|j: int| from <= j ==> !is_sep_at(s@, sep@, j),
        },
{
    if s.len() < sep.len() {
        return None;
    }
    let n: usize = s.len();
    let mut i: usize = from;
    while i <= n - sep.len()
        invariant
            from <= i,
            n == s@.len(),
            sep@.len() <= s@.len(),
            i <= s@.len(),
            sep@.len() > 0,
            forall|j: int| from <= j < i ==> !is_sep_at(s@, sep@, j),
        decreases s@.len() - i,
    {
        let mut k: usize = 0;
        let mut matches: bool = true;
        proof {
            assert(s@.subrange(i as int, i as int) =~= sep@.subrange(0, 0));
        }
        while k < sep.len() && matches
            invariant
                0 <= k <= sep@.len(),
                i + sep@.len() <= s@.len(),
                matches ==> s@.subrange(i as int, i + k) == sep@.subrange(0, k as int),
                !matches ==> !is_sep_at(s@, sep@, i as int),
                n == s@.len(),
            decreases sep@.len() - k + (if matches {
                1int
            } else {
                0int
            }),
        {
            assert(i + k < n);
            if s[i + k] != sep[k] {
                proof {
                    if is_sep_at(s@, sep@, i as int) {
                        assert(s@.subrange(i as int, i + sep@.len())[k as int] == s@[i + k]);
                    }
                }
                matches = false;
            } else {
                proof {
                    assert(s@.subrange(i as int, i + k + 1) =~= s@.subrange(
                        i as int,
                        i + k,
                    ).push(s@[i + k]));
                    assert(sep@.subrange(0, k as int + 1) =~= sep@.subrange(0, k as int).push(
                        sep@[k as int],
                    ));
                }
                k = k + 1;
            }
        }
        if matches {
            proof {
                assert(sep@.subrange(0, sep@.len() as int) =~= sep@);
            }
            return Some(i);
        }
        i = i + 1;
    }
    proof {
        assert forall|j: int| from <= j implies !is_sep_at(s@, sep@, j) by {
            if j < i {
            } else {
                assert(j + sep@.len() > s@.len());
            }
        }
    }
    None
}

/// Splits `s` on `sep` into owned pieces, leftmost separator first.
pub fn split_on(s: &[u8], sep: &[u8]) -> (r: Vec<Vec<u8>>)
    requires
        sep@.len() > 0,
    ensures
        r.deep_view() == spec_split(s@, sep@),
{
    let n: usize = s.len();
    let mut out: Vec<Vec<u8>> = Vec::new();
    let mut pos: usize = 0;
    proof {
        assert(s@.subrange(0, s@.len() as int) =~= s@);
        assert(out.deep_view() =~= Seq::<Seq<u8>>::empty());
        assert(Seq::<Seq<u8>>::empty() + spec_split(s@, sep@) =~= spec_split(s@, sep@));
    }
    loop
        invariant
            pos <= s@.len(),
            n == s@.len(),
            sep@.len() > 0,
            spec_split(s@, sep@) == out.deep_view() + spec_split(
                s@.subrange(pos as int, s@.len() as int),
                sep@,
            ),
        decreases s@.len() - pos,
    {
        let ghost suffix = s@.subrange(pos as int, s@.len() as int);
        let ghost dv0 = out.deep_view();
        match find_sep_from(s, sep, pos) {
            Some(i) => {
                let piece = vstd::slice::slice_to_vec(vstd::slice::slice_subrange(s, pos, i));
                proof {
                    assert(piece.deep_view() =~= s@.subrange(pos as int, i as int));
                    assert(suffix.subrange(0, i - pos) =~= s@.subrange(pos as int, i as int));
                    assert(is_sep_at(suffix, sep@, i - pos)) by {
                        assert(suffix.subrange(i - pos, i - pos + sep@.len()) =~= s@.subrange(
                            i as int,
                            i + sep@.len(),
                        ));
                    }
                    assert forall|j: int| 0 <= j < i - pos implies !is_sep_at(suffix, sep@, j) by {
                        if is_sep_at(suffix, sep@, j) {
                            assert(s@.subrange(pos + j, pos + j + sep@.len() as int) =~= suffix
                                .subrange(j, j + sep@.len() as int));
                            assert(is_sep_at(s@, sep@, pos + j));
                        }
                    }
                    lemma_split_found(suffix, sep@, i - pos);
                    assert(suffix.subrange(i - pos + sep@.len(), suffix.len() as int) =~= s@
                        .subrange(i + sep@.len(), s@.len() as int));
                }
                out.push(piece);
                proof {
                    assert(out.deep_view() =~= dv0.push(s@.subrange(pos as int, i as int)));
                    assert(dv0 + (seq![s@.subrange(pos as int, i as int)] + spec_split(
                        s@.subrange(i + sep@.len(), s@.len() as int),
                        sep@,
                    )) =~= out.deep_view() + spec_split(
                        s@.subrange(i + sep@.len(), s@.len() as int),
                        sep@,
                    ));
                }
                assert(i + sep@.len() <= n);
                pos = i + sep.len();
            },
            None => {
                let piece = vstd::slice::slice_to_vec(
                    vstd::slice::slice_subrange(s, pos, s.len()),
                );
                proof {
                    assert(piece.deep_view() =~= suffix);
                    assert forall|j: int| !is_sep_at(suffix, sep@, j) by {
                        if is_sep_at(suffix, sep@, j) {
                            assert(s@.subrange(pos + j, pos + j + sep@.len() as int) =~= suffix
                                .subrange(j, j + sep@.len() as int));
                            assert(is_sep_at(s@, sep@, pos + j));
                        }
                    }
                    lemma_split_none(suffix, sep@);
                }
                out.push(piece);
                proof {
                    assert(out.deep_view() =~= dv0.push(suffix));
                    assert(dv0 + seq![suffix] =~= dv0.push(suffix));
                }
                return out;
            },
        }
    }
}

/// The position of the leftmost occurrence of `sep` in `s`.
pub open spec fn spec_find_sep(s: Seq<u8>, sep: Seq<u8>) -> Option<int>
    decreases s.len(),
{
    if sep.len() == 0 || s.len() < sep.len() {
        None
    } else if s.subrange(0, sep.len() as int) == sep {
        Some(0)
    } else {
        match spec_find_sep(s.drop_first(), sep) {
            Some(i) => Some(i + 1),
            None => None,
        }
    }
}

/// When `sep` occurs leftmost at `i`, the find returns `i`.
pub proof fn lemma_find_sep_at(s: Seq<u8>, sep: Seq<u8>, i: int)
    requires
        sep.len() > 0,
        is_sep_at(s, sep, i),
        forall|j: int| 0 <= j < i ==> !is_sep_at(s, sep, j),
    ensures
        spec_find_sep(s, sep) == Some(i),
    decreases s.len(),
{
    if i == 0 {
        assert(s.subrange(0, sep.len() as int) == sep);
    } else {
        assert(!is_sep_at(s, sep, 0));
        assert(s.subrange(0, sep.len() as int) != sep);
        let t = s.drop_first();
        assert(t.subrange(i - 1, i - 1 + sep.len()) =~= s.subrange(i, i + sep.len() as int));
        assert(is_sep_at(t, sep, i - 1));
        assert forall|j: int| 0 <= j < i - 1 implies !is_sep_at(t, sep, j) by {
            if is_sep_at(t, sep, j) {
                assert(s.subrange(j + 1, j + 1 + sep.len() as int) =~= t.subrange(
                    j,
                    j + sep.len() as int,
                ));
                assert(is_sep_at(s, sep, j + 1));
            }
        }
        lemma_find_sep_at(t, sep, i - 1);
    }
}

/// When `sep` occurs nowhere, the find returns nothing.
pub proof fn lemma_find_sep_none(s: Seq<u8>, sep: Seq<u8>)
    requires
        sep.len() > 0,
        forall|j: int| !is_sep_at(s, sep, j),
    ensures
        spec_find_sep(s, sep) is None,
    decreases s.len(),
{
    if s.len() < sep.len() {
    } else {
        assert(!is_sep_at(s, sep, 0));
        assert(s.subrange(0, sep.len() as int) != sep);
        let t = s.drop_first();
        assert forall|j: int| !is_sep_at(t, sep, j) by {
            if is_sep_at(t, sep, j) {
                assert(s.subrange(j + 1, j + 1 + sep.len() as int) =~= t.subrange(
                    j,
                    j + sep.len() as int,
                ));
                assert(is_sep_at(s, sep, j + 1));
            }
        }
        lemma_find_sep_none(t, sep);
    }
}

/// The position of the leftmost occurrence of byte `b` in `s`.
pub open spec fn spec_find_byte(s: Seq<u8>, b: u8) -> Option<int>
    decreases s.len(),
{
    if s.len() == 0 {
        None
    } else if s[0] == b {
        Some(0)
    } else {
        match spec_find_byte(s.drop_first(), b) {
            Some(i) => Some(i + 1),
            None => None,
        }
    }
}

/// When `b` occurs leftmost at `i`, the find returns `i`.
pub proof fn lemma_find_byte_at(s: Seq<u8>, b: u8, i: int)
    requires
        0 <= i < s.len(),
        s[i] == b,
        forall|j: int| 0 <= j < i ==> s[j] != b,
    ensures
        spec_find_byte(s, b) == Some(i),
    decreases s.len(),
{
    if i > 0 {
        lemma_find_byte_at(s.drop_first(), b, i - 1);
    }
}

/// When `b` occurs nowhere, the find returns nothing.
pub proof fn lemma_find_byte_none(s: Seq<u8>, b: u8)
    requires
        forall|j: int| 0 <= j < s.len() ==> s[j] != b,
    ensures
        spec_find_byte(s, b) is None,
    decreases s.len(),
{
    if s.len() > 0 {
        lemma_find_byte_none(s.drop_first(), b);
    }
}

/// Every byte of `s` is 7-bit ASCII.
pub open spec fn all_ascii(s: Seq<u8>) -> bool {
    forall|i: int| 0 <= i < s.len() ==> s[i] < 128
}

/// Checks that `s` is pure 7-bit ASCII.
pub fn is_all_ascii(s: &[u8]) -> (r: bool)
    ensures
        r == all_ascii(s@),
{
    let mut i: usize = 0;
    while i < s.len()
        invariant
            0 <= i <= s@.len(),
            forall|j: int| 0 <= j < i ==> s@[j] < 128,
        decreases s@.len() - i,
    {
        if s[i] >= 128 {
            return false;
        }
        i = i + 1;
    }
    true
}

/// ASCII lower-casing of one byte.
pub open spec fn to_lower(b: u8) -> u8 {
    if 65 <= b <= 90 {
        (b + 32) as u8
    } else {
        b
    }
}

/// Case-insensitive equality of two ASCII keys.
pub open spec fn keys_match(a: Seq<u8>, b: Seq<u8>) -> bool {
    a.len() == b.len() && forall|i: int| 0 <= i < a.len() ==> to_lower(a[i]) == to_lower(b[i])
}

/// Compares two keys, ignoring ASCII case.
pub fn eq_ignore_ascii_case(a: &[u8], b: &[u8]) -> (r: bool)
    ensures
        r == keys_match(a@, b@),
{
    if a.len() != b.len() {
        return false;
    }
    let mut i: usize = 0;
    while i < a.len()
        invariant
            0 <= i <= a@.len(),
            a@.len() == b@.len(),
            forall|j: int| 0 <= j < i ==> to_lower(a@[j]) == to_lower(b@[j]),
        decreases a@.len() - i,
    {
        let x = a[i];
        let y = b[i];
        let xl: u8 = if 65 <= x && x <= 90 {
            x + 32
        } else {
            x
        };
        let yl: u8 = if 65 <= y && y <= 90 {
            y + 32
        } else {
            y
        };
        if xl != yl {
            return false;
        }
        i = i + 1;
    }
    true
}

/// Finds the leftmost occurrence of byte `b` in `s`.
pub fn find_byte(s: &[u8], b: u8) -> (r: Option<usize>)
    ensures
        match r {
            Some(i) => i < s@.len() && s@[i as int] == b && forall|j: int|
                0 <= j < i ==> s@[j] != b,
            None => forall|j: int| 0 <= j < s@.len() ==> s@[j] != b,
        },
{
    let mut i: usize = 0;
    while i < s.len()
        invariant
            0 <= i <= s@.len(),
            forall|j: int| 0 <= j < i ==> s@[j] != b,
        decreases s@.len() - i,
    {
        if s[i] == b {
            return Some(i);
        }
        i = i + 1;
    }
    None
}

} // verus!
