//! Byte-sequence utilities shared by the wire codec, the template engine and
//! the route handlers: subslice search, splitting, ASCII checks, and helpers
//! for appending literal text to byte buffers.

use vstd::prelude::*;

verus! {

use vstd::string::StringSliceAdditionalSpecFns;

pub const CR: u8 = 13;
pub const LF: u8 = 10;
pub const SP: u8 = 32;

/// The pattern `pat` occurs in `source` starting at index `i`.
pub open spec fn matches_at(source: Seq<u8>, pat: Seq<u8>, i: int) -> bool {
    0 <= i && i + pat.len() <= source.len() && source.subrange(i, i + pat.len()) == pat
}

/// The smallest index in `[from, bound)` where `pat` occurs in `source`.
pub open spec fn find_match_from(source: Seq<u8>, pat: Seq<u8>, from: int, bound: int) -> Option<
    int,
>
    decreases bound - from,
{
    if from >= bound {
        None
    } else if matches_at(source, pat, from) {
        Some(from)
    } else {
        find_match_from(source, pat, from + 1, bound)
    }
}

pub proof fn lemma_find_match_from(source: Seq<u8>, pat: Seq<u8>, from: int, bound: int)
    ensures
        match find_match_from(source, pat, from, bound) {
            Some(i) => from <= i < bound && matches_at(source, pat, i) && (forall|j: int|
                from <= j < i ==> !matches_at(source, pat, j)),
            None => forall|j: int| from <= j < bound ==> !matches_at(source, pat, j),
        },
    decreases bound - from,
{
    if from < bound && !matches_at(source, pat, from) {
        lemma_find_match_from(source, pat, from + 1, bound);
    }
}

/// Every byte of `s` differs from `b`.
pub open spec fn byte_free(s: Seq<u8>, b: u8) -> bool {
    forall|i: int| 0 <= i < s.len() ==> s[i] != b
}

/// Every byte of `s` is ASCII.
pub open spec fn ascii_bytes(s: Seq<u8>) -> bool {
    forall|i: int| 0 <= i < s.len() ==> s[i] < 128
}

/// The bytes of an ASCII character sequence, code point by code point.
pub open spec fn ascii_seq(s: Seq<char>) -> Seq<u8> {
    Seq::new(s.len(), |i: int| s[i] as u8)
}

/// The UTF-8 bytes of a string, as a spec value.
pub open spec fn str_byte_view(s: &str) -> Seq<u8> {
    s.spec_bytes()
}

/// Compares a byte slice against the bytes of an ASCII string literal.
pub fn eq_lit(b: &[u8], s: &str) -> (r: bool)
    requires
        s.is_ascii(),
    ensures
        r == (b@ == ascii_seq(s@)),
        b@ == str_byte_view(s) ==> r,
        r ==> b@ == str_byte_view(s),
{
    proof {
        vstd::string::is_ascii_spec_bytes(s);
        assert(s.spec_bytes() =~= ascii_seq(s@));
    }
    bytes_eq(b, s.as_bytes())
}

/// Exact equality of two byte slices.
pub fn bytes_eq(a: &[u8], b: &[u8]) -> (r: bool)
    ensures
        r == (a@ == b@),
{
    if a.len() != b.len() {
        proof {
            assert(a@ != b@);
        }
        return false;
    }
    let mut i: usize = 0;
    while i < a.len()
        invariant
            i <= a@.len(),
            a@.len() == b@.len(),
            forall|j: int| 0 <= j < i ==> a@[j] == b@[j],
        decreases a@.len() - i,
    {
        if a[i] != b[i] {
            proof {
                assert(a@ != b@);
            }
            return false;
        }
        i = i + 1;
    }
    proof {
        assert(a@ =~= b@);
    }
    true
}

/// True when `pat` occurs in `source` at index `i` (executable form of
/// `matches_at`).
fn matches_at_exec(source: &[u8], pat: &[u8], i: usize) -> (r: bool)
    requires
        i + pat@.len() <= source@.len(),
    ensures
        r == matches_at(source@, pat@, i as int),
{
    let source_len = source.len();
    let pat_len = pat.len();
    let window = &source[i..i + pat_len];
    bytes_eq(window, pat)
}

/// The result of splitting `source` at the first occurrence of `pat`, with the
/// occurrence itself removed, where the search never considers an occurrence
/// that touches the final `pat.len()` bytes of `source` (the two slices of
/// equal length are instead compared whole).  This mirrors the executable
/// search exactly, including that quirk.
pub open spec fn spec_split_uninclusive(source: Seq<u8>, pat: Seq<u8>) -> Option<(Seq<u8>, Seq<u8>)> {
    if pat.len() > source.len() {
        None
    } else if pat.len() == source.len() {
        if source == pat {
            Some((Seq::empty(), Seq::empty()))
        } else {
            None
        }
    } else {
        match find_match_from(source, pat, 0, source.len() - pat.len()) {
            Some(i) => Some(
                (source.subrange(0, i), source.subrange(i + pat.len(), source.len() as int)),
            ),
            None => None,
        }
    }
}

/// Splits `source` around the first occurrence of `subslice`, dropping the
/// separator; an occurrence that begins in the final `subslice.len()` bytes is
/// not found unless the slices are exactly equal.
pub fn split_slice_uninclusive<'a>(source: &'a [u8], subslice: &[u8]) -> (r: Option<
    (&'a [u8], &'a [u8]),
>)
    ensures
        match r {
            Some(p) => spec_split_uninclusive(source@, subslice@) == Some((p.0@, p.1@)),
            None => spec_split_uninclusive(source@, subslice@) is None,
        },
{
    if subslice.len() > source.len() {
        return None;
    }
    if subslice.len() == source.len() {
        if bytes_eq(source, subslice) {
            let empty_head = &source[0..0];
            let empty_tail = &source[0..0];
            proof {
                assert(source@.subrange(0, 0) =~= Seq::<u8>::empty());
            }
            return Some((empty_head, empty_tail));
        } else {
            return None;
        }
    }
    let bound = source.len() - subslice.len();
    let mut index: usize = 0;
    while index < bound
        invariant
            bound == source@.len() - subslice@.len(),
            subslice@.len() < source@.len(),
            index <= bound,
            find_match_from(source@, subslice@, 0, bound as int) == find_match_from(
                source@,
                subslice@,
                index as int,
                bound as int,
            ),
        decreases bound - index,
    {
        if matches_at_exec(source, subslice, index) {
            let source_len = source.len();
            let head = &source[0..index];
            let tail = &source[index + subslice.len()..source_len];
            return Some((head, tail));
        }
        index = index + 1;
    }
    None
}

/// `s` begins with `p`.
pub open spec fn spec_starts_with(s: Seq<u8>, p: Seq<u8>) -> bool {
    p.len() <= s.len() && s.subrange(0, p.len() as int) == p
}

/// `s` begins with `p` (executable form of `spec_starts_with`).
pub fn starts_with(s: &[u8], p: &[u8]) -> (r: bool)
    ensures
        r == spec_starts_with(s@, p@),
{
    if p.len() > s.len() {
        return false;
    }
    let prefix = &s[0..p.len()];
    bytes_eq(prefix, p)
}

/// The index of the first occurrence of `pat` anywhere in `s`.
pub fn find_sub(s: &[u8], pat: &[u8]) -> (r: Option<usize>)
    requires
        pat@.len() >= 1,
    ensures
        match r {
            Some(i) => find_match_from(s@, pat@, 0, s@.len() - pat@.len() + 1) == Some(i as int),
            None => find_match_from(s@, pat@, 0, s@.len() - pat@.len() + 1) is None,
        },
{
    if pat.len() > s.len() {
        return None;
    }
    let bound = s.len() - pat.len() + 1;
    let mut index: usize = 0;
    while index < bound
        invariant
            pat@.len() >= 1,
            bound == s@.len() - pat@.len() + 1,
            pat@.len() <= s@.len(),
            index <= bound,
            find_match_from(s@, pat@, 0, bound as int) == find_match_from(
                s@,
                pat@,
                index as int,
                bound as int,
            ),
        decreases bound - index,
    {
        if matches_at_exec(s, pat, index) {
            return Some(index);
        }
        index = index + 1;
    }
    None
}

/// The result of splitting `s` at the first occurrence of `sep`, with the
/// separator removed; `None` when `sep` does not occur.
pub open spec fn spec_split_once(s: Seq<u8>, sep: Seq<u8>) -> Option<(Seq<u8>, Seq<u8>)> {
    match find_match_from(s, sep, 0, s.len() - sep.len() + 1) {
        Some(i) => Some((s.subrange(0, i), s.subrange(i + sep.len(), s.len() as int))),
        None => None,
    }
}

/// Splits `s` at the first occurrence of `sep`, dropping the separator.
pub fn split_once<'a>(s: &'a [u8], sep: &[u8]) -> (r: Option<(&'a [u8], &'a [u8])>)
    requires
        sep@.len() >= 1,
    ensures
        match r {
            Some(p) => spec_split_once(s@, sep@) == Some((p.0@, p.1@)),
            None => spec_split_once(s@, sep@) is None,
        },
{
    match find_sub(s, sep) {
        Some(i) => {
            proof {
                lemma_find_match_from(s@, sep@, 0, s@.len() - sep@.len() + 1);
            }
            let s_len = s.len();
            let head = &s[0..i];
            let tail = &s[i + sep.len()..s_len];
            Some((head, tail))
        },
        None => None,
    }
}

/// The pieces of `s` between occurrences of `sep`, in order; there is always
/// at least one piece, and separators at the ends contribute empty pieces.
pub open spec fn spec_split_seq(s: Seq<u8>, sep: Seq<u8>) -> Seq<Seq<u8>>
    decreases s.len(),
{
    if sep.len() == 0 {
        seq![s]
    } else {
        match find_match_from(s, sep, 0, s.len() - sep.len() + 1) {
            Some(i) => {
                proof {
                    lemma_find_match_from(s, sep, 0, s.len() - sep.len() + 1);
                }
                seq![s.subrange(0, i)] + spec_split_seq(
                    s.subrange(i + sep.len(), s.len() as int),
                    sep,
                )
            },
            None => seq![s],
        }
    }
}

/// The views of a list of byte slices.
pub open spec fn slice_views(parts: Seq<&[u8]>) -> Seq<Seq<u8>> {
    parts.map_values(|p: &[u8]| p@)
}

/// Splits `s` at every occurrence of `sep`, dropping the separators.
pub fn split_all<'a>(s: &'a [u8], sep: &[u8]) -> (r: Vec<&'a [u8]>)
    requires
        sep@.len() >= 1,
    ensures
        slice_views(r@) == spec_split_seq(s@, sep@),
        r@.len() >= 1,
{
    let mut parts: Vec<&'a [u8]> = Vec::new();
    let mut rest: &'a [u8] = s;
    loop
        invariant
            sep@.len() >= 1,
            spec_split_seq(s@, sep@) == slice_views(parts@) + spec_split_seq(rest@, sep@),
        decreases rest@.len(),
    {
        match find_sub(rest, sep) {
            Some(i) => {
                proof {
                    lemma_find_match_from(rest@, sep@, 0, rest@.len() - sep@.len() + 1);
                }
                let rest_len = rest.len();
                let piece = &rest[0..i];
                let ghost prev = rest@;
                parts.push(piece);
                rest = &rest[i + sep.len()..rest_len];
                proof {
                    assert(slice_views(parts@) =~= slice_views(parts@.drop_last()) + seq![
                        prev.subrange(0, i as int),
                    ]);
                    assert(spec_split_seq(s@, sep@) =~= slice_views(parts@) + spec_split_seq(
                        rest@,
                        sep@,
                    ));
                }
            },
            None => {
                parts.push(rest);
                proof {
                    assert(slice_views(parts@) =~= slice_views(parts@.drop_last()) + seq![rest@]);
                    assert(spec_split_seq(s@, sep@) =~= slice_views(parts@));
                }
                return parts;
            },
        }
    }
}

/// `s` ends with `p`.
pub open spec fn spec_ends_with(s: Seq<u8>, p: Seq<u8>) -> bool {
    p.len() <= s.len() && s.subrange(s.len() - p.len(), s.len() as int) == p
}

/// `s` ends with `p` (executable form of `spec_ends_with`).
pub fn ends_with(s: &[u8], p: &[u8]) -> (r: bool)
    ensures
        r == spec_ends_with(s@, p@),
{
    if p.len() > s.len() {
        return false;
    }
    let suffix = &s[s.len() - p.len()..s.len()];
    bytes_eq(suffix, p)
}

/// The index of the first element of `list` equal to `x`, or `-1`.
pub open spec fn spec_index_of(list: Seq<Seq<u8>>, x: Seq<u8>) -> int
    decreases list.len(),
{
    if list.len() == 0 {
        -1
    } else if list[0] == x {
        0
    } else {
        let rest = spec_index_of(list.skip(1), x);
        if rest < 0 {
            -1
        } else {
            rest + 1
        }
    }
}

/// An element that occurs first at `j` is the one the search finds.
pub proof fn lemma_index_of_first(list: Seq<Seq<u8>>, x: Seq<u8>, j: int)
    requires
        0 <= j < list.len(),
        list[j] == x,
        forall|l: int| 0 <= l < j ==> list[l] != x,
    ensures
        spec_index_of(list, x) == j,
    decreases j,
{
    if j > 0 {
        lemma_index_of_first(list.skip(1), x, j - 1);
    }
}

/// An element that occurs nowhere is not found.
pub proof fn lemma_index_of_none(list: Seq<Seq<u8>>, x: Seq<u8>)
    requires
        forall|l: int| 0 <= l < list.len() ==> list[l] != x,
    ensures
        spec_index_of(list, x) == -1,
    decreases list.len(),
{
    if list.len() > 0 {
        lemma_index_of_none(list.skip(1), x);
    }
}

/// The views of a list of byte buffers.
pub open spec fn vec_byte_views(s: Seq<Vec<u8>>) -> Seq<Seq<u8>> {
    s.map_values(|v: Vec<u8>| v@)
}

/// The index of the first element of `list` equal to `x`, executably.
pub fn index_of(list: &Vec<Vec<u8>>, x: &[u8]) -> (r: Option<usize>)
    ensures
        match r {
            Some(i) => spec_index_of(vec_byte_views(list@), x@) == i as int && i < list@.len(),
            None => spec_index_of(vec_byte_views(list@), x@) == -1,
        },
{
    let ghost views = vec_byte_views(list@);
    let mut j: usize = 0;
    while j < list.len()
        invariant
            j <= list@.len(),
            views == vec_byte_views(list@),
            forall|l: int| 0 <= l < j ==> views[l] != x@,
        decreases list@.len() - j,
    {
        if bytes_eq(list[j].as_slice(), x) {
            proof {
                lemma_index_of_first(views, x@, j as int);
            }
            return Some(j);
        }
        j = j + 1;
    }
    proof {
        lemma_index_of_none(views, x@);
    }
    None
}

/// The part of `s` after the last occurrence of `sep`; all of `s` when `sep`
/// does not occur.
pub open spec fn spec_last_segment(s: Seq<u8>, sep: u8) -> Seq<u8>
    decreases s.len(),
{
    if s.len() == 0 {
        s
    } else if s.last() == sep {
        Seq::empty()
    } else {
        spec_last_segment(s.drop_last(), sep) + seq![s.last()]
    }
}

proof fn lemma_last_segment_suffix(s: Seq<u8>, sep: u8, i: int)
    requires
        0 <= i <= s.len(),
        i == 0 || s[i - 1] == sep,
        forall|j: int| i <= j < s.len() ==> s[j] != sep,
    ensures
        spec_last_segment(s, sep) == s.skip(i),
    decreases s.len(),
{
    if s.len() == i {
        if i == 0 {
            assert(s.skip(0) =~= s);
        } else {
            assert(s.last() == s[i - 1]);
            assert(s.skip(i) =~= Seq::<u8>::empty());
        }
    } else {
        assert(s.last() != sep);
        lemma_last_segment_suffix(s.drop_last(), sep, i);
        assert(s.drop_last().skip(i) + seq![s.last()] =~= s.skip(i));
    }
}

/// The part of `s` after the last occurrence of `sep`, executably.
pub fn last_segment<'a>(s: &'a [u8], sep: u8) -> (r: &'a [u8])
    ensures
        r@ == spec_last_segment(s@, sep),
{
    let mut i: usize = s.len();
    while i > 0
        invariant
            i <= s@.len(),
            forall|j: int| i <= j < s@.len() ==> s@[j] != sep,
        decreases i,
    {
        if s[i - 1] == sep {
            proof {
                lemma_last_segment_suffix(s@, sep, i as int);
            }
            let r = &s[i..s.len()];
            return r;
        }
        i = i - 1;
    }
    proof {
        lemma_last_segment_suffix(s@, sep, 0);
    }
    let r = &s[0..s.len()];
    proof {
        assert(r@ =~= s@.skip(0));
    }
    r
}

/// Every byte of `s` is ASCII (executable form of `ascii_bytes`).
pub fn all_ascii(s: &[u8]) -> (r: bool)
    ensures
        r == ascii_bytes(s@),
{
    let mut i: usize = 0;
    while i < s.len()
        invariant
            i <= s@.len(),
            forall|j: int| 0 <= j < i ==> s@[j] < 128,
        decreases s@.len() - i,
    {
        if s[i] >= 128 {
            return false;
        }
        i = i + 1;
    }
    true
}

/// Appends all of `data` to the end of `out`.
pub fn append_bytes(out: &mut Vec<u8>, data: &[u8])
    ensures
        final(out)@ == old(out)@ + data@,
{
    let mut i: usize = 0;
    while i < data.len()
        invariant
            i <= data@.len(),
            out@ == old(out)@ + data@.subrange(0, i as int),
        decreases data@.len() - i,
    {
        out.push(data[i]);
        i = i + 1;
        proof {
            assert(out@ =~= old(out)@ + data@.subrange(0, i as int));
        }
    }
    proof {
        assert(out@ =~= old(out)@ + data@);
    }
}

/// The bytes of an ASCII string, as an owned buffer.
pub fn ascii_vec(s: &str) -> (r: Vec<u8>)
    requires
        s.is_ascii(),
    ensures
        r@ == ascii_seq(s@),
{
    let mut v: Vec<u8> = Vec::new();
    append_ascii(&mut v, s);
    v
}

/// Appends the bytes of an ASCII string to `out`.
pub fn append_ascii(out: &mut Vec<u8>, s: &str)
    requires
        s.is_ascii(),
    ensures
        final(out)@ == old(out)@ + ascii_seq(s@),
{
    proof {
        vstd::string::is_ascii_spec_bytes(s);
        assert(s.spec_bytes() =~= ascii_seq(s@));
    }
    append_bytes(out, s.as_bytes())
}

} // verus!
