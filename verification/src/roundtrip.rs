//! Round-trip laws of the wire codec: serializing a message and parsing the
//! resulting bytes reproduces the message.  The heart of the argument is
//! that a head built from clean lines joined with CR LF contains the
//! head/body separator exactly once, at the end of the head.

use vstd::prelude::*;
use crate::bytes::{
    ascii_bytes, ascii_seq, byte_free, find_match_from, lemma_find_match_from, matches_at,
    spec_split_once, spec_split_seq, spec_split_uninclusive, spec_starts_with, CR, LF, SP,
};
use crate::http::{
    crlf, head_body_separator, spec_header_block, spec_header_line, HeaderView,
};

verus! {

/// The lines joined with `sep` between consecutive lines (and nothing at the
/// ends).
pub open spec fn join_with(lines: Seq<Seq<u8>>, sep: Seq<u8>) -> Seq<u8>
    decreases lines.len(),
{
    if lines.len() == 0 {
        Seq::empty()
    } else if lines.len() == 1 {
        lines[0]
    } else {
        lines[0] + sep + join_with(lines.skip(1), sep)
    }
}

/// Freedom from a byte distributes over concatenation.
pub proof fn lemma_byte_free_concat(a: Seq<u8>, b: Seq<u8>, x: u8)
    requires
        byte_free(a, x),
        byte_free(b, x),
    ensures
        byte_free(a + b, x),
{
    assert forall|i: int| 0 <= i < (a + b).len() implies (a + b)[i] != x by {
        if i < a.len() {
            assert((a + b)[i] == a[i]);
        } else {
            assert((a + b)[i] == b[i - a.len()]);
        }
    }
}

/// Being ASCII distributes over concatenation.
pub proof fn lemma_ascii_concat(a: Seq<u8>, b: Seq<u8>)
    requires
        ascii_bytes(a),
        ascii_bytes(b),
    ensures
        ascii_bytes(a + b),
{
    assert forall|i: int| 0 <= i < (a + b).len() implies (a + b)[i] < 128 by {
        if i < a.len() {
            assert((a + b)[i] == a[i]);
        } else {
            assert((a + b)[i] == b[i - a.len()]);
        }
    }
}

/// A pattern that occurs at `p`, and nowhere earlier, is what the search
/// finds.
pub proof fn lemma_find_is_first(s: Seq<u8>, pat: Seq<u8>, from: int, p: int, bound: int)
    requires
        from <= p < bound,
        matches_at(s, pat, p),
        forall|j: int| from <= j < p ==> !matches_at(s, pat, j),
    ensures
        find_match_from(s, pat, from, bound) == Some(p),
    decreases p - from,
{
    if from < p {
        lemma_find_is_first(s, pat, from + 1, p, bound);
    }
}

/// A match of `pat` starts with `pat`'s first byte.
proof fn lemma_match_head(s: Seq<u8>, pat: Seq<u8>, i: int)
    requires
        pat.len() > 0,
        matches_at(s, pat, i),
    ensures
        s[i] == pat[0],
{
    assert(s.subrange(i, i + pat.len())[0] == s[i]);
}

/// Splitting at a separator undoes joining with it, as long as no line
/// contains the separator's first byte and, for a two-byte separator, its
/// bytes differ.
pub proof fn lemma_split_join(lines: Seq<Seq<u8>>, sep: Seq<u8>)
    requires
        lines.len() >= 1,
        1 <= sep.len() <= 2,
        sep.len() == 2 ==> sep[1] != sep[0],
        forall|i: int| 0 <= i < lines.len() ==> byte_free(#[trigger] lines[i], sep[0]),
    ensures
        spec_split_seq(join_with(lines, sep), sep) == lines,
    decreases lines.len(),
{
    let joined = join_with(lines, sep);
    if lines.len() == 1 {
        let bound = joined.len() - sep.len() + 1;
        assert forall|j: int| 0 <= j < bound implies !matches_at(joined, sep, j) by {
            if matches_at(joined, sep, j) {
                lemma_match_head(joined, sep, j);
                assert(joined[j] == lines[0][j]);
            }
        }
        lemma_find_match_from(joined, sep, 0, bound);
        if find_match_from(joined, sep, 0, bound) is Some {
            assert(false);
        }
        assert(spec_split_seq(joined, sep) =~= lines);
    } else {
        let l0 = lines[0];
        let rest = join_with(lines.skip(1), sep);
        assert(joined == l0 + sep + rest);
        let p = l0.len() as int;
        assert(matches_at(joined, sep, p)) by {
            assert(joined.subrange(p, p + sep.len()) =~= sep);
        }
        assert forall|j: int| 0 <= j < p implies !matches_at(joined, sep, j) by {
            if matches_at(joined, sep, j) {
                lemma_match_head(joined, sep, j);
                assert(joined[j] == l0[j]);
            }
        }
        let bound = joined.len() - sep.len() + 1;
        assert(p < bound);
        lemma_find_is_first(joined, sep, 0, p, bound);
        assert(joined.subrange(0, p) =~= l0);
        assert(joined.subrange(p + sep.len(), joined.len() as int) =~= rest);
        lemma_split_join(lines.skip(1), sep);
        assert(spec_split_seq(joined, sep) == seq![l0] + lines.skip(1));
        assert(seq![l0] + lines.skip(1) =~= lines);
    }
}

/// A join of ASCII lines with an ASCII separator is ASCII.
pub proof fn lemma_join_ascii(lines: Seq<Seq<u8>>, sep: Seq<u8>)
    requires
        ascii_bytes(sep),
        forall|i: int| 0 <= i < lines.len() ==> ascii_bytes(#[trigger] lines[i]),
    ensures
        ascii_bytes(join_with(lines, sep)),
    decreases lines.len(),
{
    if lines.len() == 0 {
    } else if lines.len() == 1 {
    } else {
        lemma_join_ascii(lines.skip(1), sep);
        lemma_ascii_concat(lines[0], sep);
        lemma_ascii_concat(lines[0] + sep, join_with(lines.skip(1), sep));
        assert(join_with(lines, sep) == (lines[0] + sep) + join_with(lines.skip(1), sep));
    }
}

/// Joining one more line appends a separator and the line.
pub proof fn lemma_join_snoc(lines: Seq<Seq<u8>>, x: Seq<u8>, sep: Seq<u8>)
    requires
        lines.len() >= 1,
    ensures
        join_with(lines.push(x), sep) == join_with(lines, sep) + sep + x,
    decreases lines.len(),
{
    if lines.len() == 1 {
        assert(lines.push(x).skip(1) =~= seq![x]);
        assert(join_with(seq![x], sep) == seq![x][0]);
        assert(join_with(lines.push(x), sep) == lines.push(x)[0] + sep + join_with(
            lines.push(x).skip(1),
            sep,
        ));
        assert(lines.push(x)[0] == lines[0]);
        assert(join_with(lines.push(x), sep) == lines[0] + sep + x);
        assert(join_with(lines, sep) + sep + x == lines[0] + sep + x);
    } else {
        lemma_join_snoc(lines.skip(1), x, sep);
        assert(lines.push(x).skip(1) =~= lines.skip(1).push(x));
        assert(join_with(lines.push(x), sep) == lines[0] + sep + join_with(
            lines.skip(1).push(x),
            sep,
        ));
        assert(lines[0] + sep + (join_with(lines.skip(1), sep) + sep + x) =~= (lines[0] + sep
            + join_with(lines.skip(1), sep)) + sep + x);
    }
}

/// A join of lines free of a byte, with a separator free of it, is free of
/// it.
pub proof fn lemma_join_byte_free(lines: Seq<Seq<u8>>, sep: Seq<u8>, x: u8)
    requires
        byte_free(sep, x),
        forall|i: int| 0 <= i < lines.len() ==> byte_free(#[trigger] lines[i], x),
    ensures
        byte_free(join_with(lines, sep), x),
    decreases lines.len(),
{
    if lines.len() == 0 {
    } else if lines.len() == 1 {
    } else {
        lemma_join_byte_free(lines.skip(1), sep, x);
        lemma_byte_free_concat(lines[0], sep, x);
        lemma_byte_free_concat(lines[0] + sep, join_with(lines.skip(1), sep), x);
        assert(join_with(lines, sep) == (lines[0] + sep) + join_with(lines.skip(1), sep));
    }
}

/// In nonempty lines joined with a one-byte separator they are free of, the
/// separator never occurs twice in a row.
pub proof fn lemma_join_no_doubled_sep(lines: Seq<Seq<u8>>, c: u8)
    requires
        lines.len() >= 1,
        forall|i: int| 0 <= i < lines.len() ==> (#[trigger] lines[i]).len() > 0,
        forall|i: int| 0 <= i < lines.len() ==> byte_free(#[trigger] lines[i], c),
    ensures
        forall|p: int| !matches_at(join_with(lines, seq![c]), seq![c, c], p),
    decreases lines.len(),
{
    let joined = join_with(lines, seq![c]);
    if lines.len() == 1 {
        assert forall|p: int| !matches_at(joined, seq![c, c], p) by {
            if matches_at(joined, seq![c, c], p) {
                lemma_match_head(joined, seq![c, c], p);
                assert(joined[p] == lines[0][p]);
            }
        }
    } else {
        let l0 = lines[0];
        let rest = join_with(lines.skip(1), seq![c]);
        assert(joined == l0 + seq![c] + rest);
        lemma_join_no_doubled_sep(lines.skip(1), c);
        assert(rest.len() > 0 && rest[0] != c) by {
            let r0 = lines.skip(1)[0];
            if lines.skip(1).len() == 1 {
                assert(rest == r0);
            } else {
                assert(rest == r0 + seq![c] + join_with(lines.skip(1).skip(1), seq![c]));
            }
            assert(r0.len() > 0);
            assert(rest[0] == r0[0]);
        }
        assert forall|p: int| !matches_at(joined, seq![c, c], p) by {
            if matches_at(joined, seq![c, c], p) {
                if p < l0.len() {
                    lemma_match_head(joined, seq![c, c], p);
                    assert(joined[p] == l0[p]);
                } else if p == l0.len() {
                    assert(joined.subrange(p, p + 2)[1] == joined[p + 1]);
                    assert(joined[p + 1] == rest[0]);
                } else {
                    let q = p - l0.len() - 1;
                    assert(joined.subrange(p, p + 2) =~= rest.subrange(q, q + 2));
                    assert(matches_at(rest, seq![c, c], q));
                }
            }
        }
    }
}

/// In clean lines joined with CR LF and followed by the head/body separator,
/// the separator occurs nowhere inside the join.
pub proof fn lemma_join_no_separator(lines: Seq<Seq<u8>>, tail: Seq<u8>)
    requires
        lines.len() >= 1,
        forall|i: int| 0 <= i < lines.len() ==> (#[trigger] lines[i]).len() > 0,
        forall|i: int| 0 <= i < lines.len() ==> byte_free(#[trigger] lines[i], CR),
        forall|i: int| 0 <= i < lines.len() ==> byte_free(#[trigger] lines[i], LF),
    ensures
        forall|p: int|
            0 <= p < join_with(lines, crlf()).len() ==> !matches_at(
                join_with(lines, crlf()) + head_body_separator() + tail,
                head_body_separator(),
                p,
            ),
    decreases lines.len(),
{
    let sep4 = head_body_separator();
    let joined = join_with(lines, crlf());
    let s = joined + sep4 + tail;
    if lines.len() == 1 {
        assert forall|p: int| 0 <= p < joined.len() implies !matches_at(s, sep4, p) by {
            if matches_at(s, sep4, p) {
                lemma_match_head(s, sep4, p);
                assert(s[p] == lines[0][p]);
            }
        }
    } else {
        let l0 = lines[0];
        let rest = join_with(lines.skip(1), crlf());
        let s2 = rest + sep4 + tail;
        assert(joined == l0 + crlf() + rest);
        assert(s =~= l0 + crlf() + s2);
        lemma_join_no_separator(lines.skip(1), tail);
        assert(rest.len() > 0 && rest[0] == lines.skip(1)[0][0] && rest[0] != CR) by {
            let r0 = lines.skip(1)[0];
            if lines.skip(1).len() == 1 {
                assert(rest == r0);
            } else {
                assert(rest == r0 + crlf() + join_with(lines.skip(1).skip(1), crlf()));
            }
            assert(r0.len() > 0);
            assert(rest[0] == r0[0]);
        }
        assert forall|p: int| 0 <= p < joined.len() implies !matches_at(s, sep4, p) by {
            if p < l0.len() {
                if matches_at(s, sep4, p) {
                    lemma_match_head(s, sep4, p);
                    assert(s[p] == l0[p]);
                }
            } else if p == l0.len() {
                if matches_at(s, sep4, p) {
                    assert(s.subrange(p, p + 4)[2] == s[p + 2]);
                    assert(s[p + 2] == s2[0]);
                    assert(s2[0] == rest[0]);
                }
            } else if p == l0.len() + 1 {
                if matches_at(s, sep4, p) {
                    lemma_match_head(s, sep4, p);
                    assert(s[p] == LF);
                }
            } else {
                let q = p - l0.len() - 2;
                assert(0 <= q < rest.len());
                if matches_at(s, sep4, p) {
                    assert(s.subrange(p, p + 4) =~= s2.subrange(q, q + 4));
                    assert(matches_at(s2, sep4, q));
                }
            }
        }
    }
}

/// Splitting at the first occurrence of `sep` recovers the two sides of a
/// join, as long as the left side lacks the separator's first byte.
pub proof fn lemma_split_once_exact(a: Seq<u8>, sep: Seq<u8>, b: Seq<u8>)
    requires
        sep.len() >= 1,
        byte_free(a, sep[0]),
    ensures
        spec_split_once(a + sep + b, sep) == Some((a, b)),
{
    let s = a + sep + b;
    let p = a.len() as int;
    assert(matches_at(s, sep, p)) by {
        assert(s.subrange(p, p + sep.len()) =~= sep);
    }
    assert forall|j: int| 0 <= j < p implies !matches_at(s, sep, j) by {
        if matches_at(s, sep, j) {
            lemma_match_head(s, sep, j);
            assert(s[j] == a[j]);
        }
    }
    let bound = s.len() - sep.len() + 1;
    lemma_find_is_first(s, sep, 0, p, bound);
    assert(s.subrange(0, p) =~= a);
    assert(s.subrange(p + sep.len(), s.len() as int) =~= b);
}

/// A string without the separator's first byte does not split.
pub proof fn lemma_split_once_absent(s: Seq<u8>, sep: Seq<u8>)
    requires
        sep.len() >= 1,
        byte_free(s, sep[0]),
    ensures
        spec_split_once(s, sep) is None,
{
    let bound = s.len() - sep.len() + 1;
    assert forall|j: int| 0 <= j < bound implies !matches_at(s, sep, j) by {
        if matches_at(s, sep, j) {
            lemma_match_head(s, sep, j);
        }
    }
    lemma_find_match_from(s, sep, 0, bound);
    if find_match_from(s, sep, 0, bound) is Some {
        assert(false);
    }
}

/// A field fit to stand in a primary head line: nonempty ASCII with no
/// carriage return, line feed or space.
pub open spec fn wire_token_ok(s: Seq<u8>) -> bool {
    s.len() > 0 && ascii_bytes(s) && byte_free(s, CR) && byte_free(s, LF) && byte_free(s, SP)
}

/// A header whose serialized line parses back to it: only an attachment file
/// name carries free-form bytes, and it must be ASCII, stay on one line and
/// avoid the semicolon that introduces the repeated `filename*=` field.
pub open spec fn header_wire_ok(h: HeaderView) -> bool {
    match h {
        HeaderView::ContentDisposition(
            crate::http::DispositionView::Attachment(Some(f)),
        ) => ascii_bytes(f) && byte_free(f, CR) && byte_free(f, LF) && byte_free(f, ';' as u8),
        _ => true,
    }
}

/// Decimal renderings are clean line material.
proof fn lemma_decimal_clean(n: nat)
    ensures
        crate::numbers::spec_decimal(n).len() > 0,
        ascii_bytes(crate::numbers::spec_decimal(n)),
        byte_free(crate::numbers::spec_decimal(n), CR),
        byte_free(crate::numbers::spec_decimal(n), LF),
        byte_free(crate::numbers::spec_decimal(n), SP),
        byte_free(crate::numbers::spec_decimal(n), ':' as u8),
{
    crate::numbers::lemma_decimal_digits(n);
}

/// The serialized value of a content disposition parses back to it.
proof fn lemma_disposition_round_trip(d: crate::http::DispositionView)
    requires
        header_wire_ok(HeaderView::ContentDisposition(d)),
    ensures
        crate::parse::spec_disposition_from(crate::http::spec_disposition_bytes(d)) == Ok::<
            _,
            crate::parse::WireError,
        >(HeaderView::ContentDisposition(d)),
        crate::http::spec_disposition_bytes(d).len() > 0,
        ascii_bytes(crate::http::spec_disposition_bytes(d)),
        byte_free(crate::http::spec_disposition_bytes(d), CR),
        byte_free(crate::http::spec_disposition_bytes(d), LF),
{
    reveal_strlit("inline");
    reveal_strlit("attachment");
    reveal_strlit("attachment; filename=");
    reveal_strlit("; filename*=");
    let v = crate::http::spec_disposition_bytes(d);
    match d {
        crate::http::DispositionView::Inline => {
            assert(ascii_bytes(v) && byte_free(v, CR) && byte_free(v, LF));
        },
        crate::http::DispositionView::Attachment(None) => {
            assert(v != ascii_seq("inline"@));
            assert(ascii_bytes(v) && byte_free(v, CR) && byte_free(v, LF));
        },
        crate::http::DispositionView::Attachment(Some(f)) => {
            let prefix = ascii_seq("attachment; filename="@);
            let middle = ascii_seq("; filename*="@);
            assert(v == prefix + f + middle + f);
            assert(v.len() >= prefix.len() + middle.len());
            assert(v != ascii_seq("inline"@));
            assert(v != ascii_seq("attachment"@));
            assert(spec_starts_with(v, prefix)) by {
                assert(v.subrange(0, prefix.len() as int) =~= prefix);
            }
            let rest = v.skip(prefix.len() as int);
            assert(rest =~= (f + middle) + f);
            assert(byte_free(f, middle[0]));
            lemma_split_once_exact(f, middle, f);
            assert(rest == f + middle + f);
            assert(ascii_bytes(prefix) && byte_free(prefix, CR) && byte_free(prefix, LF));
            assert(ascii_bytes(middle) && byte_free(middle, CR) && byte_free(middle, LF));
            lemma_ascii_concat(prefix, f);
            lemma_ascii_concat(prefix + f, middle);
            lemma_ascii_concat(prefix + f + middle, f);
            lemma_byte_free_concat(prefix, f, CR);
            lemma_byte_free_concat(prefix + f, middle, CR);
            lemma_byte_free_concat(prefix + f + middle, f, CR);
            lemma_byte_free_concat(prefix, f, LF);
            lemma_byte_free_concat(prefix + f, middle, LF);
            lemma_byte_free_concat(prefix + f + middle, f, LF);
        },
    }
}

/// A serialized header line is clean, splits into its key and value, and the
/// pair parses back to the header.
proof fn lemma_header_line_round_trip(h: HeaderView)
    requires
        header_wire_ok(h),
    ensures
        spec_header_line(h).len() > 0,
        ascii_bytes(spec_header_line(h)),
        byte_free(spec_header_line(h), CR),
        byte_free(spec_header_line(h), LF),
        spec_split_once(spec_header_line(h), ascii_seq(": "@)) == Some(
            (crate::http::spec_header_key(h), crate::http::spec_header_value(h)),
        ),
        crate::parse::spec_header_from_pair(
            crate::http::spec_header_key(h),
            crate::http::spec_header_value(h),
        ) == Ok::<_, crate::parse::WireError>(Some(h)),
{
    reveal_strlit("Content-Type");
    reveal_strlit("Transfer-Encoding");
    reveal_strlit("Content-Disposition");
    reveal_strlit("Content-Length");
    reveal_strlit(": ");
    reveal_strlit("text/html");
    reveal_strlit("text/plain");
    reveal_strlit("image/x-icon");
    reveal_strlit("audio/flac");
    reveal_strlit("application/json");
    reveal_strlit("7bit");
    reveal_strlit("8bit");
    reveal_strlit("binary");
    reveal_strlit("quoted-printable");
    reveal_strlit("base64");
    let key = crate::http::spec_header_key(h);
    let value = crate::http::spec_header_value(h);
    let colon_sep = ascii_seq(": "@);
    assert(byte_free(key, ':' as u8) && byte_free(key, CR) && byte_free(key, LF) && ascii_bytes(
        key,
    ) && key.len() > 0);
    assert(colon_sep[0] == ':' as u8 && ascii_bytes(colon_sep) && byte_free(colon_sep, CR)
        && byte_free(colon_sep, LF));
    lemma_split_once_exact(key, colon_sep, value);
    assert(spec_header_line(h) == key + colon_sep + value);
    match h {
        HeaderView::ContentType(c) => {
            assert(ascii_bytes(value) && byte_free(value, CR) && byte_free(value, LF));
            assert(ascii_seq("audio/flac"@) != ascii_seq("text/plain"@)) by {
                assert(ascii_seq("audio/flac"@)[0] == 'a' as u8);
                assert(ascii_seq("text/plain"@)[0] == 't' as u8);
            }
            assert(crate::http::spec_content_type_from(value) == Some(c));
        },
        HeaderView::TransferEncoding(t) => {
            assert(ascii_bytes(value) && byte_free(value, CR) && byte_free(value, LF));
            assert(ascii_seq("8bit"@) != ascii_seq("7bit"@)) by {
                assert(ascii_seq("8bit"@)[0] == '8' as u8);
                assert(ascii_seq("7bit"@)[0] == '7' as u8);
            }
            assert(ascii_seq("base64"@) != ascii_seq("binary"@)) by {
                assert(ascii_seq("base64"@)[1] == 'a' as u8);
                assert(ascii_seq("binary"@)[1] == 'i' as u8);
            }
            assert(crate::http::spec_transfer_encoding_from(value) == Some(t));
        },
        HeaderView::ContentLength(n) => {
            lemma_decimal_clean(n as nat);
            crate::numbers::lemma_decimal_round_trip(n as nat, usize::MAX as nat);
        },
        HeaderView::ContentDisposition(d) => {
            lemma_disposition_round_trip(d);
        },
    }
    lemma_ascii_concat(key, colon_sep);
    lemma_ascii_concat(key + colon_sep, value);
    lemma_byte_free_concat(key, colon_sep, CR);
    lemma_byte_free_concat(key + colon_sep, value, CR);
    lemma_byte_free_concat(key, colon_sep, LF);
    lemma_byte_free_concat(key + colon_sep, value, LF);
}

/// The serialized lines of a header list parse back to the same headers.
proof fn lemma_header_lines_round_trip(hs: Seq<HeaderView>)
    requires
        forall|i: int| 0 <= i < hs.len() ==> header_wire_ok(#[trigger] hs[i]),
    ensures
        crate::parse::spec_parse_header_lines(hs.map_values(|h: HeaderView| spec_header_line(h)))
            == Ok::<_, crate::parse::WireError>(hs),
    decreases hs.len(),
{
    let lines = hs.map_values(|h: HeaderView| spec_header_line(h));
    if hs.len() > 0 {
        lemma_header_line_round_trip(hs[0]);
        assert(lines[0] == spec_header_line(hs[0]));
        let key = crate::http::spec_header_key(hs[0]);
        let value = crate::http::spec_header_value(hs[0]);
        assert(spec_split_once(lines[0], ascii_seq(": "@)) == Some((key, value)));
        assert(crate::parse::spec_header_from_pair(key, value) == Ok::<_, crate::parse::WireError>(
            Some(hs[0]),
        ));
        assert(lines.skip(1) =~= hs.skip(1).map_values(|h: HeaderView| spec_header_line(h)));
        lemma_header_lines_round_trip(hs.skip(1));
        assert(crate::parse::spec_parse_header_lines(lines.skip(1)) == Ok::<
            _,
            crate::parse::WireError,
        >(hs.skip(1)));
        assert(crate::parse::spec_parse_header_lines(lines) == Ok::<_, crate::parse::WireError>(
            seq![hs[0]] + hs.skip(1),
        ));
        assert(seq![hs[0]] + hs.skip(1) =~= hs);
    } else {
        assert(lines =~= Seq::<Seq<u8>>::empty());
        assert(hs =~= Seq::<HeaderView>::empty());
    }
}

/// The serialized head of a message is its lines joined with CR LF: the
/// incremental form written by the serializer equals the join form used by
/// the parsing argument.
proof fn lemma_head_is_join(primary: Seq<u8>, hs: Seq<HeaderView>)
    ensures
        primary + crlf() + spec_header_block(hs) == join_with(
            seq![primary] + hs.map_values(|h: HeaderView| spec_header_line(h)),
            crlf(),
        ) + crlf(),
    decreases hs.len(),
{
    let lines = hs.map_values(|h: HeaderView| spec_header_line(h));
    if hs.len() == 0 {
        assert(seq![primary] + lines =~= seq![primary]);
        assert(join_with(seq![primary], crlf()) == primary);
        assert(primary + crlf() + spec_header_block(hs) =~= primary + crlf());
    } else {
        let prefix = hs.drop_last();
        lemma_head_is_join(primary, prefix);
        let prefix_lines = prefix.map_values(|h: HeaderView| spec_header_line(h));
        assert(seq![primary] + lines =~= (seq![primary] + prefix_lines).push(
            spec_header_line(hs.last()),
        ));
        lemma_join_snoc(seq![primary] + prefix_lines, spec_header_line(hs.last()), crlf());
        assert(spec_header_block(hs) == spec_header_block(prefix) + spec_header_line(hs.last())
            + crlf());
        assert(primary + crlf() + spec_header_block(hs) =~= (primary + crlf() + spec_header_block(
            prefix,
        )) + spec_header_line(hs.last()) + crlf());
        assert((join_with(seq![primary] + prefix_lines, crlf()) + crlf()) + spec_header_line(
            hs.last(),
        ) + crlf() =~= join_with(seq![primary] + lines, crlf()) + crlf());
    }
}

/// A response whose serialization parses back to it: its version and status
/// text are clean tokens and each header is fit for the wire.
pub open spec fn response_wire_ok(v: crate::http::ResponseView) -> bool {
    &&& wire_token_ok(v.protocol_version)
    &&& wire_token_ok(v.status_text)
    &&& forall|i: int| 0 <= i < v.headers.len() ==> header_wire_ok(#[trigger] v.headers[i])
}

/// The lines of a serialized message head, primary line first.
spec fn message_lines(primary: Seq<u8>, hs: Seq<HeaderView>) -> Seq<Seq<u8>> {
    seq![primary] + hs.map_values(|h: HeaderView| spec_header_line(h))
}

/// The shared core of the two round-trip proofs: a message head built from a
/// clean primary line and clean headers, followed by the separator and the
/// body, splits back into exactly that head and body, is ASCII, and its
/// lines parse apart again.
proof fn lemma_head_round_trip(primary: Seq<u8>, hs: Seq<HeaderView>, body: Seq<u8>)
    requires
        primary.len() > 0,
        ascii_bytes(primary),
        byte_free(primary, CR),
        byte_free(primary, LF),
        forall|i: int| 0 <= i < hs.len() ==> header_wire_ok(#[trigger] hs[i]),
    ensures
        ({
            let ser = primary + crlf() + spec_header_block(hs) + crlf() + body;
            let joined = join_with(message_lines(primary, hs), crlf());
            &&& crate::parse::spec_split_head_body(ser) == Ok::<_, crate::parse::WireError>(
                (joined, body),
            )
            &&& ascii_bytes(joined)
            &&& spec_split_seq(joined, crlf()) == message_lines(primary, hs)
            &&& crate::parse::spec_parse_header_lines(
                spec_split_seq(joined, crlf()).skip(1),
            ) == Ok::<_, crate::parse::WireError>(hs)
            &&& spec_split_seq(joined, crlf())[0] == primary
        }),
{
    let ser = primary + crlf() + spec_header_block(hs) + crlf() + body;
    let lines = message_lines(primary, hs);
    let joined = join_with(lines, crlf());
    let sep4 = head_body_separator();
    lemma_head_is_join(primary, hs);
    assert(ser =~= joined + sep4 + body);
    assert forall|i: int| 0 <= i < lines.len() implies (#[trigger] lines[i]).len() > 0
        && byte_free(lines[i], CR) && byte_free(lines[i], LF) && ascii_bytes(lines[i]) by {
        if i == 0 {
            assert(lines[0] == primary);
        } else {
            assert(lines[i] == spec_header_line(hs[i - 1]));
            lemma_header_line_round_trip(hs[i - 1]);
        }
    }
    lemma_join_no_separator(lines, body);
    lemma_join_ascii(lines, crlf());
    assert(matches_at(ser, sep4, joined.len() as int)) by {
        assert(ser.subrange(joined.len() as int, joined.len() as int + 4) =~= sep4);
    }
    // The framing search: with a nonempty body the separator is found; with
    // an empty body it sits in the final four bytes, which the search never
    // reaches, and the trailing-slice fallback recovers the same head.
    assert(ser.len() > 0);
    assert(joined.len() > 0);
    if body.len() > 0 {
        let bound = ser.len() - 4;
        lemma_find_is_first(ser, sep4, 0, joined.len() as int, bound as int);
        assert(spec_split_uninclusive(ser, sep4) == Some(
            (
                ser.subrange(0, joined.len() as int),
                ser.subrange(joined.len() as int + 4, ser.len() as int),
            ),
        ));
        assert(ser.subrange(0, joined.len() as int) =~= joined);
        assert(ser.subrange(joined.len() as int + 4, ser.len() as int) =~= body);
    } else {
        let bound = ser.len() - 4;
        assert(bound == joined.len());
        lemma_find_match_from(ser, sep4, 0, bound as int);
        if find_match_from(ser, sep4, 0, bound as int) is Some {
            assert(false);
        }
        assert(spec_split_uninclusive(ser, sep4) is None);
        assert(ser.subrange(0, ser.len() - 4) =~= joined);
        assert(body =~= Seq::<u8>::empty());
    }
    lemma_split_join(lines, crlf());
    assert(lines[0] == primary);
    assert(lines.skip(1) =~= hs.map_values(|h: HeaderView| spec_header_line(h)));
    lemma_header_lines_round_trip(hs);
}

/// Round trip: serializing a response and parsing the resulting bytes
/// reproduces the same status, headers and body.
pub proof fn lemma_response_round_trip(v: crate::http::ResponseView)
    requires
        response_wire_ok(v),
    ensures
        crate::parse::spec_parse_response(crate::http::spec_serialize_response(v)) == Ok::<
            _,
            crate::parse::WireError,
        >(v),
{
    let primary = crate::http::spec_response_primary(v);
    let dec = crate::numbers::spec_decimal(v.status_code as nat);
    lemma_decimal_clean(v.status_code as nat);
    assert(primary == v.protocol_version + seq![SP] + dec + seq![SP] + v.status_text);
    assert(byte_free(seq![SP], CR) && byte_free(seq![SP], LF) && ascii_bytes(seq![SP]));
    lemma_byte_free_concat(v.protocol_version, seq![SP], CR);
    lemma_byte_free_concat(v.protocol_version + seq![SP], dec, CR);
    lemma_byte_free_concat(v.protocol_version + seq![SP] + dec, seq![SP], CR);
    lemma_byte_free_concat(v.protocol_version + seq![SP] + dec + seq![SP], v.status_text, CR);
    lemma_byte_free_concat(v.protocol_version, seq![SP], LF);
    lemma_byte_free_concat(v.protocol_version + seq![SP], dec, LF);
    lemma_byte_free_concat(v.protocol_version + seq![SP] + dec, seq![SP], LF);
    lemma_byte_free_concat(v.protocol_version + seq![SP] + dec + seq![SP], v.status_text, LF);
    lemma_ascii_concat(v.protocol_version, seq![SP]);
    lemma_ascii_concat(v.protocol_version + seq![SP], dec);
    lemma_ascii_concat(v.protocol_version + seq![SP] + dec, seq![SP]);
    lemma_ascii_concat(v.protocol_version + seq![SP] + dec + seq![SP], v.status_text);
    lemma_head_round_trip(primary, v.headers, v.body);
    // The primary line splits at its spaces into exactly three fields.
    let fields = seq![v.protocol_version, dec, v.status_text];
    assert(join_with(fields, seq![SP]) =~= primary) by {
        assert(fields.skip(1) =~= seq![dec, v.status_text]);
        assert(seq![dec, v.status_text].skip(1) =~= seq![v.status_text]);
        assert(join_with(seq![v.status_text], seq![SP]) == v.status_text);
        assert(join_with(seq![dec, v.status_text], seq![SP]) == dec + seq![SP] + v.status_text);
        assert(join_with(fields, seq![SP]) == v.protocol_version + seq![SP] + (dec + seq![SP]
            + v.status_text));
    }
    lemma_split_join(fields, seq![SP]);
    let segments = spec_split_seq(primary, seq![SP]);
    assert(segments == fields);
    assert(segments[0] == v.protocol_version && segments[1] == dec && segments[2]
        == v.status_text);
    crate::numbers::lemma_decimal_round_trip(v.status_code as nat, usize::MAX as nat);
    let parsed = crate::parse::spec_parse_response(crate::http::spec_serialize_response(v));
    assert(parsed is Ok);
    assert(parsed->Ok_0 == v);
}

/// A request whose serialization parses back to it: clean tokens, a route
/// without a question mark, a query string that stays on one line, and
/// headers fit for the wire.
pub open spec fn request_wire_ok(v: crate::http::RequestView) -> bool {
    &&& wire_token_ok(v.protocol_version)
    &&& ascii_bytes(v.route)
    &&& byte_free(v.route, CR)
    &&& byte_free(v.route, LF)
    &&& byte_free(v.route, SP)
    &&& byte_free(v.route, '?' as u8)
    &&& ascii_bytes(v.query_params)
    &&& byte_free(v.query_params, CR)
    &&& byte_free(v.query_params, LF)
    &&& byte_free(v.query_params, SP)
    &&& forall|i: int| 0 <= i < v.headers.len() ==> header_wire_ok(#[trigger] v.headers[i])
}

/// Round trip: serializing a request and parsing the resulting bytes
/// reproduces the same method, route, query string, headers and body.
pub proof fn lemma_request_round_trip(v: crate::http::RequestView)
    requires
        request_wire_ok(v),
    ensures
        crate::parse::spec_parse_request(crate::http::spec_serialize_request(v)) == Ok::<
            _,
            crate::parse::WireError,
        >(v),
{
    reveal_strlit("GET");
    reveal_strlit("POST");
    reveal_strlit("ERASE");
    reveal_strlit("?");
    let primary = crate::http::spec_request_primary(v);
    let m = crate::http::spec_method_bytes(v.method);
    let uri = v.route + (if v.query_params.len() > 0 {
        ascii_seq("?"@) + v.query_params
    } else {
        Seq::<u8>::empty()
    });
    assert(m.len() > 0 && ascii_bytes(m) && byte_free(m, CR) && byte_free(m, LF) && byte_free(
        m,
        SP,
    ));
    assert(ascii_bytes(ascii_seq("?"@)) && byte_free(ascii_seq("?"@), CR) && byte_free(
        ascii_seq("?"@),
        LF,
    ) && byte_free(ascii_seq("?"@), SP));
    assert(ascii_bytes(uri) && byte_free(uri, CR) && byte_free(uri, LF) && byte_free(uri, SP)) by {
        if v.query_params.len() > 0 {
            lemma_ascii_concat(ascii_seq("?"@), v.query_params);
            lemma_ascii_concat(v.route, ascii_seq("?"@) + v.query_params);
            lemma_byte_free_concat(ascii_seq("?"@), v.query_params, CR);
            lemma_byte_free_concat(v.route, ascii_seq("?"@) + v.query_params, CR);
            lemma_byte_free_concat(ascii_seq("?"@), v.query_params, LF);
            lemma_byte_free_concat(v.route, ascii_seq("?"@) + v.query_params, LF);
            lemma_byte_free_concat(ascii_seq("?"@), v.query_params, SP);
            lemma_byte_free_concat(v.route, ascii_seq("?"@) + v.query_params, SP);
        } else {
            assert(uri =~= v.route);
        }
    }
    assert(primary =~= m + seq![SP] + uri + seq![SP] + v.protocol_version);
    lemma_byte_free_concat(m, seq![SP], CR);
    lemma_byte_free_concat(m + seq![SP], uri, CR);
    lemma_byte_free_concat(m + seq![SP] + uri, seq![SP], CR);
    lemma_byte_free_concat(m + seq![SP] + uri + seq![SP], v.protocol_version, CR);
    lemma_byte_free_concat(m, seq![SP], LF);
    lemma_byte_free_concat(m + seq![SP], uri, LF);
    lemma_byte_free_concat(m + seq![SP] + uri, seq![SP], LF);
    lemma_byte_free_concat(m + seq![SP] + uri + seq![SP], v.protocol_version, LF);
    lemma_ascii_concat(m, seq![SP]);
    lemma_ascii_concat(m + seq![SP], uri);
    lemma_ascii_concat(m + seq![SP] + uri, seq![SP]);
    lemma_ascii_concat(m + seq![SP] + uri + seq![SP], v.protocol_version);
    assert(crate::http::spec_serialize_request(v) == primary + crlf() + spec_header_block(
        v.headers,
    ) + crlf() + v.body);
    lemma_head_round_trip(primary, v.headers, v.body);
    let fields = seq![m, uri, v.protocol_version];
    assert(join_with(fields, seq![SP]) =~= primary) by {
        assert(fields.skip(1) =~= seq![uri, v.protocol_version]);
        assert(seq![uri, v.protocol_version].skip(1) =~= seq![v.protocol_version]);
        assert(join_with(seq![v.protocol_version], seq![SP]) == v.protocol_version);
        assert(join_with(seq![uri, v.protocol_version], seq![SP]) == uri + seq![SP]
            + v.protocol_version);
        assert(join_with(fields, seq![SP]) == m + seq![SP] + (uri + seq![SP]
            + v.protocol_version));
    }
    lemma_split_join(fields, seq![SP]);
    let segments = spec_split_seq(primary, seq![SP]);
    assert(segments == fields);
    assert(crate::http::spec_method_from(segments[0]) == Some(v.method)) by {
        assert(ascii_seq("GET"@) != ascii_seq("POST"@)) by {
            assert(ascii_seq("GET"@).len() == 3 && ascii_seq("POST"@).len() == 4);
        }
        assert(ascii_seq("POST"@) != ascii_seq("ERASE"@)) by {
            assert(ascii_seq("POST"@).len() == 4 && ascii_seq("ERASE"@).len() == 5);
        }
        assert(ascii_seq("GET"@) != ascii_seq("ERASE"@)) by {
            assert(ascii_seq("GET"@).len() == 3 && ascii_seq("ERASE"@).len() == 5);
        }
    }
    // The route and query string come back out of the combined URI field.
    if v.query_params.len() > 0 {
        assert(uri =~= v.route + ascii_seq("?"@) + v.query_params);
        assert(ascii_seq("?"@)[0] == '?' as u8);
        lemma_split_once_exact(v.route, ascii_seq("?"@), v.query_params);
    } else {
        assert(uri =~= v.route);
        assert(ascii_seq("?"@)[0] == '?' as u8);
        lemma_split_once_absent(uri, ascii_seq("?"@));
        assert(v.query_params =~= Seq::<u8>::empty());
    }
    let parsed = crate::parse::spec_parse_request(crate::http::spec_serialize_request(v));
    assert(parsed is Ok);
    assert(parsed->Ok_0 == v);
}

} // verus!
