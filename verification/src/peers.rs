//! Peer addresses: IPv4 quads and IPv6 group lists as plain values, with
//! their textual forms.  Addresses are stored without deduplication and in
//! insertion order.
//!
//! IPv4 text is dotted decimal.  IPv6 text is eight hexadecimal groups
//! joined by colons; parsing also accepts one `::` eliding a run of zero
//! groups (so `::1` is read), while rendering always writes all eight
//! groups uncompressed.  The embedded-IPv4 form (`::ffff:1.2.3.4`) is not
//! part of this grammar.

use vstd::prelude::*;
use crate::bytes::{
    byte_free, slice_views, spec_split_once, spec_split_seq, split_all, split_once,
};
use crate::numbers::{
    append_decimal, append_hex, parse_hex_group, parse_usize, spec_decimal, spec_hex,
    spec_parse_decimal, spec_parse_hex,
};

verus! {

pub const DOT: u8 = 46;

pub const COLON: u8 = 58;

#[derive(Clone, Copy, Debug, PartialEq, Eq, Structural)]
pub enum PeerAddr {
    V4(u8, u8, u8, u8),
    V6(u16, u16, u16, u16, u16, u16, u16, u16),
}

/// The textual form of an address: dotted decimal for IPv4, eight
/// colon-separated lowercase hexadecimal groups for IPv6.
pub open spec fn spec_peer_bytes(p: PeerAddr) -> Seq<u8> {
    match p {
        PeerAddr::V4(a, b, c, d) => spec_decimal(a as nat) + seq![DOT] + spec_decimal(b as nat)
            + seq![DOT] + spec_decimal(c as nat) + seq![DOT] + spec_decimal(d as nat),
        PeerAddr::V6(g0, g1, g2, g3, g4, g5, g6, g7) => spec_hex(g0 as nat) + seq![COLON]
            + spec_hex(g1 as nat) + seq![COLON] + spec_hex(g2 as nat) + seq![COLON] + spec_hex(
            g3 as nat,
        ) + seq![COLON] + spec_hex(g4 as nat) + seq![COLON] + spec_hex(g5 as nat) + seq![COLON]
            + spec_hex(g6 as nat) + seq![COLON] + spec_hex(g7 as nat),
    }
}

/// The IPv4 address denoted by dotted-decimal text: four decimal quads no
/// larger than 255, separated by dots.
pub open spec fn spec_parse_v4(s: Seq<u8>) -> Option<PeerAddr> {
    let parts = spec_split_seq(s, seq![DOT]);
    if parts.len() != 4 {
        None
    } else {
        match (
            spec_parse_decimal(parts[0], 255),
            spec_parse_decimal(parts[1], 255),
            spec_parse_decimal(parts[2], 255),
            spec_parse_decimal(parts[3], 255),
        ) {
            (Some(a), Some(b), Some(c), Some(d)) => Some(
                PeerAddr::V4(a as u8, b as u8, c as u8, d as u8),
            ),
            _ => None,
        }
    }
}

/// The hexadecimal group values of a list of text pieces, when every piece
/// is one.
pub open spec fn spec_parse_groups(parts: Seq<Seq<u8>>) -> Option<Seq<u16>>
    decreases parts.len(),
{
    if parts.len() == 0 {
        Some(Seq::empty())
    } else {
        match (spec_parse_groups(parts.drop_last()), spec_parse_hex(parts.last(), 0xffff)) {
            (Some(rest), Some(v)) => Some(rest.push(v as u16)),
            _ => None,
        }
    }
}

/// The colon-separated pieces of one side of a `::`; an empty side has no
/// pieces.
pub open spec fn spec_colon_parts(s: Seq<u8>) -> Seq<Seq<u8>> {
    if s.len() == 0 {
        Seq::empty()
    } else {
        spec_split_seq(s, seq![COLON])
    }
}

/// The address with the eight given group values.
pub open spec fn spec_v6_from_groups(gs: Seq<u16>) -> PeerAddr {
    PeerAddr::V6(gs[0], gs[1], gs[2], gs[3], gs[4], gs[5], gs[6], gs[7])
}

/// The IPv6 address denoted by colon-separated hexadecimal text: eight
/// groups, or fewer with a single `::` standing for the missing zero
/// groups.
pub open spec fn spec_parse_v6(s: Seq<u8>) -> Option<PeerAddr> {
    match spec_split_once(s, seq![COLON, COLON]) {
        Some(p) => {
            if spec_split_once(p.1, seq![COLON, COLON]) is Some {
                None
            } else {
                match (
                    spec_parse_groups(spec_colon_parts(p.0)),
                    spec_parse_groups(spec_colon_parts(p.1)),
                ) {
                    (Some(front), Some(back)) => if front.len() + back.len() <= 7 {
                        Some(
                            spec_v6_from_groups(
                                front + Seq::new((8 - front.len() - back.len()) as nat, |i: int| 0u16)
                                    + back,
                            ),
                        )
                    } else {
                        None
                    },
                    _ => None,
                }
            }
        },
        None => {
            let parts = spec_split_seq(s, seq![COLON]);
            if parts.len() != 8 {
                None
            } else {
                match spec_parse_groups(parts) {
                    Some(gs) => Some(spec_v6_from_groups(gs)),
                    None => None,
                }
            }
        },
    }
}

/// The address denoted by `s`: the IPv4 reading where it applies, the IPv6
/// reading otherwise.
pub open spec fn spec_parse_peer(s: Seq<u8>) -> Option<PeerAddr> {
    match spec_parse_v4(s) {
        Some(p) => Some(p),
        None => spec_parse_v6(s),
    }
}

impl PeerAddr {
    /// Appends this address's textual form to `out`.
    pub fn append_to(&self, out: &mut Vec<u8>)
        ensures
            final(out)@ == old(out)@ + spec_peer_bytes(*self),
    {
        match self {
            PeerAddr::V4(a, b, c, d) => {
                append_decimal(out, *a as usize);
                out.push(DOT);
                append_decimal(out, *b as usize);
                out.push(DOT);
                append_decimal(out, *c as usize);
                out.push(DOT);
                append_decimal(out, *d as usize);
            },
            PeerAddr::V6(g0, g1, g2, g3, g4, g5, g6, g7) => {
                append_hex(out, *g0);
                out.push(COLON);
                append_hex(out, *g1);
                out.push(COLON);
                append_hex(out, *g2);
                out.push(COLON);
                append_hex(out, *g3);
                out.push(COLON);
                append_hex(out, *g4);
                out.push(COLON);
                append_hex(out, *g5);
                out.push(COLON);
                append_hex(out, *g6);
                out.push(COLON);
                append_hex(out, *g7);
            },
        }
        proof {
            assert(out@ =~= old(out)@ + spec_peer_bytes(*self));
        }
    }

    /// Parses an address from its textual form.
    pub fn parse(s: &[u8]) -> (r: Option<PeerAddr>)
        ensures
            r == spec_parse_peer(s@),
    {
        match parse_v4(s) {
            Some(p) => Some(p),
            None => parse_v6(s),
        }
    }
}

/// Parses dotted-decimal IPv4 text.
fn parse_v4(s: &[u8]) -> (r: Option<PeerAddr>)
    ensures
        r == spec_parse_v4(s@),
{
    let mut dot: Vec<u8> = Vec::new();
    dot.push(DOT);
    proof {
        assert(dot@ =~= seq![DOT]);
    }
    let parts = split_all(s, dot.as_slice());
    if parts.len() != 4 {
        return None;
    }
    proof {
        assert(slice_views(parts@)[0] == parts@[0]@);
        assert(slice_views(parts@)[1] == parts@[1]@);
        assert(slice_views(parts@)[2] == parts@[2]@);
        assert(slice_views(parts@)[3] == parts@[3]@);
    }
    let a = match quad(parts[0]) {
        Some(v) => v,
        None => {
            return None;
        },
    };
    let b = match quad(parts[1]) {
        Some(v) => v,
        None => {
            return None;
        },
    };
    let c = match quad(parts[2]) {
        Some(v) => v,
        None => {
            return None;
        },
    };
    let d = match quad(parts[3]) {
        Some(v) => v,
        None => {
            return None;
        },
    };
    Some(PeerAddr::V4(a, b, c, d))
}

/// One decimal quad of an IPv4 address.
fn quad(s: &[u8]) -> (r: Option<u8>)
    ensures
        match r {
            Some(v) => spec_parse_decimal(s@, 255) == Some(v as nat),
            None => spec_parse_decimal(s@, 255) is None,
        },
{
    match parse_usize(s) {
        Some(v) => if v <= 255 {
            Some(v as u8)
        } else {
            None
        },
        None => None,
    }
}

/// Parses the hexadecimal groups of a piece list.
fn parse_groups(parts: &Vec<&[u8]>) -> (r: Option<Vec<u16>>)
    ensures
        match r {
            Some(gs) => spec_parse_groups(slice_views(parts@)) == Some(gs@),
            None => spec_parse_groups(slice_views(parts@)) is None,
        },
{
    let ghost views = slice_views(parts@);
    let mut groups: Vec<u16> = Vec::new();
    let mut i: usize = 0;
    while i < parts.len()
        invariant
            i <= parts@.len(),
            views == slice_views(parts@),
            spec_parse_groups(views.subrange(0, i as int)) == Some(groups@),
        decreases parts@.len() - i,
    {
        match parse_hex_group(parts[i]) {
            Some(v) => {
                groups.push(v);
                i = i + 1;
                proof {
                    let prefix = views.subrange(0, i as int);
                    assert(prefix.drop_last() =~= views.subrange(0, i - 1));
                    assert(prefix.last() == parts@[i - 1]@);
                }
            },
            None => {
                proof {
                    lemma_parse_groups_prefix_fail(views, i as int);
                }
                return None;
            },
        }
    }
    proof {
        assert(views.subrange(0, parts@.len() as int) =~= views);
    }
    Some(groups)
}

/// A parsed group list has one group per piece.
proof fn lemma_parse_groups_len(parts: Seq<Seq<u8>>)
    ensures
        match spec_parse_groups(parts) {
            Some(gs) => gs.len() == parts.len(),
            None => true,
        },
    decreases parts.len(),
{
    if parts.len() > 0 {
        lemma_parse_groups_len(parts.drop_last());
    }
}

/// A piece that is no hexadecimal group fails the whole list.
proof fn lemma_parse_groups_prefix_fail(parts: Seq<Seq<u8>>, i: int)
    requires
        0 <= i < parts.len(),
        spec_parse_hex(parts[i], 0xffff) is None,
    ensures
        spec_parse_groups(parts) is None,
    decreases parts.len(),
{
    if parts.len() > 0 && i < parts.len() - 1 {
        lemma_parse_groups_prefix_fail(parts.drop_last(), i);
    }
}

/// The colon-separated pieces of one side of a `::`.
fn colon_parts<'a>(s: &'a [u8]) -> (r: Vec<&'a [u8]>)
    ensures
        slice_views(r@) == spec_colon_parts(s@),
{
    if s.len() == 0 {
        let r: Vec<&'a [u8]> = Vec::new();
        proof {
            assert(slice_views(r@) =~= Seq::<Seq<u8>>::empty());
        }
        return r;
    }
    let mut colon: Vec<u8> = Vec::new();
    colon.push(COLON);
    proof {
        assert(colon@ =~= seq![COLON]);
    }
    split_all(s, colon.as_slice())
}

/// Parses colon-separated hexadecimal IPv6 text, with an optional single
/// `::`.
fn parse_v6(s: &[u8]) -> (r: Option<PeerAddr>)
    ensures
        r == spec_parse_v6(s@),
{
    let mut double_colon: Vec<u8> = Vec::new();
    double_colon.push(COLON);
    double_colon.push(COLON);
    proof {
        assert(double_colon@ =~= seq![COLON, COLON]);
    }
    match split_once(s, double_colon.as_slice()) {
        Some((left, right)) => {
            match crate::bytes::find_sub(right, double_colon.as_slice()) {
                Some(_) => None,
                None => {
                    let front = match parse_groups(&colon_parts(left)) {
                        Some(gs) => gs,
                        None => {
                            return None;
                        },
                    };
                    let back = match parse_groups(&colon_parts(right)) {
                        Some(gs) => gs,
                        None => {
                            return None;
                        },
                    };
                    if front.len() <= 7 && back.len() <= 7 - front.len() {
                        let missing = 8 - front.len() - back.len();
                        let mut full: Vec<u16> = Vec::new();
                        let mut i: usize = 0;
                        while i < front.len()
                            invariant
                                i <= front@.len(),
                                full@ =~= front@.subrange(0, i as int),
                            decreases front@.len() - i,
                        {
                            full.push(front[i]);
                            i = i + 1;
                            proof {
                                assert(full@ =~= front@.subrange(0, i as int));
                            }
                        }
                        let mut z: usize = 0;
                        while z < missing
                            invariant
                                z <= missing,
                                missing == 8 - front@.len() - back@.len(),
                                full@ =~= front@ + Seq::new(z as nat, |k: int| 0u16),
                            decreases missing - z,
                        {
                            full.push(0);
                            z = z + 1;
                            proof {
                                assert(full@ =~= front@ + Seq::new(z as nat, |k: int| 0u16));
                            }
                        }
                        let mut j: usize = 0;
                        while j < back.len()
                            invariant
                                j <= back@.len(),
                                missing == 8 - front@.len() - back@.len(),
                                full@ =~= front@ + Seq::new(missing as nat, |k: int| 0u16)
                                    + back@.subrange(0, j as int),
                            decreases back@.len() - j,
                        {
                            full.push(back[j]);
                            j = j + 1;
                            proof {
                                assert(full@ =~= front@ + Seq::new(missing as nat, |k: int| 0u16)
                                    + back@.subrange(0, j as int));
                            }
                        }
                        proof {
                            assert(back@.subrange(0, back@.len() as int) =~= back@);
                            assert(full@ =~= front@ + Seq::new(
                                (8 - front@.len() - back@.len()) as nat,
                                |k: int| 0u16,
                            ) + back@);
                            assert(full@.len() == 8);
                        }
                        Some(
                            PeerAddr::V6(
                                full[0],
                                full[1],
                                full[2],
                                full[3],
                                full[4],
                                full[5],
                                full[6],
                                full[7],
                            ),
                        )
                    } else {
                        None
                    }
                },
            }
        },
        None => {
            let mut colon: Vec<u8> = Vec::new();
            colon.push(COLON);
            proof {
                assert(colon@ =~= seq![COLON]);
            }
            let parts = split_all(s, colon.as_slice());
            if parts.len() != 8 {
                return None;
            }
            match parse_groups(&parts) {
                Some(gs) => {
                    proof {
                        lemma_parse_groups_len(slice_views(parts@));
                        assert(slice_views(parts@).len() == parts@.len());
                    }
                    Some(PeerAddr::V6(gs[0], gs[1], gs[2], gs[3], gs[4], gs[5], gs[6], gs[7]))
                },
                None => None,
            }
        },
    }
}

/// Round trip: an address's textual form parses back to the same address.
pub proof fn lemma_peer_round_trip(p: PeerAddr)
    ensures
        spec_parse_peer(spec_peer_bytes(p)) == Some(p),
{
    match p {
        PeerAddr::V4(a, b, c, d) => {
            lemma_v4_round_trip(p, a, b, c, d);
        },
        PeerAddr::V6(g0, g1, g2, g3, g4, g5, g6, g7) => {
            lemma_v6_round_trip(p, g0, g1, g2, g3, g4, g5, g6, g7);
        },
    }
}

proof fn lemma_v4_round_trip(p: PeerAddr, a: u8, b: u8, c: u8, d: u8)
    requires
        p == PeerAddr::V4(a, b, c, d),
    ensures
        spec_parse_peer(spec_peer_bytes(p)) == Some(p),
{
    let qa = spec_decimal(a as nat);
    let qb = spec_decimal(b as nat);
    let qc = spec_decimal(c as nat);
    let qd = spec_decimal(d as nat);
    crate::numbers::lemma_decimal_digits(a as nat);
    crate::numbers::lemma_decimal_digits(b as nat);
    crate::numbers::lemma_decimal_digits(c as nat);
    crate::numbers::lemma_decimal_digits(d as nat);
    let quads = seq![qa, qb, qc, qd];
    assert(crate::roundtrip::join_with(quads, seq![DOT]) =~= spec_peer_bytes(p)) by {
        assert(quads.skip(1) =~= seq![qb, qc, qd]);
        assert(seq![qb, qc, qd].skip(1) =~= seq![qc, qd]);
        assert(seq![qc, qd].skip(1) =~= seq![qd]);
        assert(crate::roundtrip::join_with(seq![qd], seq![DOT]) == qd);
        assert(crate::roundtrip::join_with(seq![qc, qd], seq![DOT]) == qc + seq![DOT] + qd);
        assert(crate::roundtrip::join_with(seq![qb, qc, qd], seq![DOT]) == qb + seq![DOT] + (qc
            + seq![DOT] + qd));
        assert(crate::roundtrip::join_with(quads, seq![DOT]) == qa + seq![DOT] + (qb + seq![DOT]
            + (qc + seq![DOT] + qd)));
    }
    assert(forall|i: int| 0 <= i < quads.len() ==> byte_free(#[trigger] quads[i], DOT));
    crate::roundtrip::lemma_split_join(quads, seq![DOT]);
    crate::numbers::lemma_decimal_round_trip(a as nat, 255);
    crate::numbers::lemma_decimal_round_trip(b as nat, 255);
    crate::numbers::lemma_decimal_round_trip(c as nat, 255);
    crate::numbers::lemma_decimal_round_trip(d as nat, 255);
}

/// The group texts of an IPv6 address, in order.
pub open spec fn spec_v6_group_texts(
    g0: u16,
    g1: u16,
    g2: u16,
    g3: u16,
    g4: u16,
    g5: u16,
    g6: u16,
    g7: u16,
) -> Seq<Seq<u8>> {
    seq![
        spec_hex(g0 as nat),
        spec_hex(g1 as nat),
        spec_hex(g2 as nat),
        spec_hex(g3 as nat),
        spec_hex(g4 as nat),
        spec_hex(g5 as nat),
        spec_hex(g6 as nat),
        spec_hex(g7 as nat),
    ]
}

/// The textual form of an IPv6 address is its group texts joined with
/// colons.
#[verifier::rlimit(100)]
proof fn lemma_v6_text_is_join(
    g0: u16,
    g1: u16,
    g2: u16,
    g3: u16,
    g4: u16,
    g5: u16,
    g6: u16,
    g7: u16,
)
    ensures
        crate::roundtrip::join_with(
            spec_v6_group_texts(g0, g1, g2, g3, g4, g5, g6, g7),
            seq![COLON],
        ) == spec_peer_bytes(PeerAddr::V6(g0, g1, g2, g3, g4, g5, g6, g7)),
{
    let h0 = spec_hex(g0 as nat);
    let h1 = spec_hex(g1 as nat);
    let h2 = spec_hex(g2 as nat);
    let h3 = spec_hex(g3 as nat);
    let h4 = spec_hex(g4 as nat);
    let h5 = spec_hex(g5 as nat);
    let h6 = spec_hex(g6 as nat);
    let h7 = spec_hex(g7 as nat);
    let groups = spec_v6_group_texts(g0, g1, g2, g3, g4, g5, g6, g7);
    assert(groups.skip(1) =~= seq![h1, h2, h3, h4, h5, h6, h7]);
    assert(seq![h1, h2, h3, h4, h5, h6, h7].skip(1) =~= seq![h2, h3, h4, h5, h6, h7]);
    assert(seq![h2, h3, h4, h5, h6, h7].skip(1) =~= seq![h3, h4, h5, h6, h7]);
    assert(seq![h3, h4, h5, h6, h7].skip(1) =~= seq![h4, h5, h6, h7]);
    assert(seq![h4, h5, h6, h7].skip(1) =~= seq![h5, h6, h7]);
    assert(seq![h5, h6, h7].skip(1) =~= seq![h6, h7]);
    assert(seq![h6, h7].skip(1) =~= seq![h7]);
    assert(crate::roundtrip::join_with(seq![h7], seq![COLON]) =~= h7);
    assert(crate::roundtrip::join_with(seq![h6, h7], seq![COLON]) =~= h6 + seq![COLON] + h7);
    assert(crate::roundtrip::join_with(seq![h5, h6, h7], seq![COLON]) =~= h5 + seq![COLON] + (h6
        + seq![COLON] + h7));
    assert(crate::roundtrip::join_with(seq![h4, h5, h6, h7], seq![COLON]) =~= h4 + seq![COLON] + (h5
        + seq![COLON] + (h6 + seq![COLON] + h7)));
    assert(crate::roundtrip::join_with(seq![h3, h4, h5, h6, h7], seq![COLON]) =~= h3 + seq![COLON]
        + (h4 + seq![COLON] + (h5 + seq![COLON] + (h6 + seq![COLON] + h7))));
    assert(crate::roundtrip::join_with(seq![h2, h3, h4, h5, h6, h7], seq![COLON]) =~= h2
        + seq![COLON] + (h3 + seq![COLON] + (h4 + seq![COLON] + (h5 + seq![COLON] + (h6
        + seq![COLON] + h7)))));
    assert(crate::roundtrip::join_with(seq![h1, h2, h3, h4, h5, h6, h7], seq![COLON]) =~= h1
        + seq![COLON] + (h2 + seq![COLON] + (h3 + seq![COLON] + (h4 + seq![COLON] + (h5
        + seq![COLON] + (h6 + seq![COLON] + h7))))));
    assert(crate::roundtrip::join_with(groups, seq![COLON]) =~= h0 + seq![COLON] + (h1 + seq![COLON]
        + (h2 + seq![COLON] + (h3 + seq![COLON] + (h4 + seq![COLON] + (h5 + seq![COLON] + (h6
        + seq![COLON] + h7)))))));
    assert(crate::roundtrip::join_with(groups, seq![COLON]) =~= spec_peer_bytes(
        PeerAddr::V6(g0, g1, g2, g3, g4, g5, g6, g7),
    ));
}

/// The group texts of an IPv6 address parse back to its group values.
proof fn lemma_v6_groups_parse(
    g0: u16,
    g1: u16,
    g2: u16,
    g3: u16,
    g4: u16,
    g5: u16,
    g6: u16,
    g7: u16,
)
    ensures
        spec_parse_groups(spec_v6_group_texts(g0, g1, g2, g3, g4, g5, g6, g7)) == Some(
            seq![g0, g1, g2, g3, g4, g5, g6, g7],
        ),
{
    let h0 = spec_hex(g0 as nat);
    let h1 = spec_hex(g1 as nat);
    let h2 = spec_hex(g2 as nat);
    let h3 = spec_hex(g3 as nat);
    let h4 = spec_hex(g4 as nat);
    let h5 = spec_hex(g5 as nat);
    let h6 = spec_hex(g6 as nat);
    let h7 = spec_hex(g7 as nat);
    crate::numbers::lemma_hex_round_trip(g0 as nat, 0xffff);
    crate::numbers::lemma_hex_round_trip(g1 as nat, 0xffff);
    crate::numbers::lemma_hex_round_trip(g2 as nat, 0xffff);
    crate::numbers::lemma_hex_round_trip(g3 as nat, 0xffff);
    crate::numbers::lemma_hex_round_trip(g4 as nat, 0xffff);
    crate::numbers::lemma_hex_round_trip(g5 as nat, 0xffff);
    crate::numbers::lemma_hex_round_trip(g6 as nat, 0xffff);
    crate::numbers::lemma_hex_round_trip(g7 as nat, 0xffff);
    let groups = spec_v6_group_texts(g0, g1, g2, g3, g4, g5, g6, g7);
    assert(groups.drop_last() =~= seq![h0, h1, h2, h3, h4, h5, h6]);
    assert(seq![h0, h1, h2, h3, h4, h5, h6].drop_last() =~= seq![h0, h1, h2, h3, h4, h5]);
    assert(seq![h0, h1, h2, h3, h4, h5].drop_last() =~= seq![h0, h1, h2, h3, h4]);
    assert(seq![h0, h1, h2, h3, h4].drop_last() =~= seq![h0, h1, h2, h3]);
    assert(seq![h0, h1, h2, h3].drop_last() =~= seq![h0, h1, h2]);
    assert(seq![h0, h1, h2].drop_last() =~= seq![h0, h1]);
    assert(seq![h0, h1].drop_last() =~= seq![h0]);
    assert(seq![h0].drop_last() =~= Seq::<Seq<u8>>::empty());
    assert(spec_parse_groups(Seq::<Seq<u8>>::empty()) == Some(Seq::<u16>::empty()));
    assert(spec_parse_groups(seq![h0]) == Some(seq![g0])) by {
        assert(Seq::<u16>::empty().push(g0) =~= seq![g0]);
    }
    assert(spec_parse_groups(seq![h0, h1]) == Some(seq![g0, g1])) by {
        assert(seq![g0].push(g1) =~= seq![g0, g1]);
    }
    assert(spec_parse_groups(seq![h0, h1, h2]) == Some(seq![g0, g1, g2])) by {
        assert(seq![g0, g1].push(g2) =~= seq![g0, g1, g2]);
    }
    assert(spec_parse_groups(seq![h0, h1, h2, h3]) == Some(seq![g0, g1, g2, g3])) by {
        assert(seq![g0, g1, g2].push(g3) =~= seq![g0, g1, g2, g3]);
    }
    assert(spec_parse_groups(seq![h0, h1, h2, h3, h4]) == Some(seq![g0, g1, g2, g3, g4])) by {
        assert(seq![g0, g1, g2, g3].push(g4) =~= seq![g0, g1, g2, g3, g4]);
    }
    assert(spec_parse_groups(seq![h0, h1, h2, h3, h4, h5]) == Some(
        seq![g0, g1, g2, g3, g4, g5],
    )) by {
        assert(seq![g0, g1, g2, g3, g4].push(g5) =~= seq![g0, g1, g2, g3, g4, g5]);
    }
    assert(spec_parse_groups(seq![h0, h1, h2, h3, h4, h5, h6]) == Some(
        seq![g0, g1, g2, g3, g4, g5, g6],
    )) by {
        assert(seq![g0, g1, g2, g3, g4, g5].push(g6) =~= seq![g0, g1, g2, g3, g4, g5, g6]);
    }
    assert(seq![g0, g1, g2, g3, g4, g5, g6].push(g7) =~= seq![g0, g1, g2, g3, g4, g5, g6, g7]);
}

#[verifier::rlimit(50)]
proof fn lemma_v6_round_trip(
    p: PeerAddr,
    g0: u16,
    g1: u16,
    g2: u16,
    g3: u16,
    g4: u16,
    g5: u16,
    g6: u16,
    g7: u16,
)
    requires
        p == PeerAddr::V6(g0, g1, g2, g3, g4, g5, g6, g7),
    ensures
        spec_parse_peer(spec_peer_bytes(p)) == Some(p),
{
    let groups = spec_v6_group_texts(g0, g1, g2, g3, g4, g5, g6, g7);
    let text = spec_peer_bytes(p);
    crate::numbers::lemma_hex_clean(g0 as nat);
    crate::numbers::lemma_hex_clean(g1 as nat);
    crate::numbers::lemma_hex_clean(g2 as nat);
    crate::numbers::lemma_hex_clean(g3 as nat);
    crate::numbers::lemma_hex_clean(g4 as nat);
    crate::numbers::lemma_hex_clean(g5 as nat);
    crate::numbers::lemma_hex_clean(g6 as nat);
    crate::numbers::lemma_hex_clean(g7 as nat);
    lemma_v6_text_is_join(g0, g1, g2, g3, g4, g5, g6, g7);
    assert(forall|i: int|
        0 <= i < groups.len() ==> byte_free(#[trigger] groups[i], COLON) && byte_free(
            groups[i],
            DOT,
        ) && groups[i].len() > 0) by {
        assert forall|i: int| 0 <= i < groups.len() implies byte_free(#[trigger] groups[i], COLON)
            && byte_free(groups[i], DOT) && groups[i].len() > 0 by {
            assert(crate::numbers::all_hex_digits(groups[i]) && groups[i].len() > 0);
        }
    }
    // The IPv4 reading fails: the text has no dots, so it has one
    // dot-separated piece, not four.
    assert(byte_free(seq![COLON], DOT));
    crate::roundtrip::lemma_join_byte_free(groups, seq![COLON], DOT);
    assert(spec_split_seq(text, seq![DOT]) == seq![text]) by {
        assert(crate::roundtrip::join_with(seq![text], seq![DOT]) == text);
        assert(forall|i: int|
            0 <= i < seq![text].len() ==> byte_free(#[trigger] seq![text][i], DOT));
        crate::roundtrip::lemma_split_join(seq![text], seq![DOT]);
    }
    assert(spec_parse_v4(text) is None);
    // No doubled colon appears, so parsing splits the eight groups apart.
    crate::roundtrip::lemma_join_no_doubled_sep(groups, COLON);
    assert(spec_split_once(text, seq![COLON, COLON]) is None) by {
        crate::bytes::lemma_find_match_from(
            text,
            seq![COLON, COLON],
            0,
            text.len() - seq![COLON, COLON].len() + 1,
        );
        if spec_split_once(text, seq![COLON, COLON]) is Some {
            assert(false);
        }
    }
    crate::roundtrip::lemma_split_join(groups, seq![COLON]);
    lemma_v6_groups_parse(g0, g1, g2, g3, g4, g5, g6, g7);
    assert(spec_v6_from_groups(seq![g0, g1, g2, g3, g4, g5, g6, g7]) == p);
}

} // verus!
