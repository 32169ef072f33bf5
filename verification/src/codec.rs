//! URL-safe base64 without padding: the opaque form in which target URLs and
//! cookies travel in query parameters, and in which rewritten manifest lines
//! carry their targets.

use vstd::prelude::*;

verus! {

/// The URL-safe alphabet: `A`-`Z`, `a`-`z`, `0`-`9`, `-`, `_`.
pub open spec fn sextet_to_byte(v: u8) -> u8
    recommends
        v < 64,
{
    if v < 26 {
        (v + 65) as u8
    } else if v < 52 {
        (v + 71) as u8
    } else if v < 62 {
        (v - 4) as u8
    } else if v == 62 {
        45u8
    } else {
        95u8
    }
}

/// Inverse of the alphabet: `None` for a byte outside it.
pub open spec fn byte_to_sextet(b: u8) -> Option<u8> {
    if 65 <= b && b <= 90 {
        Some((b - 65) as u8)
    } else if 97 <= b && b <= 122 {
        Some((b - 71) as u8)
    } else if 48 <= b && b <= 57 {
        Some((b + 4) as u8)
    } else if b == 45 {
        Some(62u8)
    } else if b == 95 {
        Some(63u8)
    } else {
        None
    }
}

pub proof fn lemma_sextet_roundtrip(v: u8)
    requires
        v < 64,
    ensures
        byte_to_sextet(sextet_to_byte(v)) == Some(v),
{
}

/// No alphabet byte is a newline or a `#`: rewritten manifest lines stay
/// single lines whatever the encoded payload was.
pub proof fn lemma_alphabet_is_plain(v: u8)
    ensures
        sextet_to_byte(v) != 10u8,
        sextet_to_byte(v) != 13u8,
        sextet_to_byte(v) != 35u8,
{
}

/// Encoding, three input bytes to four alphabet bytes, with the last group
/// shortened to two or three bytes and no padding appended.
pub open spec fn spec_encode(s: Seq<u8>) -> Seq<u8>
    decreases s.len(),
{
    if s.len() == 0 {
        Seq::empty()
    } else if s.len() == 1 {
        seq![
            sextet_to_byte(s[0] >> 2u8),
            sextet_to_byte((s[0] & 3u8) << 4u8),
        ]
    } else if s.len() == 2 {
        seq![
            sextet_to_byte(s[0] >> 2u8),
            sextet_to_byte(((s[0] & 3u8) << 4u8) | (s[1] >> 4u8)),
            sextet_to_byte((s[1] & 15u8) << 2u8),
        ]
    } else {
        seq![
            sextet_to_byte(s[0] >> 2u8),
            sextet_to_byte(((s[0] & 3u8) << 4u8) | (s[1] >> 4u8)),
            sextet_to_byte(((s[1] & 15u8) << 2u8) | (s[2] >> 6u8)),
            sextet_to_byte(s[2] & 63u8),
        ] + spec_encode(s.skip(3))
    }
}

/// Decoding. `None` on a length that no unpadded encoding produces, on a byte
/// outside the alphabet, and on nonzero trailing bits in a short final group.
pub open spec fn spec_decode(s: Seq<u8>) -> Option<Seq<u8>>
    decreases s.len(),
{
    if s.len() == 0 {
        Some(Seq::<u8>::empty())
    } else if s.len() == 1 {
        None
    } else if s.len() == 2 {
        match (byte_to_sextet(s[0]), byte_to_sextet(s[1])) {
            (Some(v0), Some(v1)) => if v1 & 15u8 == 0u8 {
                Some(seq![(v0 << 2u8) | (v1 >> 4u8)])
            } else {
                None
            },
            _ => None,
        }
    } else if s.len() == 3 {
        match (byte_to_sextet(s[0]), byte_to_sextet(s[1]), byte_to_sextet(s[2])) {
            (Some(v0), Some(v1), Some(v2)) => if v2 & 3u8 == 0u8 {
                Some(seq![
                    (v0 << 2u8) | (v1 >> 4u8),
                    ((v1 & 15u8) << 4u8) | (v2 >> 2u8),
                ])
            } else {
                None
            },
            _ => None,
        }
    } else {
        match (byte_to_sextet(s[0]), byte_to_sextet(s[1]), byte_to_sextet(s[2]), byte_to_sextet(
            s[3],
        )) {
            (Some(v0), Some(v1), Some(v2), Some(v3)) => match spec_decode(s.skip(4)) {
                Some(rest) => Some(
                    seq![
                        (v0 << 2u8) | (v1 >> 4u8),
                        ((v1 & 15u8) << 4u8) | (v2 >> 2u8),
                        ((v2 & 3u8) << 6u8) | v3,
                    ] + rest,
                ),
                None => None,
            },
            _ => None,
        }
    }
}

/// Decoding undoes encoding: the two sides of the proxy agree on the opaque
/// form, whatever bytes are carried.
pub proof fn lemma_roundtrip(s: Seq<u8>)
    ensures
        spec_decode(spec_encode(s)) == Some(s),
    decreases s.len(),
{
    if s.len() == 0 {
        assert(spec_encode(s) =~= Seq::<u8>::empty());
        assert(s =~= Seq::<u8>::empty());
    } else if s.len() == 1 {
        let b0 = s[0];
        let v0 = b0 >> 2u8;
        let v1 = (b0 & 3u8) << 4u8;
        assert(v0 < 64 && v1 < 64 && v1 & 15u8 == 0u8 && (v0 << 2u8) | (v1 >> 4u8) == b0)
            by (bit_vector)
            requires
                v0 == b0 >> 2u8,
                v1 == (b0 & 3u8) << 4u8,
        ;
        lemma_sextet_roundtrip(v0);
        lemma_sextet_roundtrip(v1);
        assert(seq![(v0 << 2u8) | (v1 >> 4u8)] =~= s);
    } else if s.len() == 2 {
        let b0 = s[0];
        let b1 = s[1];
        let v0 = b0 >> 2u8;
        let v1 = ((b0 & 3u8) << 4u8) | (b1 >> 4u8);
        let v2 = (b1 & 15u8) << 2u8;
        assert(v0 < 64 && v1 < 64 && v2 < 64) by (bit_vector)
            requires
                v0 == b0 >> 2u8,
                v1 == ((b0 & 3u8) << 4u8) | (b1 >> 4u8),
                v2 == (b1 & 15u8) << 2u8,
        ;
        lemma_sextet_roundtrip(v0);
        lemma_sextet_roundtrip(v1);
        lemma_sextet_roundtrip(v2);
        assert(v2 & 3u8 == 0u8 && (v0 << 2u8) | (v1 >> 4u8) == b0 && ((v1 & 15u8) << 4u8) | (v2
            >> 2u8) == b1) by (bit_vector)
            requires
                v0 == b0 >> 2u8,
                v1 == ((b0 & 3u8) << 4u8) | (b1 >> 4u8),
                v2 == (b1 & 15u8) << 2u8,
        ;
        assert(seq![(v0 << 2u8) | (v1 >> 4u8), ((v1 & 15u8) << 4u8) | (v2 >> 2u8)] =~= s);
    } else {
        let b0 = s[0];
        let b1 = s[1];
        let b2 = s[2];
        let v0 = b0 >> 2u8;
        let v1 = ((b0 & 3u8) << 4u8) | (b1 >> 4u8);
        let v2 = ((b1 & 15u8) << 2u8) | (b2 >> 6u8);
        let v3 = b2 & 63u8;
        assert(v0 < 64 && v1 < 64 && v2 < 64 && v3 < 64) by (bit_vector)
            requires
                v0 == b0 >> 2u8,
                v1 == ((b0 & 3u8) << 4u8) | (b1 >> 4u8),
                v2 == ((b1 & 15u8) << 2u8) | (b2 >> 6u8),
                v3 == b2 & 63u8,
        ;
        lemma_sextet_roundtrip(v0);
        lemma_sextet_roundtrip(v1);
        lemma_sextet_roundtrip(v2);
        lemma_sextet_roundtrip(v3);
        assert((v0 << 2u8) | (v1 >> 4u8) == b0 && ((v1 & 15u8) << 4u8) | (v2 >> 2u8) == b1 && ((v2
            & 3u8) << 6u8) | v3 == b2) by (bit_vector)
            requires
                v0 == b0 >> 2u8,
                v1 == ((b0 & 3u8) << 4u8) | (b1 >> 4u8),
                v2 == ((b1 & 15u8) << 2u8) | (b2 >> 6u8),
                v3 == b2 & 63u8,
        ;
        lemma_roundtrip(s.skip(3));
        let chunk = seq![
            sextet_to_byte(v0),
            sextet_to_byte(v1),
            sextet_to_byte(v2),
            sextet_to_byte(v3),
        ];
        let e = spec_encode(s);
        assert(e =~= chunk + spec_encode(s.skip(3)));
        lemma_encode_len(s.skip(3));
        assert(e.len() >= 4);
        assert(e[0] == sextet_to_byte(v0));
        assert(e[1] == sextet_to_byte(v1));
        assert(e[2] == sextet_to_byte(v2));
        assert(e[3] == sextet_to_byte(v3));
        assert(e.skip(4) =~= spec_encode(s.skip(3)));
        assert(seq![b0, b1, b2] + s.skip(3) =~= s);
    }
}

/// A nonempty input encodes to at least two bytes, and the output length
/// follows the input length group by group.
pub proof fn lemma_encode_len(s: Seq<u8>)
    ensures
        s.len() == 0 ==> spec_encode(s).len() == 0,
        s.len() > 0 ==> spec_encode(s).len() >= 2,
    decreases s.len(),
{
    if s.len() > 3 {
        lemma_encode_len(s.skip(3));
    }
}

/// Every encoded byte is in the URL-safe alphabet, so none is a newline,
/// a carriage return or a `#`.
pub proof fn lemma_encode_plain(s: Seq<u8>)
    ensures
        forall|j: int|
            0 <= j < spec_encode(s).len() ==> #[trigger] spec_encode(s)[j] != 10u8 && spec_encode(
                s,
            )[j] != 13u8 && spec_encode(s)[j] != 35u8,
    decreases s.len(),
{
    assert forall|v: u8|
        #[trigger] sextet_to_byte(v) != 10u8 && sextet_to_byte(v) != 13u8 && sextet_to_byte(v)
            != 35u8 by {
        lemma_alphabet_is_plain(v);
    }
    if s.len() == 0 {
    } else if s.len() <= 3 {
        if s.len() == 3 {
            assert(s.skip(3).len() == 0);
            assert(spec_encode(s.skip(3)) =~= Seq::<u8>::empty());
        }
        assert forall|j: int| 0 <= j < spec_encode(s).len() implies #[trigger] spec_encode(s)[j]
            != 10u8 && spec_encode(s)[j] != 13u8 && spec_encode(s)[j] != 35u8 by {
            assert(spec_encode(s).len() <= 4);
        }
    } else {
        lemma_encode_plain(s.skip(3));
        assert forall|j: int| 0 <= j < spec_encode(s).len() implies #[trigger] spec_encode(s)[j]
            != 10u8 && spec_encode(s)[j] != 13u8 && spec_encode(s)[j] != 35u8 by {
            if j >= 4 {
                assert(spec_encode(s)[j] == spec_encode(s.skip(3))[j - 4]);
            }
        }
    }
}

fn encode_sextet(v: u8) -> (r: u8)
    requires
        v < 64,
    ensures
        r == sextet_to_byte(v),
{
    if v < 26 {
        v + 65
    } else if v < 52 {
        v + 71
    } else if v < 62 {
        v - 4
    } else if v == 62 {
        45
    } else {
        95
    }
}

fn decode_sextet(b: u8) -> (r: Option<u8>)
    ensures
        r == byte_to_sextet(b),
{
    if 65 <= b && b <= 90 {
        Some(b - 65)
    } else if 97 <= b && b <= 122 {
        Some(b - 71)
    } else if 48 <= b && b <= 57 {
        Some(b + 4)
    } else if b == 45 {
        Some(62)
    } else if b == 95 {
        Some(63)
    } else {
        None
    }
}

/// URL-safe no-pad encoding of arbitrary bytes.
pub fn encode(s: &[u8]) -> (r: Vec<u8>)
    ensures
        r@ == spec_encode(s@),
{
    let mut out: Vec<u8> = Vec::new();
    let mut i: usize = 0;
    proof {
        assert(s@.skip(0) =~= s@);
        assert(Seq::<u8>::empty() + spec_encode(s@) =~= spec_encode(s@));
    }
    while s.len() - i >= 3
        invariant
            i <= s.len(),
            spec_encode(s@) == out@ + spec_encode(s@.skip(i as int)),
        decreases s.len() - i,
    {
        let b0 = s[i];
        let b1 = s[i + 1];
        let b2 = s[i + 2];
        let v0 = b0 >> 2u8;
        let v1 = ((b0 & 3u8) << 4u8) | (b1 >> 4u8);
        let v2 = ((b1 & 15u8) << 2u8) | (b2 >> 6u8);
        let v3 = b2 & 63u8;
        proof {
            assert(v0 < 64 && v1 < 64 && v2 < 64 && v3 < 64) by (bit_vector)
                requires
                    v0 == b0 >> 2u8,
                    v1 == ((b0 & 3u8) << 4u8) | (b1 >> 4u8),
                    v2 == ((b1 & 15u8) << 2u8) | (b2 >> 6u8),
                    v3 == b2 & 63u8,
            ;
        }
        let ghost prev = out@;
        out.push(encode_sextet(v0));
        out.push(encode_sextet(v1));
        out.push(encode_sextet(v2));
        out.push(encode_sextet(v3));
        proof {
            let t = s@.skip(i as int);
            assert(t[0] == s@[i as int] && t[1] == s@[i as int + 1] && t[2] == s@[i as int + 2]);
            assert(t.skip(3) =~= s@.skip(i as int + 3));
            assert(out@ =~= prev + seq![
                sextet_to_byte(v0),
                sextet_to_byte(v1),
                sextet_to_byte(v2),
                sextet_to_byte(v3),
            ]);
            assert(out@ + spec_encode(s@.skip(i as int + 3)) =~= prev + spec_encode(
                s@.skip(i as int),
            ));
        }
        i += 3;
    }
    let ghost prev = out@;
    let rem = s.len() - i;
    if rem == 1 {
        let b0 = s[i];
        let v0 = b0 >> 2u8;
        let v1 = (b0 & 3u8) << 4u8;
        proof {
            assert(v0 < 64 && v1 < 64) by (bit_vector)
                requires
                    v0 == b0 >> 2u8,
                    v1 == (b0 & 3u8) << 4u8,
            ;
        }
        out.push(encode_sextet(v0));
        out.push(encode_sextet(v1));
        proof {
            let t = s@.skip(i as int);
            assert(t.len() == 1 && t[0] == s@[i as int]);
            assert(out@ =~= prev + spec_encode(t));
        }
    } else if rem == 2 {
        let b0 = s[i];
        let b1 = s[i + 1];
        let v0 = b0 >> 2u8;
        let v1 = ((b0 & 3u8) << 4u8) | (b1 >> 4u8);
        let v2 = (b1 & 15u8) << 2u8;
        proof {
            assert(v0 < 64 && v1 < 64 && v2 < 64) by (bit_vector)
                requires
                    v0 == b0 >> 2u8,
                    v1 == ((b0 & 3u8) << 4u8) | (b1 >> 4u8),
                    v2 == (b1 & 15u8) << 2u8,
            ;
        }
        out.push(encode_sextet(v0));
        out.push(encode_sextet(v1));
        out.push(encode_sextet(v2));
        proof {
            let t = s@.skip(i as int);
            assert(t.len() == 2 && t[0] == s@[i as int] && t[1] == s@[i as int + 1]);
            assert(out@ =~= prev + spec_encode(t));
        }
    } else {
        proof {
            assert(s@.skip(i as int).len() == 0);
            assert(spec_encode(s@.skip(i as int)) =~= Seq::<u8>::empty());
            assert(out@ =~= prev + spec_encode(s@.skip(i as int)));
        }
    }
    out
}

/// URL-safe no-pad decoding; `None` exactly where `spec_decode` refuses.
pub fn decode(s: &[u8]) -> (r: Option<Vec<u8>>)
    ensures
        match r {
            Some(v) => spec_decode(s@) == Some(v@),
            None => spec_decode(s@) is None,
        },
{
    let mut out: Vec<u8> = Vec::new();
    let mut i: usize = 0;
    proof {
        assert(s@.skip(0) =~= s@);
        assert forall|t: Seq<u8>| spec_decode(s@.skip(0)) == Some(t) implies spec_decode(s@)
            == Some(Seq::<u8>::empty() + t) by {
            assert(Seq::<u8>::empty() + t =~= t);
        }
    }
    while s.len() - i >= 4
        invariant
            i <= s.len(),
            forall|t: Seq<u8>|
                spec_decode(s@.skip(i as int)) == Some(t) ==> spec_decode(s@) == Some(out@ + t),
            spec_decode(s@.skip(i as int)) is None ==> spec_decode(s@) is None,
        decreases s.len() - i,
    {
        let c0 = decode_sextet(s[i]);
        let c1 = decode_sextet(s[i + 1]);
        let c2 = decode_sextet(s[i + 2]);
        let c3 = decode_sextet(s[i + 3]);
        proof {
            let t = s@.skip(i as int);
            assert(t.len() >= 4);
            assert(t[0] == s@[i as int] && t[1] == s@[i as int + 1] && t[2] == s@[i as int + 2]
                && t[3] == s@[i as int + 3]);
            assert(t.skip(4) =~= s@.skip(i as int + 4));
        }
        match (c0, c1, c2, c3) {
            (Some(v0), Some(v1), Some(v2), Some(v3)) => {
                let ghost prev = out@;
                out.push((v0 << 2u8) | (v1 >> 4u8));
                out.push(((v1 & 15u8) << 4u8) | (v2 >> 2u8));
                out.push(((v2 & 3u8) << 6u8) | v3);
                proof {
                    let t = s@.skip(i as int);
                    let chunk = seq![
                        (v0 << 2u8) | (v1 >> 4u8),
                        ((v1 & 15u8) << 4u8) | (v2 >> 2u8),
                        ((v2 & 3u8) << 6u8) | v3,
                    ];
                    assert(out@ =~= prev + chunk);
                    assert forall|u: Seq<u8>|
                        spec_decode(s@.skip(i as int + 4)) == Some(u) implies spec_decode(s@)
                        == Some(out@ + u) by {
                        assert(spec_decode(t) == Some(chunk + u));
                        assert(prev + (chunk + u) =~= out@ + u);
                    }
                }
                i += 4;
            },
            _ => {
                proof {
                    assert(spec_decode(s@.skip(i as int)) is None);
                }
                return None;
            },
        }
    }
    let rem = s.len() - i;
    if rem == 0 {
        proof {
            assert(s@.skip(i as int).len() == 0);
            assert(spec_decode(s@.skip(i as int)) == Some(Seq::<u8>::empty()));
            assert(out@ + Seq::<u8>::empty() =~= out@);
        }
        Some(out)
    } else if rem == 1 {
        proof {
            assert(s@.skip(i as int).len() == 1);
        }
        None
    } else if rem == 2 {
        let c0 = decode_sextet(s[i]);
        let c1 = decode_sextet(s[i + 1]);
        proof {
            let t = s@.skip(i as int);
            assert(t.len() == 2);
            assert(t[0] == s@[i as int] && t[1] == s@[i as int + 1]);
        }
        match (c0, c1) {
            (Some(v0), Some(v1)) => {
                if v1 & 15u8 == 0u8 {
                    let ghost prev = out@;
                    out.push((v0 << 2u8) | (v1 >> 4u8));
                    proof {
                        let t = s@.skip(i as int);
                        assert(spec_decode(t) == Some(seq![(v0 << 2u8) | (v1 >> 4u8)]));
                        assert(out@ =~= prev + seq![(v0 << 2u8) | (v1 >> 4u8)]);
                    }
                    Some(out)
                } else {
                    None
                }
            },
            _ => None,
        }
    } else {
        let c0 = decode_sextet(s[i]);
        let c1 = decode_sextet(s[i + 1]);
        let c2 = decode_sextet(s[i + 2]);
        proof {
            let t = s@.skip(i as int);
            assert(t.len() == 3);
            assert(t[0] == s@[i as int] && t[1] == s@[i as int + 1] && t[2] == s@[i as int + 2]);
        }
        match (c0, c1, c2) {
            (Some(v0), Some(v1), Some(v2)) => {
                if v2 & 3u8 == 0u8 {
                    let ghost prev = out@;
                    out.push((v0 << 2u8) | (v1 >> 4u8));
                    out.push(((v1 & 15u8) << 4u8) | (v2 >> 2u8));
                    proof {
                        let t = s@.skip(i as int);
                        assert(spec_decode(t) == Some(seq![
                            (v0 << 2u8) | (v1 >> 4u8),
                            ((v1 & 15u8) << 4u8) | (v2 >> 2u8),
                        ]));
                        assert(out@ =~= prev + seq![
                            (v0 << 2u8) | (v1 >> 4u8),
                            ((v1 & 15u8) << 4u8) | (v2 >> 2u8),
                        ]);
                    }
                    Some(out)
                } else {
                    None
                }
            },
            _ => None,
        }
    }
}

} // verus!
