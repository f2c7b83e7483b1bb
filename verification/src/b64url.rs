//! Base64url codec (URL-safe alphabet, no padding), as used for the parts of
//! a signed session token. Decoding is strict: it rejects invalid symbols,
//! impossible lengths and non-zero trailing bits, so every byte string has
//! exactly one accepted encoding.
use vstd::prelude::*;

verus! {

/// Symbol for a 6-bit value in the URL-safe alphabet.
pub open spec fn b64_char(v: u8) -> u8
    recommends
        v < 64,
{
    if v < 26 {
        (65 + v) as u8  // 'A'..='Z'

    } else if v < 52 {
        (97 + (v - 26)) as u8  // 'a'..='z'

    } else if v < 62 {
        (48 + (v - 52)) as u8  // '0'..='9'

    } else if v == 62 {
        45  // '-'

    } else {
        95  // '_'

    }
}

/// 6-bit value of a symbol, or `None` if the byte is outside the alphabet.
pub open spec fn b64_val(b: u8) -> Option<u8> {
    if 65 <= b && b <= 90 {
        Some((b - 65) as u8)
    } else if 97 <= b && b <= 122 {
        Some((b - 97 + 26) as u8)
    } else if 48 <= b && b <= 57 {
        Some((b - 48 + 52) as u8)
    } else if b == 45 {
        Some(62u8)
    } else if b == 95 {
        Some(63u8)
    } else {
        None
    }
}

pub open spec fn is_b64url_byte(b: u8) -> bool {
    b64_val(b) is Some
}

pub open spec fn is_b64url_seq(s: Seq<u8>) -> bool {
    forall|i: int| 0 <= i < s.len() ==> is_b64url_byte(#[trigger] s[i])
}

/// Base64url encoding without padding.
pub open spec fn spec_b64_encode(s: Seq<u8>) -> Seq<u8>
    decreases s.len(),
{
    if s.len() == 0 {
        Seq::<u8>::empty()
    } else if s.len() == 1 {
        seq![b64_char(s[0] >> 2), b64_char((s[0] & 3) << 4)]
    } else if s.len() == 2 {
        seq![
            b64_char(s[0] >> 2),
            b64_char(((s[0] & 3) << 4) | (s[1] >> 4)),
            b64_char((s[1] & 15) << 2),
        ]
    } else {
        seq![
            b64_char(s[0] >> 2),
            b64_char(((s[0] & 3) << 4) | (s[1] >> 4)),
            b64_char(((s[1] & 15) << 2) | (s[2] >> 6)),
            b64_char(s[2] & 63),
        ] + spec_b64_encode(s.skip(3))
    }
}

/// Strict base64url decoding without padding.
pub open spec fn spec_b64_decode(s: Seq<u8>) -> Option<Seq<u8>>
    decreases s.len(),
{
    if s.len() == 0 {
        Some(Seq::<u8>::empty())
    } else if s.len() == 1 {
        None
    } else if s.len() == 2 {
        match (b64_val(s[0]), b64_val(s[1])) {
            (Some(v0), Some(v1)) => if v1 & 15 == 0 {
                Some(seq![(v0 << 2) | (v1 >> 4)])
            } else {
                None
            },
            _ => None,
        }
    } else if s.len() == 3 {
        match (b64_val(s[0]), b64_val(s[1]), b64_val(s[2])) {
            (Some(v0), Some(v1), Some(v2)) => if v2 & 3 == 0 {
                Some(seq![(v0 << 2) | (v1 >> 4), ((v1 & 15) << 4) | (v2 >> 2)])
            } else {
                None
            },
            _ => None,
        }
    } else {
        match (b64_val(s[0]), b64_val(s[1]), b64_val(s[2]), b64_val(s[3])) {
            (Some(v0), Some(v1), Some(v2), Some(v3)) => match spec_b64_decode(s.skip(4)) {
                Some(rest) => Some(
                    seq![
                        (v0 << 2) | (v1 >> 4),
                        ((v1 & 15) << 4) | (v2 >> 2),
                        ((v2 & 3) << 6) | v3,
                    ] + rest,
                ),
                None => None,
            },
            _ => None,
        }
    }
}

pub proof fn lemma_b64_val_char(v: u8)
    requires
        v < 64,
    ensures
        b64_val(b64_char(v)) == Some(v),
{
}

/// The symbols produced for one input group are 6-bit values.
proof fn lemma_group_symbols_lt64(b0: u8, b1: u8, b2: u8)
    ensures
        b0 >> 2 < 64,
        (b0 & 3) << 4 < 64,
        ((b0 & 3) << 4) | (b1 >> 4) < 64,
        (b1 & 15) << 2 < 64,
        ((b1 & 15) << 2) | (b2 >> 6) < 64,
        b2 & 63 < 64,
{
    assert(b0 >> 2 < 64 && (b0 & 3) << 4 < 64 && ((b0 & 3) << 4) | (b1 >> 4) < 64 && (b1 & 15) << 2
        < 64 && ((b1 & 15) << 2) | (b2 >> 6) < 64 && b2 & 63 < 64) by (bit_vector);
}

pub proof fn lemma_encode_is_b64url(s: Seq<u8>)
    ensures
        is_b64url_seq(spec_b64_encode(s)),
    decreases s.len(),
{
    if s.len() == 0 {
    } else if s.len() <= 2 {
        let b0 = s[0];
        let b1: u8 = if s.len() == 2 {
            s[1]
        } else {
            0
        };
        lemma_group_symbols_lt64(b0, b1, 0);
        lemma_b64_val_char(b0 >> 2);
        lemma_b64_val_char((b0 & 3) << 4);
        lemma_b64_val_char(((b0 & 3) << 4) | (b1 >> 4));
        lemma_b64_val_char((b1 & 15) << 2);
    } else {
        let b0 = s[0];
        let b1 = s[1];
        let b2 = s[2];
        lemma_group_symbols_lt64(b0, b1, b2);
        lemma_b64_val_char(b0 >> 2);
        lemma_b64_val_char(((b0 & 3) << 4) | (b1 >> 4));
        lemma_b64_val_char(((b1 & 15) << 2) | (b2 >> 6));
        lemma_b64_val_char(b2 & 63);
        lemma_encode_is_b64url(s.skip(3));
        let g = seq![
            b64_char(b0 >> 2),
            b64_char(((b0 & 3) << 4) | (b1 >> 4)),
            b64_char(((b1 & 15) << 2) | (b2 >> 6)),
            b64_char(b2 & 63),
        ];
        assert forall|i: int| 0 <= i < spec_b64_encode(s).len() implies is_b64url_byte(
            #[trigger] spec_b64_encode(s)[i],
        ) by {
            if i < 4 {
                assert(spec_b64_encode(s)[i] == g[i]);
            } else {
                assert(spec_b64_encode(s)[i] == spec_b64_encode(s.skip(3))[i - 4]);
            }
        }
    }
}

/// Encoding distributes over concatenation at a group boundary.
pub proof fn lemma_encode_append(a: Seq<u8>, b: Seq<u8>)
    requires
        a.len() % 3 == 0,
    ensures
        spec_b64_encode(a + b) == spec_b64_encode(a) + spec_b64_encode(b),
    decreases a.len(),
{
    if a.len() == 0 {
        assert(a + b =~= b);
        assert(spec_b64_encode(a) + spec_b64_encode(b) =~= spec_b64_encode(b));
    } else {
        let t = a + b;
        assert(t.len() >= 3);
        assert(t[0] == a[0] && t[1] == a[1] && t[2] == a[2]);
        assert(t.skip(3) =~= a.skip(3) + b);
        assert(a.skip(3).len() % 3 == 0);
        lemma_encode_append(a.skip(3), b);
        if a.len() == 3 {
            assert(a.skip(3) =~= Seq::<u8>::empty());
            assert(spec_b64_encode(a.skip(3)) =~= Seq::<u8>::empty());
        }
        assert(spec_b64_encode(a + b) =~= spec_b64_encode(a) + spec_b64_encode(b));
    }
}

/// Decoding distributes over concatenation at a group boundary.
pub proof fn lemma_decode_append(a: Seq<u8>, b: Seq<u8>)
    requires
        a.len() % 4 == 0,
    ensures
        spec_b64_decode(a + b) == match (spec_b64_decode(a), spec_b64_decode(b)) {
            (Some(x), Some(y)) => Some(x + y),
            _ => None::<Seq<u8>>,
        },
    decreases a.len(),
{
    if a.len() == 0 {
        assert(a + b =~= b);
        if spec_b64_decode(b) is Some {
            assert(spec_b64_decode(a + b) == spec_b64_decode(b));
            assert(spec_b64_decode(a).unwrap() + spec_b64_decode(b).unwrap() =~= spec_b64_decode(
                b,
            ).unwrap());
        }
    } else {
        let t = a + b;
        assert(t.len() >= 4);
        assert(t[0] == a[0] && t[1] == a[1] && t[2] == a[2] && t[3] == a[3]);
        assert(t.skip(4) =~= a.skip(4) + b);
        assert(a.skip(4).len() % 4 == 0);
        lemma_decode_append(a.skip(4), b);
        if a.len() == 4 {
            assert(a.skip(4) =~= Seq::<u8>::empty());
        }
        match (b64_val(a[0]), b64_val(a[1]), b64_val(a[2]), b64_val(a[3])) {
            (Some(v0), Some(v1), Some(v2), Some(v3)) => {
                let g = seq![(v0 << 2) | (v1 >> 4), ((v1 & 15) << 4) | (v2 >> 2), ((v2 & 3) << 6)
                    | v3];
                match (spec_b64_decode(a.skip(4)), spec_b64_decode(b)) {
                    (Some(x), Some(y)) => {
                        assert(spec_b64_decode(a) == Some(g + x));
                        assert(spec_b64_decode(t) == Some(g + (x + y)));
                        assert(g + (x + y) =~= (g + x) + y);
                    },
                    _ => {},
                }
            },
            _ => {},
        }
    }
}

/// Strict decoding inverts encoding: the codec round-trips.
pub proof fn lemma_b64_roundtrip(s: Seq<u8>)
    ensures
        spec_b64_decode(spec_b64_encode(s)) == Some(s),
    decreases s.len(),
{
    if s.len() == 0 {
        assert(spec_b64_encode(s) =~= Seq::<u8>::empty());
    } else if s.len() == 1 {
        let b0 = s[0];
        lemma_group_symbols_lt64(b0, 0, 0);
        lemma_b64_val_char(b0 >> 2);
        lemma_b64_val_char((b0 & 3) << 4);
        assert(((b0 & 3) << 4) & 15 == 0 && ((b0 >> 2) << 2) | (((b0 & 3) << 4) >> 4) == b0)
            by (bit_vector);
        assert(seq![((b0 >> 2) << 2) | (((b0 & 3) << 4) >> 4)] =~= s);
    } else if s.len() == 2 {
        let b0 = s[0];
        let b1 = s[1];
        lemma_group_symbols_lt64(b0, b1, 0);
        let v0 = b0 >> 2;
        let v1 = ((b0 & 3) << 4) | (b1 >> 4);
        let v2 = (b1 & 15) << 2;
        lemma_b64_val_char(v0);
        lemma_b64_val_char(v1);
        lemma_b64_val_char(v2);
        assert((((b1 & 15) << 2) & 3) == 0 && ((b0 >> 2) << 2) | ((((b0 & 3) << 4) | (b1 >> 4))
            >> 4) == b0 && (((((b0 & 3) << 4) | (b1 >> 4)) & 15) << 4) | (((b1 & 15) << 2) >> 2)
            == b1) by (bit_vector);
        assert(seq![(v0 << 2) | (v1 >> 4), ((v1 & 15) << 4) | (v2 >> 2)] =~= s);
    } else {
        let b0 = s[0];
        let b1 = s[1];
        let b2 = s[2];
        lemma_group_symbols_lt64(b0, b1, b2);
        let v0 = b0 >> 2;
        let v1 = ((b0 & 3) << 4) | (b1 >> 4);
        let v2 = ((b1 & 15) << 2) | (b2 >> 6);
        let v3 = b2 & 63;
        lemma_b64_val_char(v0);
        lemma_b64_val_char(v1);
        lemma_b64_val_char(v2);
        lemma_b64_val_char(v3);
        lemma_b64_roundtrip(s.skip(3));
        let g = seq![b64_char(v0), b64_char(v1), b64_char(v2), b64_char(v3)];
        let e = spec_b64_encode(s);
        assert(e == g + spec_b64_encode(s.skip(3)));
        assert(e.len() >= 4);
        assert(e[0] == b64_char(v0) && e[1] == b64_char(v1) && e[2] == b64_char(v2) && e[3]
            == b64_char(v3));
        assert(e.skip(4) =~= spec_b64_encode(s.skip(3)));
        assert(((b0 >> 2) << 2) | ((((b0 & 3) << 4) | (b1 >> 4)) >> 4) == b0 && (((((b0 & 3) << 4)
            | (b1 >> 4)) & 15) << 4) | (((((b1 & 15) << 2) | (b2 >> 6))) >> 2) == b1 && (((((b1
            & 15) << 2) | (b2 >> 6)) & 3) << 6) | (b2 & 63) == b2) by (bit_vector);
        assert(seq![(v0 << 2) | (v1 >> 4), ((v1 & 15) << 4) | (v2 >> 2), ((v2 & 3) << 6) | v3]
            + s.skip(3) =~= s);
    }
}

fn b64_char_exec(v: u8) -> (r: u8)
    requires
        v < 64,
    ensures
        r == b64_char(v),
{
    if v < 26 {
        65 + v
    } else if v < 52 {
        97 + (v - 26)
    } else if v < 62 {
        48 + (v - 52)
    } else if v == 62 {
        45
    } else {
        95
    }
}

fn b64_val_exec(b: u8) -> (r: Option<u8>)
    ensures
        r == b64_val(b),
{
    if 65 <= b && b <= 90 {
        Some(b - 65)
    } else if 97 <= b && b <= 122 {
        Some(b - 97 + 26)
    } else if 48 <= b && b <= 57 {
        Some(b - 48 + 52)
    } else if b == 45 {
        Some(62)
    } else if b == 95 {
        Some(63)
    } else {
        None
    }
}

/// Encodes `s` in base64url without padding.
pub fn b64url_encode(s: &Vec<u8>) -> (r: Vec<u8>)
    ensures
        r@ == spec_b64_encode(s@),
        is_b64url_seq(r@),
{
    let n = s.len();
    let mut out: Vec<u8> = Vec::new();
    let mut i: usize = 0;
    while n - i >= 3
        invariant
            i <= n == s@.len(),
            i % 3 == 0,
            out@ == spec_b64_encode(s@.take(i as int)),
        decreases n - i,
    {
        let ghost out0 = out@;
        let b0 = s[i];
        let b1 = s[i + 1];
        let b2 = s[i + 2];
        proof {
            lemma_group_symbols_lt64(b0, b1, b2);
        }
        out.push(b64_char_exec(b0 >> 2));
        out.push(b64_char_exec(((b0 & 3) << 4) | (b1 >> 4)));
        out.push(b64_char_exec(((b1 & 15) << 2) | (b2 >> 6)));
        out.push(b64_char_exec(b2 & 63));
        proof {
            let chunk = s@.subrange(i as int, i + 3);
            assert(chunk.len() == 3 && chunk[0] == b0 && chunk[1] == b1 && chunk[2] == b2);
            lemma_encode_append(s@.take(i as int), chunk);
            assert(s@.take(i + 3) =~= s@.take(i as int) + chunk);
            assert(chunk.skip(3) =~= Seq::<u8>::empty());
            assert(spec_b64_encode(Seq::<u8>::empty()) == Seq::<u8>::empty());
            assert(spec_b64_encode(chunk) == seq![
                b64_char(chunk[0] >> 2),
                b64_char(((chunk[0] & 3) << 4) | (chunk[1] >> 4)),
                b64_char(((chunk[1] & 15) << 2) | (chunk[2] >> 6)),
                b64_char(chunk[2] & 63),
            ] + spec_b64_encode(chunk.skip(3)));
            assert(spec_b64_encode(chunk) =~= seq![
                b64_char(b0 >> 2),
                b64_char(((b0 & 3) << 4) | (b1 >> 4)),
                b64_char(((b1 & 15) << 2) | (b2 >> 6)),
                b64_char(b2 & 63),
            ]);
            assert(out@ =~= out0 + spec_b64_encode(chunk));
            assert(out@ =~= spec_b64_encode(s@.take(i + 3)));
        }
        i = i + 3;
    }
    proof {
        lemma_encode_append(s@.take(i as int), s@.skip(i as int));
        assert(s@ =~= s@.take(i as int) + s@.skip(i as int));
    }
    let ghost out1 = out@;
    if n - i == 1 {
        let b0 = s[i];
        proof {
            lemma_group_symbols_lt64(b0, 0, 0);
            assert(s@.skip(i as int) =~= seq![b0]);
        }
        out.push(b64_char_exec(b0 >> 2));
        out.push(b64_char_exec((b0 & 3) << 4));
        proof {
            assert(spec_b64_encode(seq![b0]) =~= seq![b64_char(b0 >> 2), b64_char((b0 & 3) << 4)]);
            assert(out@ =~= out1 + spec_b64_encode(s@.skip(i as int)));
            assert(out@ =~= spec_b64_encode(s@));
        }
    } else if n - i == 2 {
        let b0 = s[i];
        let b1 = s[i + 1];
        proof {
            lemma_group_symbols_lt64(b0, b1, 0);
            assert(s@.skip(i as int) =~= seq![b0, b1]);
        }
        out.push(b64_char_exec(b0 >> 2));
        out.push(b64_char_exec(((b0 & 3) << 4) | (b1 >> 4)));
        out.push(b64_char_exec((b1 & 15) << 2));
        proof {
            assert(spec_b64_encode(seq![b0, b1]) =~= seq![
                b64_char(b0 >> 2),
                b64_char(((b0 & 3) << 4) | (b1 >> 4)),
                b64_char((b1 & 15) << 2),
            ]);
            assert(out@ =~= out1 + spec_b64_encode(s@.skip(i as int)));
            assert(out@ =~= spec_b64_encode(s@));
        }
    } else {
        proof {
            assert(s@.skip(i as int) =~= Seq::<u8>::empty());
            assert(out@ =~= spec_b64_encode(s@));
        }
    }
    proof {
        lemma_encode_is_b64url(s@);
    }
    out
}

/// Decodes base64url `s` strictly, or returns `None` if `s` is not the
/// encoding of any byte string.
pub fn b64url_decode(s: &Vec<u8>) -> (r: Option<Vec<u8>>)
    ensures
        match r {
            Some(v) => spec_b64_decode(s@) == Some(v@),
            None => spec_b64_decode(s@) is None,
        },
{
    let n = s.len();
    let mut out: Vec<u8> = Vec::new();
    let mut i: usize = 0;
    while n - i >= 4
        invariant
            i <= n == s@.len(),
            i % 4 == 0,
            spec_b64_decode(s@.take(i as int)) == Some(out@),
        decreases n - i,
    {
        let ghost out0 = out@;
        proof {
            lemma_decode_append(s@.take(i as int), s@.skip(i as int));
            assert(s@ =~= s@.take(i as int) + s@.skip(i as int));
            assert(s@.skip(i as int).len() >= 4);
            assert(s@.skip(i as int)[0] == s@[i as int]);
            assert(s@.skip(i as int)[1] == s@[i + 1]);
            assert(s@.skip(i as int)[2] == s@[i + 2]);
            assert(s@.skip(i as int)[3] == s@[i + 3]);
        }
        let w0 = b64_val_exec(s[i]);
        let w1 = b64_val_exec(s[i + 1]);
        let w2 = b64_val_exec(s[i + 2]);
        let w3 = b64_val_exec(s[i + 3]);
        match (w0, w1, w2, w3) {
            (Some(v0), Some(v1), Some(v2), Some(v3)) => {
                out.push((v0 << 2) | (v1 >> 4));
                out.push(((v1 & 15) << 4) | (v2 >> 2));
                out.push(((v2 & 3) << 6) | v3);
                proof {
                    let chunk = s@.subrange(i as int, i + 4);
                    lemma_decode_append(s@.take(i as int), chunk);
                    assert(s@.take(i + 4) =~= s@.take(i as int) + chunk);
                    assert(chunk.skip(4) =~= Seq::<u8>::empty());
                    assert(chunk.len() == 4 && chunk[0] == s@[i as int] && chunk[1] == s@[i + 1]
                        && chunk[2] == s@[i + 2] && chunk[3] == s@[i + 3]);
                    let g = seq![(v0 << 2) | (v1 >> 4), ((v1 & 15) << 4) | (v2 >> 2), ((v2 & 3)
                        << 6) | v3];
                    assert(b64_val(chunk[0]) == Some(v0) && b64_val(chunk[1]) == Some(v1)
                        && b64_val(chunk[2]) == Some(v2) && b64_val(chunk[3]) == Some(v3));
                    assert(spec_b64_decode(Seq::<u8>::empty()) == Some(Seq::<u8>::empty()));
                    assert(spec_b64_decode(chunk.skip(4)) == Some(Seq::<u8>::empty()));
                    assert(spec_b64_decode(chunk) is Some);
                    assert(spec_b64_decode(chunk).unwrap() =~= g);
                    assert(out@ =~= out0 + g);
                    assert(spec_b64_decode(s@.take(i + 4)) == Some(out@));
                }
            },
            _ => {
                proof {
                    assert(spec_b64_decode(s@.skip(i as int)) is None);
                }
                return None;
            },
        }
        i = i + 4;
    }
    proof {
        lemma_decode_append(s@.take(i as int), s@.skip(i as int));
        assert(s@ =~= s@.take(i as int) + s@.skip(i as int));
    }
    let rem = n - i;
    if rem == 0 {
        proof {
            assert(s@.skip(i as int) =~= Seq::<u8>::empty());
            assert(out@ + Seq::<u8>::empty() =~= out@);
        }
        Some(out)
    } else if rem == 1 {
        None
    } else if rem == 2 {
        proof {
            assert(s@.skip(i as int) =~= seq![s@[i as int], s@[i + 1]]);
        }
        let ghost out1 = out@;
        match (b64_val_exec(s[i]), b64_val_exec(s[i + 1])) {
            (Some(v0), Some(v1)) => {
                if v1 & 15 == 0 {
                    out.push((v0 << 2) | (v1 >> 4));
                    proof {
                        assert(spec_b64_decode(s@.skip(i as int)).unwrap() =~= seq![(v0 << 2) | (v1
                            >> 4)]);
                        assert(out@ =~= out1 + spec_b64_decode(s@.skip(i as int)).unwrap());
                    }
                    Some(out)
                } else {
                    None
                }
            },
            _ => None,
        }
    } else {
        proof {
            assert(s@.skip(i as int) =~= seq![s@[i as int], s@[i + 1], s@[i + 2]]);
        }
        let ghost out1 = out@;
        match (b64_val_exec(s[i]), b64_val_exec(s[i + 1]), b64_val_exec(s[i + 2])) {
            (Some(v0), Some(v1), Some(v2)) => {
                if v2 & 3 == 0 {
                    out.push((v0 << 2) | (v1 >> 4));
                    out.push(((v1 & 15) << 4) | (v2 >> 2));
                    proof {
                        assert(spec_b64_decode(s@.skip(i as int)).unwrap() =~= seq![(v0 << 2) | (v1
                            >> 4), ((v1 & 15) << 4) | (v2 >> 2)]);
                        assert(out@ =~= out1 + spec_b64_decode(s@.skip(i as int)).unwrap());
                    }
                    Some(out)
                } else {
                    None
                }
            },
            _ => None,
        }
    }
}

} // verus!
