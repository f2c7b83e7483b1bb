//! The claim set carried by a session token, rendered to and parsed from its
//! canonical JSON form `{"exp":<seconds>,"sub":"<4 hex digits>"}`.
use vstd::prelude::*;

use crate::digits::{
    dec_digits, dec_val, is_digit, is_lower_hex, lemma_dec_digits_are_digits,
    lemma_dec_digits_leading, lemma_dec_val_of_digits, parse_dec_value, push_dec_digits,
    is_digit_byte, is_lower_hex_byte,
};
use crate::strutil::{bytes_match_at, push_all, subvec};

verus! {

pub open spec fn spec_claims_prefix() -> Seq<u8> {
    seq![123u8, 34, 101, 120, 112, 34, 58]  // {"exp":

}

pub open spec fn spec_claims_mid() -> Seq<u8> {
    seq![44u8, 34, 115, 117, 98, 34, 58, 34]  // ,"sub":"

}

pub open spec fn spec_claims_suffix() -> Seq<u8> {
    seq![34u8, 125]  // "}

}

/// The JOSE header `{"typ":"JWT","alg":"HS256"}` that every issued token
/// carries.
pub open spec fn spec_header_json() -> Seq<u8> {
    seq![
        123u8, 34, 116, 121, 112, 34, 58, 34, 74, 87, 84, 34, 44, 34, 97, 108, 103, 34, 58, 34,
        72, 83, 50, 53, 54, 34, 125,
    ]
}

/// A well-formed masked subject: exactly four lowercase hexadecimal digits.
pub open spec fn wf_sub(sub: Seq<u8>) -> bool {
    sub.len() == 4 && forall|i: int| 0 <= i < 4 ==> is_lower_hex(#[trigger] sub[i])
}

/// Canonical JSON bytes of the claim set.
pub open spec fn spec_claims_bytes(exp: u64, sub: Seq<u8>) -> Seq<u8> {
    spec_claims_prefix() + dec_digits(exp as nat) + spec_claims_mid() + sub + spec_claims_suffix()
}

/// End of the maximal run of decimal digit bytes starting at `i`.
pub open spec fn digit_run_end(s: Seq<u8>, i: int) -> int
    decreases s.len() - i,
{
    if i < 0 || i >= s.len() {
        i
    } else if is_digit(s[i]) {
        digit_run_end(s, i + 1)
    } else {
        i
    }
}

pub proof fn lemma_digit_run_at(s: Seq<u8>, from: int, at: int)
    requires
        0 <= from <= at <= s.len(),
        forall|m: int| from <= m < at ==> is_digit(#[trigger] s[m]),
        at == s.len() || !is_digit(s[at]),
    ensures
        digit_run_end(s, from) == at,
    decreases at - from,
{
    if from < at {
        lemma_digit_run_at(s, from + 1, at);
    }
}

/// Parses the canonical claims form; any other byte string is rejected.
pub open spec fn spec_parse_claims(s: Seq<u8>) -> Option<(u64, Seq<u8>)> {
    if s.len() < 7 || s.subrange(0, 7) != spec_claims_prefix() {
        None
    } else {
        let e = digit_run_end(s, 7);
        if e == 7 {
            None
        } else if e > 8 && s[7] == 48 {
            None
        } else if dec_val(s.subrange(7, e)) > u64::MAX {
            None
        } else if s.len() != e + 14 {
            None
        } else if s.subrange(e, e + 8) != spec_claims_mid() {
            None
        } else if !(forall|i: int| e + 8 <= i < e + 12 ==> is_lower_hex(#[trigger] s[i])) {
            None
        } else if s.subrange(e + 12, e + 14) != spec_claims_suffix() {
            None
        } else {
            Some((dec_val(s.subrange(7, e)) as u64, s.subrange(e + 8, e + 12)))
        }
    }
}

/// Parsing inverts rendering: the claims codec round-trips.
pub proof fn lemma_claims_roundtrip(exp: u64, sub: Seq<u8>)
    requires
        wf_sub(sub),
    ensures
        spec_parse_claims(spec_claims_bytes(exp, sub)) == Some((exp, sub)),
{
    let d = dec_digits(exp as nat);
    lemma_dec_digits_are_digits(exp as nat);
    lemma_dec_digits_leading(exp as nat);
    lemma_dec_val_of_digits(exp as nat);
    let s = spec_claims_bytes(exp, sub);
    let e = 7 + d.len() as int;
    assert(s.len() == e + 14);
    assert(s.subrange(0, 7) =~= spec_claims_prefix());
    assert forall|t: int| 7 <= t < e implies is_digit(#[trigger] s[t]) by {
        assert(s[t] == d[t - 7]);
    }
    assert(s[e] == spec_claims_mid()[0]);
    assert(!is_digit(44));
    lemma_digit_run_at(s, 7, e);
    if d.len() > 1 {
        assert(s[7] == d[0]);
        assert(s[7] != 48);
    }
    assert(s.subrange(7, e) =~= d);
    assert(dec_val(s.subrange(7, e)) == exp as nat);
    assert(s.subrange(e, e + 8) =~= spec_claims_mid());
    assert forall|i: int| e + 8 <= i < e + 12 implies is_lower_hex(#[trigger] s[i]) by {
        assert(s[i] == sub[i - (e + 8)]);
    }
    assert(s.subrange(e + 12, e + 14) =~= spec_claims_suffix());
    assert(s.subrange(e + 8, e + 12) =~= sub);
}

fn claims_prefix_bytes() -> (r: Vec<u8>)
    ensures
        r@ == spec_claims_prefix(),
{
    let mut v: Vec<u8> = Vec::new();
    v.push(123);
    v.push(34);
    v.push(101);
    v.push(120);
    v.push(112);
    v.push(34);
    v.push(58);
    assert(v@ =~= spec_claims_prefix());
    v
}

fn claims_mid_bytes() -> (r: Vec<u8>)
    ensures
        r@ == spec_claims_mid(),
{
    let mut v: Vec<u8> = Vec::new();
    v.push(44);
    v.push(34);
    v.push(115);
    v.push(117);
    v.push(98);
    v.push(34);
    v.push(58);
    v.push(34);
    assert(v@ =~= spec_claims_mid());
    v
}

fn claims_suffix_bytes() -> (r: Vec<u8>)
    ensures
        r@ == spec_claims_suffix(),
{
    let mut v: Vec<u8> = Vec::new();
    v.push(34);
    v.push(125);
    assert(v@ =~= spec_claims_suffix());
    v
}

/// Bytes of the JOSE header of every issued token.
pub fn header_json_bytes() -> (r: Vec<u8>)
    ensures
        r@ == spec_header_json(),
{
    let mut v: Vec<u8> = Vec::new();
    v.push(123);
    v.push(34);
    v.push(116);
    v.push(121);
    v.push(112);
    v.push(34);
    v.push(58);
    v.push(34);
    v.push(74);
    v.push(87);
    v.push(84);
    v.push(34);
    v.push(44);
    v.push(34);
    v.push(97);
    v.push(108);
    v.push(103);
    v.push(34);
    v.push(58);
    v.push(34);
    v.push(72);
    v.push(83);
    v.push(50);
    v.push(53);
    v.push(54);
    v.push(34);
    v.push(125);
    assert(v@ =~= spec_header_json());
    v
}

/// Renders the claim set to its canonical JSON bytes.
pub fn render_claims(exp: u64, sub: &Vec<u8>) -> (r: Vec<u8>)
    ensures
        r@ == spec_claims_bytes(exp, sub@),
{
    let mut out = claims_prefix_bytes();
    push_dec_digits(exp, &mut out);
    let mid = claims_mid_bytes();
    push_all(&mut out, &mid);
    push_all(&mut out, sub);
    let sfx = claims_suffix_bytes();
    push_all(&mut out, &sfx);
    assert(out@ =~= spec_claims_bytes(exp, sub@));
    out
}

/// Parses canonical claims bytes back into expiry and subject.
pub fn parse_claims(s: &Vec<u8>) -> (r: Option<(u64, Vec<u8>)>)
    ensures
        match r {
            Some(p) => spec_parse_claims(s@) == Some((p.0, p.1@)) && wf_sub(p.1@),
            None => spec_parse_claims(s@) is None,
        },
{
    let n = s.len();
    if n < 7 {
        return None;
    }
    let pfx = claims_prefix_bytes();
    if !bytes_match_at(s, 0, &pfx) {
        return None;
    }
    let mut e: usize = 7;
    while e < n && is_digit_byte(s[e])
        invariant
            7 <= e <= n == s@.len(),
            forall|m: int| 7 <= m < e ==> is_digit(#[trigger] s@[m]),
        decreases n - e,
    {
        e = e + 1;
    }
    proof {
        lemma_digit_run_at(s@, 7, e as int);
    }
    if e == 7 {
        return None;
    }
    if e > 8 && s[7] == 48 {
        return None;
    }
    let v = match parse_dec_value(s, 7, e) {
        Some(v) => v,
        None => {
            return None;
        },
    };
    if n - e != 14 {
        return None;
    }
    let mid = claims_mid_bytes();
    if !bytes_match_at(s, e, &mid) {
        return None;
    }
    if !(is_lower_hex_byte(s[e + 8]) && is_lower_hex_byte(s[e + 9]) && is_lower_hex_byte(s[e + 10])
        && is_lower_hex_byte(s[e + 11])) {
        return None;
    }
    let sfx = claims_suffix_bytes();
    if !bytes_match_at(s, e + 12, &sfx) {
        return None;
    }
    let sub = subvec(s, e + 8, e + 12);
    proof {
        assert forall|i: int| e + 8 <= i < e + 12 implies is_lower_hex(#[trigger] s@[i]) by {}
        assert forall|i: int| 0 <= i < 4 implies is_lower_hex(#[trigger] sub@[i]) by {
            assert(sub@[i] == s@[e + 8 + i]);
        }
    }
    Some((v, sub))
}

} // verus!
