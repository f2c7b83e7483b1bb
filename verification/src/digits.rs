//! Decimal and hexadecimal rendering of unsigned integers as ASCII bytes,
//! together with the parsing direction, as used by the claims codec and the
//! statistics API client.
use vstd::prelude::*;

verus! {

pub open spec fn is_digit(b: u8) -> bool {
    48 <= b && b <= 57
}

pub open spec fn digit_val(b: u8) -> nat
    recommends
        is_digit(b),
{
    (b - 48) as nat
}

/// Decimal digits of `n`, most significant first, without leading zeros.
pub open spec fn dec_digits(n: nat) -> Seq<u8>
    decreases n,
{
    if n < 10 {
        seq![(48 + n) as u8]
    } else {
        dec_digits(n / 10).push((48 + n % 10) as u8)
    }
}

/// Numeric value of a sequence of decimal digit bytes.
pub open spec fn dec_val(s: Seq<u8>) -> nat
    decreases s.len(),
{
    if s.len() == 0 {
        0
    } else {
        dec_val(s.drop_last()) * 10 + digit_val(s.last())
    }
}

pub proof fn lemma_dec_digits_are_digits(n: nat)
    ensures
        dec_digits(n).len() >= 1,
        forall|i: int| 0 <= i < dec_digits(n).len() ==> is_digit(#[trigger] dec_digits(n)[i]),
    decreases n,
{
    if n >= 10 {
        lemma_dec_digits_are_digits(n / 10);
    }
}

pub proof fn lemma_dec_digits_leading(n: nat)
    ensures
        dec_digits(n).len() > 1 ==> dec_digits(n)[0] != 48,
        dec_digits(n)[0] == 48 <==> n == 0,
    decreases n,
{
    if n >= 10 {
        lemma_dec_digits_leading(n / 10);
        assert(dec_digits(n)[0] == dec_digits(n / 10)[0]);
    }
}

pub proof fn lemma_dec_val_of_digits(n: nat)
    ensures
        dec_val(dec_digits(n)) == n,
    decreases n,
{
    if n < 10 {
        assert(dec_digits(n).drop_last() =~= Seq::<u8>::empty());
        assert(dec_val(dec_digits(n)) == dec_val(Seq::<u8>::empty()) * 10 + digit_val(
            (48 + n) as u8,
        ));
    } else {
        lemma_dec_val_of_digits(n / 10);
        let s = dec_digits(n);
        assert(s == dec_digits(n / 10).push((48 + n % 10) as u8));
        assert(s.drop_last() =~= dec_digits(n / 10));
        assert(s.last() == (48 + n % 10) as u8);
        assert(dec_val(s) == dec_val(dec_digits(n / 10)) * 10 + digit_val((48 + n % 10) as u8));
        assert(digit_val((48 + n % 10) as u8) == n % 10);
        assert((n / 10) * 10 + n % 10 == n);
    }
}

/// Extending a digit string on the right can only increase its value.
pub proof fn lemma_dec_val_prefix_le(s: Seq<u8>, i: int, j: int)
    requires
        0 <= i <= j <= s.len(),
    ensures
        dec_val(s.subrange(0, i)) <= dec_val(s.subrange(0, j)),
    decreases j - i,
{
    if i < j {
        lemma_dec_val_prefix_le(s, i, j - 1);
        assert(s.subrange(0, j).drop_last() =~= s.subrange(0, j - 1));
    }
}

/// Appends the decimal rendering of `n` to `out`.
pub fn push_dec_digits(n: u64, out: &mut Vec<u8>)
    ensures
        final(out)@ == old(out)@ + dec_digits(n as nat),
    decreases n,
{
    if n < 10 {
        out.push(48 + (n as u8));
        assert(out@ =~= old(out)@ + dec_digits(n as nat));
    } else {
        push_dec_digits(n / 10, out);
        out.push(48 + ((n % 10) as u8));
        assert(out@ =~= old(out)@ + dec_digits(n as nat));
    }
}

/// Decimal rendering of `n`.
pub fn dec_string_bytes(n: u64) -> (r: Vec<u8>)
    ensures
        r@ == dec_digits(n as nat),
{
    let mut out: Vec<u8> = Vec::new();
    push_dec_digits(n, &mut out);
    assert(out@ =~= dec_digits(n as nat));
    out
}

/// Value of the decimal digit bytes `s[from..to]`, or `None` if it exceeds
/// `u64::MAX`.
pub fn parse_dec_value(s: &Vec<u8>, from: usize, to: usize) -> (r: Option<u64>)
    requires
        from <= to <= s@.len(),
        forall|k: int| from <= k < to ==> is_digit(#[trigger] s@[k]),
    ensures
        match r {
            Some(v) => v == dec_val(s@.subrange(from as int, to as int)),
            None => dec_val(s@.subrange(from as int, to as int)) > u64::MAX,
        },
{
    let mut acc: u64 = 0;
    let mut i: usize = from;
    while i < to
        invariant
            from <= i <= to <= s@.len(),
            forall|k: int| from <= k < to ==> is_digit(#[trigger] s@[k]),
            acc == dec_val(s@.subrange(from as int, i as int)),
        decreases to - i,
    {
        let d: u8 = s[i] - 48;
        proof {
            assert(s@.subrange(from as int, i + 1).drop_last() =~= s@.subrange(
                from as int,
                i as int,
            ));
        }
        let next = match acc.checked_mul(10) {
            Some(m) => m.checked_add(d as u64),
            None => None,
        };
        match next {
            Some(v) => {
                acc = v;
            },
            None => {
                proof {
                    lemma_dec_val_prefix_le(
                        s@.subrange(from as int, to as int),
                        i + 1 - from,
                        to - from,
                    );
                    assert(s@.subrange(from as int, to as int).subrange(0, i + 1 - from) =~= s@
                        .subrange(from as int, i + 1));
                    assert(s@.subrange(from as int, to as int).subrange(0, to - from) =~= s@
                        .subrange(from as int, to as int));
                }
                return None;
            },
        }
        i = i + 1;
    }
    assert(s@.subrange(from as int, to as int) =~= s@.subrange(from as int, i as int));
    Some(acc)
}

pub open spec fn hex_digit(v: nat) -> u8
    recommends
        v < 16,
{
    if v < 10 {
        (48 + v) as u8
    } else {
        (97 + (v - 10)) as u8
    }
}

pub open spec fn is_lower_hex(b: u8) -> bool {
    is_digit(b) || (97 <= b && b <= 102)
}

/// Four lowercase hexadecimal digits of `v`, most significant first.
pub open spec fn hex4(v: nat) -> Seq<u8>
    recommends
        v < 0x10000,
{
    seq![
        hex_digit(v / 0x1000 % 16),
        hex_digit(v / 0x100 % 16),
        hex_digit(v / 0x10 % 16),
        hex_digit(v % 16),
    ]
}

pub proof fn lemma_hex4_is_lower_hex(v: nat)
    ensures
        hex4(v).len() == 4,
        forall|i: int| 0 <= i < 4 ==> is_lower_hex(#[trigger] hex4(v)[i]),
{
    assert forall|i: int| 0 <= i < 4 implies is_lower_hex(#[trigger] hex4(v)[i]) by {
        assert(v / 0x1000 % 16 < 16 && v / 0x100 % 16 < 16 && v / 0x10 % 16 < 16 && v % 16 < 16);
    }
}

/// Renders `v` as four lowercase hexadecimal digit bytes.
pub fn hex4_bytes(v: u16) -> (r: Vec<u8>)
    ensures
        r@ == hex4(v as nat),
{
    let mut out: Vec<u8> = Vec::new();
    out.push(hex_digit_byte((v / 0x1000 % 16) as u8));
    out.push(hex_digit_byte((v / 0x100 % 16) as u8));
    out.push(hex_digit_byte((v / 0x10 % 16) as u8));
    out.push(hex_digit_byte((v % 16) as u8));
    assert(out@ =~= hex4(v as nat));
    out
}

pub fn is_digit_byte(b: u8) -> (r: bool)
    ensures
        r == is_digit(b),
{
    48 <= b && b <= 57
}

pub fn is_lower_hex_byte(b: u8) -> (r: bool)
    ensures
        r == is_lower_hex(b),
{
    (48 <= b && b <= 57) || (97 <= b && b <= 102)
}

fn hex_digit_byte(v: u8) -> (r: u8)
    requires
        v < 16,
    ensures
        r == hex_digit(v as nat),
{
    if v < 10 {
        48 + v
    } else {
        97 + (v - 10)
    }
}

} // verus!
