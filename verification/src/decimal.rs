//! Signed decimal ASCII codec: the wire protocol and the display labels both
//! carry integers as minimal decimal digit strings.

use vstd::prelude::*;

verus! {

/// ASCII digits of `n`, most significant first; empty for zero.
pub open spec fn dec_digits(n: nat) -> Seq<u8>
    decreases n,
{
    if n == 0 {
        Seq::empty()
    } else {
        dec_digits(n / 10).push((48 + n % 10) as u8)
    }
}

/// Canonical decimal text of `n`: `"0"` for zero, a leading `-` for negative
/// values, otherwise the minimal digit sequence with no leading zeros.
pub open spec fn dec_repr(n: int) -> Seq<u8> {
    if n == 0 {
        seq![48u8]
    } else if n < 0 {
        seq![45u8] + dec_digits((-n) as nat)
    } else {
        dec_digits(n as nat)
    }
}

pub open spec fn is_dec_digit(b: u8) -> bool {
    48 <= b <= 57
}

pub open spec fn all_dec_digits(s: Seq<u8>) -> bool {
    forall|i: int| 0 <= i < s.len() ==> is_dec_digit(#[trigger] s[i])
}

/// Value of a digit string, read left to right.
pub open spec fn dec_value(s: Seq<u8>) -> int
    decreases s.len(),
{
    if s.len() == 0 {
        0
    } else {
        dec_value(s.drop_last()) * 10 + (s.last() - 48)
    }
}

/// What a decimal text denotes: an optional `-`, then at least one digit.
/// Leading zeros are accepted; anything else is rejected.
pub open spec fn parse_dec(s: Seq<u8>) -> Option<int> {
    if s.len() >= 1 && s[0] == 45 {
        if s.len() >= 2 && all_dec_digits(s.skip(1)) {
            Some(-dec_value(s.skip(1)))
        } else {
            None
        }
    } else if s.len() >= 1 && all_dec_digits(s) {
        Some(dec_value(s))
    } else {
        None
    }
}

/// Decimal text of an unsigned 64-bit value.
pub fn dec_bytes_u64(n: u64) -> (r: Vec<u8>)
    ensures
        r@ == dec_repr(n as int),
{
    let mut r: Vec<u8> = Vec::new();
    if n == 0 {
        r.push(48);
        proof {
            assert(r@ =~= seq![48u8]);
        }
        return r;
    }
    let mut m: u64 = n;
    proof {
        assert(dec_digits(n as nat) =~= dec_digits(m as nat) + r@);
    }
    while m > 0
        invariant
            dec_digits(n as nat) == dec_digits(m as nat) + r@,
        decreases m,
    {
        let ghost r0 = r@;
        let d: u8 = 48 + (m % 10) as u8;
        r.insert(0, d);
        proof {
            assert(r@ =~= seq![d] + r0);
            assert(dec_digits(m as nat) == dec_digits((m / 10) as nat).push(d));
            assert(dec_digits((m / 10) as nat).push(d) =~= dec_digits((m / 10) as nat) + seq![d]);
            assert(dec_digits((m / 10) as nat) + seq![d] + r0 =~= dec_digits((m / 10) as nat) + (
            seq![d] + r0));
        }
        m = m / 10;
    }
    proof {
        assert(dec_digits(0nat) + r@ =~= r@);
    }
    r
}

/// Render a signed 32-bit integer as minimal decimal ASCII text.
pub fn itoa(num: i32) -> (r: Vec<u8>)
    ensures
        r@ == dec_repr(num as int),
{
    if num >= 0 {
        dec_bytes_u64(num as u64)
    } else {
        let mag: u64 = (-(num as i64)) as u64;
        let mut r = dec_bytes_u64(mag);
        let ghost r0 = r@;
        r.insert(0, 45);
        proof {
            assert(r@ =~= seq![45u8] + r0);
        }
        r
    }
}

/// Parse decimal ASCII text as a signed 32-bit integer.  Returns `None` on
/// malformed text and on values outside the 32-bit range.
pub fn atoi(s: &Vec<u8>) -> (r: Option<i32>)
    ensures
        match parse_dec(s@) {
            Some(v) => if i32::MIN <= v <= i32::MAX {
                r == Some(v as i32)
            } else {
                r is None
            },
            None => r is None,
        },
{
    let mut i: usize = 0;
    let mut neg = false;
    if s.len() > 0 && s[0] == 45 {
        neg = true;
        i = 1;
    }
    if i == s.len() {
        return None;
    }
    let ghost digs: Seq<u8> = if neg {
        s@.skip(1)
    } else {
        s@
    };
    let ghost off: int = if neg {
        1int
    } else {
        0int
    };
    let mut acc: u64 = 0;
    let mut over = false;
    while i < s.len()
        invariant
            off <= i <= s.len(),
            off == if neg { 1int } else { 0int },
            digs == if neg { s@.skip(1) } else { s@ },
            off < s@.len(),
            neg ==> s@.len() >= 1 && s@[0] == 45,
            !neg ==> s@[0] != 45,
            all_dec_digits(digs.take(i - off)),
            !over ==> acc == dec_value(digs.take(i - off)),
            over ==> dec_value(digs.take(i - off)) > 0x8000_0000,
        decreases s.len() - i,
    {
        let b = s[i];
        if b < 48 || b > 57 {
            proof {
                if neg {
                    assert(s@.skip(1)[i - 1] == s@[i as int]);
                } else {
                    assert(digs[i as int] == s@[i as int]);
                }
                assert(digs.len() == s@.len() - off);
                assert(!is_dec_digit(digs[i - off]));
                assert(!all_dec_digits(digs));
            }
            return None;
        }
        let ghost k = i - off;
        proof {
            assert(digs.take(k + 1).drop_last() =~= digs.take(k));
            assert(digs.take(k + 1).last() == digs[k]);
            assert(digs[k] == s@[i as int]);
            lemma_dec_value_nonneg(digs.take(k));
        }
        if over {
            proof {
                assert(dec_value(digs.take(k + 1)) == dec_value(digs.take(k)) * 10 + (b - 48));
            }
        } else if acc > 0x8000_0000 {
            over = true;
            proof {
                assert(dec_value(digs.take(k + 1)) == dec_value(digs.take(k)) * 10 + (b - 48));
            }
        } else {
            acc = acc * 10 + (b - 48) as u64;
        }
        i += 1;
    }
    proof {
        assert(digs.take(i - off) =~= digs);
    }
    if over {
        return None;
    }
    if neg {
        if acc > 0x8000_0000 {
            None
        } else if acc == 0x8000_0000 {
            Some(i32::MIN)
        } else {
            Some(-(acc as i32))
        }
    } else {
        if acc > 0x7FFF_FFFF {
            None
        } else {
            Some(acc as i32)
        }
    }
}

proof fn lemma_dec_value_nonneg(s: Seq<u8>)
    requires
        all_dec_digits(s),
    ensures
        dec_value(s) >= 0,
    decreases s.len(),
{
    if s.len() > 0 {
        assert(all_dec_digits(s.drop_last())) by {
            assert(forall|i: int|
                0 <= i < s.len() - 1 ==> #[trigger] s.drop_last()[i] == s[i]);
        }
        lemma_dec_value_nonneg(s.drop_last());
    }
}

proof fn lemma_dec_digits_are_digits(n: nat)
    ensures
        all_dec_digits(dec_digits(n)),
        n > 0 ==> dec_digits(n).len() >= 1,
    decreases n,
{
    if n > 0 {
        lemma_dec_digits_are_digits(n / 10);
        let prev = dec_digits(n / 10);
        let d = (48 + n % 10) as u8;
        assert(forall|i: int|
            0 <= i < prev.len() ==> #[trigger] prev.push(d)[i] == prev[i]);
        assert(prev.push(d).last() == d);
    }
}

proof fn lemma_dec_digits_value(n: nat)
    ensures
        dec_value(dec_digits(n)) == n,
    decreases n,
{
    if n > 0 {
        lemma_dec_digits_value(n / 10);
        let prev = dec_digits(n / 10);
        let d = (48 + n % 10) as u8;
        assert(dec_digits(n).drop_last() =~= prev);
        assert(dec_digits(n).last() == d);
    }
}

/// Law: decoding the canonical decimal text of any signed 32-bit value gives
/// the value back, and zero encodes as `"0"`.
pub proof fn lemma_dec_round_trip(n: i32)
    ensures
        parse_dec(dec_repr(n as int)) == Some(n as int),
        dec_repr(0) == seq![48u8],
{
    lemma_dec_round_trip_int(n as int);
}

proof fn lemma_dec_round_trip_int(n: int)
    ensures
        parse_dec(dec_repr(n)) == Some(n),
{
    if n == 0 {
        let s = seq![48u8];
        assert(s.drop_last() =~= Seq::<u8>::empty());
        assert(dec_value(Seq::<u8>::empty()) == 0);
        assert(s.last() == 48u8);
        assert(dec_value(s) == 0);
        assert(all_dec_digits(s));
    } else if n > 0 {
        lemma_dec_digits_are_digits(n as nat);
        lemma_dec_digits_value(n as nat);
        let s = dec_digits(n as nat);
        assert(is_dec_digit(s[0]));
    } else {
        let m = (-n) as nat;
        lemma_dec_digits_are_digits(m);
        lemma_dec_digits_value(m);
        let t = dec_digits(m);
        let s = seq![45u8] + t;
        assert(s[0] == 45);
        assert(s.len() >= 2);
        assert(s.skip(1) =~= t);
    }
}

} // verus!
