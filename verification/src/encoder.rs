//! Outbound event encoder: renders a ready key event as wire text.
//!
//! The body always carries the fields in the fixed order `wh`, `kc`,
//! `keypressms`; `wh` is the hardcoded display-size literal `128,128`.  The
//! body is computed first, its byte length is measured, and the result is the
//! body prefixed with `len=<N>` and terminated by a single CRLF.

use vstd::prelude::*;

use crate::decimal::dec_repr;
use crate::decimal::dec_bytes_u64;
use crate::decimal::parse_dec;
use crate::decimal::lemma_dec_round_trip;
use crate::keys::KeyboardCodes;
use crate::keys::key_char;

verus! {

/// Outbound device-to-host message content: the display size and the key
/// event, each optional.
pub struct Pico2PiMessage {
    pub wh: Option<[i32; 2]>,
    pub keyboard_codes: Option<KeyboardCodes>,
}

/// `"&wh=128,128"`: the hardcoded display-size field.
pub open spec fn wh_field() -> Seq<u8> {
    seq![38u8, 119u8, 104u8, 61u8, 49u8, 50u8, 56u8, 44u8, 49u8, 50u8, 56u8]
}

/// `"&kc="`
pub open spec fn kc_prefix() -> Seq<u8> {
    seq![38u8, 107u8, 99u8, 61u8]
}

/// `"&keypressms="`
pub open spec fn ms_prefix() -> Seq<u8> {
    seq![38u8, 107u8, 101u8, 121u8, 112u8, 114u8, 101u8, 115u8, 115u8, 109u8, 115u8, 61u8]
}

/// `"len="`
pub open spec fn len_prefix() -> Seq<u8> {
    seq![108u8, 101u8, 110u8, 61u8]
}

/// `"\r\n"`
pub open spec fn crlf() -> Seq<u8> {
    seq![13u8, 10u8]
}

/// The message body: `&wh=128,128&kc=<c>&keypressms=<D>`.
pub open spec fn outbound_body(k: KeyboardCodes, hold_ms: u64) -> Seq<u8> {
    wh_field() + kc_prefix() + seq![key_char(k) as u8] + ms_prefix() + dec_repr(hold_ms as int)
}

/// The full wire message: the body prefixed with its own byte length and
/// terminated by CRLF.
pub open spec fn outbound_frame(k: KeyboardCodes, hold_ms: u64) -> Seq<u8> {
    len_prefix() + dec_repr(outbound_body(k, hold_ms).len() as int) + outbound_body(k, hold_ms)
        + crlf()
}

/// Encode a ready key event for the wire.
pub fn encode_key_event(key: KeyboardCodes, hold_ms: u64) -> (r: Vec<u8>)
    ensures
        r@ == outbound_frame(key, hold_ms),
        r@.len() <= 56,
{
    let mut body: Vec<u8> = Vec::new();
    body.push(38);
    body.push(119);
    body.push(104);
    body.push(61);
    body.push(49);
    body.push(50);
    body.push(56);
    body.push(44);
    body.push(49);
    body.push(50);
    body.push(56);
    proof {
        assert(body@ =~= wh_field());
    }
    let ghost b1 = body@;
    body.push(38);
    body.push(107);
    body.push(99);
    body.push(61);
    proof {
        assert(body@ =~= b1 + kc_prefix());
    }
    let ghost b2 = body@;
    body.push(key.as_u8());
    proof {
        assert(body@ =~= b2 + seq![key_char(key) as u8]);
    }
    let ghost b3 = body@;
    body.push(38);
    body.push(107);
    body.push(101);
    body.push(121);
    body.push(112);
    body.push(114);
    body.push(101);
    body.push(115);
    body.push(115);
    body.push(109);
    body.push(115);
    body.push(61);
    proof {
        assert(body@ =~= b3 + ms_prefix());
    }
    let mut ms = dec_bytes_u64(hold_ms);
    body.append(&mut ms);
    proof {
        assert(body@ =~= outbound_body(key, hold_ms));
        lemma_dec_repr_u64_len(hold_ms);
        assert(body@.len() <= 48);
    }
    let n: u64 = body.len() as u64;
    let mut len_digits = dec_bytes_u64(n);
    proof {
        lemma_dec_repr_short_len(n as nat);
        assert(len_digits@.len() <= 2);
    }
    let mut r: Vec<u8> = Vec::new();
    r.push(108);
    r.push(101);
    r.push(110);
    r.push(61);
    proof {
        assert(r@ =~= len_prefix());
    }
    r.append(&mut len_digits);
    r.append(&mut body);
    r.push(13);
    r.push(10);
    proof {
        assert(r@ =~= outbound_frame(key, hold_ms));
    }
    r
}

/// Powers of ten.
pub open spec fn pow10(k: nat) -> nat
    decreases k,
{
    if k == 0 {
        1
    } else {
        10 * pow10((k - 1) as nat)
    }
}

proof fn lemma_dec_digits_len(n: nat, k: nat)
    requires
        n < pow10(k),
    ensures
        crate::decimal::dec_digits(n).len() <= k,
    decreases k,
{
    if n > 0 {
        assert(pow10(0) == 1);
        assert(k > 0) by {
            if k == 0 {
                assert(n < 1);
            }
        }
        let p = pow10((k - 1) as nat);
        assert(pow10(k) == 10 * p);
        assert(p >= 1) by {
            lemma_pow10_pos((k - 1) as nat);
        }
        assert(n / 10 < p) by (nonlinear_arith)
            requires
                n < 10 * p,
                p >= 1,
        ;
        lemma_dec_digits_len(n / 10, (k - 1) as nat);
    }
}

proof fn lemma_pow10_pos(k: nat)
    ensures
        pow10(k) >= 1,
    decreases k,
{
    if k > 0 {
        lemma_pow10_pos((k - 1) as nat);
    }
}

/// The decimal text of any unsigned 64-bit value has at most 20 digits.
pub proof fn lemma_dec_repr_u64_len(n: u64)
    ensures
        dec_repr(n as int).len() <= 20,
{
    if n == 0 {
    } else {
        reveal_with_fuel(pow10, 21);
        assert(pow10(20) == 100000000000000000000);
        lemma_dec_digits_len(n as nat, 20);
    }
}

/// The decimal text of a value below one hundred has at most 2 digits.
pub proof fn lemma_dec_repr_short_len(n: nat)
    requires
        n < 100,
    ensures
        dec_repr(n as int).len() <= 2,
{
    if n == 0 {
    } else {
        reveal_with_fuel(pow10, 3);
        assert(pow10(2) == 100);
        lemma_dec_digits_len(n, 2);
    }
}

/// Law: the declared length in the `len=` prefix always equals the byte
/// length of the body that follows it, for every key and hold duration.
pub proof fn lemma_outbound_len_field(k: KeyboardCodes, hold_ms: u64)
    ensures
        outbound_frame(k, hold_ms) == len_prefix() + dec_repr(
            outbound_body(k, hold_ms).len() as int,
        ) + outbound_body(k, hold_ms) + crlf(),
        parse_dec(dec_repr(outbound_body(k, hold_ms).len() as int)) == Some(
            outbound_body(k, hold_ms).len() as int,
        ),
{
    lemma_dec_repr_u64_len(hold_ms);
    let n = outbound_body(k, hold_ms).len();
    assert(n <= 48);
    lemma_dec_round_trip(n as i32);
}

} // verus!
