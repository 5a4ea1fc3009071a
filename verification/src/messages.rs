//! Inbound host-to-device messages: a terminated frame is parsed as
//! `&`-separated `key=value` pairs and mapped onto a typed message.
//!
//! Recognized keys get a field-specific sub-split (`/` for `ip_and_battery`
//! and `title_and_paginator`, `,` for up to eight `data_lines`); unrecognized
//! keys are ignored; if a key repeats, the last occurrence wins.  A frame
//! that is not key/value text is rejected whole as a parse error, and a
//! recognized field whose value has the wrong shape or exceeds its capacity
//! rejects the frame as a mismatch: a rejected frame never partially
//! populates a message.

use vstd::prelude::*;

use crate::decimal::atoi;
use crate::decimal::parse_dec;
use crate::kv::split_on;
use crate::kv::spec_string_to_kv;
use crate::kv::string_to_kv;
use crate::kv::split_bytes;
use crate::kv::views_of;
use crate::kv::pair_views;

verus! {

pub const IP_CAPACITY: usize = 15;

pub const BATTERY_CAPACITY: usize = 3;

pub const TITLE_CAPACITY: usize = 15;

pub const PAGINATOR_CAPACITY: usize = 5;

pub const DATA_LINE_CAPACITY: usize = 20;

pub const MAX_DATA_LINES: usize = 8;

pub const KC_CAPACITY: usize = 1;

#[derive(Debug, PartialEq, Eq, Structural, Clone, Copy)]
pub enum Pi2PicoMessageError {
    /// A recognized field's value does not have the shape the field needs.
    StringMismatch,
    /// The frame is not well-formed key/value text.
    ParseError,
}

/// The typed inbound message, rebuilt fully on every successfully parsed
/// frame and never merged with a previous one.
pub struct Pi2PicoMessage {
    pub cursor_index: Option<isize>,
    /// IP text and battery percentage text.
    pub ip_and_battery: Option<(Vec<u8>, Vec<u8>)>,
    /// Header title and page/total-pages text.
    pub title_and_paginator: Option<(Vec<u8>, Vec<u8>)>,
    pub data_lines: Option<Vec<Option<Vec<u8>>>>,
}

/// The mathematical image of a message.
pub struct Pi2PicoMessageModel {
    pub cursor_index: Option<int>,
    pub ip_and_battery: Option<(Seq<u8>, Seq<u8>)>,
    pub title_and_paginator: Option<(Seq<u8>, Seq<u8>)>,
    pub data_lines: Option<Seq<Option<Seq<u8>>>>,
}

/// Each component wrapped in `Some`.
pub open spec fn all_some(parts: Seq<Seq<u8>>) -> Seq<Option<Seq<u8>>> {
    parts.map_values(|p: Seq<u8>| Some(p))
}

/// The views of a sequence of optional byte vectors.
pub open spec fn opt_views(s: Seq<Option<Vec<u8>>>) -> Seq<Option<Seq<u8>>> {
    s.map_values(
        |o: Option<Vec<u8>>|
            match o {
                Some(t) => Some(t@),
                None => None,
            },
    )
}

impl View for Pi2PicoMessage {
    type V = Pi2PicoMessageModel;

    open spec fn view(&self) -> Pi2PicoMessageModel {
        Pi2PicoMessageModel {
            cursor_index: match self.cursor_index {
                Some(v) => Some(v as int),
                None => None,
            },
            ip_and_battery: match self.ip_and_battery {
                Some(p) => Some((p.0@, p.1@)),
                None => None,
            },
            title_and_paginator: match self.title_and_paginator {
                Some(p) => Some((p.0@, p.1@)),
                None => None,
            },
            data_lines: match self.data_lines {
                Some(v) => Some(opt_views(v@)),
                None => None,
            },
        }
    }
}

/// `"cursor_index"`
pub open spec fn cursor_index_key() -> Seq<u8> {
    seq![99u8, 117u8, 114u8, 115u8, 111u8, 114u8, 95u8, 105u8, 110u8, 100u8, 101u8, 120u8]
}

/// `"ip_and_battery"`
pub open spec fn ip_and_battery_key() -> Seq<u8> {
    seq![
        105u8,
        112u8,
        95u8,
        97u8,
        110u8,
        100u8,
        95u8,
        98u8,
        97u8,
        116u8,
        116u8,
        101u8,
        114u8,
        121u8,
    ]
}

/// `"title_and_paginator"`
pub open spec fn title_and_paginator_key() -> Seq<u8> {
    seq![
        116u8,
        105u8,
        116u8,
        108u8,
        101u8,
        95u8,
        97u8,
        110u8,
        100u8,
        95u8,
        112u8,
        97u8,
        103u8,
        105u8,
        110u8,
        97u8,
        116u8,
        111u8,
        114u8,
    ]
}

/// `"data_lines"`
pub open spec fn data_lines_key() -> Seq<u8> {
    seq![100u8, 97u8, 116u8, 97u8, 95u8, 108u8, 105u8, 110u8, 101u8, 115u8]
}

/// `"kc"`
pub open spec fn kc_key() -> Seq<u8> {
    seq![107u8, 99u8]
}

pub open spec fn empty_message_model() -> Pi2PicoMessageModel {
    Pi2PicoMessageModel {
        cursor_index: None,
        ip_and_battery: None,
        title_and_paginator: None,
        data_lines: None,
    }
}

/// Whether a `/`-separated value yields two leading components within the
/// given capacities; further components are ignored.
pub open spec fn two_parts_ok(val: Seq<u8>, cap0: int, cap1: int) -> bool {
    let parts = split_on(val, 47);
    parts.len() >= 2 && parts[0].len() <= cap0 && parts[1].len() <= cap1
}

/// Whether a `,`-separated value yields at most eight components, each
/// within the line capacity.
pub open spec fn data_lines_ok(val: Seq<u8>) -> bool {
    let parts = split_on(val, 44);
    parts.len() <= MAX_DATA_LINES && (forall|i: int|
        0 <= i < parts.len() ==> (#[trigger] parts[i]).len() <= DATA_LINE_CAPACITY)
}

/// How one `key=value` pair populates the message: recognized keys overwrite
/// their field, a malformed value rejects the frame, unrecognized keys
/// change nothing.
pub open spec fn apply_kv_pair(
    m: Pi2PicoMessageModel,
    key: Seq<u8>,
    val: Seq<u8>,
) -> Result<Pi2PicoMessageModel, Pi2PicoMessageError> {
    if key == cursor_index_key() {
        match parse_dec(val) {
            Some(v) => if i32::MIN <= v <= i32::MAX {
                Ok(Pi2PicoMessageModel { cursor_index: Some(v), ..m })
            } else {
                Err(Pi2PicoMessageError::StringMismatch)
            },
            None => Err(Pi2PicoMessageError::StringMismatch),
        }
    } else if key == ip_and_battery_key() {
        if two_parts_ok(val, IP_CAPACITY as int, BATTERY_CAPACITY as int) {
            let parts = split_on(val, 47);
            Ok(Pi2PicoMessageModel { ip_and_battery: Some((parts[0], parts[1])), ..m })
        } else {
            Err(Pi2PicoMessageError::StringMismatch)
        }
    } else if key == title_and_paginator_key() {
        if two_parts_ok(val, TITLE_CAPACITY as int, PAGINATOR_CAPACITY as int) {
            let parts = split_on(val, 47);
            Ok(Pi2PicoMessageModel { title_and_paginator: Some((parts[0], parts[1])), ..m })
        } else {
            Err(Pi2PicoMessageError::StringMismatch)
        }
    } else if key == data_lines_key() {
        if data_lines_ok(val) {
            Ok(Pi2PicoMessageModel { data_lines: Some(all_some(split_on(val, 44))), ..m })
        } else {
            Err(Pi2PicoMessageError::StringMismatch)
        }
    } else {
        Ok(m)
    }
}

/// Fold all pairs over the message in order of appearance: for a repeated
/// key the last occurrence wins.
pub open spec fn apply_kv_pairs(
    m: Pi2PicoMessageModel,
    pairs: Seq<(Seq<u8>, Seq<u8>)>,
) -> Result<Pi2PicoMessageModel, Pi2PicoMessageError>
    decreases pairs.len(),
{
    if pairs.len() == 0 {
        Ok(m)
    } else {
        match apply_kv_pair(m, pairs[0].0, pairs[0].1) {
            Err(e) => Err(e),
            Ok(m2) => apply_kv_pairs(m2, pairs.skip(1)),
        }
    }
}

/// What parsing a whole frame yields: a message built from nothing by its
/// pairs, a parse error when the frame is not key/value text, a mismatch
/// when a recognized field's value is malformed.
pub open spec fn spec_parse_message(s: Seq<u8>) -> Result<
    Pi2PicoMessageModel,
    Pi2PicoMessageError,
> {
    match spec_string_to_kv(s, 38, 61) {
        Err(_) => Err(Pi2PicoMessageError::ParseError),
        Ok(pairs) => apply_kv_pairs(empty_message_model(), pairs),
    }
}

/// Byte-wise equality of a vector and a slice.
fn bytes_eq(a: &Vec<u8>, b: &[u8]) -> (r: bool)
    ensures
        r == (a@ == b@),
{
    if a.len() != b.len() {
        return false;
    }
    let mut i: usize = 0;
    while i < a.len()
        invariant
            i <= a.len(),
            a@.len() == b@.len(),
            forall|x: int| 0 <= x < i ==> a@[x] == b@[x],
        decreases a.len() - i,
    {
        if a[i] != b[i] {
            return false;
        }
        i += 1;
    }
    proof {
        assert(a@ =~= b@);
    }
    true
}

/// `"cursor_index"` as bytes.
fn cursor_index_key_vec() -> (v: Vec<u8>)
    ensures
        v@ == cursor_index_key(),
{
    let mut v: Vec<u8> = Vec::new();
    v.push(99);
    v.push(117);
    v.push(114);
    v.push(115);
    v.push(111);
    v.push(114);
    v.push(95);
    v.push(105);
    v.push(110);
    v.push(100);
    v.push(101);
    v.push(120);
    proof {
        assert(v@ =~= cursor_index_key());
    }
    v
}

/// `"ip_and_battery"` as bytes.
fn ip_and_battery_key_vec() -> (v: Vec<u8>)
    ensures
        v@ == ip_and_battery_key(),
{
    let mut v: Vec<u8> = Vec::new();
    v.push(105);
    v.push(112);
    v.push(95);
    v.push(97);
    v.push(110);
    v.push(100);
    v.push(95);
    v.push(98);
    v.push(97);
    v.push(116);
    v.push(116);
    v.push(101);
    v.push(114);
    v.push(121);
    proof {
        assert(v@ =~= ip_and_battery_key());
    }
    v
}

/// `"title_and_paginator"` as bytes.
fn title_and_paginator_key_vec() -> (v: Vec<u8>)
    ensures
        v@ == title_and_paginator_key(),
{
    let mut v: Vec<u8> = Vec::new();
    v.push(116);
    v.push(105);
    v.push(116);
    v.push(108);
    v.push(101);
    v.push(95);
    v.push(97);
    v.push(110);
    v.push(100);
    v.push(95);
    v.push(112);
    v.push(97);
    v.push(103);
    v.push(105);
    v.push(110);
    v.push(97);
    v.push(116);
    v.push(111);
    v.push(114);
    proof {
        assert(v@ =~= title_and_paginator_key());
    }
    v
}

/// `"data_lines"` as bytes.
fn data_lines_key_vec() -> (v: Vec<u8>)
    ensures
        v@ == data_lines_key(),
{
    let mut v: Vec<u8> = Vec::new();
    v.push(100);
    v.push(97);
    v.push(116);
    v.push(97);
    v.push(95);
    v.push(108);
    v.push(105);
    v.push(110);
    v.push(101);
    v.push(115);
    proof {
        assert(v@ =~= data_lines_key());
    }
    v
}

/// `"kc"` as bytes.
fn kc_key_vec() -> (v: Vec<u8>)
    ensures
        v@ == kc_key(),
{
    let mut v: Vec<u8> = Vec::new();
    v.push(107);
    v.push(99);
    proof {
        assert(v@ =~= kc_key());
    }
    v
}

/// Split a value once on `/` into its two leading components, each within
/// its capacity.
fn split_two(val: &Vec<u8>, cap0: usize, cap1: usize) -> (r: Option<(Vec<u8>, Vec<u8>)>)
    ensures
        ({
            let parts = split_on(val@, 47);
            match r {
                Some(p) => parts.len() >= 2 && p.0@ == parts[0] && p.1@ == parts[1]
                    && parts[0].len() <= cap0 && parts[1].len() <= cap1,
                None => !(parts.len() >= 2 && parts[0].len() <= cap0 && parts[1].len() <= cap1),
            }
        }),
{
    let mut parts = split_bytes(val, 47);
    let ghost ps = views_of(parts@);
    if parts.len() < 2 {
        return None;
    }
    let a = parts.remove(0);
    proof {
        assert(a@ == ps[0]);
        assert(views_of(parts@) =~= ps.skip(1));
    }
    let b = parts.remove(0);
    proof {
        assert(b@ == ps.skip(1)[0]);
        assert(ps.skip(1)[0] == ps[1]);
    }
    if a.len() > cap0 || b.len() > cap1 {
        return None;
    }
    Some((a, b))
}

impl Pi2PicoMessage {
    /// Parse one terminated frame into a typed message.
    #[verifier::loop_isolation(false)]
    pub fn try_from(value: &Vec<u8>) -> (r: Result<Pi2PicoMessage, Pi2PicoMessageError>)
        ensures
            match r {
                Ok(m) => spec_parse_message(value@) == Ok::<_, Pi2PicoMessageError>(m@),
                Err(e) => spec_parse_message(value@) == Err::<Pi2PicoMessageModel, _>(e),
            },
    {
        let mut msg = Pi2PicoMessage {
            cursor_index: None,
            ip_and_battery: None,
            title_and_paginator: None,
            data_lines: None,
        };
        let pairs = match string_to_kv(value, 38, 61) {
            Ok(p) => p,
            Err(_) => {
                return Err(Pi2PicoMessageError::ParseError);
            },
        };
        let ghost pv = pair_views(pairs@);
        let k_cursor = cursor_index_key_vec();
        let k_ip = ip_and_battery_key_vec();
        let k_title = title_and_paginator_key_vec();
        let k_data = data_lines_key_vec();
        let mut t: usize = 0;
        proof {
            assert(pv.skip(0) =~= pv);
        }
        while t < pairs.len()
            invariant
                t <= pairs.len(),
                pv == pair_views(pairs@),
                spec_string_to_kv(value@, 38, 61) == Ok::<_, crate::kv::StringToKVError>(pv),
                k_cursor@ == cursor_index_key(),
                k_ip@ == ip_and_battery_key(),
                k_title@ == title_and_paginator_key(),
                k_data@ == data_lines_key(),
                apply_kv_pairs(empty_message_model(), pv) == apply_kv_pairs(
                    msg@,
                    pv.skip(t as int),
                ),
            decreases pairs.len() - t,
        {
            let ghost m0 = msg@;
            let ghost rem = pv.skip(t as int);
            let ghost key = pv[t as int].0;
            let ghost val = pv[t as int].1;
            proof {
                assert(rem.len() == pv.len() - t);
                assert(rem[0] == pv[t as int]);
                assert(rem.skip(1) =~= pv.skip(t + 1));
                assert(pv[t as int] == (pairs@[t as int].0@, pairs@[t as int].1@));
            }
            if bytes_eq(&pairs[t].0, k_cursor.as_slice()) {
                match atoi(&pairs[t].1) {
                    Some(v) => {
                        msg.cursor_index = Some(v as isize);
                        proof {
                            assert(v as isize as int == v as int);
                            assert(apply_kv_pair(m0, key, val) == Ok::<
                                _,
                                Pi2PicoMessageError,
                            >(msg@));
                        }
                    },
                    None => {
                        proof {
                            assert(apply_kv_pair(m0, key, val) == Err::<
                                Pi2PicoMessageModel,
                                _,
                            >(Pi2PicoMessageError::StringMismatch));
                        }
                        return Err(Pi2PicoMessageError::StringMismatch);
                    },
                }
            } else if bytes_eq(&pairs[t].0, k_ip.as_slice()) {
                match split_two(&pairs[t].1, IP_CAPACITY, BATTERY_CAPACITY) {
                    Some(p) => {
                        msg.ip_and_battery = Some(p);
                        proof {
                            assert(apply_kv_pair(m0, key, val) == Ok::<
                                _,
                                Pi2PicoMessageError,
                            >(msg@));
                        }
                    },
                    None => {
                        proof {
                            assert(apply_kv_pair(m0, key, val) == Err::<
                                Pi2PicoMessageModel,
                                _,
                            >(Pi2PicoMessageError::StringMismatch));
                        }
                        return Err(Pi2PicoMessageError::StringMismatch);
                    },
                }
            } else if bytes_eq(&pairs[t].0, k_title.as_slice()) {
                match split_two(&pairs[t].1, TITLE_CAPACITY, PAGINATOR_CAPACITY) {
                    Some(p) => {
                        msg.title_and_paginator = Some(p);
                        proof {
                            assert(apply_kv_pair(m0, key, val) == Ok::<
                                _,
                                Pi2PicoMessageError,
                            >(msg@));
                        }
                    },
                    None => {
                        proof {
                            assert(apply_kv_pair(m0, key, val) == Err::<
                                Pi2PicoMessageModel,
                                _,
                            >(Pi2PicoMessageError::StringMismatch));
                        }
                        return Err(Pi2PicoMessageError::StringMismatch);
                    },
                }
            } else if bytes_eq(&pairs[t].0, k_data.as_slice()) {
                let mut parts = split_bytes(&pairs[t].1, 44);
                let ghost ps = views_of(parts@);
                proof {
                    assert(val == pairs@[t as int].1@);
                    assert(ps == split_on(val, 44));
                    assert(ps.len() == parts@.len());
                }
                if parts.len() > MAX_DATA_LINES {
                    proof {
                        assert(!data_lines_ok(val));
                        assert(apply_kv_pair(m0, key, val) == Err::<
                            Pi2PicoMessageModel,
                            _,
                        >(Pi2PicoMessageError::StringMismatch));
                    }
                    return Err(Pi2PicoMessageError::StringMismatch);
                }
                let mut j: usize = 0;
                while j < parts.len()
                    invariant
                        j <= parts.len(),
                        ps == views_of(parts@),
                        forall|x: int|
                            0 <= x < j ==> (#[trigger] ps[x]).len() <= DATA_LINE_CAPACITY,
                    decreases parts.len() - j,
                {
                    if parts[j].len() > DATA_LINE_CAPACITY {
                        proof {
                            assert(ps.len() == views_of(parts@).len() == parts@.len());
                            assert(ps[j as int] == parts@[j as int]@);
                            assert(ps[j as int].len() > DATA_LINE_CAPACITY);
                            assert(!data_lines_ok(val));
                            assert(apply_kv_pair(m0, key, val) == Err::<
                                Pi2PicoMessageModel,
                                _,
                            >(Pi2PicoMessageError::StringMismatch));
                        }
                        return Err(Pi2PicoMessageError::StringMismatch);
                    }
                    j += 1;
                }
                proof {
                    assert(data_lines_ok(val));
                }
                let mut dl: Vec<Option<Vec<u8>>> = Vec::new();
                proof {
                    assert(opt_views(dl@) =~= all_some(ps.take(0)));
                    assert(views_of(parts@) =~= ps.skip(0));
                }
                while parts.len() > 0
                    invariant
                        dl@.len() <= ps.len(),
                        opt_views(dl@) == all_some(ps.take(dl@.len() as int)),
                        views_of(parts@) == ps.skip(dl@.len() as int),
                    decreases parts.len(),
                {
                    let ghost k = dl@.len() as int;
                    let ghost parts0 = parts@;
                    let ghost dl0 = dl@;
                    let p = parts.remove(0);
                    dl.push(Some(p));
                    proof {
                        assert(views_of(parts0).len() == parts0.len());
                        assert(ps.skip(k).len() == ps.len() - k);
                        assert(0 <= k < ps.len());
                        assert(ps.skip(k) == ps.subrange(k, ps.len() as int));
                        assert(ps.subrange(k, ps.len() as int)[0] == ps[k]);
                        assert(p@ == views_of(parts0)[0]);
                        assert(p@ == ps[k]);
                        assert(views_of(parts@) =~= views_of(parts0).skip(1));
                        assert(views_of(parts0).skip(1) =~= ps.skip(k + 1));
                        assert(opt_views(dl@) =~~= all_some(ps.take(k + 1))) by {
                            assert(dl@.len() == k + 1);
                            assert(ps.take(k + 1).len() == k + 1);
                            assert(forall|i: int| 0 <= i < k ==> #[trigger] dl@[i] == dl0[i]);
                            assert(dl@[k] == Some(p));
                            assert(forall|i: int|
                                0 <= i < k + 1 ==> #[trigger] ps.take(k + 1)[i] == ps[i]);
                            assert(forall|i: int|
                                0 <= i < k ==> #[trigger] ps.take(k)[i] == ps[i]);
                            assert(forall|i: int|
                                0 <= i < k ==> #[trigger] opt_views(dl0)[i] == all_some(
                                    ps.take(k),
                                )[i]);
                            assert(forall|i: int|
                                0 <= i < k ==> #[trigger] opt_views(dl@)[i] == opt_views(dl0)[i]);
                            assert(opt_views(dl@)[k] == Some(ps[k]));
                            assert(all_some(ps.take(k + 1))[k] == Some(ps[k]));
                            assert(forall|i: int|
                                0 <= i < k + 1 ==> #[trigger] opt_views(dl@)[i] == all_some(
                                    ps.take(k + 1),
                                )[i]);
                        }
                    }
                }
                proof {
                    assert(views_of(parts@).len() == 0);
                    assert(dl@.len() == ps.len());
                    assert(ps.take(dl@.len() as int) =~= ps);
                }
                msg.data_lines = Some(dl);
                proof {
                    assert(apply_kv_pair(m0, key, val) == Ok::<_, Pi2PicoMessageError>(msg@));
                }
            } else {
                proof {
                    assert(apply_kv_pair(m0, key, val) == Ok::<_, Pi2PicoMessageError>(m0));
                }
            }
            proof {
                assert(apply_kv_pair(m0, key, val) == Ok::<_, Pi2PicoMessageError>(msg@));
                assert(apply_kv_pairs(empty_message_model(), pv) == apply_kv_pairs(
                    msg@,
                    pv.skip(t + 1),
                ));
            }
            t += 1;
        }
        proof {
            assert(pv.skip(pv.len() as int) =~= Seq::<(Seq<u8>, Seq<u8>)>::empty());
        }
        Ok(msg)
    }
}

/// Diagnostic inbound message: just the first `kc` value of a frame.
pub struct Pi2PicoTest {
    pub kc: Vec<u8>,
}

/// The first `kc` value among the pairs; empty when there is none, or when
/// the first one exceeds the capacity.
pub open spec fn first_kc(pairs: Seq<(Seq<u8>, Seq<u8>)>) -> Seq<u8>
    decreases pairs.len(),
{
    if pairs.len() == 0 {
        Seq::empty()
    } else if pairs[0].0 == kc_key() {
        if pairs[0].1.len() <= KC_CAPACITY {
            pairs[0].1
        } else {
            Seq::empty()
        }
    } else {
        first_kc(pairs.skip(1))
    }
}

/// What the diagnostic parse yields: the first `kc` value, or the empty
/// default when the frame is not key/value text at all.
pub open spec fn spec_parse_test(s: Seq<u8>) -> Seq<u8> {
    match spec_string_to_kv(s, 38, 61) {
        Err(_) => Seq::empty(),
        Ok(pairs) => first_kc(pairs),
    }
}

impl Pi2PicoTest {
    /// Parse a frame for its first `kc` value.  Never fails: an unparsable
    /// frame or a missing `kc` leaves the default empty value.
    #[verifier::loop_isolation(false)]
    pub fn try_from(value: &Vec<u8>) -> (r: Result<Pi2PicoTest, ()>)
        ensures
            r matches Ok(tst) && tst.kc@ == spec_parse_test(value@) && tst.kc@.len()
                <= KC_CAPACITY,
    {
        let mut pairs = match string_to_kv(value, 38, 61) {
            Ok(p) => p,
            Err(_) => {
                return Ok(Pi2PicoTest { kc: Vec::new() });
            },
        };
        let ghost pv = pair_views(pairs@);
        let k_kc = kc_key_vec();
        let mut t: usize = 0;
        proof {
            assert(pv.skip(0) =~= pv);
        }
        while t < pairs.len()
            invariant
                t <= pairs.len(),
                pv == pair_views(pairs@),
                first_kc(pv) == first_kc(pv.skip(t as int)),
            decreases pairs.len() - t,
        {
            let ghost rem = pv.skip(t as int);
            proof {
                assert(rem[0] == pv[t as int]);
                assert(rem.skip(1) =~= pv.skip(t + 1));
                assert(pv[t as int] == (pairs@[t as int].0@, pairs@[t as int].1@));
            }
            if bytes_eq(&pairs[t].0, k_kc.as_slice()) {
                if pairs[t].1.len() <= KC_CAPACITY {
                    let p = pairs.remove(t);
                    return Ok(Pi2PicoTest { kc: p.1 });
                } else {
                    return Ok(Pi2PicoTest { kc: Vec::new() });
                }
            }
            t += 1;
        }
        proof {
            assert(pv.skip(pv.len() as int) =~= Seq::<(Seq<u8>, Seq<u8>)>::empty());
        }
        Ok(Pi2PicoTest { kc: Vec::new() })
    }
}

} // verus!
