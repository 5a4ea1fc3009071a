//! `key=value` text codec: splits a frame on a field separator and a
//! key/value separator into an ordered sequence of (key, value) pairs.
//!
//! A token without the key/value separator is fatal to the whole frame, and
//! the number of pairs is bounded: exceeding the bound is an error, never a
//! silent truncation.

use vstd::prelude::*;

verus! {

/// Upper bound on the number of pairs a frame may carry.
pub const MAX_KV_PAIRS: usize = 10;

#[derive(Debug, PartialEq, Eq, Structural, Clone, Copy)]
pub enum StringToKVError {
    /// The frame contains no key/value separator at all.
    NotKeyValueText,
    /// Some token lacks the key/value separator.
    MalformedToken,
    /// The frame splits into more pairs than the fixed bound.
    CapacityExceeded,
}

/// The tokens of `s` split on `sep`: one more token than separators, in
/// order, separators discarded.  An empty text is one empty token.
pub open spec fn split_on(s: Seq<u8>, sep: u8) -> Seq<Seq<u8>>
    decreases s.len(),
{
    if s.len() == 0 {
        seq![Seq::<u8>::empty()]
    } else if s[0] == sep {
        seq![Seq::<u8>::empty()] + split_on(s.skip(1), sep)
    } else {
        let rest = split_on(s.skip(1), sep);
        seq![seq![s[0]] + rest[0]] + rest.skip(1)
    }
}

/// A token split once at its first `sep`: the part before and the whole part
/// after; `None` when the token has no `sep`.
pub open spec fn split_pair(t: Seq<u8>, sep: u8) -> Option<(Seq<u8>, Seq<u8>)>
    decreases t.len(),
{
    if t.len() == 0 {
        None
    } else if t[0] == sep {
        Some((Seq::<u8>::empty(), t.skip(1)))
    } else {
        match split_pair(t.skip(1), sep) {
            None => None,
            Some(kv) => Some((seq![t[0]] + kv.0, kv.1)),
        }
    }
}

/// Every token holds the key/value separator.
pub open spec fn tokens_ok(toks: Seq<Seq<u8>>, ksep: u8) -> bool {
    forall|i: int| 0 <= i < toks.len() ==> (#[trigger] split_pair(toks[i], ksep)) is Some
}

/// The (key, value) pair of each token, in token order.
pub open spec fn pairs_of(toks: Seq<Seq<u8>>, ksep: u8) -> Seq<(Seq<u8>, Seq<u8>)> {
    toks.map_values(
        |t: Seq<u8>|
            match split_pair(t, ksep) {
                Some(kv) => kv,
                None => (Seq::<u8>::empty(), Seq::<u8>::empty()),
            },
    )
}

/// What parsing a frame yields: the pairs in order of appearance, or the
/// first applicable error.  Duplicate keys are all returned; last-wins is
/// left to the caller doing field population.
pub open spec fn spec_string_to_kv(s: Seq<u8>, fsep: u8, ksep: u8) -> Result<
    Seq<(Seq<u8>, Seq<u8>)>,
    StringToKVError,
> {
    if !s.contains(ksep) {
        Err(StringToKVError::NotKeyValueText)
    } else if !tokens_ok(split_on(s, fsep), ksep) {
        Err(StringToKVError::MalformedToken)
    } else if split_on(s, fsep).len() > MAX_KV_PAIRS {
        Err(StringToKVError::CapacityExceeded)
    } else {
        Ok(pairs_of(split_on(s, fsep), ksep))
    }
}

/// The views of a sequence of byte vectors.
pub open spec fn views_of(toks: Seq<Vec<u8>>) -> Seq<Seq<u8>> {
    toks.map_values(|t: Vec<u8>| t@)
}

/// The views of a sequence of byte-vector pairs.
pub open spec fn pair_views(ps: Seq<(Vec<u8>, Vec<u8>)>) -> Seq<(Seq<u8>, Seq<u8>)> {
    ps.map_values(|p: (Vec<u8>, Vec<u8>)| (p.0@, p.1@))
}

proof fn lemma_split_on_len(s: Seq<u8>, sep: u8)
    ensures
        split_on(s, sep).len() >= 1,
    decreases s.len(),
{
    if s.len() > 0 {
        lemma_split_on_len(s.skip(1), sep);
    }
}

/// The tokens so far, with `c` prefixed onto the first token of `ss`.
spec fn prepend_first(c: Seq<u8>, ss: Seq<Seq<u8>>) -> Seq<Seq<u8>> {
    seq![c + ss[0]] + ss.skip(1)
}

/// Split a byte text on `sep` into its tokens.
pub fn split_bytes(data: &Vec<u8>, sep: u8) -> (toks: Vec<Vec<u8>>)
    ensures
        views_of(toks@) == split_on(data@, sep),
{
    let mut toks: Vec<Vec<u8>> = Vec::new();
    let mut cur: Vec<u8> = Vec::new();
    let mut i: usize = 0;
    proof {
        assert(split_on(data@, sep) =~~= views_of(toks@) + prepend_first(
            cur@,
            split_on(data@.skip(0), sep),
        )) by {
            assert(data@.skip(0) =~= data@);
            lemma_split_on_len(data@, sep);
            assert(prepend_first(cur@, split_on(data@, sep)) =~~= split_on(data@, sep)) by {
                assert(cur@ + split_on(data@, sep)[0] =~= split_on(data@, sep)[0]);
            }
        }
    }
    while i < data.len()
        invariant
            i <= data.len(),
            split_on(data@, sep) == views_of(toks@) + prepend_first(
                cur@,
                split_on(data@.skip(i as int), sep),
            ),
        decreases data.len() - i,
    {
        let b = data[i];
        let ghost rem = data@.skip(i as int);
        let ghost rem2 = data@.skip(i + 1);
        proof {
            assert(rem.len() == data@.len() - i);
            assert(rem[0] == data@[i as int]);
            assert(rem.skip(1) =~= rem2);
            lemma_split_on_len(rem2, sep);
        }
        if b == sep {
            proof {
                assert(split_on(rem, sep) == seq![Seq::<u8>::empty()] + split_on(rem2, sep));
            }
            let ghost toks0 = toks@;
            let ghost cur0 = cur@;
            toks.push(cur);
            cur = Vec::new();
            proof {
                let ss = split_on(rem2, sep);
                assert(prepend_first(cur0, seq![Seq::<u8>::empty()] + ss) =~~= seq![cur0]
                    + prepend_first(Seq::<u8>::empty(), ss)) by {
                    assert(cur0 + (seq![Seq::<u8>::empty()] + ss)[0] =~= cur0);
                    assert((seq![Seq::<u8>::empty()] + ss).skip(1) =~= ss);
                    assert(prepend_first(Seq::<u8>::empty(), ss) =~~= ss) by {
                        assert(Seq::<u8>::empty() + ss[0] =~= ss[0]);
                    }
                }
                assert(views_of(toks@) =~~= views_of(toks0) + seq![cur0]);
                assert(views_of(toks0) + (seq![cur0] + prepend_first(cur@, ss)) =~~= (views_of(
                    toks0,
                ) + seq![cur0]) + prepend_first(cur@, ss));
                assert(prepend_first(Seq::<u8>::empty(), ss) =~~= ss) by {
                    assert(Seq::<u8>::empty() + ss[0] =~= ss[0]);
                }
            }
        } else {
            proof {
                assert(split_on(rem, sep) == prepend_first(seq![rem[0]], split_on(rem2, sep)));
            }
            let ghost cur0 = cur@;
            cur.push(b);
            proof {
                let ss = split_on(rem2, sep);
                let inner = prepend_first(seq![b], ss);
                assert(prepend_first(cur0, inner) =~~= prepend_first(cur@, ss)) by {
                    assert(cur0 + inner[0] =~= cur@ + ss[0]) by {
                        assert(cur@ =~= cur0 + seq![b]);
                    }
                    assert(inner.skip(1) =~= ss.skip(1));
                }
            }
        }
        i += 1;
    }
    let ghost toks0 = toks@;
    let ghost cur0 = cur@;
    toks.push(cur);
    proof {
        assert(data@.skip(i as int) =~= Seq::<u8>::empty());
        let ss = split_on(Seq::<u8>::empty(), sep);
        assert(ss == seq![Seq::<u8>::empty()]);
        assert(prepend_first(cur0, ss) =~~= seq![cur0]) by {
            assert(cur0 + ss[0] =~= cur0);
            assert(ss.skip(1) =~= Seq::<Seq<u8>>::empty());
            assert(seq![cur0 + ss[0]] + ss.skip(1) =~~= seq![cur0 + ss[0]]);
        }
        assert(views_of(toks@) =~~= views_of(toks0) + seq![cur0]);
    }
    toks
}

proof fn lemma_split_pair_first(t: Seq<u8>, sep: u8, j: int)
    requires
        0 <= j < t.len(),
        t[j] == sep,
        forall|x: int| 0 <= x < j ==> t[x] != sep,
    ensures
        split_pair(t, sep) == Some((t.take(j), t.skip(j + 1))),
    decreases t.len(),
{
    if j == 0 {
        assert(t.take(0) =~= Seq::<u8>::empty());
    } else {
        let u = t.skip(1);
        assert(u[j - 1] == t[j]);
        assert(forall|x: int| 0 <= x < j - 1 ==> #[trigger] u[x] == t[x + 1]);
        lemma_split_pair_first(u, sep, j - 1);
        assert(seq![t[0]] + u.take(j - 1) =~= t.take(j));
        assert(u.skip(j) =~= t.skip(j + 1));
    }
}

proof fn lemma_split_pair_none(t: Seq<u8>, sep: u8)
    requires
        forall|x: int| 0 <= x < t.len() ==> t[x] != sep,
    ensures
        split_pair(t, sep) is None,
    decreases t.len(),
{
    if t.len() > 0 {
        let u = t.skip(1);
        assert(forall|x: int| 0 <= x < u.len() ==> #[trigger] u[x] == t[x + 1]);
        lemma_split_pair_none(u, sep);
    }
}

/// Split a token once at its first `sep` into key and value.
pub fn split_pair_at(tok: &Vec<u8>, sep: u8) -> (r: Option<(Vec<u8>, Vec<u8>)>)
    ensures
        match r {
            Some(kv) => split_pair(tok@, sep) == Some((kv.0@, kv.1@)),
            None => split_pair(tok@, sep) is None,
        },
{
    let mut j: usize = 0;
    while j < tok.len()
        invariant
            j <= tok.len(),
            forall|x: int| 0 <= x < j ==> tok@[x] != sep,
        decreases tok.len() - j,
    {
        if tok[j] == sep {
            let mut key: Vec<u8> = Vec::new();
            let mut x: usize = 0;
            while x < j
                invariant
                    x <= j < tok@.len(),
                    key@ == tok@.take(x as int),
                decreases j - x,
            {
                key.push(tok[x]);
                proof {
                    assert(tok@.take(x as int).push(tok@[x as int]) =~= tok@.take(x + 1));
                }
                x += 1;
            }
            let mut val: Vec<u8> = Vec::new();
            let mut y: usize = j + 1;
            while y < tok.len()
                invariant
                    j + 1 <= y <= tok@.len(),
                    val@ == tok@.subrange(j + 1, y as int),
                decreases tok.len() - y,
            {
                val.push(tok[y]);
                proof {
                    assert(tok@.subrange(j + 1, y as int).push(tok@[y as int]) =~= tok@.subrange(
                        j + 1,
                        y + 1,
                    ));
                }
                y += 1;
            }
            proof {
                lemma_split_pair_first(tok@, sep, j as int);
                assert(val@ =~= tok@.skip(j + 1));
            }
            return Some((key, val));
        }
        j += 1;
    }
    proof {
        lemma_split_pair_none(tok@, sep);
    }
    None
}

/// Parse a frame into its (key, value) pairs, splitting on `field_sep` and,
/// within each token, once on `kv_sep`.  Exactly when the frame has no
/// `kv_sep` at all the whole frame is rejected as not key/value text; a
/// token without `kv_sep` rejects the frame as malformed; more pairs than
/// the fixed bound reject it as over capacity.
pub fn string_to_kv(data: &Vec<u8>, field_sep: u8, kv_sep: u8) -> (r: Result<
    Vec<(Vec<u8>, Vec<u8>)>,
    StringToKVError,
>)
    ensures
        match r {
            Ok(pairs) => spec_string_to_kv(data@, field_sep, kv_sep) == Ok::<
                _,
                StringToKVError,
            >(pair_views(pairs@)),
            Err(e) => spec_string_to_kv(data@, field_sep, kv_sep) == Err::<
                Seq<(Seq<u8>, Seq<u8>)>,
                _,
            >(e),
        },
{
    let mut found = false;
    let mut i: usize = 0;
    while i < data.len()
        invariant
            i <= data.len(),
            found ==> data@.contains(kv_sep),
            !found ==> forall|x: int| 0 <= x < i ==> data@[x] != kv_sep,
        decreases data.len() - i,
    {
        if data[i] == kv_sep {
            found = true;
            proof {
                assert(data@.contains(kv_sep));
            }
        }
        i += 1;
    }
    if !found {
        proof {
            assert(!data@.contains(kv_sep));
        }
        return Err(StringToKVError::NotKeyValueText);
    }
    let toks = split_bytes(data, field_sep);
    let ghost tv = views_of(toks@);
    let mut pairs: Vec<(Vec<u8>, Vec<u8>)> = Vec::new();
    let mut t: usize = 0;
    while t < toks.len()
        invariant
            t <= toks.len(),
            pairs@.len() == t,
            tv == views_of(toks@),
            tv == split_on(data@, field_sep),
            data@.contains(kv_sep),
            forall|j: int|
                0 <= j < t ==> (#[trigger] split_pair(tv[j], kv_sep)) == Some(
                    (pairs@[j].0@, pairs@[j].1@),
                ),
        decreases toks.len() - t,
    {
        proof {
            assert(tv[t as int] == toks@[t as int]@);
        }
        match split_pair_at(&toks[t], kv_sep) {
            Some(kv) => {
                pairs.push(kv);
            },
            None => {
                proof {
                    assert(!tokens_ok(tv, kv_sep));
                }
                return Err(StringToKVError::MalformedToken);
            },
        }
        t += 1;
    }
    proof {
        assert(tokens_ok(tv, kv_sep));
    }
    if pairs.len() > MAX_KV_PAIRS {
        return Err(StringToKVError::CapacityExceeded);
    }
    proof {
        assert(pair_views(pairs@) =~~= pairs_of(tv, kv_sep)) by {
            assert(forall|j: int|
                0 <= j < tv.len() ==> pair_views(pairs@)[j] == #[trigger] pairs_of(tv, kv_sep)[j]);
        }
    }
    Ok(pairs)
}

} // verus!
