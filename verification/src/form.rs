//! Decoding of `application/x-www-form-urlencoded` request bodies.
//!
//! A body is a run of fields separated by `&`. Each field splits at its
//! first `=` into a key and a value, and both halves are percent-encoded:
//! `%xy` stands for the byte the two hex digits name, and `+` for a space.
//! Lookup takes the first field whose decoded key matches.

use vstd::prelude::*;

verus! {

/// `&`, which separates fields.
pub const AMP: u8 = 38;

/// `=`, which separates a key from its value.
pub const EQ: u8 = 61;

/// `%`, which opens a two-digit escape.
pub const PCT: u8 = 37;

/// `+`, which stands for a space.
pub const PLUS: u8 = 43;

/// The space byte that `+` decodes to.
pub const SPACE: u8 = 32;

/// True of the ASCII digits and of the letters `a` to `f` in either case.
pub open spec fn is_hex_digit(b: u8) -> bool {
    (48 <= b && b <= 57) || (65 <= b && b <= 70) || (97 <= b && b <= 102)
}

/// The numeric value of one hex digit.
pub open spec fn hex_value(b: u8) -> u8
    recommends
        is_hex_digit(b),
{
    if 48 <= b && b <= 57 {
        (b - 48) as u8
    } else if 65 <= b && b <= 70 {
        (b - 55) as u8
    } else {
        (b - 87) as u8
    }
}

/// True when every `%` in `s` opens a well-formed two-digit escape.
pub open spec fn pct_ok(s: Seq<u8>) -> bool
    decreases s.len(),
{
    if s.len() == 0 {
        true
    } else if s[0] == PCT {
        s.len() >= 3 && is_hex_digit(s[1]) && is_hex_digit(s[2]) && pct_ok(s.skip(3))
    } else {
        pct_ok(s.skip(1))
    }
}

/// The decoding of `s`: each well-formed `%xy` escape becomes the byte the
/// digits name, each `+` a space, and every other byte stands for itself.
pub open spec fn pct_decoded(s: Seq<u8>) -> Seq<u8>
    decreases s.len(),
{
    if s.len() == 0 {
        Seq::empty()
    } else if s[0] == PCT && s.len() >= 3 && is_hex_digit(s[1]) && is_hex_digit(s[2]) {
        seq![(hex_value(s[1]) * 16 + hex_value(s[2])) as u8] + pct_decoded(s.skip(3))
    } else if s[0] == PLUS {
        seq![SPACE] + pct_decoded(s.skip(1))
    } else {
        seq![s[0]] + pct_decoded(s.skip(1))
    }
}

/// How many bytes of `s` come before its first `stop` byte (all of them
/// when it holds none).
pub open spec fn prefix_len_until(s: Seq<u8>, stop: u8) -> nat
    decreases s.len(),
{
    if s.len() == 0 {
        0
    } else if s[0] == stop {
        0
    } else {
        1 + prefix_len_until(s.skip(1), stop)
    }
}

pub proof fn lemma_prefix_len_until(s: Seq<u8>, stop: u8)
    ensures
        prefix_len_until(s, stop) <= s.len(),
        prefix_len_until(s, stop) < s.len() ==> s[prefix_len_until(s, stop) as int] == stop,
        forall|k: int| 0 <= k < prefix_len_until(s, stop) ==> s[k] != stop,
    decreases s.len(),
{
    if s.len() == 0 {
    } else if s[0] == stop {
    } else {
        lemma_prefix_len_until(s.skip(1), stop);
        let p = prefix_len_until(s, stop) as int;
        assert forall|k: int| 0 <= k < p implies s[k] != stop by {
            if k > 0 {
                assert(s.skip(1)[k - 1] == s[k]);
            }
        }
        if p < s.len() {
            assert(s.skip(1)[p - 1] == s[p]);
        }
    }
}

/// Pins the prefix length down from what a forward scan shows: nothing
/// before index `m` is `stop`, and either `m` is the end or `s[m]` is `stop`.
pub proof fn lemma_prefix_len_is(s: Seq<u8>, stop: u8, m: int)
    requires
        0 <= m <= s.len(),
        forall|k: int| 0 <= k < m ==> s[k] != stop,
        m < s.len() ==> s[m] == stop,
    ensures
        prefix_len_until(s, stop) == m,
{
    lemma_prefix_len_until(s, stop);
    let p = prefix_len_until(s, stop) as int;
    if p < m {
        assert(s[p] == stop);
        assert(false);
    } else if m < p {
        assert(s[m] != stop);
        assert(false);
    }
}

/// The first field of the body: the bytes before its first `&`.
pub open spec fn first_seg(s: Seq<u8>) -> Seq<u8> {
    s.take(prefix_len_until(s, AMP) as int)
}

/// What follows the body's first `&`.
pub open spec fn seg_rest(s: Seq<u8>) -> Seq<u8>
    recommends
        prefix_len_until(s, AMP) < s.len(),
{
    s.skip(prefix_len_until(s, AMP) as int + 1)
}

/// The raw (still encoded) key of one field: the bytes before its first `=`
/// (the whole field when it holds none).
pub open spec fn raw_key_of(seg: Seq<u8>) -> Seq<u8> {
    seg.take(prefix_len_until(seg, EQ) as int)
}

/// The raw value of one field: the bytes after its first `=` (empty when it
/// holds none).
pub open spec fn raw_val_of(seg: Seq<u8>) -> Seq<u8> {
    if prefix_len_until(seg, EQ) < seg.len() {
        seg.skip(prefix_len_until(seg, EQ) as int + 1)
    } else {
        Seq::empty()
    }
}

/// Both halves of one field decode.
pub open spec fn seg_ok(seg: Seq<u8>) -> bool {
    pct_ok(raw_key_of(seg)) && pct_ok(raw_val_of(seg))
}

/// Every field of the body decodes.
pub open spec fn body_ok(s: Seq<u8>) -> bool
    decreases s.len(),
{
    seg_ok(first_seg(s)) && (if prefix_len_until(s, AMP) < s.len() {
        body_ok(seg_rest(s))
    } else {
        true
    })
}

/// The decoded value of the first field whose decoded key is `key`, if any.
pub open spec fn find_value(s: Seq<u8>, key: Seq<u8>) -> Option<Seq<u8>>
    decreases s.len(),
{
    if pct_decoded(raw_key_of(first_seg(s))) == key {
        Some(pct_decoded(raw_val_of(first_seg(s))))
    } else if prefix_len_until(s, AMP) < s.len() {
        find_value(seg_rest(s), key)
    } else {
        None
    }
}

/// The bytes of "question_text", the required field's key.
pub open spec fn question_key() -> Seq<u8> {
    seq![113u8, 117u8, 101u8, 115u8, 116u8, 105u8, 111u8, 110u8, 95u8, 116u8, 101u8, 120u8, 116u8]
}

/// The bytes of "answer", the optional field's key.
pub open spec fn answer_key() -> Seq<u8> {
    seq![97u8, 110u8, 115u8, 119u8, 101u8, 114u8]
}

/// The bytes of "question_text".
pub fn question_key_bytes() -> (r: Vec<u8>)
    ensures
        r@ == question_key(),
{
    let v: Vec<u8> = vec![113u8, 117u8, 101u8, 115u8, 116u8, 105u8, 111u8, 110u8, 95u8, 116u8, 101u8, 120u8, 116u8];
    proof {
        assert(v@ =~= question_key());
    }
    v
}

/// The bytes of "answer".
pub fn answer_key_bytes() -> (r: Vec<u8>)
    ensures
        r@ == answer_key(),
{
    let v: Vec<u8> = vec![97u8, 110u8, 115u8, 119u8, 101u8, 114u8];
    proof {
        assert(v@ =~= answer_key());
    }
    v
}

/// The value of one hex digit, or `None` for any other byte.
fn hex_digit_value(b: u8) -> (r: Option<u8>)
    ensures
        r is Some <==> is_hex_digit(b),
        r is Some ==> r.unwrap() == hex_value(b) && r.unwrap() < 16,
{
    if b >= 48 && b <= 57 {
        Some(b - 48)
    } else if b >= 65 && b <= 70 {
        Some(b - 55)
    } else if b >= 97 && b <= 102 {
        Some(b - 87)
    } else {
        None
    }
}

/// Byte-for-byte equality of two slices.
pub fn bytes_eq(a: &[u8], b: &[u8]) -> (r: bool)
    ensures
        r == (a@ == b@),
{
    if a.len() != b.len() {
        return false;
    }
    let mut i: usize = 0;
    while i < a.len()
        invariant
            i <= a@.len(),
            a@.len() == b@.len(),
            forall|k: int| 0 <= k < i ==> a@[k] == b@[k],
        decreases a@.len() - i,
    {
        if a[i] != b[i] {
            return false;
        }
        i = i + 1;
    }
    proof {
        assert(a@ =~= b@);
    }
    true
}

/// Decodes one encoded piece of a field. `None` exactly when some `%` is
/// not followed by two hex digits.
pub fn percent_decode(s: &[u8]) -> (r: Option<Vec<u8>>)
    ensures
        r is Some <==> pct_ok(s@),
        r is Some ==> r.unwrap()@ == pct_decoded(s@),
{
    let mut out: Vec<u8> = Vec::new();
    let mut i: usize = 0;
    proof {
        assert(s@.skip(0) =~= s@);
    }
    while i < s.len()
        invariant
            i <= s@.len(),
            pct_ok(s@) <==> pct_ok(s@.skip(i as int)),
            pct_decoded(s@) == out@ + pct_decoded(s@.skip(i as int)),
        decreases s@.len() - i,
    {
        let ghost rem = s@.skip(i as int);
        proof {
            assert(rem[0] == s@[i as int]);
        }
        let b = s[i];
        if b == PCT {
            if s.len() - i >= 3 {
                proof {
                    assert(rem[1] == s@[i as int + 1]);
                    assert(rem[2] == s@[i as int + 2]);
                }
                let h1 = hex_digit_value(s[i + 1]);
                let h2 = hex_digit_value(s[i + 2]);
                match (h1, h2) {
                    (Some(hi), Some(lo)) => {
                        out.push(16 * hi + lo);
                        proof {
                            assert(rem.skip(3) =~= s@.skip(i as int + 3));
                            assert(pct_decoded(rem) == seq![(16 * hi + lo) as u8] + pct_decoded(rem.skip(3)));
                            assert(pct_decoded(s@) == out@ + pct_decoded(s@.skip(i as int + 3)));
                        }
                        i = i + 3;
                    },
                    _ => {
                        proof {
                            assert(!pct_ok(rem));
                        }
                        return None;
                    },
                }
            } else {
                proof {
                    assert(!pct_ok(rem));
                }
                return None;
            }
        } else if b == PLUS {
            out.push(SPACE);
            proof {
                assert(rem.skip(1) =~= s@.skip(i as int + 1));
                assert(pct_decoded(rem) == seq![SPACE] + pct_decoded(rem.skip(1)));
                assert(pct_decoded(s@) == out@ + pct_decoded(s@.skip(i as int + 1)));
            }
            i = i + 1;
        } else {
            out.push(b);
            proof {
                assert(rem.skip(1) =~= s@.skip(i as int + 1));
                assert(pct_decoded(rem) == seq![b] + pct_decoded(rem.skip(1)));
                assert(pct_decoded(s@) == out@ + pct_decoded(s@.skip(i as int + 1)));
            }
            i = i + 1;
        }
    }
    proof {
        assert(s@.skip(i as int) =~= Seq::<u8>::empty());
        assert(pct_decoded(s@) =~= out@);
    }
    Some(out)
}

/// Splits the body into `&`-separated fields, decodes each, and picks out
/// the first values of the two known keys. `None` exactly when some field
/// does not decode.
pub fn decode_form(body: &[u8]) -> (r: Option<(Option<Vec<u8>>, Option<Vec<u8>>)>)
    ensures
        r is Some <==> body_ok(body@),
        r matches Some(p) ==> match p.0 {
            Some(v) => find_value(body@, question_key()) == Some(v@),
            None => find_value(body@, question_key()) is None,
        },
        r matches Some(p) ==> match p.1 {
            Some(v) => find_value(body@, answer_key()) == Some(v@),
            None => find_value(body@, answer_key()) is None,
        },
{
    let qkey = question_key_bytes();
    let akey = answer_key_bytes();
    let mut q: Option<Vec<u8>> = None;
    let mut a: Option<Vec<u8>> = None;
    let mut i: usize = 0;
    proof {
        assert(body@.skip(0) =~= body@);
    }
    loop
        invariant
            i <= body@.len(),
            qkey@ == question_key(),
            akey@ == answer_key(),
            body_ok(body@) <==> body_ok(body@.skip(i as int)),
            match q {
                Some(v) => find_value(body@, question_key()) == Some(v@),
                None => find_value(body@, question_key()) == find_value(
                    body@.skip(i as int),
                    question_key(),
                ),
            },
            match a {
                Some(v) => find_value(body@, answer_key()) == Some(v@),
                None => find_value(body@, answer_key()) == find_value(
                    body@.skip(i as int),
                    answer_key(),
                ),
            },
        decreases body@.len() - i,
    {
        let ghost rem = body@.skip(i as int);
        // scan to the end of this field
        let mut j: usize = i;
        while j < body.len() && body[j] != AMP
            invariant
                i <= j <= body@.len(),
                forall|k: int| i <= k < j ==> body@[k] != AMP,
            decreases body@.len() - j,
        {
            j = j + 1;
        }
        // scan to the field's first '='
        let mut e: usize = i;
        while e < j && body[e] != EQ
            invariant
                i <= e <= j <= body@.len(),
                forall|k: int| i <= k < e ==> body@[k] != EQ,
            decreases j - e,
        {
            e = e + 1;
        }
        proof {
            assert forall|k: int| 0 <= k < j - i implies rem[k] != AMP by {
                assert(rem[k] == body@[i as int + k]);
            }
            if j - i < rem.len() {
                assert(rem[j - i] == body@[j as int]);
            }
            lemma_prefix_len_is(rem, AMP, j - i);
            assert(first_seg(rem) =~= body@.subrange(i as int, j as int));
            let seg = first_seg(rem);
            assert forall|k: int| 0 <= k < e - i implies seg[k] != EQ by {
                assert(seg[k] == body@[i as int + k]);
            }
            if e < j {
                assert(seg[e - i] == body@[e as int]);
            }
            lemma_prefix_len_is(seg, EQ, e - i);
            assert(raw_key_of(seg) =~= body@.subrange(i as int, e as int));
            if e < j {
                assert(raw_val_of(seg) =~= body@.subrange(e as int + 1, j as int));
            } else {
                assert(raw_val_of(seg) =~= Seq::<u8>::empty());
            }
        }
        let raw_key = &body[i..e];
        let raw_val = if e < j {
            &body[e + 1..j]
        } else {
            &body[j..j]
        };
        let dk = percent_decode(raw_key);
        let dv = percent_decode(raw_val);
        match (dk, dv) {
            (Some(key_bytes), Some(val_bytes)) => {
                proof {
                    assert(seg_ok(first_seg(rem)));
                }
                let is_q = bytes_eq(key_bytes.as_slice(), qkey.as_slice());
                let is_a = bytes_eq(key_bytes.as_slice(), akey.as_slice());
                if is_q {
                    if q.is_none() {
                        q = Some(val_bytes);
                    }
                } else if is_a {
                    if a.is_none() {
                        a = Some(val_bytes);
                    }
                }
                if j == body.len() {
                    proof {
                        assert(prefix_len_until(rem, AMP) == rem.len());
                        assert(body_ok(rem));
                    }
                    return Some((q, a));
                }
                proof {
                    assert(seg_rest(rem) =~= body@.skip(j as int + 1));
                }
                i = j + 1;
            },
            _ => {
                proof {
                    assert(!seg_ok(first_seg(rem)));
                    assert(!body_ok(rem));
                }
                return None;
            },
        }
    }
}

} // verus!
