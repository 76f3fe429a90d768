//! The frame decoder core: the mathematical description of the wire
//! grammar, and the verified routines that decode one frame from a byte
//! slice, reporting exactly how many bytes it occupied.
//!
//! A frame is dispatched on its first byte: `+` a simple line, `$` a
//! length-prefixed blob, `*` an ordered list of further frames. Any parse
//! failure (non-digit field, missing CRLF, truncated content, count
//! mismatch) fails the whole decode; partial results are never returned.

use vstd::prelude::*;

use crate::constants::{crlf_at, find_crlf, lemma_find_crlf, lemma_find_crlf_first, CRLFValidator};
use crate::value::{bulk_reply, dec_digits, value_view, value_views_upto, Value, ValueView};

verus! {

/// An ASCII decimal digit.
pub open spec fn is_digit(b: u8) -> bool {
    48 <= b <= 57
}

/// Every byte of `s` is an ASCII decimal digit.
pub open spec fn all_digits(s: Seq<u8>) -> bool {
    forall|i: int| 0 <= i < s.len() ==> is_digit(#[trigger] s[i])
}

/// The base-10 value of a digit run, most significant digit first.
pub open spec fn digits_value(s: Seq<u8>) -> int
    decreases s.len(),
{
    if s.len() == 0 {
        0
    } else {
        digits_value(s.drop_last()) * 10 + (s.last() - 48)
    }
}

/// A usable length or count field: nonempty, digits only, and a value
/// that the machine can hold.
pub open spec fn valid_len_field(s: Seq<u8>) -> bool {
    s.len() >= 1 && all_digits(s) && digits_value(s) <= usize::MAX as int
}

/// A run of digits has a nonnegative value.
pub proof fn lemma_digits_value_nonneg(s: Seq<u8>)
    requires
        all_digits(s),
    ensures
        digits_value(s) >= 0,
    decreases s.len(),
{
    if s.len() > 0 {
        assert(forall|i: int|
            0 <= i < s.drop_last().len() ==> #[trigger] s.drop_last()[i] == s[i]);
        lemma_digits_value_nonneg(s.drop_last());
        assert(is_digit(s.last()));
    }
}

/// One frame decoded by the simple-line rule: the content is the byte run
/// between the first and the second CRLF after the tag.
pub open spec fn spec_decode_simple(s: Seq<u8>) -> Option<(ValueView, int)> {
    match find_crlf(s) {
        None => None,
        Some(i) => {
            let start = i + 2;
            match find_crlf(s.skip(start)) {
                None => None,
                Some(j) => Some((ValueView::Text(s.subrange(start, start + j)), start + j + 2)),
            }
        },
    }
}

/// One frame decoded by the blob rule: a decimal length between the tag
/// and the first CRLF, then exactly that many content bytes, then CRLF.
pub open spec fn spec_decode_bulk(s: Seq<u8>) -> Option<(ValueView, int)> {
    match find_crlf(s) {
        None => None,
        Some(i) => {
            if i < 1 {
                None
            } else {
                let fld = s.subrange(1, i);
                if !valid_len_field(fld) {
                    None
                } else {
                    let n = digits_value(fld);
                    let start = i + 2;
                    if s.len() < start + n + 2 {
                        None
                    } else if !(s[start + n] == 13 && s[start + n + 1] == 10) {
                        None
                    } else {
                        Some((ValueView::Text(s.subrange(start, start + n)), start + n + 2))
                    }
                }
            }
        },
    }
}

/// One frame decoded at the start of `s`, dispatched on the leading tag
/// byte, together with the count of bytes it occupied.
pub open spec fn spec_decode(s: Seq<u8>) -> Option<(ValueView, int)>
    decreases s.len(), 1int,
{
    if s.len() == 0 {
        None
    } else if s[0] == 43 {
        spec_decode_simple(s)
    } else if s[0] == 36 {
        spec_decode_bulk(s)
    } else if s[0] == 42 {
        spec_decode_array(s)
    } else {
        None
    }
}

/// One frame decoded by the list rule: a decimal count between the tag and
/// the first CRLF, then that many frames decoded strictly one after the
/// other.
pub open spec fn spec_decode_array(s: Seq<u8>) -> Option<(ValueView, int)>
    decreases s.len(), 0int,
{
    match find_crlf(s) {
        None => None,
        Some(i) => {
            if i < 1 || s.len() < i + 2 {
                None
            } else {
                let fld = s.subrange(1, i);
                if !valid_len_field(fld) {
                    None
                } else {
                    match spec_decode_items(s.skip(i + 2), digits_value(fld)) {
                        None => None,
                        Some((vs, used)) => Some((ValueView::List(vs), i + 2 + used)),
                    }
                }
            }
        },
    }
}

/// `count` frames decoded one after the other from the start of `s`:
/// element `i + 1` begins at the byte immediately after element `i` ends.
pub open spec fn spec_decode_items(s: Seq<u8>, count: int) -> Option<(Seq<ValueView>, int)>
    decreases s.len(), count + 2,
{
    if count <= 0 {
        Some((Seq::empty(), 0))
    } else {
        match spec_decode(s) {
            None => None,
            Some((v, c)) => {
                if c < 1 || s.len() < c {
                    None
                } else {
                    match spec_decode_items(s.skip(c), count - 1) {
                        None => None,
                        Some((vs, used)) => Some((seq![v] + vs, c + used)),
                    }
                }
            },
        }
    }
}

/// A simple-line frame never claims more bytes than the input holds.
pub proof fn lemma_decode_simple_bounds(s: Seq<u8>)
    ensures
        match spec_decode_simple(s) {
            Some((v, c)) => 1 <= c <= s.len(),
            None => true,
        },
{
    lemma_find_crlf(s);
    if let Some(i) = find_crlf(s) {
        lemma_find_crlf(s.skip(i + 2));
    }
}

/// A blob frame never claims more bytes than the input holds.
pub proof fn lemma_decode_bulk_bounds(s: Seq<u8>)
    ensures
        match spec_decode_bulk(s) {
            Some((v, c)) => 1 <= c <= s.len(),
            None => true,
        },
{
    lemma_find_crlf(s);
    if let Some(i) = find_crlf(s) {
        if i >= 1 {
            let fld = s.subrange(1, i);
            if valid_len_field(fld) {
                lemma_digits_value_nonneg(fld);
            }
        }
    }
}

/// A decoded frame never claims more bytes than the input holds, and
/// always claims at least one.
pub proof fn lemma_decode_bounds(s: Seq<u8>)
    ensures
        match spec_decode(s) {
            Some((v, c)) => 1 <= c <= s.len(),
            None => true,
        },
    decreases s.len(), 1int,
{
    if s.len() == 0 {
    } else if s[0] == 43 {
        lemma_decode_simple_bounds(s);
    } else if s[0] == 36 {
        lemma_decode_bulk_bounds(s);
    } else if s[0] == 42 {
        lemma_decode_array_bounds(s);
    }
}

/// Bound transfer for the list rule.
pub proof fn lemma_decode_array_bounds(s: Seq<u8>)
    ensures
        match spec_decode_array(s) {
            Some((v, c)) => 1 <= c <= s.len(),
            None => true,
        },
    decreases s.len(), 0int,
{
    lemma_find_crlf(s);
    if let Some(i) = find_crlf(s) {
        if i >= 1 && s.len() >= i + 2 {
            let fld = s.subrange(1, i);
            if valid_len_field(fld) {
                lemma_digits_value_nonneg(fld);
                lemma_items_bounds(s.skip(i + 2), digits_value(fld));
            }
        }
    }
}

/// Bound transfer for element runs: a run of `count` frames occupies
/// between zero bytes and the whole input, and yields exactly `count`
/// values.
pub proof fn lemma_items_bounds(s: Seq<u8>, count: int)
    requires
        count >= 0,
    ensures
        match spec_decode_items(s, count) {
            Some((vs, u)) => 0 <= u <= s.len() && vs.len() == count,
            None => true,
        },
    decreases s.len(), count + 2,
{
    if count <= 0 {
    } else {
        lemma_decode_bounds(s);
        if let Some((v, c)) = spec_decode(s) {
            if 1 <= c <= s.len() {
                lemma_items_bounds(s.skip(c), count - 1);
            }
        }
    }
}

/// Extending a digit run never lowers its value.
pub proof fn lemma_digits_value_prefix_le(s: Seq<u8>, k: int)
    requires
        all_digits(s),
        0 <= k <= s.len(),
    ensures
        digits_value(s.take(k)) <= digits_value(s),
    decreases s.len() - k,
{
    if k < s.len() {
        assert(forall|i: int| 0 <= i < k + 1 ==> #[trigger] s.take(k + 1)[i] == s[i]);
        assert(s.take(k + 1).drop_last() =~= s.take(k));
        assert(s.take(k + 1).last() == s[k]);
        lemma_digits_value_nonneg(s.take(k));
        assert(digits_value(s.take(k + 1)) == digits_value(s.take(k)) * 10 + (s[k] - 48));
        assert(digits_value(s.take(k)) * 10 >= digits_value(s.take(k)));
        lemma_digits_value_prefix_le(s, k + 1);
    } else {
        assert(s.take(k) =~= s);
    }
}

/// Parses the decimal field `input[from..to]` as a base-10 machine
/// integer: digits only, no sign, failure on any other byte or on a value
/// beyond `usize`.
pub fn parse_len(input: &[u8], from: usize, to: usize) -> (r: Option<usize>)
    requires
        from <= to <= input@.len(),
    ensures
        ({
            let fld = input@.subrange(from as int, to as int);
            match r {
                Some(n) => valid_len_field(fld) && n == digits_value(fld),
                None => !valid_len_field(fld),
            }
        }),
{
    if to == from {
        return None;
    }
    let mut acc: usize = 0;
    let mut k: usize = from;
    while k < to
        invariant
            from <= k <= to <= input@.len(),
            all_digits(input@.subrange(from as int, k as int)),
            acc == digits_value(input@.subrange(from as int, k as int)),
        decreases to - k,
    {
        let b = input[k];
        if b < 48 || b > 57 {
            proof {
                let fld = input@.subrange(from as int, to as int);
                assert(fld[k - from] == input@[k as int]);
                assert(!is_digit(fld[k - from]));
            }
            return None;
        }
        let d = (b - 48) as usize;
        if acc > (usize::MAX - d) / 10 {
            proof {
                let fld = input@.subrange(from as int, to as int);
                let prefix = input@.subrange(from as int, k as int);
                let ext = input@.subrange(from as int, k + 1);
                assert(forall|i: int| 0 <= i <= k - from ==> #[trigger] ext[i] == input@[from + i]);
                assert(ext.drop_last() =~= prefix);
                assert(ext.last() == input@[k as int]);
                assert(digits_value(ext) == acc * 10 + d);
                assert(acc * 10 + d > usize::MAX) by {
                    let m = (usize::MAX - d) as int;
                    assert(acc >= m / 10 + 1);
                    assert(m == 10 * (m / 10) + m % 10 && 0 <= m % 10 < 10);
                    assert(acc * 10 >= (m / 10 + 1) * 10) by (nonlinear_arith)
                        requires acc >= m / 10 + 1;
                    assert((m / 10 + 1) * 10 == 10 * (m / 10) + 10);
                }
                if valid_len_field(fld) {
                    lemma_digits_value_prefix_le(fld, k + 1 - from);
                    assert(fld.take(k + 1 - from) =~= ext);
                    assert(digits_value(fld) > usize::MAX);
                }
            }
            return None;
        }
        acc = acc * 10 + d;
        proof {
            let prefix = input@.subrange(from as int, k as int);
            let ext = input@.subrange(from as int, k + 1);
            assert(forall|i: int| 0 <= i <= k - from ==> #[trigger] ext[i] == input@[from + i]);
            assert(ext.drop_last() =~= prefix);
            assert(ext.last() == input@[k as int]);
        }
        k = k + 1;
    }
    proof {
        assert(input@.subrange(from as int, to as int) =~= input@.subrange(
            from as int,
            k as int,
        ));
    }
    Some(acc)
}

/// Decodes one frame by the simple-line rule, returning the content bytes
/// and the count of input bytes consumed.
pub fn decode_simple(input: &[u8]) -> (r: Option<(Vec<u8>, usize)>)
    ensures
        match r {
            Some(p) => spec_decode_simple(input@) == Some(
                (ValueView::Text(p.0@), p.1 as int),
            ),
            None => spec_decode_simple(input@) is None,
        },
{
    let len = input.len();
    let i = match CRLFValidator::find(input) {
        Some(i) => i,
        None => {
            return None;
        },
    };
    proof {
        lemma_find_crlf(input@);
    }
    let start = i + 2;
    let rest = vstd::slice::slice_subrange(input, start, len);
    let j = match CRLFValidator::find(rest) {
        Some(j) => j,
        None => {
            proof {
                assert(rest@ == input@.skip(start as int));
            }
            return None;
        },
    };
    proof {
        lemma_find_crlf(rest@);
        assert(rest@ == input@.skip(start as int));
    }
    let content = vstd::slice::slice_to_vec(vstd::slice::slice_subrange(input, start, start + j));
    Some((content, start + j + 2))
}

/// Decodes one frame by the blob rule, returning the content bytes and
/// the count of input bytes consumed.
pub fn decode_bulk(input: &[u8]) -> (r: Option<(Vec<u8>, usize)>)
    ensures
        match r {
            Some(p) => spec_decode_bulk(input@) == Some((ValueView::Text(p.0@), p.1 as int)),
            None => spec_decode_bulk(input@) is None,
        },
{
    let len = input.len();
    let i = match CRLFValidator::find(input) {
        Some(i) => i,
        None => {
            return None;
        },
    };
    proof {
        lemma_find_crlf(input@);
    }
    if i < 1 {
        return None;
    }
    let n = match parse_len(input, 1, i) {
        Some(n) => n,
        None => {
            return None;
        },
    };
    proof {
        lemma_digits_value_nonneg(input@.subrange(1, i as int));
    }
    let start = i + 2;
    if len - start < 2 || len - start - 2 < n {
        return None;
    }
    if input[start + n] != 13 || input[start + n + 1] != 10 {
        return None;
    }
    let content = vstd::slice::slice_to_vec(vstd::slice::slice_subrange(input, start, start + n));
    Some((content, start + n + 2))
}

/// Decodes one frame by the list rule: a count field, then that many
/// frames decoded strictly in sequence, each dispatched on its own tag.
pub fn decode_array(input: &[u8]) -> (r: Option<(Value, usize)>)
    ensures
        match r {
            Some(p) => spec_decode_array(input@) == Some((p.0@, p.1 as int)),
            None => spec_decode_array(input@) is None,
        },
    decreases input@.len(), 0int,
{
    let len = input.len();
    let i = match CRLFValidator::find(input) {
        Some(i) => i,
        None => {
            return None;
        },
    };
    proof {
        lemma_find_crlf(input@);
    }
    if i < 1 {
        return None;
    }
    let count = match parse_len(input, 1, i) {
        Some(n) => n,
        None => {
            return None;
        },
    };
    proof {
        lemma_digits_value_nonneg(input@.subrange(1, i as int));
    }
    let start = i + 2;
    let mut items: Vec<Value> = Vec::new();
    let mut pos: usize = start;
    let mut k: usize = 0;
    proof {
        assert(Seq::empty().add(value_views_upto(&items, 0)) =~= Seq::<ValueView>::empty());
    }
    while k < count
        invariant
            find_crlf(input@) == Some(i as int),
            1 <= i,
            start == i + 2,
            valid_len_field(input@.subrange(1, i as int)),
            count as int == digits_value(input@.subrange(1, i as int)),
            start <= pos <= input@.len(),
            k <= count,
            items@.len() == k,
            spec_decode_items(input@.skip(start as int), count as int) == (match spec_decode_items(
                input@.skip(pos as int),
                count - k,
            ) {
                None => None::<(Seq<ValueView>, int)>,
                Some(p) => Some(
                    (value_views_upto(&items, k as int) + p.0, pos - start + p.1),
                ),
            }),
        decreases count - k,
    {
        let sub = vstd::slice::slice_subrange(input, pos, input.len());
        match decode_frame(sub) {
            None => {
                proof {
                    assert(sub@ == input@.skip(pos as int));
                    assert(spec_decode_items(input@.skip(pos as int), count - k) is None);
                }
                return None;
            },
            Some((v, used)) => {
                proof {
                    assert(sub@ == input@.skip(pos as int));
                    lemma_decode_bounds(sub@);
                }
                let ghost prior_items = items;
                let ghost prior_pos = pos;
                let ghost prior_k = k;
                items.push(v);
                pos = pos + used;
                k = k + 1;
                proof {
                    let s = input@;
                    let tail = s.skip(prior_pos as int);
                    assert(spec_decode(tail) == Some((v@, used as int)));
                    assert(tail.skip(used as int) =~= s.skip(pos as int));
                    assert(items[prior_k as int] == v);
                    crate::value::lemma_views_upto_agree(&prior_items, &items, prior_k as int);
                    assert(value_views_upto(&items, k as int) == value_views_upto(
                        &items,
                        prior_k as int,
                    ).push(value_view(&items[prior_k as int])));
                    match spec_decode_items(s.skip(pos as int), count - k) {
                        None => {
                            assert(spec_decode_items(tail, count - prior_k) is None);
                        },
                        Some(q) => {
                            assert(spec_decode_items(tail, count - prior_k) == Some(
                                (seq![v@] + q.0, used + q.1),
                            ));
                            assert(value_views_upto(&prior_items, prior_k as int) + (seq![v@]
                                + q.0) =~= value_views_upto(&items, k as int) + q.0);
                        },
                    }
                }
            },
        }
    }
    proof {
        let s = input@;
        assert(spec_decode_items(s.skip(pos as int), 0) == Some((Seq::<ValueView>::empty(), 0int)));
        assert(value_views_upto(&items, k as int) + Seq::<ValueView>::empty() =~= value_views_upto(
            &items,
            k as int,
        ));
        assert(spec_decode_items(s.skip(start as int), count as int) == Some(
            (value_views_upto(&items, k as int), pos - start),
        ));
    }
    Some((Value::List(items), pos))
}

/// Decodes one frame from the start of `input`, dispatching on the
/// leading tag byte, and reports how many bytes the frame occupied.
pub fn decode_frame(input: &[u8]) -> (r: Option<(Value, usize)>)
    ensures
        match r {
            Some(p) => spec_decode(input@) == Some((p.0@, p.1 as int)),
            None => spec_decode(input@) is None,
        },
    decreases input@.len(), 1int,
{
    if input.len() == 0 {
        return None;
    }
    let tag = input[0];
    if tag == 43 {
        match decode_simple(input) {
            Some((content, used)) => Some((Value::Text(content), used)),
            None => None,
        }
    } else if tag == 36 {
        match decode_bulk(input) {
            Some((content, used)) => Some((Value::Text(content), used)),
            None => None,
        }
    } else if tag == 42 {
        decode_array(input)
    } else {
        None
    }
}

/// One derivation of the wire grammar: which rule formed a frame and,
/// for a list, the derivations of its elements in order. Every
/// byte-exact encoding that the grammar admits is the byte run of
/// exactly such a derivation.
pub enum Enc {
    Simple(Seq<u8>),
    Bulk(Seq<u8>, Seq<u8>),
    List(Seq<u8>, Seq<Enc>),
}

/// The wire bytes of a derivation: tag, fields and terminators exactly
/// as the grammar lays them out.
pub open spec fn enc_bytes(e: Enc) -> Seq<u8>
    decreases e, 1int, 0int,
{
    match e {
        Enc::Simple(t) => seq![43u8, 13u8, 10u8] + t + seq![13u8, 10u8],
        Enc::Bulk(d, t) => seq![36u8] + d + seq![13u8, 10u8] + t + seq![13u8, 10u8],
        Enc::List(d, es) => seq![42u8] + d + seq![13u8, 10u8] + enc_items_bytes_from(es, 0),
    }
}

/// The concatenated wire bytes of the element derivations from `k` on.
pub open spec fn enc_items_bytes_from(es: Seq<Enc>, k: int) -> Seq<u8>
    decreases es, 0int, es.len() - k,
    via enc_items_bytes_from_terminates
{
    if k < 0 || k >= es.len() {
        Seq::empty()
    } else {
        enc_bytes(es[k]) + enc_items_bytes_from(es, k + 1)
    }
}

#[via_fn]
proof fn enc_items_bytes_from_terminates(es: Seq<Enc>, k: int) {
    broadcast use vstd::seq::axiom_seq_index_decreases;

    if 0 <= k < es.len() {
        assert(decreases_to!(es => es[k]));
    }
}

/// The value a derivation encodes.
pub open spec fn enc_value(e: Enc) -> ValueView
    decreases e, 1int, 0int,
{
    match e {
        Enc::Simple(t) => ValueView::Text(t),
        Enc::Bulk(d, t) => ValueView::Text(t),
        Enc::List(d, es) => ValueView::List(enc_items_values_from(es, 0)),
    }
}

/// The values of the element derivations from `k` on, in order.
pub open spec fn enc_items_values_from(es: Seq<Enc>, k: int) -> Seq<ValueView>
    decreases es, 0int, es.len() - k,
    via enc_items_values_from_terminates
{
    if k < 0 || k >= es.len() {
        Seq::empty()
    } else {
        seq![enc_value(es[k])] + enc_items_values_from(es, k + 1)
    }
}

#[via_fn]
proof fn enc_items_values_from_terminates(es: Seq<Enc>, k: int) {
    broadcast use vstd::seq::axiom_seq_index_decreases;

    if 0 <= k < es.len() {
        assert(decreases_to!(es => es[k]));
    }
}

/// No CRLF pair stands anywhere in `t`.
pub open spec fn crlf_free(t: Seq<u8>) -> bool {
    forall|j: int| !crlf_at(t, j)
}

/// A grammar-conformant derivation: simple-line content free of CRLF,
/// and every digit field nonempty, digits only, naming exactly its
/// content length or element count.
pub open spec fn enc_wf(e: Enc) -> bool
    decreases e, 1int, 0int,
{
    match e {
        Enc::Simple(t) => crlf_free(t),
        Enc::Bulk(d, t) => d.len() >= 1 && all_digits(d) && digits_value(d) == t.len(),
        Enc::List(d, es) => d.len() >= 1 && all_digits(d) && digits_value(d) == es.len()
            && enc_items_wf_from(es, 0),
    }
}

/// Every element derivation from `k` on is grammar-conformant.
pub open spec fn enc_items_wf_from(es: Seq<Enc>, k: int) -> bool
    decreases es, 0int, es.len() - k,
    via enc_items_wf_from_terminates
{
    k < 0 || k >= es.len() || (enc_wf(es[k]) && enc_items_wf_from(es, k + 1))
}

#[via_fn]
proof fn enc_items_wf_from_terminates(es: Seq<Enc>, k: int) {
    broadcast use vstd::seq::axiom_seq_index_decreases;

    if 0 <= k < es.len() {
        assert(decreases_to!(es => es[k]));
    }
}

/// A derivation's bytes always hold at least the tag and one terminator.
pub proof fn lemma_enc_bytes_min(e: Enc)
    ensures
        enc_bytes(e).len() >= 3,
{
}

/// A run of element derivations holds at least one byte per element.
pub proof fn lemma_enc_items_bytes_len(es: Seq<Enc>, k: int)
    requires
        0 <= k <= es.len(),
    ensures
        enc_items_bytes_from(es, k).len() >= es.len() - k,
    decreases es.len() - k,
{
    if k < es.len() {
        lemma_enc_bytes_min(es[k]);
        lemma_enc_items_bytes_len(es, k + 1);
    }
}

/// The round trip of the wire grammar: hand the decoder the byte-exact
/// encoding of any conformant derivation, with anything at all after it,
/// and it returns a value structurally equal to the one encoded, with
/// `consumed` equal to the exact byte length of the encoding.
pub proof fn lemma_decode_of_encoding(e: Enc, w: Seq<u8>)
    requires
        enc_wf(e),
        enc_bytes(e).len() + w.len() <= usize::MAX,
    ensures
        spec_decode(enc_bytes(e) + w) == Some((enc_value(e), enc_bytes(e).len() as int)),
    decreases e, 1int, 0int,
{
    let s = enc_bytes(e);
    let u = s + w;
    match e {
        Enc::Simple(t) => {
            assert(u[0] == 43 && u[1] == 13 && u[2] == 10);
            assert(crlf_at(u, 1));
            assert(forall|j: int| 0 <= j < 1 ==> !crlf_at(u, j));
            lemma_find_crlf_first(u, 1);
            let rest = u.skip(3);
            assert(crlf_at(rest, t.len() as int)) by {
                assert(rest[t.len() as int] == u[3 + t.len() as int]);
                assert(rest[t.len() as int + 1] == u[4 + t.len() as int]);
                assert(u[3 + t.len() as int] == 13 && u[4 + t.len() as int] == 10);
            }
            assert forall|j: int| 0 <= j < t.len() implies !crlf_at(rest, j) by {
                assert(rest[j] == u[3 + j]);
                assert(u[3 + j] == t[j]);
                assert(rest[j + 1] == u[4 + j]);
                if j + 1 < t.len() {
                    assert(u[4 + j] == t[j + 1]);
                    assert(!crlf_at(t, j));
                } else {
                    assert(u[4 + j] == 13);
                }
            }
            lemma_find_crlf_first(rest, t.len() as int);
            assert(u.subrange(3, 3 + t.len() as int) =~= t);
            assert(spec_decode_simple(u) == Some((ValueView::Text(t), s.len() as int)));
        },
        Enc::Bulk(d, t) => {
            let i = 1 + d.len() as int;
            assert(u[0] == 36);
            assert(crlf_at(u, i)) by {
                assert(u[i] == 13 && u[i + 1] == 10);
            }
            assert forall|j: int| 0 <= j < i implies !crlf_at(u, j) by {
                if j >= 1 {
                    assert(u[j] == d[j - 1]);
                    assert(is_digit(d[j - 1]));
                }
            }
            lemma_find_crlf_first(u, i);
            assert(u.subrange(1, i) =~= d);
            lemma_digits_value_nonneg(d);
            assert(valid_len_field(u.subrange(1, i)));
            assert(u[i + 2 + t.len() as int] == 13 && u[i + 3 + t.len() as int] == 10);
            assert(u.subrange(i + 2, i + 2 + t.len() as int) =~= t);
            assert(spec_decode_bulk(u) == Some((ValueView::Text(t), s.len() as int)));
        },
        Enc::List(d, es) => {
            let i = 1 + d.len() as int;
            let items = enc_items_bytes_from(es, 0);
            assert(u[0] == 42);
            assert(crlf_at(u, i)) by {
                assert(u[i] == 13 && u[i + 1] == 10);
            }
            assert forall|j: int| 0 <= j < i implies !crlf_at(u, j) by {
                if j >= 1 {
                    assert(u[j] == d[j - 1]);
                    assert(is_digit(d[j - 1]));
                }
            }
            lemma_find_crlf_first(u, i);
            assert(u.subrange(1, i) =~= d);
            lemma_enc_items_bytes_len(es, 0);
            lemma_digits_value_nonneg(d);
            assert(valid_len_field(u.subrange(1, i)));
            lemma_items_of_encodings(es, 0, w);
            assert(u.skip(i + 2) =~= items + w);
            assert(spec_decode_items(u.skip(i + 2), es.len() as int) == Some(
                (enc_items_values_from(es, 0), items.len() as int),
            ));
            assert(spec_decode_array(u) == Some((ValueView::List(enc_items_values_from(es, 0)), s.len() as int)));
        },
    }
}

/// The round trip for element runs: the decoder walks the concatenated
/// encodings strictly in order, recovering each element's value in
/// place.
pub proof fn lemma_items_of_encodings(es: Seq<Enc>, k: int, w: Seq<u8>)
    requires
        0 <= k <= es.len(),
        enc_items_wf_from(es, k),
        enc_items_bytes_from(es, k).len() + w.len() <= usize::MAX,
    ensures
        spec_decode_items(enc_items_bytes_from(es, k) + w, es.len() - k) == Some(
            (enc_items_values_from(es, k), enc_items_bytes_from(es, k).len() as int),
        ),
    decreases es, 0int, es.len() - k,
{
    broadcast use vstd::seq::axiom_seq_index_decreases;

    let s = enc_items_bytes_from(es, k);
    if k == es.len() {
        assert(s =~= Seq::<u8>::empty());
        assert(s + w =~= w);
        assert(enc_items_values_from(es, k) =~= Seq::<ValueView>::empty());
    } else {
        let e0 = es[k];
        let c = enc_bytes(e0).len() as int;
        let rest = enc_items_bytes_from(es, k + 1);
        assert(decreases_to!(es => es[k]));
        lemma_decode_of_encoding(e0, rest + w);
        assert(enc_bytes(e0) + (rest + w) =~= s + w);
        lemma_enc_bytes_min(e0);
        lemma_items_of_encodings(es, k + 1, w);
        assert((s + w).skip(c) =~= rest + w);
        assert(spec_decode(s + w) == Some((enc_value(e0), c)));
        assert(spec_decode_items(s + w, es.len() - k) == Some(
            (seq![enc_value(e0)] + enc_items_values_from(es, k + 1), c + rest.len()),
        ));
    }
}

/// The canonical decimal digit run of a nonnegative number is a valid
/// field naming exactly that number.
pub proof fn lemma_dec_digits(n: int)
    requires
        n >= 0,
    ensures
        dec_digits(n).len() >= 1,
        all_digits(dec_digits(n)),
        digits_value(dec_digits(n)) == n,
    decreases n,
{
    if n < 10 {
        let d = dec_digits(n);
        assert(d.drop_last() =~= Seq::<u8>::empty());
        assert(d.last() == (48 + n) as u8);
        assert(digits_value(Seq::<u8>::empty()) == 0);
        assert(digits_value(d) == digits_value(d.drop_last()) * 10 + (d.last() - 48));
    } else {
        lemma_dec_digits(n / 10);
        let d = dec_digits(n);
        assert(d.drop_last() =~= dec_digits(n / 10));
        assert(d.last() == (48 + n % 10) as u8);
        assert(forall|j: int|
            0 <= j < dec_digits(n / 10).len() ==> #[trigger] d[j] == dec_digits(n / 10)[j]);
        assert(digits_value(d) == digits_value(d.drop_last()) * 10 + (d.last() - 48));
        assert(n == 10 * (n / 10) + n % 10);
    }
}

/// A bulk-string reply the serializer produces is itself a
/// grammar-conformant encoding, so the decoder, handed it with anything
/// after, recovers exactly the carried text.
pub proof fn lemma_bulk_reply_decodes(t: Seq<u8>, w: Seq<u8>)
    requires
        bulk_reply(t).len() + w.len() <= usize::MAX,
    ensures
        spec_decode(bulk_reply(t) + w) == Some((ValueView::Text(t), bulk_reply(t).len() as int)),
{
    lemma_dec_digits(t.len() as int);
    let e = Enc::Bulk(dec_digits(t.len() as int), t);
    assert(enc_bytes(e) =~= bulk_reply(t));
    lemma_decode_of_encoding(e, w);
}

/// A request with no CRLF pair anywhere decodes to nothing, whatever its
/// tag.
pub proof fn lemma_decode_fails_without_crlf(s: Seq<u8>)
    requires
        forall|j: int| !crlf_at(s, j),
    ensures
        spec_decode(s) is None,
{
    lemma_find_crlf(s);
}

/// A blob frame whose length field claims more bytes than the buffer
/// holds decodes to nothing.
pub proof fn lemma_decode_fails_truncated_bulk(s: Seq<u8>, i: int)
    requires
        s.len() >= 1,
        s[0] == 36,
        find_crlf(s) == Some(i),
        1 <= i,
        valid_len_field(s.subrange(1, i)),
        s.len() < i + 2 + digits_value(s.subrange(1, i)) + 2,
    ensures
        spec_decode(s) is None,
{
}

/// A frame whose length or count field is empty or holds any non-digit
/// decodes to nothing.
pub proof fn lemma_decode_fails_bad_field(s: Seq<u8>, i: int)
    requires
        s.len() >= 1,
        s[0] == 36 || s[0] == 42,
        find_crlf(s) == Some(i),
        !(1 <= i && valid_len_field(s.subrange(1, i))),
    ensures
        spec_decode(s) is None,
{
    lemma_find_crlf(s);
}

/// A list whose declared count is not matched by a fully decodable run
/// of that many frames decodes to nothing: no partial list is returned.
pub proof fn lemma_decode_fails_short_list(s: Seq<u8>, i: int)
    requires
        s.len() >= 1,
        s[0] == 42,
        find_crlf(s) == Some(i),
        1 <= i,
        valid_len_field(s.subrange(1, i)),
        spec_decode_items(s.skip(i + 2), digits_value(s.subrange(1, i))) is None,
    ensures
        spec_decode(s) is None,
{
    lemma_find_crlf(s);
}

} // verus!
