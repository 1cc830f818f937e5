//! Byte-level codec for the compact JSON wire form used by both proxy nodes.
//!
//! Every message that crosses the wire is a flat JSON object whose values are
//! strings, unsigned numbers, booleans or arrays of bytes.  The serializers
//! emit the canonical compact form (no whitespace, fields in a fixed order);
//! the parsers accept exactly that grammar.  Serialization is specified by
//! `spec` functions over byte sequences, and each executable function is
//! proved against them, so the round-trip laws of the message types can be
//! stated and proved at the specification level.

use vstd::prelude::*;
use vstd::utf8::valid_utf8;
use vstd::utf8::decode_utf8;
use vstd::utf8::encode_utf8;
use vstd::utf8::encode_utf8_valid_utf8;
use vstd::utf8::encode_utf8_decode_utf8;
use vstd::string::StringSliceAdditionalSpecFns;
use crate::trusted::string_from_utf8;

verus! {

// ASCII bytes the grammar is built from.
pub const QUOTE: u8 = 34;
pub const BACKSLASH: u8 = 92;
pub const LBRACE: u8 = 123;
pub const RBRACE: u8 = 125;
pub const LBRACKET: u8 = 91;
pub const RBRACKET: u8 = 93;
pub const COMMA: u8 = 44;
pub const COLON: u8 = 58;

pub open spec fn is_digit(b: u8) -> bool {
    48 <= b <= 57
}

/// Printable ASCII, the alphabet of tokens, identifiers and addresses.
pub open spec fn printable(c: char) -> bool {
    32 <= (c as u32) && (c as u32) < 127
}

/// Text payloads carried in JSON strings: anything except control bytes,
/// save the three whitespace controls the canonical form knows how to escape.
pub open spec fn wf_text_byte(b: u8) -> bool {
    b >= 32 || b == 9 || b == 10 || b == 13
}

pub open spec fn wf_text(s: Seq<u8>) -> bool {
    forall|i: int| 0 <= i < s.len() ==> wf_text_byte(#[trigger] s[i])
}

/// Object keys are fixed ASCII identifiers: printable, no quote, no backslash.
pub open spec fn wf_key(s: Seq<u8>) -> bool {
    forall|i: int| 0 <= i < s.len() ==> 32 <= s[i] && s[i] != QUOTE && s[i] != BACKSLASH
}

// ---------------------------------------------------------------------------
// Serialization, as specification functions.
// ---------------------------------------------------------------------------

pub open spec fn esc_byte(b: u8) -> Seq<u8> {
    if b == QUOTE || b == BACKSLASH {
        seq![BACKSLASH, b]
    } else if b == 9 {
        seq![BACKSLASH, 116]
    } else if b == 10 {
        seq![BACKSLASH, 110]
    } else if b == 13 {
        seq![BACKSLASH, 114]
    } else {
        seq![b]
    }
}

/// What an escape code names: the byte it stands for.
pub open spec fn unesc_byte(c: u8) -> Option<u8> {
    if c == QUOTE || c == BACKSLASH || c == 47 {
        Some(c)
    } else if c == 116 {
        Some(9)
    } else if c == 110 {
        Some(10)
    } else if c == 114 {
        Some(13)
    } else {
        None
    }
}

pub open spec fn esc_bytes(s: Seq<u8>) -> Seq<u8>
    decreases s.len(),
{
    if s.len() == 0 {
        Seq::empty()
    } else {
        esc_byte(s[0]) + esc_bytes(s.drop_first())
    }
}

/// A JSON string: quote, escaped payload, quote.
pub open spec fn ser_text(s: Seq<u8>) -> Seq<u8> {
    seq![QUOTE] + esc_bytes(s) + seq![QUOTE]
}

/// Decimal digits of `n`, most significant first.
pub open spec fn dec_rep(n: u64) -> Seq<u8>
    decreases n,
{
    if n < 10 {
        seq![(48 + n) as u8]
    } else {
        dec_rep((n / 10) as u64).push((48 + n % 10) as u8)
    }
}

pub open spec fn ser_arr_elems(s: Seq<u8>) -> Seq<u8>
    decreases s.len(),
{
    if s.len() == 0 {
        Seq::empty()
    } else if s.len() == 1 {
        dec_rep(s[0] as u64)
    } else {
        dec_rep(s[0] as u64) + seq![COMMA] + ser_arr_elems(s.drop_first())
    }
}

/// A byte sequence as a JSON array of numbers.
pub open spec fn ser_byte_arr(s: Seq<u8>) -> Seq<u8> {
    seq![LBRACKET] + ser_arr_elems(s) + seq![RBRACKET]
}

pub open spec fn ser_bool(b: bool) -> Seq<u8> {
    if b {
        seq![116u8, 114, 117, 101]
    } else {
        seq![102u8, 97, 108, 115, 101]
    }
}

/// An object key with its leading separator: `{"k":` for the first field,
/// `,"k":` for the rest.
pub open spec fn ser_key(name: Seq<u8>, first: bool) -> Seq<u8> {
    seq![if first { LBRACE } else { COMMA }, QUOTE] + name + seq![QUOTE, COLON]
}

// ---------------------------------------------------------------------------
// Executable serializers.
// ---------------------------------------------------------------------------

pub fn emit_text(out: &mut Vec<u8>, s: &[u8])
    ensures
        final(out)@ == old(out)@ + ser_text(s@),
{
    out.push(QUOTE);
    let ghost base = out@;
    let mut i: usize = 0;
    while i < s.len()
        invariant
            i <= s@.len(),
            out@ == base + esc_bytes(s@.take(i as int)),
        decreases s@.len() - i,
    {
        let b = s[i];
        if b == QUOTE || b == BACKSLASH {
            out.push(BACKSLASH);
            out.push(b);
        } else if b == 9 {
            out.push(BACKSLASH);
            out.push(116);
        } else if b == 10 {
            out.push(BACKSLASH);
            out.push(110);
        } else if b == 13 {
            out.push(BACKSLASH);
            out.push(114);
        } else {
            out.push(b);
        }
        proof {
            lemma_esc_bytes_snoc(s@.take(i + 1 as int));
            assert(s@.take(i + 1 as int).drop_last() =~= s@.take(i as int));
            assert(s@.take(i + 1 as int).last() == s@[i as int]);
        }
        i = i + 1;
    }
    proof {
        assert(s@.take(s@.len() as int) =~= s@);
    }
    out.push(QUOTE);
    proof {
        assert(out@ =~= old(out)@ + ser_text(s@));
    }
}

proof fn lemma_esc_bytes_snoc(s: Seq<u8>)
    requires
        s.len() > 0,
    ensures
        esc_bytes(s) == esc_bytes(s.drop_last()) + esc_byte(s.last()),
    decreases s.len(),
{
    if s.len() == 1 {
        assert(s.drop_last() =~= Seq::<u8>::empty());
        assert(esc_bytes(s) =~= esc_byte(s[0]) + esc_bytes(s.drop_first()));
        assert(s.drop_first() =~= Seq::<u8>::empty());
        assert(esc_bytes(s) =~= esc_bytes(s.drop_last()) + esc_byte(s.last()));
    } else {
        lemma_esc_bytes_snoc(s.drop_first());
        assert(s.drop_first().drop_last() =~= s.drop_last().drop_first());
        assert(s.drop_first().last() == s.last());
        assert(s.drop_last().len() > 0);
        assert(s.drop_last()[0] == s[0]);
        assert(esc_bytes(s.drop_last()) == esc_byte(s[0]) + esc_bytes(s.drop_last().drop_first()));
        assert(esc_bytes(s) =~= esc_bytes(s.drop_last()) + esc_byte(s.last()));
    }
}

pub fn emit_u64(out: &mut Vec<u8>, n: u64)
    ensures
        final(out)@ == old(out)@ + dec_rep(n),
    decreases n,
{
    if n < 10 {
        out.push((48 + n) as u8);
        proof {
            assert(out@ =~= old(out)@ + dec_rep(n));
        }
    } else {
        emit_u64(out, n / 10);
        out.push((48 + n % 10) as u8);
        proof {
            assert(out@ =~= old(out)@ + dec_rep(n));
        }
    }
}

proof fn lemma_ser_arr_elems_snoc(s: Seq<u8>)
    requires
        s.len() > 1,
    ensures
        ser_arr_elems(s) == ser_arr_elems(s.drop_last()) + seq![COMMA] + dec_rep(s.last() as u64),
    decreases s.len(),
{
    if s.len() == 2 {
        assert(s.drop_first().len() == 1);
        assert(ser_arr_elems(s.drop_first()) == dec_rep(s.drop_first()[0] as u64));
        assert(s.drop_last() =~= seq![s[0]]);
        assert(ser_arr_elems(s) =~= ser_arr_elems(s.drop_last()) + seq![COMMA] + dec_rep(s.last() as u64));
    } else {
        lemma_ser_arr_elems_snoc(s.drop_first());
        assert(s.drop_first().drop_last() =~= s.drop_last().drop_first());
        assert(s.drop_first().last() == s.last());
        assert(s.drop_last().len() > 1);
        assert(s.drop_last()[0] == s[0]);
        assert(ser_arr_elems(s.drop_last()) == dec_rep(s[0] as u64) + seq![COMMA] + ser_arr_elems(
            s.drop_last().drop_first(),
        ));
        assert(ser_arr_elems(s) =~= ser_arr_elems(s.drop_last()) + seq![COMMA] + dec_rep(
            s.last() as u64,
        ));
    }
}

pub fn emit_byte_arr(out: &mut Vec<u8>, s: &[u8])
    ensures
        final(out)@ == old(out)@ + ser_byte_arr(s@),
{
    out.push(LBRACKET);
    let ghost base = out@;
    let mut i: usize = 0;
    while i < s.len()
        invariant
            i <= s@.len(),
            out@ == base + ser_arr_elems(s@.take(i as int)),
        decreases s@.len() - i,
    {
        if i > 0 {
            out.push(COMMA);
        }
        emit_u64(out, s[i] as u64);
        proof {
            if i == 0 {
                assert(s@.take(1) =~= seq![s@[0]]);
                assert(ser_arr_elems(s@.take(1)) == dec_rep(s@[0] as u64));
                assert(ser_arr_elems(s@.take(0)) =~= Seq::<u8>::empty());
                assert(out@ =~= base + ser_arr_elems(s@.take(i + 1 as int)));
            } else {
                lemma_ser_arr_elems_snoc(s@.take(i + 1 as int));
                assert(s@.take(i + 1 as int).drop_last() =~= s@.take(i as int));
                assert(s@.take(i + 1 as int).last() == s@[i as int]);
                assert(out@ =~= base + ser_arr_elems(s@.take(i + 1 as int)));
            }
        }
        i = i + 1;
    }
    proof {
        assert(s@.take(s@.len() as int) =~= s@);
    }
    out.push(RBRACKET);
    proof {
        assert(out@ =~= old(out)@ + ser_byte_arr(s@));
    }
}

pub fn emit_bool(out: &mut Vec<u8>, b: bool)
    ensures
        final(out)@ == old(out)@ + ser_bool(b),
{
    if b {
        out.push(116);
        out.push(114);
        out.push(117);
        out.push(101);
    } else {
        out.push(102);
        out.push(97);
        out.push(108);
        out.push(115);
        out.push(101);
    }
    proof {
        assert(out@ =~= old(out)@ + ser_bool(b));
    }
}

// ---------------------------------------------------------------------------
// Parsing, as specification functions.  Each parser yields the parsed value
// and the unconsumed remainder.
// ---------------------------------------------------------------------------

pub open spec fn prepend_text(acc: Seq<u8>, o: Option<(Seq<u8>, Seq<u8>)>) -> Option<
    (Seq<u8>, Seq<u8>),
> {
    match o {
        Some(p) => Some((acc + p.0, p.1)),
        None => None,
    }
}

/// Parse the body of a JSON string after the opening quote, up to and
/// including the closing quote.
pub open spec fn p_text_body(s: Seq<u8>) -> Option<(Seq<u8>, Seq<u8>)>
    decreases s.len(),
{
    if s.len() == 0 {
        None
    } else if s[0] == QUOTE {
        Some((Seq::empty(), s.drop_first()))
    } else if s[0] == BACKSLASH {
        if s.len() >= 2 {
            match unesc_byte(s[1]) {
                Some(b) => prepend_text(seq![b], p_text_body(s.skip(2))),
                None => None,
            }
        } else {
            None
        }
    } else if s[0] >= 32 {
        prepend_text(seq![s[0]], p_text_body(s.drop_first()))
    } else {
        None
    }
}

pub open spec fn p_text(s: Seq<u8>) -> Option<(Seq<u8>, Seq<u8>)> {
    if s.len() > 0 && s[0] == QUOTE {
        p_text_body(s.drop_first())
    } else {
        None
    }
}

pub proof fn lemma_p_text_body_remainder(s: Seq<u8>)
    ensures
        match p_text_body(s) {
            Some(p) => p.1.len() < s.len(),
            None => true,
        },
    decreases s.len(),
{
    if s.len() == 0 {
    } else if s[0] == QUOTE {
    } else if s[0] == BACKSLASH {
        if s.len() >= 2 && unesc_byte(s[1]) is Some {
            lemma_p_text_body_remainder(s.skip(2));
        }
    } else if s[0] >= 32 {
        lemma_p_text_body_remainder(s.drop_first());
    }
}

pub proof fn lemma_p_text_remainder(s: Seq<u8>)
    ensures
        match p_text(s) {
            Some(p) => p.1.len() < s.len(),
            None => true,
        },
{
    if s.len() > 0 && s[0] == QUOTE {
        lemma_p_text_body_remainder(s.drop_first());
    }
}

pub open spec fn p_u64_rec(s: Seq<u8>, acc: u64) -> Option<(u64, Seq<u8>)>
    decreases s.len(),
{
    if s.len() == 0 || !is_digit(s[0]) {
        Some((acc, s))
    } else {
        let v: int = acc * 10 + (s[0] - 48);
        if v <= u64::MAX {
            p_u64_rec(s.drop_first(), v as u64)
        } else {
            None
        }
    }
}

pub open spec fn p_u64(s: Seq<u8>) -> Option<(u64, Seq<u8>)> {
    if s.len() > 0 && is_digit(s[0]) {
        p_u64_rec(s, 0)
    } else {
        None
    }
}

pub proof fn lemma_prepend_empty(o: Option<(Seq<u8>, Seq<u8>)>)
    ensures
        prepend_text(Seq::empty(), o) == o,
{
    match o {
        Some(p) => {
            assert(Seq::empty() + p.0 =~= p.0);
        },
        None => {},
    }
}

pub proof fn lemma_prepend_assoc(a: Seq<u8>, b: Seq<u8>, o: Option<(Seq<u8>, Seq<u8>)>)
    ensures
        prepend_text(a, prepend_text(b, o)) == prepend_text(a + b, o),
{
    match o {
        Some(p) => {
            assert(a + (b + p.0) =~= (a + b) + p.0);
        },
        None => {},
    }
}

proof fn lemma_p_u64_rec_remainder(s: Seq<u8>, acc: u64)
    ensures
        match p_u64_rec(s, acc) {
            Some(p) => p.1.len() <= s.len(),
            None => true,
        },
    decreases s.len(),
{
    if s.len() == 0 || !is_digit(s[0]) {
    } else {
        let v: int = acc * 10 + (s[0] - 48);
        if v <= u64::MAX {
            lemma_p_u64_rec_remainder(s.drop_first(), v as u64);
        }
    }
}

pub proof fn lemma_p_u64_remainder(s: Seq<u8>)
    ensures
        match p_u64(s) {
            Some(p) => p.1.len() < s.len(),
            None => true,
        },
{
    if s.len() > 0 && is_digit(s[0]) {
        let v: int = 0 * 10 + (s[0] - 48);
        if v <= u64::MAX {
            lemma_p_u64_rec_remainder(s.drop_first(), v as u64);
        }
    }
}

/// One or more array elements followed by the closing bracket.
pub open spec fn p_arr_elems(s: Seq<u8>) -> Option<(Seq<u8>, Seq<u8>)>
    decreases s.len(),
    via p_arr_elems_dec
{
    match p_u64(s) {
        None => None,
        Some(p) => {
            if p.0 > 255 {
                None
            } else if p.1.len() > 0 && p.1[0] == COMMA {
                prepend_text(seq![p.0 as u8], p_arr_elems(p.1.drop_first()))
            } else if p.1.len() > 0 && p.1[0] == RBRACKET {
                Some((seq![p.0 as u8], p.1.drop_first()))
            } else {
                None
            }
        },
    }
}

#[via_fn]
proof fn p_arr_elems_dec(s: Seq<u8>) {
    lemma_p_u64_remainder(s);
}

pub open spec fn p_byte_arr(s: Seq<u8>) -> Option<(Seq<u8>, Seq<u8>)> {
    if s.len() >= 2 && s[0] == LBRACKET && s[1] == RBRACKET {
        Some((Seq::empty(), s.skip(2)))
    } else if s.len() >= 1 && s[0] == LBRACKET {
        p_arr_elems(s.drop_first())
    } else {
        None
    }
}

pub open spec fn p_exact(s: Seq<u8>, l: Seq<u8>) -> Option<Seq<u8>> {
    if l.len() <= s.len() && s.take(l.len() as int) == l {
        Some(s.skip(l.len() as int))
    } else {
        None
    }
}

pub open spec fn p_bool(s: Seq<u8>) -> Option<(bool, Seq<u8>)> {
    match p_exact(s, ser_bool(true)) {
        Some(r) => Some((true, r)),
        None => match p_exact(s, ser_bool(false)) {
            Some(r) => Some((false, r)),
            None => None,
        },
    }
}

// ---------------------------------------------------------------------------
// Inverse lemmas: parsing the canonical serialization gives the value back.
// ---------------------------------------------------------------------------

pub proof fn lemma_p_exact(l: Seq<u8>, rest: Seq<u8>)
    ensures
        p_exact(l + rest, l) == Some::<Seq<u8>>(rest),
{
    assert((l + rest).take(l.len() as int) =~= l);
    assert((l + rest).skip(l.len() as int) =~= rest);
}

pub proof fn lemma_p_text_body_inv(s: Seq<u8>, rest: Seq<u8>)
    requires
        wf_text(s),
    ensures
        p_text_body(esc_bytes(s) + seq![QUOTE] + rest) == Some((s, rest)),
    decreases s.len(),
{
    if s.len() == 0 {
        assert(esc_bytes(s) + seq![QUOTE] + rest =~= seq![QUOTE] + rest);
        assert((seq![QUOTE] + rest)[0] == QUOTE);
        assert((seq![QUOTE] + rest).drop_first() =~= rest);
    } else {
        let b = s[0];
        let tail = s.drop_first();
        assert(wf_text(tail));
        lemma_p_text_body_inv(tail, rest);
        let whole = esc_bytes(s) + seq![QUOTE] + rest;
        let inner = esc_bytes(tail) + seq![QUOTE] + rest;
        assert(esc_bytes(s) == esc_byte(b) + esc_bytes(tail));
        if b == QUOTE || b == BACKSLASH || b == 9 || b == 10 || b == 13 {
            let c: u8 = if b == QUOTE || b == BACKSLASH {
                b
            } else if b == 9 {
                116
            } else if b == 10 {
                110
            } else {
                114
            };
            assert(esc_byte(b) =~= seq![BACKSLASH, c]);
            assert(unesc_byte(c) == Some(b));
            assert(whole =~= seq![BACKSLASH, c] + inner);
            assert(whole[0] == BACKSLASH);
            assert(whole[1] == c);
            assert(whole.skip(2) =~= inner);
            assert(p_text_body(whole) == prepend_text(seq![b], Some((tail, rest))));
            assert(seq![b] + tail =~= s);
        } else {
            assert(wf_text_byte(b) && b != 9 && b != 10 && b != 13);
            assert(whole =~= seq![b] + inner);
            assert(whole[0] == b);
            assert(b >= 32 && b != QUOTE && b != BACKSLASH);
            assert(whole.drop_first() =~= inner);
            assert(p_text_body(whole) == prepend_text(seq![b], Some((tail, rest))));
            assert(seq![b] + tail =~= s);
        }
    }
}

pub proof fn lemma_p_text_inv(s: Seq<u8>, rest: Seq<u8>)
    requires
        wf_text(s),
    ensures
        p_text(ser_text(s) + rest) == Some((s, rest)),
{
    let whole = ser_text(s) + rest;
    assert(whole[0] == QUOTE);
    assert(whole.drop_first() =~= esc_bytes(s) + seq![QUOTE] + rest);
    lemma_p_text_body_inv(s, rest);
}

pub open spec fn all_digits(s: Seq<u8>) -> bool {
    forall|i: int| 0 <= i < s.len() ==> is_digit(s[i])
}

/// Left fold of decimal digits onto an accumulator, over the integers.
pub open spec fn lfold(s: Seq<u8>, acc: int) -> int
    decreases s.len(),
{
    if s.len() == 0 {
        acc
    } else {
        lfold(s.drop_first(), acc * 10 + (s[0] - 48))
    }
}

proof fn lemma_lfold_push(s: Seq<u8>, c: u8, acc: int)
    ensures
        lfold(s.push(c), acc) == lfold(s, acc) * 10 + (c - 48),
    decreases s.len(),
{
    if s.len() == 0 {
        assert(s.push(c)[0] == c);
        assert(s.push(c).drop_first() =~= Seq::<u8>::empty());
        assert(lfold(s.push(c), acc) == lfold(Seq::<u8>::empty(), acc * 10 + (c - 48)));
        assert(lfold(Seq::<u8>::empty(), acc * 10 + (c - 48)) == acc * 10 + (c - 48));
    } else {
        assert(s.push(c).drop_first() =~= s.drop_first().push(c));
        assert(s.push(c)[0] == s[0]);
        lemma_lfold_push(s.drop_first(), c, acc * 10 + (s[0] - 48));
    }
}

pub proof fn lemma_dec_rep_val(n: u64)
    ensures
        all_digits(dec_rep(n)),
        dec_rep(n).len() >= 1,
        lfold(dec_rep(n), 0) == n,
    decreases n,
{
    if n < 10 {
        assert(dec_rep(n) =~= seq![(48 + n) as u8]);
        assert(dec_rep(n)[0] == (48 + n) as u8);
        assert(dec_rep(n).drop_first() =~= Seq::<u8>::empty());
        assert(lfold(dec_rep(n), 0) == lfold(Seq::<u8>::empty(), 0 * 10 + ((48 + n) as u8 - 48)));
        assert(lfold(Seq::<u8>::empty(), 0 * 10 + ((48 + n) as u8 - 48)) == n);
    } else {
        lemma_dec_rep_val(n / 10);
        lemma_lfold_push(dec_rep(n / 10), (48 + n % 10) as u8, 0);
        assert(lfold(dec_rep(n), 0) == (n / 10) * 10 + (n % 10));
        assert(n == (n / 10) * 10 + (n % 10)) by (nonlinear_arith);
        assert forall|i: int| 0 <= i < dec_rep(n).len() implies is_digit(dec_rep(n)[i]) by {
            if i < dec_rep(n / 10).len() {
                assert(dec_rep(n)[i] == dec_rep(n / 10)[i]);
            } else {
                assert(dec_rep(n)[i] == (48 + n % 10) as u8);
            }
        }
    }
}

proof fn lemma_lfold_monotone(s: Seq<u8>, acc: int)
    requires
        all_digits(s),
        acc >= 0,
    ensures
        lfold(s, acc) >= acc,
    decreases s.len(),
{
    if s.len() > 0 {
        let step: int = acc * 10 + (s[0] - 48);
        let b0: u8 = s[0];
        assert(acc * 10 + (b0 - 48) >= acc) by (nonlinear_arith)
            requires
                acc >= 0,
                b0 >= 48,
        ;
        assert(step >= acc);
        assert(all_digits(s.drop_first()));
        lemma_lfold_monotone(s.drop_first(), step);
    }
}

proof fn lemma_p_u64_rec_digits(s: Seq<u8>, rest: Seq<u8>, acc: u64)
    requires
        all_digits(s),
        rest.len() == 0 || !is_digit(rest[0]),
        lfold(s, acc as int) <= u64::MAX,
    ensures
        p_u64_rec(s + rest, acc) == Some((lfold(s, acc as int) as u64, rest)),
    decreases s.len(),
{
    if s.len() == 0 {
        assert(s + rest =~= rest);
    } else {
        let whole = s + rest;
        assert(whole[0] == s[0]);
        assert(is_digit(s[0]));
        let v: int = acc * 10 + (s[0] - 48);
        assert(lfold(s, acc as int) == lfold(s.drop_first(), v));
        assert(all_digits(s.drop_first()));
        lemma_lfold_monotone(s.drop_first(), v);
        assert(v <= u64::MAX);
        assert(whole.drop_first() =~= s.drop_first() + rest);
        lemma_p_u64_rec_digits(s.drop_first(), rest, v as u64);
    }
}

pub proof fn lemma_p_u64_inv(n: u64, rest: Seq<u8>)
    requires
        rest.len() == 0 || !is_digit(rest[0]),
    ensures
        p_u64(dec_rep(n) + rest) == Some((n, rest)),
{
    lemma_dec_rep_val(n);
    let whole = dec_rep(n) + rest;
    assert(whole[0] == dec_rep(n)[0]);
    assert(is_digit(whole[0]));
    lemma_p_u64_rec_digits(dec_rep(n), rest, 0);
}

proof fn lemma_p_arr_elems_inv(bs: Seq<u8>, rest: Seq<u8>)
    requires
        bs.len() >= 1,
    ensures
        p_arr_elems(ser_arr_elems(bs) + seq![RBRACKET] + rest) == Some((bs, rest)),
    decreases bs.len(),
{
    let whole = ser_arr_elems(bs) + seq![RBRACKET] + rest;
    let b = bs[0];
    if bs.len() == 1 {
        assert(ser_arr_elems(bs) == dec_rep(b as u64));
        let tail = seq![RBRACKET] + rest;
        assert(whole =~= dec_rep(b as u64) + tail);
        assert(!is_digit(tail[0]));
        lemma_p_u64_inv(b as u64, tail);
        assert(p_u64(whole) == Some((b as u64, tail)));
        assert(tail[0] == RBRACKET && tail[0] != COMMA);
        assert(tail.drop_first() =~= rest);
        assert(seq![b] =~= bs);
    } else {
        let bs2 = bs.drop_first();
        assert(ser_arr_elems(bs) == dec_rep(b as u64) + seq![COMMA] + ser_arr_elems(bs2));
        let inner = ser_arr_elems(bs2) + seq![RBRACKET] + rest;
        let tail = seq![COMMA] + inner;
        assert(whole =~= dec_rep(b as u64) + tail);
        assert(!is_digit(tail[0]));
        lemma_p_u64_inv(b as u64, tail);
        assert(p_u64(whole) == Some((b as u64, tail)));
        assert(tail[0] == COMMA);
        assert(tail.drop_first() =~= inner);
        lemma_p_arr_elems_inv(bs2, rest);
        assert(p_arr_elems(whole) == prepend_text(seq![b], Some((bs2, rest))));
        assert(seq![b] + bs2 =~= bs);
    }
}

pub proof fn lemma_p_byte_arr_inv(bs: Seq<u8>, rest: Seq<u8>)
    ensures
        p_byte_arr(ser_byte_arr(bs) + rest) == Some((bs, rest)),
{
    let whole = ser_byte_arr(bs) + rest;
    assert(whole[0] == LBRACKET);
    if bs.len() == 0 {
        assert(ser_arr_elems(bs) =~= Seq::<u8>::empty());
        assert(whole =~= seq![LBRACKET, RBRACKET] + rest);
        assert(whole[1] == RBRACKET);
        assert(whole.skip(2) =~= rest);
    } else {
        lemma_dec_rep_val(bs[0] as u64);
        assert(ser_arr_elems(bs)[0] == dec_rep(bs[0] as u64)[0]);
        assert(is_digit(ser_arr_elems(bs)[0]));
        assert(whole[1] == ser_arr_elems(bs)[0]);
        assert(whole[1] != RBRACKET);
        assert(whole.drop_first() =~= ser_arr_elems(bs) + seq![RBRACKET] + rest);
        lemma_p_arr_elems_inv(bs, rest);
    }
}

pub proof fn lemma_p_bool_inv(b: bool, rest: Seq<u8>)
    ensures
        p_bool(ser_bool(b) + rest) == Some((b, rest)),
{
    if b {
        lemma_p_exact(ser_bool(true), rest);
    } else {
        lemma_p_exact(ser_bool(false), rest);
        let whole = ser_bool(false) + rest;
        assert(whole[0] == 102);
        if whole.len() >= 4 && whole.take(4) == ser_bool(true) {
            assert(whole.take(4)[0] == 116);
            assert(false);
        }
    }
}

// ---------------------------------------------------------------------------
// Executable parsers, proved against the specification parsers.
// ---------------------------------------------------------------------------

pub fn parse_text(input: &[u8], i: usize) -> (r: Option<(Vec<u8>, usize)>)
    requires
        i <= input@.len(),
    ensures
        match r {
            Some(p) => i < p.1 <= input@.len() && p_text(input@.skip(i as int)) == Some(
                (p.0@, input@.skip(p.1 as int)),
            ),
            None => p_text(input@.skip(i as int)) is None,
        },
{
    if i == input.len() || input[i] != QUOTE {
        proof {
            if i < input@.len() {
                assert(input@.skip(i as int)[0] == input@[i as int]);
            }
        }
        return None;
    }
    let mut out: Vec<u8> = Vec::new();
    let mut pos: usize = i + 1;
    proof {
        assert(input@.skip(i as int)[0] == QUOTE);
        assert(input@.skip(i as int).drop_first() =~= input@.skip(i + 1 as int));
        lemma_prepend_empty(p_text_body(input@.skip(i + 1 as int)));
    }
    loop
        invariant
            i + 1 <= pos <= input@.len(),
            i < input@.len() && input@[i as int] == QUOTE,
            p_text(input@.skip(i as int)) == prepend_text(out@, p_text_body(input@.skip(pos as int))),
        decreases input@.len() - pos,
    {
        if pos == input.len() {
            return None;
        }
        let b = input[pos];
        proof {
            assert(input@.skip(pos as int)[0] == b);
            assert(input@.skip(pos as int).drop_first() =~= input@.skip(pos + 1 as int));
        }
        if b == QUOTE {
            proof {
                assert(p_text_body(input@.skip(pos as int)) == Some(
                    (Seq::<u8>::empty(), input@.skip(pos + 1 as int)),
                ));
                assert(out@ + Seq::<u8>::empty() =~= out@);
            }
            return Some((out, pos + 1));
        } else if b == BACKSLASH {
            if pos + 1 == input.len() {
                return None;
            }
            let c = input[pos + 1];
            proof {
                assert(input@.skip(pos as int)[1] == c);
                assert(input@.skip(pos as int).skip(2) =~= input@.skip(pos + 2 as int));
            }
            let decoded: u8 = if c == QUOTE || c == BACKSLASH || c == 47 {
                c
            } else if c == 116 {
                9
            } else if c == 110 {
                10
            } else if c == 114 {
                13
            } else {
                return None;
            };
            proof {
                assert(unesc_byte(c) == Some(decoded));
            }
            let ghost out0 = out@;
            out.push(decoded);
            proof {
                assert(out@ =~= out0 + seq![decoded]);
                assert(p_text_body(input@.skip(pos as int)) == prepend_text(
                    seq![decoded],
                    p_text_body(input@.skip(pos + 2 as int)),
                ));
                lemma_prepend_assoc(out0, seq![decoded], p_text_body(input@.skip(pos + 2 as int)));
            }
            pos = pos + 2;
        } else if b >= 32 {
            let ghost out0 = out@;
            out.push(b);
            proof {
                assert(out@ =~= out0 + seq![b]);
                assert(p_text_body(input@.skip(pos as int)) == prepend_text(
                    seq![b],
                    p_text_body(input@.skip(pos + 1 as int)),
                ));
                lemma_prepend_assoc(out0, seq![b], p_text_body(input@.skip(pos + 1 as int)));
            }
            pos = pos + 1;
        } else {
            return None;
        }
    }
}

proof fn lemma_mul10_guard(acc: u64, d: u64)
    requires
        d <= 9,
    ensures
        (acc > (u64::MAX - d) / 10) <==> (acc * 10 + d > u64::MAX),
{
    let m: int = u64::MAX - d;
    let q: int = m / 10;
    vstd::arithmetic::div_mod::lemma_fundamental_div_mod(m, 10);
    assert(m == 10 * q + m % 10);
    if acc > q {
        assert(acc * 10 >= (q + 1) * 10) by (nonlinear_arith)
            requires
                acc >= q + 1,
        ;
        assert((q + 1) * 10 == 10 * q + 10);
        assert(acc * 10 + d > u64::MAX);
    }
    if acc * 10 + d > u64::MAX {
        assert(acc * 10 > m);
        assert(acc * 10 > 10 * q);
        assert(acc > q) by (nonlinear_arith)
            requires
                acc * 10 > 10 * q,
        ;
    }
}

pub fn parse_u64(input: &[u8], i: usize) -> (r: Option<(u64, usize)>)
    requires
        i <= input@.len(),
    ensures
        match r {
            Some(p) => i < p.1 <= input@.len() && p_u64(input@.skip(i as int)) == Some(
                (p.0, input@.skip(p.1 as int)),
            ),
            None => p_u64(input@.skip(i as int)) is None,
        },
{
    if i == input.len() {
        return None;
    }
    let b0 = input[i];
    proof {
        assert(input@.skip(i as int)[0] == b0);
    }
    if !(48 <= b0 && b0 <= 57) {
        return None;
    }
    let mut acc: u64 = 0;
    let mut pos: usize = i;
    loop
        invariant
            i <= pos <= input@.len(),
            i < input@.len() && is_digit(input@[i as int]),
            p_u64_rec(input@.skip(i as int), 0) == p_u64_rec(input@.skip(pos as int), acc),
            pos == i ==> acc == 0,
        decreases input@.len() - pos,
    {
        if pos == input.len() {
            proof {
                assert(input@.skip(pos as int).len() == 0);
                assert(p_u64_rec(input@.skip(pos as int), acc) == Some(
                    (acc, input@.skip(pos as int)),
                ));
            }
            return Some((acc, pos));
        }
        let b = input[pos];
        proof {
            assert(input@.skip(pos as int)[0] == b);
            assert(input@.skip(pos as int).drop_first() =~= input@.skip(pos + 1 as int));
        }
        if !(48 <= b && b <= 57) {
            proof {
                assert(p_u64_rec(input@.skip(pos as int), acc) == Some(
                    (acc, input@.skip(pos as int)),
                ));
                assert(pos > i);
            }
            return Some((acc, pos));
        }
        let d = (b - 48) as u64;
        proof {
            lemma_mul10_guard(acc, d);
        }
        if acc > (u64::MAX - d) / 10 {
            return None;
        }
        acc = acc * 10 + d;
        pos = pos + 1;
    }
}

pub fn parse_byte_arr(input: &[u8], i: usize) -> (r: Option<(Vec<u8>, usize)>)
    requires
        i <= input@.len(),
    ensures
        match r {
            Some(p) => i < p.1 <= input@.len() && p_byte_arr(input@.skip(i as int)) == Some(
                (p.0@, input@.skip(p.1 as int)),
            ),
            None => p_byte_arr(input@.skip(i as int)) is None,
        },
{
    if i == input.len() || input[i] != LBRACKET {
        proof {
            if i < input@.len() {
                assert(input@.skip(i as int)[0] == input@[i as int]);
            }
        }
        return None;
    }
    proof {
        assert(input@.skip(i as int)[0] == LBRACKET);
        assert(input@.skip(i as int).drop_first() =~= input@.skip(i + 1 as int));
    }
    if i + 1 < input.len() && input[i + 1] == RBRACKET {
        proof {
            assert(input@.skip(i as int)[1] == RBRACKET);
            assert(input@.skip(i as int).skip(2) =~= input@.skip(i + 2 as int));
        }
        return Some((Vec::new(), i + 2));
    }
    let mut out: Vec<u8> = Vec::new();
    let mut pos: usize = i + 1;
    loop
        invariant
            i + 1 <= pos <= input@.len(),
            i < input@.len() && input@[i as int] == LBRACKET,
            !(i + 1 < input@.len() && input@[i + 1] == RBRACKET),
            p_byte_arr(input@.skip(i as int)) == prepend_text(
                out@,
                p_arr_elems(input@.skip(pos as int)),
            ),
        decreases input@.len() - pos,
    {
        match parse_u64(input, pos) {
            None => {
                return None;
            },
            Some((n, j)) => {
                proof {
                    assert(p_u64(input@.skip(pos as int)) == Some((n, input@.skip(j as int))));
                }
                if n > 255 {
                    return None;
                }
                let ghost out0 = out@;
                out.push(n as u8);
                proof {
                    assert(out@ =~= out0 + seq![n as u8]);
                }
                if j < input.len() && input[j] == COMMA {
                    proof {
                        assert(input@.skip(j as int)[0] == COMMA);
                        assert(input@.skip(j as int).drop_first() =~= input@.skip(j + 1 as int));
                        assert(p_arr_elems(input@.skip(pos as int)) == prepend_text(
                            seq![n as u8],
                            p_arr_elems(input@.skip(j + 1 as int)),
                        ));
                        lemma_prepend_assoc(out0, seq![n as u8], p_arr_elems(input@.skip(j + 1 as int)));
                    }
                    pos = j + 1;
                } else if j < input.len() && input[j] == RBRACKET {
                    proof {
                        assert(input@.skip(j as int)[0] == RBRACKET);
                        assert(input@.skip(j as int)[0] != COMMA);
                        assert(input@.skip(j as int).drop_first() =~= input@.skip(j + 1 as int));
                        assert(p_arr_elems(input@.skip(pos as int)) == Some(
                            (seq![n as u8], input@.skip(j + 1 as int)),
                        ));
                        assert(p_byte_arr(input@.skip(i as int)) == Some(
                            (out0 + seq![n as u8], input@.skip(j + 1 as int)),
                        ));
                    }
                    return Some((out, j + 1));
                } else {
                    proof {
                        if j < input@.len() {
                            assert(input@.skip(j as int)[0] == input@[j as int]);
                        }
                    }
                    return None;
                }
            },
        }
    }
}

pub fn parse_exact(input: &[u8], i: usize, l: &[u8]) -> (r: Option<usize>)
    requires
        i <= input@.len(),
    ensures
        match r {
            Some(j) => i <= j <= input@.len() && j == i + l@.len() && p_exact(
                input@.skip(i as int),
                l@,
            ) == Some(input@.skip(j as int)),
            None => p_exact(input@.skip(i as int), l@) is None,
        },
{
    if input.len() - i < l.len() {
        return None;
    }
    let mut k: usize = 0;
    while k < l.len()
        invariant
            k <= l@.len(),
            i <= input@.len(),
            l@.len() <= input@.len() - i,
            forall|m: int| 0 <= m < k ==> input@[i + m] == l@[m],
        decreases l@.len() - k,
    {
        let n_in = input.len();
        proof {
            assert(i + k < n_in);
        }
        if input[i + k] != l[k] {
            proof {
                let s = input@.skip(i as int);
                if l@.len() <= s.len() && s.take(l@.len() as int) == l@ {
                    assert(s.take(l@.len() as int)[k as int] == l@[k as int]);
                    assert(s[k as int] == input@[i + k]);
                    assert(false);
                }
            }
            return None;
        }
        k = k + 1;
    }
    proof {
        let s = input@.skip(i as int);
        assert(s.take(l@.len() as int) =~= l@);
        assert(s.skip(l@.len() as int) =~= input@.skip(i + l@.len()));
    }
    Some(i + l.len())
}

/// Match an object key together with its leading `{` or `,` separator.
pub fn parse_key(input: &[u8], i: usize, name: &[u8], first: bool) -> (r: Option<usize>)
    requires
        i <= input@.len(),
    ensures
        match r {
            Some(j) => i <= j <= input@.len() && p_exact(
                input@.skip(i as int),
                ser_key(name@, first),
            ) == Some(input@.skip(j as int)),
            None => p_exact(input@.skip(i as int), ser_key(name@, first)) is None,
        },
{
    let mut expected: Vec<u8> = Vec::new();
    emit_key(&mut expected, name, first);
    parse_exact(input, i, expected.as_slice())
}

pub fn parse_bool(input: &[u8], i: usize) -> (r: Option<(bool, usize)>)
    requires
        i <= input@.len(),
    ensures
        match r {
            Some(p) => i <= p.1 <= input@.len() && p_bool(input@.skip(i as int)) == Some(
                (p.0, input@.skip(p.1 as int)),
            ),
            None => p_bool(input@.skip(i as int)) is None,
        },
{
    let t: Vec<u8> = vec![116u8, 114, 117, 101];
    proof {
        assert(t@ =~= ser_bool(true));
    }
    match parse_exact(input, i, t.as_slice()) {
        Some(j) => {
            return Some((true, j));
        },
        None => {},
    }
    let f: Vec<u8> = vec![102u8, 97, 108, 115, 101];
    proof {
        assert(f@ =~= ser_bool(false));
    }
    match parse_exact(input, i, f.as_slice()) {
        Some(j) => Some((false, j)),
        None => None,
    }
}

pub fn emit_key(out: &mut Vec<u8>, name: &[u8], first: bool)
    ensures
        final(out)@ == old(out)@ + ser_key(name@, first),
{
    if first {
        out.push(LBRACE);
    } else {
        out.push(COMMA);
    }
    out.push(QUOTE);
    let mut i: usize = 0;
    let ghost base = out@;
    while i < name.len()
        invariant
            i <= name@.len(),
            out@ == base + name@.take(i as int),
        decreases name@.len() - i,
    {
        out.push(name[i]);
        proof {
            assert(out@ =~= base + name@.take(i + 1 as int));
        }
        i = i + 1;
    }
    proof {
        assert(name@.take(name@.len() as int) =~= name@);
    }
    out.push(QUOTE);
    out.push(COLON);
    proof {
        assert(out@ =~= old(out)@ + ser_key(name@, first));
    }
}


// ---------------------------------------------------------------------------
// Strings: a JSON string whose payload is the UTF-8 encoding of the text.
// ---------------------------------------------------------------------------

pub open spec fn ser_string(t: Seq<char>) -> Seq<u8> {
    ser_text(encode_utf8(t))
}

/// Text that can be carried in a canonical JSON string: its UTF-8 encoding
/// holds no raw control bytes, which is exactly saying no control characters.
pub open spec fn wf_string(t: Seq<char>) -> bool {
    wf_text(encode_utf8(t))
}

pub open spec fn p_string(s: Seq<u8>) -> Option<(Seq<char>, Seq<u8>)> {
    match p_text(s) {
        Some(p) => if valid_utf8(p.0) {
            Some((decode_utf8(p.0), p.1))
        } else {
            None
        },
        None => None,
    }
}

pub proof fn lemma_p_string_inv(t: Seq<char>, rest: Seq<u8>)
    requires
        wf_string(t),
    ensures
        p_string(ser_string(t) + rest) == Some((t, rest)),
{
    lemma_p_text_inv(encode_utf8(t), rest);
    encode_utf8_valid_utf8(t);
    encode_utf8_decode_utf8(t);
}

pub fn emit_string(out: &mut Vec<u8>, s: &str)
    ensures
        final(out)@ == old(out)@ + ser_string(s@),
{
    emit_text(out, s.as_bytes());
}

pub fn parse_string(input: &[u8], i: usize) -> (r: Option<(String, usize)>)
    requires
        i <= input@.len(),
    ensures
        match r {
            Some(p) => i < p.1 <= input@.len() && p_string(input@.skip(i as int)) == Some(
                (p.0@, input@.skip(p.1 as int)),
            ),
            None => p_string(input@.skip(i as int)) is None,
        },
{
    match parse_text(input, i) {
        Some((b, j)) => match string_from_utf8(b) {
            Some(s) => Some((s, j)),
            None => None,
        },
        None => None,
    }
}


// ---------------------------------------------------------------------------
// ASCII documents.  A document whose every byte is ASCII is valid UTF-8, so
// a serialized message built from printable text can always be carried as a
// string; the facts below walk that through the grammar.
// ---------------------------------------------------------------------------

pub open spec fn ascii_seq(s: Seq<u8>) -> bool {
    forall|i: int| 0 <= i < s.len() ==> (#[trigger] s[i]) < 128
}

pub open spec fn printable_chars(t: Seq<char>) -> bool {
    forall|i: int| 0 <= i < t.len() ==> printable(#[trigger] t[i])
}

pub proof fn lemma_ascii_concat(a: Seq<u8>, b: Seq<u8>)
    requires
        ascii_seq(a),
        ascii_seq(b),
    ensures
        ascii_seq(a + b),
{
    assert forall|i: int| 0 <= i < (a + b).len() implies (#[trigger] (a + b)[i]) < 128 by {
        if i < a.len() {
            assert((a + b)[i] == a[i]);
        } else {
            assert((a + b)[i] == b[i - a.len()]);
        }
    }
}

pub proof fn lemma_esc_bytes_ascii(s: Seq<u8>)
    requires
        ascii_seq(s),
    ensures
        ascii_seq(esc_bytes(s)),
    decreases s.len(),
{
    if s.len() > 0 {
        assert(ascii_seq(s.drop_first()));
        lemma_esc_bytes_ascii(s.drop_first());
        assert(ascii_seq(esc_byte(s[0])));
        lemma_ascii_concat(esc_byte(s[0]), esc_bytes(s.drop_first()));
    }
}

pub proof fn lemma_ser_text_ascii(s: Seq<u8>)
    requires
        ascii_seq(s),
    ensures
        ascii_seq(ser_text(s)),
{
    lemma_esc_bytes_ascii(s);
    lemma_ascii_concat(seq![QUOTE], esc_bytes(s));
    lemma_ascii_concat(seq![QUOTE] + esc_bytes(s), seq![QUOTE]);
}

pub proof fn lemma_dec_rep_ascii(n: u64)
    ensures
        ascii_seq(dec_rep(n)),
{
    lemma_dec_rep_val(n);
    assert forall|i: int| 0 <= i < dec_rep(n).len() implies (#[trigger] dec_rep(n)[i]) < 128 by {
        assert(is_digit(dec_rep(n)[i]));
    }
}

/// Printable text encodes to ASCII bytes with no control bytes: it is both
/// an ASCII document and well-formed string payload.
pub proof fn lemma_printable_encode(t: Seq<char>)
    requires
        printable_chars(t),
    ensures
        ascii_seq(encode_utf8(t)),
        wf_string(t),
    decreases t.len(),
{
    if t.len() == 0 {
        assert(encode_utf8(t) =~= Seq::<u8>::empty());
    } else {
        assert(printable(t[0]));
        let c0: u32 = t[0] as u32;
        assert(vstd::utf8::has_width_1_encoding(c0));
        let b0: u8 = vstd::utf8::leading_byte_width_1(c0);
        assert(b0 == c0) by (bit_vector)
            requires
                b0 == (c0 & 0x7F) as u8,
                32 <= c0 && c0 < 127,
        ;
        assert(vstd::utf8::encode_scalar(c0) =~= seq![b0]);
        assert(printable_chars(t.drop_first())) by {
            assert(forall|i: int|
                0 <= i < t.drop_first().len() ==> t.drop_first()[i] == t[i + 1]);
        }
        lemma_printable_encode(t.drop_first());
        assert(encode_utf8(t) == vstd::utf8::encode_scalar(c0) + encode_utf8(t.drop_first()));
        assert forall|i: int|
            0 <= i < encode_utf8(t).len() implies (#[trigger] encode_utf8(t)[i]) < 128
            && wf_text_byte(encode_utf8(t)[i]) by {
            if i == 0 {
                assert(encode_utf8(t)[0] == b0);
            } else {
                assert(encode_utf8(t)[i] == encode_utf8(t.drop_first())[i - 1]);
            }
        }
    }
}

} // verus!
