//! Header maps as they travel inside the wrapped HTTP objects.
//!
//! On the wire a header map is a JSON object.  A value is either a JSON
//! string (the common case) or any other JSON value — a primitive or a whole
//! object or array — kept as its raw token text, since rebuilding an HTTP
//! header only ever needs its textual form.  This module also holds the
//! conversions between raw HTTP header bytes and their JSON representation,
//! with the base64 fallback for bytes that are not valid UTF-8.

use vstd::prelude::*;
use vstd::utf8::valid_utf8;
use crate::json::QUOTE;
use crate::json::BACKSLASH;
use crate::json::LBRACE;
use crate::json::RBRACE;
use crate::json::LBRACKET;
use crate::json::RBRACKET;
use crate::json::COMMA;
use crate::json::COLON;
use crate::json::wf_text;
use crate::json::ser_text;
use crate::json::p_text;
use crate::json::prepend_text;
use crate::json::lemma_prepend_empty;
use crate::json::lemma_prepend_assoc;
use crate::json::lemma_p_text_inv;
use crate::json::lemma_p_text_remainder;
use crate::json::emit_text;
use crate::json::parse_text;
use crate::trusted::base64_bytes_of;
use crate::trusted::base64_encode;
use crate::trusted::utf8_check;

verus! {

// ---------------------------------------------------------------------------
// Raw primitive tokens.
// ---------------------------------------------------------------------------

/// Bytes that may appear in a raw (non-string) JSON primitive token.
pub open spec fn ok_other_byte(b: u8) -> bool {
    &&& 32 <= b
    &&& b != QUOTE
    &&& b != BACKSLASH
    &&& b != COMMA
    &&& b != COLON
    &&& b != LBRACE
    &&& b != RBRACE
    &&& b != LBRACKET
    &&& b != RBRACKET
}

pub open spec fn wf_other(t: Seq<u8>) -> bool {
    t.len() > 0 && (forall|i: int| 0 <= i < t.len() ==> ok_other_byte(t[i]))
}

/// A raw token runs up to, but not including, the `,` or `}` that ends it.
pub open spec fn p_other(s: Seq<u8>) -> Option<(Seq<u8>, Seq<u8>)>
    decreases s.len(),
{
    if s.len() == 0 {
        None
    } else if s[0] == COMMA || s[0] == RBRACE {
        Some((Seq::empty(), s))
    } else if ok_other_byte(s[0]) {
        prepend_text(seq![s[0]], p_other(s.drop_first()))
    } else {
        None
    }
}

proof fn lemma_p_other_remainder(s: Seq<u8>)
    ensures
        match p_other(s) {
            Some(p) => p.1.len() + p.0.len() == s.len(),
            None => true,
        },
    decreases s.len(),
{
    if s.len() == 0 {
    } else if s[0] == COMMA || s[0] == RBRACE {
    } else if ok_other_byte(s[0]) {
        lemma_p_other_remainder(s.drop_first());
    }
}

proof fn lemma_p_other_inv(t: Seq<u8>, rest: Seq<u8>)
    requires
        forall|i: int| 0 <= i < t.len() ==> ok_other_byte(t[i]),
        rest.len() > 0,
        rest[0] == COMMA || rest[0] == RBRACE,
    ensures
        p_other(t + rest) == Some((t, rest)),
    decreases t.len(),
{
    if t.len() == 0 {
        assert(t + rest =~= rest);
        assert(t =~= Seq::<u8>::empty());
    } else {
        let whole = t + rest;
        assert(whole[0] == t[0]);
        assert(ok_other_byte(t[0]));
        assert(whole[0] != COMMA && whole[0] != RBRACE);
        assert(whole.drop_first() =~= t.drop_first() + rest);
        lemma_p_other_inv(t.drop_first(), rest);
        assert(p_other(whole) == prepend_text(seq![t[0]], Some((t.drop_first(), rest))));
        assert(seq![t[0]] + t.drop_first() =~= t);
    }
}

// ---------------------------------------------------------------------------
// Balanced containers.  A header value may be a whole JSON object or array;
// it is carried as its raw token text.  The scan below finds where such a
// value ends: it walks bytes tracking bracket depth, skipping over strings
// (with escapes), and stops after the bracket that closes the first one.
// ---------------------------------------------------------------------------

/// The end position of the balanced region, scanning from `i` at the given
/// depth and string state; the opening bracket is behind `i`.
pub open spec fn raw_scan(s: Seq<u8>, i: int, depth: int, in_str: bool, esc: bool) -> Option<int>
    decreases s.len() - i,
{
    if i < 0 || i >= s.len() {
        None
    } else {
        let b = s[i];
        if in_str {
            if esc {
                raw_scan(s, i + 1, depth, true, false)
            } else if b == BACKSLASH {
                raw_scan(s, i + 1, depth, true, true)
            } else if b == QUOTE {
                raw_scan(s, i + 1, depth, false, false)
            } else {
                raw_scan(s, i + 1, depth, true, false)
            }
        } else if b == LBRACE || b == LBRACKET {
            raw_scan(s, i + 1, depth + 1, false, false)
        } else if b == RBRACE || b == RBRACKET {
            if depth == 1 {
                Some(i + 1)
            } else if depth > 1 {
                raw_scan(s, i + 1, depth - 1, false, false)
            } else {
                None
            }
        } else if b == QUOTE {
            raw_scan(s, i + 1, depth, true, false)
        } else {
            raw_scan(s, i + 1, depth, false, false)
        }
    }
}

/// A balanced container token: it opens with `{` or `[` and the scan ends
/// exactly at its last byte.
pub open spec fn wf_container(t: Seq<u8>) -> bool {
    &&& t.len() >= 2
    &&& (t[0] == LBRACE || t[0] == LBRACKET)
    &&& raw_scan(t, 1, 1, false, false) == Some(t.len() as int)
}

proof fn lemma_raw_scan_bounds(s: Seq<u8>, i: int, depth: int, in_str: bool, esc: bool)
    ensures
        match raw_scan(s, i, depth, in_str, esc) {
            Some(e) => i < e <= s.len(),
            None => true,
        },
    decreases s.len() - i,
{
    if i < 0 || i >= s.len() {
    } else {
        let b = s[i];
        if in_str {
            if esc {
                lemma_raw_scan_bounds(s, i + 1, depth, true, false);
            } else if b == BACKSLASH {
                lemma_raw_scan_bounds(s, i + 1, depth, true, true);
            } else if b == QUOTE {
                lemma_raw_scan_bounds(s, i + 1, depth, false, false);
            } else {
                lemma_raw_scan_bounds(s, i + 1, depth, true, false);
            }
        } else if b == LBRACE || b == LBRACKET {
            lemma_raw_scan_bounds(s, i + 1, depth + 1, false, false);
        } else if b == RBRACE || b == RBRACKET {
            if depth > 1 {
                lemma_raw_scan_bounds(s, i + 1, depth - 1, false, false);
            }
        } else if b == QUOTE {
            lemma_raw_scan_bounds(s, i + 1, depth, true, false);
        } else {
            lemma_raw_scan_bounds(s, i + 1, depth, false, false);
        }
    }
}

/// The scan is determined by the bytes it walks: extending the sequence
/// beyond a found end does not move it.
proof fn lemma_raw_scan_suffix(
    s: Seq<u8>,
    rest: Seq<u8>,
    i: int,
    depth: int,
    in_str: bool,
    esc: bool,
)
    requires
        raw_scan(s, i, depth, in_str, esc) is Some,
    ensures
        raw_scan(s + rest, i, depth, in_str, esc) == raw_scan(s, i, depth, in_str, esc),
    decreases s.len() - i,
{
    if i < 0 || i >= s.len() {
    } else {
        assert((s + rest)[i] == s[i]);
        let b = s[i];
        if in_str {
            if esc {
                lemma_raw_scan_suffix(s, rest, i + 1, depth, true, false);
            } else if b == BACKSLASH {
                lemma_raw_scan_suffix(s, rest, i + 1, depth, true, true);
            } else if b == QUOTE {
                lemma_raw_scan_suffix(s, rest, i + 1, depth, false, false);
            } else {
                lemma_raw_scan_suffix(s, rest, i + 1, depth, true, false);
            }
        } else if b == LBRACE || b == LBRACKET {
            lemma_raw_scan_suffix(s, rest, i + 1, depth + 1, false, false);
        } else if b == RBRACE || b == RBRACKET {
            if depth > 1 {
                lemma_raw_scan_suffix(s, rest, i + 1, depth - 1, false, false);
            }
        } else if b == QUOTE {
            lemma_raw_scan_suffix(s, rest, i + 1, depth, true, false);
        } else {
            lemma_raw_scan_suffix(s, rest, i + 1, depth, false, false);
        }
    }
}

// ---------------------------------------------------------------------------
// Header values: a JSON string, a flat primitive token, or a balanced
// container, the latter two carried raw.  The view of a value is
// `(is_text, bytes)`.
// ---------------------------------------------------------------------------

pub open spec fn ser_hval(v: (bool, Seq<u8>)) -> Seq<u8> {
    if v.0 {
        ser_text(v.1)
    } else {
        v.1
    }
}

pub open spec fn wf_hval(v: (bool, Seq<u8>)) -> bool {
    if v.0 {
        wf_text(v.1)
    } else {
        wf_other(v.1) || wf_container(v.1)
    }
}

pub open spec fn p_hval(s: Seq<u8>) -> Option<((bool, Seq<u8>), Seq<u8>)> {
    if s.len() > 0 && s[0] == QUOTE {
        match p_text(s) {
            Some(p) => Some(((true, p.0), p.1)),
            None => None,
        }
    } else if s.len() > 0 && (s[0] == LBRACE || s[0] == LBRACKET) {
        match raw_scan(s, 1, 1, false, false) {
            Some(e) => Some(((false, s.take(e)), s.skip(e))),
            None => None,
        }
    } else {
        match p_other(s) {
            Some(p) => if p.0.len() > 0 {
                Some(((false, p.0), p.1))
            } else {
                None
            },
            None => None,
        }
    }
}

proof fn lemma_p_hval_remainder(s: Seq<u8>)
    ensures
        match p_hval(s) {
            Some(p) => p.1.len() < s.len(),
            None => true,
        },
{
    lemma_p_text_remainder(s);
    lemma_p_other_remainder(s);
    if s.len() > 0 && (s[0] == LBRACE || s[0] == LBRACKET) {
        lemma_raw_scan_bounds(s, 1, 1, false, false);
    }
}

pub proof fn lemma_p_hval_inv(v: (bool, Seq<u8>), rest: Seq<u8>)
    requires
        wf_hval(v),
        rest.len() > 0,
        rest[0] == COMMA || rest[0] == RBRACE,
    ensures
        p_hval(ser_hval(v) + rest) == Some((v, rest)),
{
    let whole = ser_hval(v) + rest;
    if v.0 {
        assert(whole[0] == ser_text(v.1)[0]);
        assert(ser_text(v.1)[0] == QUOTE);
        lemma_p_text_inv(v.1, rest);
        assert(whole =~= ser_text(v.1) + rest);
    } else if wf_container(v.1) {
        assert(whole[0] == v.1[0]);
        lemma_raw_scan_suffix(v.1, rest, 1, 1, false, false);
        assert(raw_scan(whole, 1, 1, false, false) == Some(v.1.len() as int));
        assert(whole.take(v.1.len() as int) =~= v.1);
        assert(whole.skip(v.1.len() as int) =~= rest);
    } else {
        assert(whole[0] == v.1[0]);
        assert(ok_other_byte(v.1[0]));
        assert(whole[0] != QUOTE && whole[0] != LBRACE && whole[0] != LBRACKET);
        lemma_p_other_inv(v.1, rest);
    }
}

// ---------------------------------------------------------------------------
// Header objects.  The view of a header list is a sequence of
// `(key bytes, value)` pairs, in wire order.
// ---------------------------------------------------------------------------

pub open spec fn ser_hdr_entry(e: (Seq<u8>, (bool, Seq<u8>))) -> Seq<u8> {
    ser_text(e.0) + seq![COLON] + ser_hval(e.1)
}

pub open spec fn ser_hdr_entries(h: Seq<(Seq<u8>, (bool, Seq<u8>))>) -> Seq<u8>
    decreases h.len(),
{
    if h.len() == 0 {
        Seq::empty()
    } else if h.len() == 1 {
        ser_hdr_entry(h[0])
    } else {
        ser_hdr_entry(h[0]) + seq![COMMA] + ser_hdr_entries(h.drop_first())
    }
}

pub open spec fn ser_hdrs(h: Seq<(Seq<u8>, (bool, Seq<u8>))>) -> Seq<u8> {
    if h.len() == 0 {
        seq![LBRACE, RBRACE]
    } else {
        seq![LBRACE] + ser_hdr_entries(h) + seq![RBRACE]
    }
}

pub open spec fn wf_hdrs(h: Seq<(Seq<u8>, (bool, Seq<u8>))>) -> bool {
    forall|i: int|
        0 <= i < h.len() ==> wf_text(#[trigger] h[i].0) && wf_hval(h[i].1)
}

pub open spec fn prepend_hdrs(
    acc: Seq<(Seq<u8>, (bool, Seq<u8>))>,
    o: Option<(Seq<(Seq<u8>, (bool, Seq<u8>))>, Seq<u8>)>,
) -> Option<(Seq<(Seq<u8>, (bool, Seq<u8>))>, Seq<u8>)> {
    match o {
        Some(p) => Some((acc + p.0, p.1)),
        None => None,
    }
}

proof fn lemma_prepend_hdrs_empty(o: Option<(Seq<(Seq<u8>, (bool, Seq<u8>))>, Seq<u8>)>)
    ensures
        prepend_hdrs(Seq::empty(), o) == o,
{
    match o {
        Some(p) => {
            assert(Seq::empty() + p.0 =~= p.0);
        },
        None => {},
    }
}

proof fn lemma_prepend_hdrs_assoc(
    a: Seq<(Seq<u8>, (bool, Seq<u8>))>,
    b: Seq<(Seq<u8>, (bool, Seq<u8>))>,
    o: Option<(Seq<(Seq<u8>, (bool, Seq<u8>))>, Seq<u8>)>,
)
    ensures
        prepend_hdrs(a, prepend_hdrs(b, o)) == prepend_hdrs(a + b, o),
{
    match o {
        Some(p) => {
            assert(a + (b + p.0) =~= (a + b) + p.0);
        },
        None => {},
    }
}

/// One or more `"key":value` entries followed by the closing brace.
pub open spec fn p_hdr_entries(s: Seq<u8>) -> Option<(Seq<(Seq<u8>, (bool, Seq<u8>))>, Seq<u8>)>
    decreases s.len(),
    via p_hdr_entries_dec
{
    match p_text(s) {
        None => None,
        Some(k) => if k.1.len() > 0 && k.1[0] == COLON {
            match p_hval(k.1.drop_first()) {
                None => None,
                Some(v) => if v.1.len() > 0 && v.1[0] == COMMA {
                    prepend_hdrs(seq![(k.0, v.0)], p_hdr_entries(v.1.drop_first()))
                } else if v.1.len() > 0 && v.1[0] == RBRACE {
                    Some((seq![(k.0, v.0)], v.1.drop_first()))
                } else {
                    None
                },
            }
        } else {
            None
        },
    }
}

#[via_fn]
proof fn p_hdr_entries_dec(s: Seq<u8>) {
    lemma_p_text_remainder(s);
    match p_text(s) {
        Some(k) => {
            if k.1.len() > 0 && k.1[0] == COLON {
                lemma_p_hval_remainder(k.1.drop_first());
            }
        },
        None => {},
    }
}

pub open spec fn p_hdrs(s: Seq<u8>) -> Option<(Seq<(Seq<u8>, (bool, Seq<u8>))>, Seq<u8>)> {
    if s.len() >= 2 && s[0] == LBRACE && s[1] == RBRACE {
        Some((Seq::empty(), s.skip(2)))
    } else if s.len() >= 1 && s[0] == LBRACE {
        p_hdr_entries(s.drop_first())
    } else {
        None
    }
}

proof fn lemma_p_hdr_entries_inv(h: Seq<(Seq<u8>, (bool, Seq<u8>))>, rest: Seq<u8>)
    requires
        h.len() >= 1,
        wf_hdrs(h),
    ensures
        p_hdr_entries(ser_hdr_entries(h) + seq![RBRACE] + rest) == Some((h, rest)),
    decreases h.len(),
{
    let e = h[0];
    if h.len() == 1 {
        let whole = ser_hdr_entries(h) + seq![RBRACE] + rest;
        let after_key = seq![COLON] + ser_hval(e.1) + seq![RBRACE] + rest;
        assert(whole =~= ser_text(e.0) + after_key);
        lemma_p_text_inv(e.0, after_key);
        assert(after_key[0] == COLON);
        let at_val = ser_hval(e.1) + (seq![RBRACE] + rest);
        assert(after_key.drop_first() =~= at_val);
        assert((seq![RBRACE] + rest)[0] == RBRACE);
        lemma_p_hval_inv(e.1, seq![RBRACE] + rest);
        assert(p_hval(at_val) == Some((e.1, seq![RBRACE] + rest)));
        assert((seq![RBRACE] + rest)[0] != COMMA);
        assert((seq![RBRACE] + rest).drop_first() =~= rest);
        assert(seq![(e.0, e.1)] =~= h);
    } else {
        let h2 = h.drop_first();
        let inner = ser_hdr_entries(h2) + seq![RBRACE] + rest;
        let whole = ser_hdr_entries(h) + seq![RBRACE] + rest;
        let after_key = seq![COLON] + ser_hval(e.1) + seq![COMMA] + inner;
        assert(ser_hdr_entries(h) == ser_hdr_entry(e) + seq![COMMA] + ser_hdr_entries(h2));
        assert(whole =~= ser_text(e.0) + after_key);
        lemma_p_text_inv(e.0, after_key);
        assert(after_key[0] == COLON);
        let at_val = ser_hval(e.1) + (seq![COMMA] + inner);
        assert(after_key.drop_first() =~= at_val);
        assert((seq![COMMA] + inner)[0] == COMMA);
        lemma_p_hval_inv(e.1, seq![COMMA] + inner);
        assert(p_hval(at_val) == Some((e.1, seq![COMMA] + inner)));
        assert((seq![COMMA] + inner).drop_first() =~= inner);
        assert(wf_hdrs(h2)) by {
            assert forall|i: int|
                0 <= i < h2.len() implies wf_text(#[trigger] h2[i].0) && wf_hval(h2[i].1) by {
                assert(h2[i] == h[i + 1]);
                assert(wf_text(h[i + 1].0) && wf_hval(h[i + 1].1));
            }
        }
        lemma_p_hdr_entries_inv(h2, rest);
        assert(p_hdr_entries(whole) == prepend_hdrs(seq![(e.0, e.1)], Some((h2, rest))));
        assert(seq![(e.0, e.1)] + h2 =~= h);
    }
}

pub proof fn lemma_p_hdrs_inv(h: Seq<(Seq<u8>, (bool, Seq<u8>))>, rest: Seq<u8>)
    requires
        wf_hdrs(h),
    ensures
        p_hdrs(ser_hdrs(h) + rest) == Some((h, rest)),
{
    let whole = ser_hdrs(h) + rest;
    if h.len() == 0 {
        assert(whole =~= seq![LBRACE, RBRACE] + rest);
        assert(whole[0] == LBRACE && whole[1] == RBRACE);
        assert(whole.skip(2) =~= rest);
        assert(h =~= Seq::<(Seq<u8>, (bool, Seq<u8>))>::empty());
    } else {
        assert(whole[0] == LBRACE);
        assert(ser_hdr_entries(h)[0] == ser_hdr_entry(h[0])[0]);
        assert(ser_hdr_entry(h[0])[0] == QUOTE);
        assert(whole[1] == QUOTE);
        assert(whole[1] != RBRACE);
        assert(whole.drop_first() =~= ser_hdr_entries(h) + seq![RBRACE] + rest);
        lemma_p_hdr_entries_inv(h, rest);
    }
}

// ---------------------------------------------------------------------------
// Executable representation.
// ---------------------------------------------------------------------------

pub enum HeaderVal {
    /// A JSON string value; the bytes are the unescaped payload.
    Text(Vec<u8>),
    /// Any other JSON primitive, kept as its raw token text.
    Other(Vec<u8>),
}

impl View for HeaderVal {
    type V = (bool, Seq<u8>);

    open spec fn view(&self) -> (bool, Seq<u8>) {
        match self {
            HeaderVal::Text(v) => (true, v@),
            HeaderVal::Other(v) => (false, v@),
        }
    }
}

/// A header map in wire order.
pub struct HeaderList {
    pub entries: Vec<(Vec<u8>, HeaderVal)>,
}

impl View for HeaderList {
    type V = Seq<(Seq<u8>, (bool, Seq<u8>))>;

    open spec fn view(&self) -> Seq<(Seq<u8>, (bool, Seq<u8>))> {
        self.entries@.map_values(|e: (Vec<u8>, HeaderVal)| (e.0@, e.1@))
    }
}

impl HeaderList {
    pub fn new() -> (r: HeaderList)
        ensures
            r@ =~= Seq::<(Seq<u8>, (bool, Seq<u8>))>::empty(),
    {
        HeaderList { entries: Vec::new() }
    }

    pub fn push(&mut self, key: Vec<u8>, val: HeaderVal)
        ensures
            final(self)@ =~= old(self)@.push((key@, val@)),
    {
        let ghost before = self@;
        self.entries.push((key, val));
        proof {
            assert(final(self)@ =~= before.push((key@, val@)));
        }
    }
}

pub fn emit_hval(out: &mut Vec<u8>, v: &HeaderVal)
    ensures
        final(out)@ == old(out)@ + ser_hval(v@),
{
    match v {
        HeaderVal::Text(b) => {
            emit_text(out, b.as_slice());
        },
        HeaderVal::Other(b) => {
            out.extend_from_slice(b.as_slice());
            proof {
                assert(out@ =~= old(out)@ + ser_hval(v@));
            }
        },
    }
}

proof fn lemma_ser_hdr_entries_snoc(h: Seq<(Seq<u8>, (bool, Seq<u8>))>)
    requires
        h.len() > 1,
    ensures
        ser_hdr_entries(h) == ser_hdr_entries(h.drop_last()) + seq![COMMA] + ser_hdr_entry(
            h.last(),
        ),
    decreases h.len(),
{
    if h.len() == 2 {
        assert(h.drop_first().len() == 1);
        assert(ser_hdr_entries(h.drop_first()) == ser_hdr_entry(h.drop_first()[0]));
        assert(h.drop_last() =~= seq![h[0]]);
        assert(ser_hdr_entries(h) =~= ser_hdr_entries(h.drop_last()) + seq![COMMA]
            + ser_hdr_entry(h.last()));
    } else {
        lemma_ser_hdr_entries_snoc(h.drop_first());
        assert(h.drop_first().drop_last() =~= h.drop_last().drop_first());
        assert(h.drop_first().last() == h.last());
        assert(h.drop_last().len() > 1);
        assert(h.drop_last()[0] == h[0]);
        assert(ser_hdr_entries(h.drop_last()) == ser_hdr_entry(h[0]) + seq![COMMA]
            + ser_hdr_entries(h.drop_last().drop_first()));
        assert(ser_hdr_entries(h) =~= ser_hdr_entries(h.drop_last()) + seq![COMMA]
            + ser_hdr_entry(h.last()));
    }
}

pub fn emit_hdrs(out: &mut Vec<u8>, h: &HeaderList)
    ensures
        final(out)@ == old(out)@ + ser_hdrs(h@),
{
    out.push(LBRACE);
    if h.entries.len() == 0 {
        out.push(RBRACE);
        proof {
            assert(out@ =~= old(out)@ + ser_hdrs(h@));
        }
        return ;
    }
    let ghost base = out@;
    let mut i: usize = 0;
    while i < h.entries.len()
        invariant
            0 < h@.len() == h.entries@.len(),
            i <= h@.len(),
            out@ == base + ser_hdr_entries(h@.take(i as int)),
        decreases h@.len() - i,
    {
        if i > 0 {
            out.push(COMMA);
        }
        let entry = &h.entries[i];
        proof {
            assert(h@[i as int] == (h.entries@[i as int].0@, h.entries@[i as int].1@));
        }
        emit_text(out, entry.0.as_slice());
        out.push(COLON);
        emit_hval(out, &entry.1);
        proof {
            if i == 0 {
                assert(h@.take(1) =~= seq![h@[0]]);
                assert(ser_hdr_entries(h@.take(1)) == ser_hdr_entry(h@[0]));
                assert(ser_hdr_entries(h@.take(0)) =~= Seq::<u8>::empty());
                assert(out@ =~= base + ser_hdr_entries(h@.take(i + 1 as int)));
            } else {
                lemma_ser_hdr_entries_snoc(h@.take(i + 1 as int));
                assert(h@.take(i + 1 as int).drop_last() =~= h@.take(i as int));
                assert(h@.take(i + 1 as int).last() == h@[i as int]);
                assert(out@ =~= base + ser_hdr_entries(h@.take(i + 1 as int)));
            }
        }
        i = i + 1;
    }
    proof {
        assert(h@.take(h@.len() as int) =~= h@);
    }
    out.push(RBRACE);
    proof {
        assert(out@ =~= old(out)@ + ser_hdrs(h@));
    }
}

// ---------------------------------------------------------------------------
// Executable parsers.
// ---------------------------------------------------------------------------

pub fn parse_other(input: &[u8], i: usize) -> (r: Option<(Vec<u8>, usize)>)
    requires
        i <= input@.len(),
    ensures
        match r {
            Some(p) => i <= p.1 <= input@.len() && p_other(input@.skip(i as int)) == Some(
                (p.0@, input@.skip(p.1 as int)),
            ),
            None => p_other(input@.skip(i as int)) is None,
        },
{
    let mut out: Vec<u8> = Vec::new();
    let mut pos: usize = i;
    proof {
        lemma_prepend_empty(p_other(input@.skip(i as int)));
    }
    loop
        invariant
            i <= pos <= input@.len(),
            p_other(input@.skip(i as int)) == prepend_text(
                out@,
                p_other(input@.skip(pos as int)),
            ),
        decreases input@.len() - pos,
    {
        if pos == input.len() {
            return None;
        }
        let b = input[pos];
        proof {
            assert(input@.skip(pos as int)[0] == b);
            assert(input@.skip(pos as int).drop_first() =~= input@.skip(pos + 1 as int));
        }
        if b == COMMA || b == RBRACE {
            proof {
                assert(p_other(input@.skip(pos as int)) == Some(
                    (Seq::<u8>::empty(), input@.skip(pos as int)),
                ));
                assert(out@ + Seq::<u8>::empty() =~= out@);
            }
            return Some((out, pos));
        }
        if !(32 <= b && b != QUOTE && b != BACKSLASH && b != COLON && b != LBRACE && b != LBRACKET
            && b != RBRACKET) {
            return None;
        }
        let ghost out0 = out@;
        out.push(b);
        proof {
            assert(out@ =~= out0 + seq![b]);
            assert(p_other(input@.skip(pos as int)) == prepend_text(
                seq![b],
                p_other(input@.skip(pos + 1 as int)),
            ));
            lemma_prepend_assoc(out0, seq![b], p_other(input@.skip(pos + 1 as int)));
        }
        pos = pos + 1;
    }
}

fn copy_range(input: &[u8], a: usize, b: usize) -> (r: Vec<u8>)
    requires
        a <= b <= input@.len(),
    ensures
        r@ == input@.subrange(a as int, b as int),
{
    let mut r: Vec<u8> = Vec::new();
    let mut k: usize = a;
    while k < b
        invariant
            a <= k <= b <= input@.len(),
            r@ == input@.subrange(a as int, k as int),
        decreases b - k,
    {
        r.push(input[k]);
        proof {
            assert(r@ =~= input@.subrange(a as int, k + 1 as int));
        }
        k = k + 1;
    }
    r
}

/// Find the end of a balanced container whose opening bracket sits at the
/// start of `input`.
fn scan_raw_value(input: &[u8]) -> (r: Option<usize>)
    ensures
        match r {
            Some(e) => 1 < e <= input@.len() && raw_scan(input@, 1, 1, false, false) == Some(
                e as int,
            ),
            None => raw_scan(input@, 1, 1, false, false) is None,
        },
{
    let n = input.len();
    let mut pos: usize = 1;
    let mut depth: u64 = 1;
    let mut in_str = false;
    let mut esc = false;
    loop
        invariant
            1 <= pos <= n + 1,
            n == input@.len(),
            depth >= 1,
            depth <= pos,
            !in_str ==> esc == false,
            raw_scan(input@, 1, 1, false, false) == raw_scan(
                input@,
                pos as int,
                depth as int,
                in_str,
                esc,
            ),
        decreases input@.len() + 1 - pos,
    {
        if pos >= n {
            return None;
        }
        let ghost gp = pos as int;
        let ghost gd = depth as int;
        let ghost gs = in_str;
        let ghost ge = esc;
        let b = input[pos];
        proof {
            assert(input@[gp] == b);
        }
        if in_str {
            if esc {
                esc = false;
            } else if b == BACKSLASH {
                esc = true;
            } else if b == QUOTE {
                in_str = false;
            }
        } else if b == LBRACE || b == LBRACKET {
            depth = depth + 1;
        } else if b == RBRACE || b == RBRACKET {
            if depth == 1 {
                proof {
                    assert(raw_scan(input@, gp, gd, gs, ge) == Some(gp + 1));
                    lemma_raw_scan_bounds(input@, 1, 1, false, false);
                }
                return Some(pos + 1);
            }
            depth = depth - 1;
        } else if b == QUOTE {
            in_str = true;
        }
        proof {
            assert(raw_scan(input@, gp, gd, gs, ge) == raw_scan(
                input@,
                gp + 1,
                depth as int,
                in_str,
                esc,
            ));
        }
        pos = pos + 1;
    }
}

pub fn parse_hval(input: &[u8], i: usize) -> (r: Option<(HeaderVal, usize)>)
    requires
        i <= input@.len(),
    ensures
        match r {
            Some(p) => i <= p.1 <= input@.len() && p_hval(input@.skip(i as int)) == Some(
                (p.0@, input@.skip(p.1 as int)),
            ),
            None => p_hval(input@.skip(i as int)) is None,
        },
{
    if i < input.len() && input[i] == QUOTE {
        proof {
            assert(input@.skip(i as int)[0] == QUOTE);
        }
        match parse_text(input, i) {
            Some((v, j)) => Some((HeaderVal::Text(v), j)),
            None => None,
        }
    } else if i < input.len() && (input[i] == LBRACE || input[i] == LBRACKET) {
        proof {
            assert(input@.skip(i as int)[0] == input@[i as int]);
        }
        let tail = copy_range(input, i, input.len());
        proof {
            assert(tail@ =~= input@.skip(i as int));
        }
        match scan_raw_value(tail.as_slice()) {
            Some(e) => {
                let token = copy_range(tail.as_slice(), 0, e);
                proof {
                    assert(token@ =~= input@.skip(i as int).take(e as int));
                    assert(input@.skip(i + e as int) =~= input@.skip(i as int).skip(e as int));
                }
                Some((HeaderVal::Other(token), i + e))
            },
            None => None,
        }
    } else {
        proof {
            if i < input@.len() {
                assert(input@.skip(i as int)[0] == input@[i as int]);
            }
        }
        match parse_other(input, i) {
            Some((v, j)) => {
                if v.len() == 0 {
                    return None;
                }
                Some((HeaderVal::Other(v), j))
            },
            None => None,
        }
    }
}

pub fn parse_hdrs(input: &[u8], i: usize) -> (r: Option<(HeaderList, usize)>)
    requires
        i <= input@.len(),
    ensures
        match r {
            Some(p) => i < p.1 <= input@.len() && p_hdrs(input@.skip(i as int)) == Some(
                (p.0@, input@.skip(p.1 as int)),
            ),
            None => p_hdrs(input@.skip(i as int)) is None,
        },
{
    if i == input.len() || input[i] != LBRACE {
        proof {
            if i < input@.len() {
                assert(input@.skip(i as int)[0] == input@[i as int]);
            }
        }
        return None;
    }
    proof {
        assert(input@.skip(i as int)[0] == LBRACE);
        assert(input@.skip(i as int).drop_first() =~= input@.skip(i + 1 as int));
    }
    if i + 1 < input.len() && input[i + 1] == RBRACE {
        proof {
            assert(input@.skip(i as int)[1] == RBRACE);
            assert(input@.skip(i as int).skip(2) =~= input@.skip(i + 2 as int));
        }
        return Some((HeaderList::new(), i + 2));
    }
    let mut out = HeaderList::new();
    let mut pos: usize = i + 1;
    proof {
        lemma_prepend_hdrs_empty(p_hdr_entries(input@.skip(i + 1 as int)));
    }
    loop
        invariant
            i + 1 <= pos <= input@.len(),
            i < input@.len() && input@[i as int] == LBRACE,
            !(i + 1 < input@.len() && input@[i + 1] == RBRACE),
            p_hdrs(input@.skip(i as int)) == prepend_hdrs(
                out@,
                p_hdr_entries(input@.skip(pos as int)),
            ),
        decreases input@.len() - pos,
    {
        let (key, j1) = match parse_text(input, pos) {
            Some(p) => p,
            None => {
                return None;
            },
        };
        proof {
            assert(p_text(input@.skip(pos as int)) == Some((key@, input@.skip(j1 as int))));
        }
        if j1 == input.len() || input[j1] != COLON {
            proof {
                if j1 < input@.len() {
                    assert(input@.skip(j1 as int)[0] == input@[j1 as int]);
                }
            }
            return None;
        }
        proof {
            assert(input@.skip(j1 as int)[0] == COLON);
            assert(input@.skip(j1 as int).drop_first() =~= input@.skip(j1 + 1 as int));
        }
        let (val, j2) = match parse_hval(input, j1 + 1) {
            Some(p) => p,
            None => {
                return None;
            },
        };
        proof {
            assert(p_hval(input@.skip(j1 + 1 as int)) == Some((val@, input@.skip(j2 as int))));
        }
        let ghost out0 = out@;
        let ghost keyv = key@;
        let ghost valv = val@;
        out.push(key, val);
        proof {
            assert(out@ =~= out0 + seq![(keyv, valv)]);
        }
        if j2 < input.len() && input[j2] == COMMA {
            proof {
                assert(input@.skip(j2 as int)[0] == COMMA);
                assert(input@.skip(j2 as int).drop_first() =~= input@.skip(j2 + 1 as int));
                assert(p_hdr_entries(input@.skip(pos as int)) == prepend_hdrs(
                    seq![(keyv, valv)],
                    p_hdr_entries(input@.skip(j2 + 1 as int)),
                ));
                lemma_prepend_hdrs_assoc(
                    out0,
                    seq![(keyv, valv)],
                    p_hdr_entries(input@.skip(j2 + 1 as int)),
                );
            }
            pos = j2 + 1;
        } else if j2 < input.len() && input[j2] == RBRACE {
            proof {
                assert(input@.skip(j2 as int)[0] == RBRACE);
                assert(input@.skip(j2 as int)[0] != COMMA);
                assert(input@.skip(j2 as int).drop_first() =~= input@.skip(j2 + 1 as int));
                assert(p_hdr_entries(input@.skip(pos as int)) == Some(
                    (seq![(keyv, valv)], input@.skip(j2 + 1 as int)),
                ));
                assert(p_hdrs(input@.skip(i as int)) == Some(
                    (out0 + seq![(keyv, valv)], input@.skip(j2 + 1 as int)),
                ));
            }
            return Some((out, j2 + 1));
        } else {
            proof {
                if j2 < input@.len() {
                    assert(input@.skip(j2 as int)[0] == input@[j2 as int]);
                }
            }
            return None;
        }
    }
}

// ---------------------------------------------------------------------------
// Conversion between raw HTTP header bytes and their JSON representation.
// ---------------------------------------------------------------------------

/// Bytes an HTTP header value may hold: horizontal tab, printable ASCII and
/// the upper half, but no other control bytes.
pub open spec fn is_valid_header_byte(b: u8) -> bool {
    b == 9 || (32 <= b && b != 127)
}

pub open spec fn valid_header_bytes(s: Seq<u8>) -> bool {
    forall|i: int| 0 <= i < s.len() ==> is_valid_header_byte(#[trigger] s[i])
}

/// What a raw header value becomes in the JSON map: the string itself when it
/// is UTF-8, else its base64 encoding.
pub open spec fn hval_of_header_bytes(v: Seq<u8>) -> (bool, Seq<u8>) {
    if valid_utf8(v) {
        (true, v)
    } else {
        (true, base64_bytes_of(v))
    }
}

/// What a JSON map value becomes when an HTTP header is rebuilt from it: its
/// bytes when they are a legal header value, else the empty value.
pub open spec fn header_bytes_of_hval(v: (bool, Seq<u8>)) -> Seq<u8> {
    if valid_header_bytes(v.1) {
        v.1
    } else {
        Seq::empty()
    }
}

pub fn header_value_to_json(v: &[u8]) -> (r: HeaderVal)
    ensures
        r@ == hval_of_header_bytes(v@),
{
    if utf8_check(v) {
        let mut b: Vec<u8> = Vec::new();
        b.extend_from_slice(v);
        proof {
            assert(b@ =~= v@);
        }
        HeaderVal::Text(b)
    } else {
        HeaderVal::Text(base64_encode(v))
    }
}

impl HeaderVal {
    /// The payload bytes, whichever shape the value has.
    pub fn value_bytes(&self) -> (r: &Vec<u8>)
        ensures
            r@ == self@.1,
    {
        match self {
            HeaderVal::Text(b) => b,
            HeaderVal::Other(b) => b,
        }
    }
}

pub fn json_to_header_value(v: &HeaderVal) -> (r: Vec<u8>)
    ensures
        r@ == header_bytes_of_hval(v@),
{
    let bytes: &Vec<u8> = v.value_bytes();
    let mut k: usize = 0;
    while k < bytes.len()
        invariant
            k <= bytes@.len(),
            bytes@ == v@.1,
            forall|m: int| 0 <= m < k ==> is_valid_header_byte(#[trigger] bytes@[m]),
        decreases bytes@.len() - k,
    {
        let b = bytes[k];
        if !(b == 9 || (32 <= b && b != 127)) {
            proof {
                assert(bytes@ == v@.1);
                assert(!is_valid_header_byte(bytes@[k as int]));
                assert(!valid_header_bytes(v@.1));
                assert(Seq::<u8>::empty() =~= header_bytes_of_hval(v@));
            }
            let r: Vec<u8> = Vec::new();
            proof {
                assert(r@ =~= Seq::<u8>::empty());
            }
            return r;
        }
        k = k + 1;
    }
    let mut r: Vec<u8> = Vec::new();
    r.extend_from_slice(bytes.as_slice());
    proof {
        assert(r@ =~= bytes@);
    }
    r
}

/// Round trip of a single header value through the JSON map: a UTF-8 value
/// that is a legal header value comes back unchanged; a value that is not
/// UTF-8 goes out as its base64 text.
pub proof fn lemma_header_value_round_trip(v: Seq<u8>)
    ensures
        valid_utf8(v) && valid_header_bytes(v) ==> header_bytes_of_hval(hval_of_header_bytes(v))
            == v,
        !valid_utf8(v) ==> hval_of_header_bytes(v) == (true, base64_bytes_of(v)),
{
}


/// A raw header map in its JSON form.
pub open spec fn header_map_to_json(h: Seq<(Seq<u8>, Seq<u8>)>) -> Seq<(Seq<u8>, (bool, Seq<u8>))> {
    h.map_values(|e: (Seq<u8>, Seq<u8>)| (e.0, hval_of_header_bytes(e.1)))
}

/// A JSON header map rebuilt as raw headers.
pub open spec fn json_to_header_map(h: Seq<(Seq<u8>, (bool, Seq<u8>))>) -> Seq<(Seq<u8>, Seq<u8>)> {
    h.map_values(|e: (Seq<u8>, (bool, Seq<u8>))| (e.0, header_bytes_of_hval(e.1)))
}

/// Round trip of a whole header map through its JSON form: identity whenever
/// every value is UTF-8 text that is legal in a header.  Values that are not
/// UTF-8 go out one-way, as their base64 text.
pub proof fn lemma_header_map_round_trip(h: Seq<(Seq<u8>, Seq<u8>)>)
    requires
        forall|i: int|
            0 <= i < h.len() ==> valid_utf8(#[trigger] h[i].1) && valid_header_bytes(h[i].1),
    ensures
        json_to_header_map(header_map_to_json(h)) == h,
{
    assert(json_to_header_map(header_map_to_json(h)) =~= h);
}


/// Entries whose keys and payloads are all ASCII.
pub open spec fn ascii_hdrs(h: Seq<(Seq<u8>, (bool, Seq<u8>))>) -> bool {
    forall|i: int|
        0 <= i < h.len() ==> crate::json::ascii_seq(#[trigger] h[i].0) && crate::json::ascii_seq(
            h[i].1.1,
        )
}

proof fn lemma_ser_hdr_entry_ascii(e: (Seq<u8>, (bool, Seq<u8>)))
    requires
        crate::json::ascii_seq(e.0),
        crate::json::ascii_seq(e.1.1),
    ensures
        crate::json::ascii_seq(ser_hdr_entry(e)),
{
    crate::json::lemma_ser_text_ascii(e.0);
    if e.1.0 {
        crate::json::lemma_ser_text_ascii(e.1.1);
    }
    crate::json::lemma_ascii_concat(ser_text(e.0), seq![COLON]);
    crate::json::lemma_ascii_concat(ser_text(e.0) + seq![COLON], ser_hval(e.1));
}

proof fn lemma_ser_hdr_entries_ascii(h: Seq<(Seq<u8>, (bool, Seq<u8>))>)
    requires
        ascii_hdrs(h),
    ensures
        crate::json::ascii_seq(ser_hdr_entries(h)),
    decreases h.len(),
{
    if h.len() == 0 {
    } else if h.len() == 1 {
        assert(crate::json::ascii_seq(h[0].0) && crate::json::ascii_seq(h[0].1.1));
        lemma_ser_hdr_entry_ascii(h[0]);
    } else {
        assert(crate::json::ascii_seq(h[0].0) && crate::json::ascii_seq(h[0].1.1));
        lemma_ser_hdr_entry_ascii(h[0]);
        assert(ascii_hdrs(h.drop_first())) by {
            assert(forall|i: int|
                0 <= i < h.drop_first().len() ==> h.drop_first()[i] == h[i + 1]);
        }
        lemma_ser_hdr_entries_ascii(h.drop_first());
        crate::json::lemma_ascii_concat(ser_hdr_entry(h[0]), seq![COMMA]);
        crate::json::lemma_ascii_concat(
            ser_hdr_entry(h[0]) + seq![COMMA],
            ser_hdr_entries(h.drop_first()),
        );
    }
}

/// A header object over ASCII entries is itself an ASCII document.
pub proof fn lemma_ser_hdrs_ascii(h: Seq<(Seq<u8>, (bool, Seq<u8>))>)
    requires
        ascii_hdrs(h),
    ensures
        crate::json::ascii_seq(ser_hdrs(h)),
{
    if h.len() == 0 {
    } else {
        lemma_ser_hdr_entries_ascii(h);
        crate::json::lemma_ascii_concat(seq![LBRACE], ser_hdr_entries(h));
        crate::json::lemma_ascii_concat(seq![LBRACE] + ser_hdr_entries(h), seq![RBRACE]);
    }
}

} // verus!
