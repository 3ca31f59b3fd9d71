//! Does a configuration the shim already validated declare
//! `"source": "wasm"`?
//!
//! A targeted probe, not a validator: the input is one flat JSON object in
//! the shim's subset (string and number values, one nested object, the
//! short escapes in strings). The probe walks the top-level members and
//! compares the `source` member's value; anything it cannot classify
//! answers `false`.

use vstd::prelude::*;

verus! {

pub const QUOTE: u8 = 0x22;
pub const BACKSLASH: u8 = 0x5C;
pub const LBRACE: u8 = 0x7B;
pub const RBRACE: u8 = 0x7D;
pub const COLON: u8 = 0x3A;
pub const COMMA: u8 = 0x2C;

/// Space, tab, newline, carriage return.
pub open spec fn is_ws(c: u8) -> bool {
    c == 0x20 || c == 0x09 || c == 0x0A || c == 0x0D
}

/// What ends a bare (number) value: a comma, a brace, or whitespace.
pub open spec fn ends_bare(c: u8) -> bool {
    c == COMMA || c == RBRACE || is_ws(c)
}

/// The byte a short escape `\c` stands for, or `None` outside the subset.
pub open spec fn unescape(c: u8) -> Option<u8> {
    if c == QUOTE {
        Some(QUOTE)
    } else if c == BACKSLASH {
        Some(BACKSLASH)
    } else if c == 0x2F {
        Some(0x2F)
    } else if c == 0x62 {
        Some(0x08)
    } else if c == 0x66 {
        Some(0x0C)
    } else if c == 0x6E {
        Some(0x0A)
    } else if c == 0x72 {
        Some(0x0D)
    } else if c == 0x74 {
        Some(0x09)
    } else {
        None
    }
}

/// The first position at or after `i` that is not whitespace.
pub open spec fn skip_ws(s: Seq<u8>, i: int) -> int
    decreases s.len() - i,
{
    if 0 <= i < s.len() && is_ws(s[i]) {
        skip_ws(s, i + 1)
    } else {
        i
    }
}

/// A string's body from `i` (past its opening quote): the bytes it
/// decodes to and the position past its closing quote.
pub open spec fn string_rest(s: Seq<u8>, i: int) -> Option<(Seq<u8>, int)>
    decreases s.len() - i,
{
    if i < 0 || i >= s.len() {
        None
    } else if s[i] == QUOTE {
        Some((Seq::empty(), i + 1))
    } else if s[i] == BACKSLASH {
        if i + 1 >= s.len() {
            None
        } else {
            match unescape(s[i + 1]) {
                None => None,
                Some(c) => match string_rest(s, i + 2) {
                    Some((t, e)) => Some((seq![c] + t, e)),
                    None => None,
                },
            }
        }
    } else {
        match string_rest(s, i + 1) {
            Some((t, e)) => Some((seq![s[i]] + t, e)),
            None => None,
        }
    }
}

/// The quoted string at `i`.
pub open spec fn string_at(s: Seq<u8>, i: int) -> Option<(Seq<u8>, int)> {
    if 0 <= i < s.len() && s[i] == QUOTE {
        string_rest(s, i + 1)
    } else {
        None
    }
}

/// The end of the bare value starting at `i`.
pub open spec fn bare_end(s: Seq<u8>, i: int) -> int
    decreases s.len() - i,
{
    if 0 <= i < s.len() && !ends_bare(s[i]) {
        bare_end(s, i + 1)
    } else {
        i
    }
}

pub proof fn lemma_skip_ws(s: Seq<u8>, i: int)
    requires
        0 <= i <= s.len(),
    ensures
        i <= skip_ws(s, i) <= s.len(),
    decreases s.len() - i,
{
    if i < s.len() && is_ws(s[i]) {
        lemma_skip_ws(s, i + 1);
    }
}

pub proof fn lemma_string_rest(s: Seq<u8>, i: int)
    requires
        0 <= i,
    ensures
        string_rest(s, i) matches Some((t, e)) ==> i < e <= s.len(),
    decreases s.len() - i,
{
    if 0 <= i < s.len() && s[i] != QUOTE {
        if s[i] == BACKSLASH {
            if i + 1 < s.len() {
                lemma_string_rest(s, i + 2);
            }
        } else {
            lemma_string_rest(s, i + 1);
        }
    }
}

/// The end of the value (a string, a bare value, or an object) at `i`.
pub open spec fn value_end(s: Seq<u8>, i: int) -> Option<int>
    decreases s.len() - i, 1int,
{
    if i < 0 || i >= s.len() {
        None
    } else if s[i] == QUOTE {
        match string_at(s, i) {
            Some((_, e)) => Some(e),
            None => None,
        }
    } else if s[i] == LBRACE {
        let j = skip_ws(s, i + 1);
        proof {
            lemma_skip_ws(s, i + 1);
        }
        if j < s.len() && s[j] == RBRACE {
            Some(j + 1)
        } else {
            members_end(s, j)
        }
    } else {
        let e = bare_end(s, i);
        if e > i {
            Some(e)
        } else {
            None
        }
    }
}

/// The end of an object's members from `i` through its closing brace.
pub open spec fn members_end(s: Seq<u8>, i: int) -> Option<int>
    decreases s.len() - i, 0int,
{
    if i < 0 || i > s.len() {
        None
    } else {
        let a = skip_ws(s, i);
        proof {
            lemma_skip_ws(s, i);
        }
        match string_at(s, a) {
            None => None,
            Some((_, k)) => {
                proof {
                    lemma_string_rest(s, a + 1);
                    lemma_skip_ws(s, k);
                }
                let b = skip_ws(s, k);
                if !(b < s.len() && s[b] == COLON) {
                    None
                } else {
                    proof {
                        lemma_skip_ws(s, b + 1);
                    }
                    let c = skip_ws(s, b + 1);
                    match value_end(s, c) {
                        None => None,
                        Some(v) => {
                            let d = skip_ws(s, v);
                            if d < s.len() && s[d] == COMMA && d >= i {
                                members_end(s, d + 1)
                            } else if d < s.len() && s[d] == RBRACE {
                                Some(d + 1)
                            } else {
                                None
                            }
                        },
                    }
                }
            },
        }
    }
}

/// `source`, as bytes.
pub open spec fn source_key() -> Seq<u8> {
    seq![0x73u8, 0x6F, 0x75, 0x72, 0x63, 0x65]
}

/// `wasm`, as bytes.
pub open spec fn wasm_value() -> Seq<u8> {
    seq![0x77u8, 0x61, 0x73, 0x6D]
}

/// Walk the top-level members from `i`: whether the first `source` member
/// is the string `wasm`.
pub open spec fn members_say_wasm(s: Seq<u8>, i: int) -> bool
    decreases s.len() - i,
{
    if i < 0 || i > s.len() {
        false
    } else {
        let a = skip_ws(s, i);
        proof {
            lemma_skip_ws(s, i);
        }
        match string_at(s, a) {
            None => false,
            Some((key, k)) => {
                proof {
                    lemma_string_rest(s, a + 1);
                    lemma_skip_ws(s, k);
                }
                let b = skip_ws(s, k);
                if !(b < s.len() && s[b] == COLON) {
                    false
                } else {
                    proof {
                        lemma_skip_ws(s, b + 1);
                    }
                    let c = skip_ws(s, b + 1);
                    if key == source_key() {
                        match string_at(s, c) {
                            Some((v, _)) => v == wasm_value(),
                            None => false,
                        }
                    } else {
                        match value_end(s, c) {
                            None => false,
                            Some(v) => {
                                let d = skip_ws(s, v);
                                if d < s.len() && s[d] == COMMA && d >= i {
                                    members_say_wasm(s, d + 1)
                                } else {
                                    false
                                }
                            },
                        }
                    }
                }
            },
        }
    }
}

/// Whether the configuration `s` is an object whose `source` member is
/// `"wasm"`.
pub open spec fn says_wasm(s: Seq<u8>) -> bool {
    let i = skip_ws(s, 0);
    i < s.len() && s[i] == LBRACE && members_say_wasm(s, i + 1)
}

// ── the probe ─────────────────────────────────────────────────────────────
fn is_ws_byte(c: u8) -> (b: bool)
    ensures
        b == is_ws(c),
{
    c == 0x20 || c == 0x09 || c == 0x0A || c == 0x0D
}

fn ws(b: &[u8], i: usize) -> (r: usize)
    requires
        i <= b.len(),
    ensures
        r == skip_ws(b@, i as int),
        i <= r <= b.len(),
{
    let mut j = i;
    while j < b.len() && is_ws_byte(b[j])
        invariant
            i <= j <= b.len(),
            skip_ws(b@, i as int) == skip_ws(b@, j as int),
        decreases b.len() - j,
    {
        j = j + 1;
    }
    j
}

fn unescape_byte(c: u8) -> (r: Option<u8>)
    ensures
        r == unescape(c),
{
    if c == QUOTE {
        Some(QUOTE)
    } else if c == BACKSLASH {
        Some(BACKSLASH)
    } else if c == 0x2F {
        Some(0x2F)
    } else if c == 0x62 {
        Some(0x08)
    } else if c == 0x66 {
        Some(0x0C)
    } else if c == 0x6E {
        Some(0x0A)
    } else if c == 0x72 {
        Some(0x0D)
    } else if c == 0x74 {
        Some(0x09)
    } else {
        None
    }
}

/// The quoted string at `i`, decoded, and the position past it.
fn string(b: &[u8], i: usize) -> (r: Option<(Vec<u8>, usize)>)
    requires
        i <= b.len(),
    ensures
        r matches Some((t, e)) ==> string_at(b@, i as int) == Some((t@, e as int)) && i < e <= b.len(),
        r is None ==> string_at(b@, i as int) is None,
{
    if i >= b.len() || b[i] != QUOTE {
        return None;
    }
    let mut out: Vec<u8> = Vec::new();
    let mut j = i + 1;
    proof {
        lemma_string_rest(b@, j as int);
    }
    while j < b.len()
        invariant
            i < j <= b.len(),
            b@[i as int] == QUOTE,
            forall|t: Seq<u8>, e: int| #[trigger] string_rest(b@, j as int) == Some((t, e)) ==> string_rest(
                b@,
                i + 1,
            ) == Some((out@ + t, e)),
            string_rest(b@, j as int) is None ==> string_rest(b@, i + 1) is None,
        decreases b.len() - j,
    {
        let c = b[j];
        if c == QUOTE {
            proof {
                assert(string_rest(b@, j as int) == Some((Seq::<u8>::empty(), j + 1)));
                assert(out@ + Seq::<u8>::empty() =~= out@);
            }
            return Some((out, j + 1));
        } else if c == BACKSLASH {
            if j + 1 >= b.len() {
                return None;
            }
            let escaped = match unescape_byte(b[j + 1]) {
                Some(e) => e,
                None => {
                    return None;
                },
            };
            let ghost before = out@;
            out.push(escaped);
            proof {
                assert forall|t: Seq<u8>, e: int| #[trigger] string_rest(b@, j + 2) == Some((t, e)) implies string_rest(
                    b@,
                    i + 1,
                ) == Some((out@ + t, e)) by {
                    assert(string_rest(b@, j as int) == Some((seq![escaped] + t, e)));
                    assert(before + (seq![escaped] + t) =~= out@ + t);
                }
            }
            j = j + 2;
        } else {
            let ghost before = out@;
            out.push(c);
            proof {
                assert forall|t: Seq<u8>, e: int| #[trigger] string_rest(b@, j + 1) == Some((t, e)) implies string_rest(
                    b@,
                    i + 1,
                ) == Some((out@ + t, e)) by {
                    assert(string_rest(b@, j as int) == Some((seq![c] + t, e)));
                    assert(before + (seq![c] + t) =~= out@ + t);
                }
            }
            j = j + 1;
        }
    }
    None
}

/// The end of the value at `i`: a string, a bare value, or an object.
fn skip_value(b: &[u8], i: usize) -> (r: Option<usize>)
    requires
        i <= b.len(),
    ensures
        r matches Some(e) ==> value_end(b@, i as int) == Some(e as int) && i < e <= b.len(),
        r is None ==> value_end(b@, i as int) is None,
    decreases b.len() - i,
{
    if i >= b.len() {
        return None;
    }
    if b[i] == QUOTE {
        return match string(b, i) {
            Some((_, e)) => Some(e),
            None => None,
        };
    }
    if b[i] == LBRACE {
        let j = ws(b, i + 1);
        if j < b.len() && b[j] == RBRACE {
            return Some(j + 1);
        }
        let mut p = j;
        while true
            invariant
                i < j <= p <= b.len(),
                b@[i as int] == LBRACE,
                value_end(b@, i as int) == members_end(b@, p as int),
            decreases b.len() - p,
        {
            let a = ws(b, p);
            let k = match string(b, a) {
                Some((_, k)) => k,
                None => {
                    return None;
                },
            };
            let bb = ws(b, k);
            if !(bb < b.len() && b[bb] == COLON) {
                return None;
            }
            let c = ws(b, bb + 1);
            let v = match skip_value(b, c) {
                Some(v) => v,
                None => {
                    return None;
                },
            };
            let d = ws(b, v);
            if d < b.len() && b[d] == COMMA {
                p = d + 1;
            } else if d < b.len() && b[d] == RBRACE {
                return Some(d + 1);
            } else {
                return None;
            }
        }
        None
    } else {
        let mut e = i;
        while e < b.len() && !(b[e] == COMMA || b[e] == RBRACE || is_ws_byte(b[e]))
            invariant
                i <= e <= b.len(),
                bare_end(b@, i as int) == bare_end(b@, e as int),
            decreases b.len() - e,
        {
            e = e + 1;
        }
        if e > i {
            Some(e)
        } else {
            None
        }
    }
}

/// Does a configuration the shim already validated declare
/// `"source": "wasm"`? Anything the probe cannot classify answers `false`.
pub fn config_source_is_wasm(bytes: &[u8]) -> (b: bool)
    ensures
        b == says_wasm(bytes@),
{
    let i = ws(bytes, 0);
    if !(i < bytes.len() && bytes[i] == LBRACE) {
        return false;
    }
    let mut p = i + 1;
    while true
        invariant
            i < p <= bytes.len(),
            says_wasm(bytes@) == members_say_wasm(bytes@, p as int),
        decreases bytes.len() - p,
    {
        let a = ws(bytes, p);
        let (key, k) = match string(bytes, a) {
            Some(found) => found,
            None => {
                return false;
            },
        };
        let bb = ws(bytes, k);
        if !(bb < bytes.len() && bytes[bb] == COLON) {
            return false;
        }
        let c = ws(bytes, bb + 1);
        if key.len() == 6 && key[0] == 0x73 && key[1] == 0x6F && key[2] == 0x75 && key[3] == 0x72 && key[4]
            == 0x63 && key[5] == 0x65 {
            proof {
                assert(key@ =~= source_key());
            }
            return match string(bytes, c) {
                Some((value, _)) => {
                    let is_wasm = value.len() == 4 && value[0] == 0x77 && value[1] == 0x61 && value[2] == 0x73
                        && value[3] == 0x6D;
                    proof {
                        if is_wasm {
                            assert(value@ =~= wasm_value());
                        } else if value@ == wasm_value() {
                            assert(value@[0] == wasm_value()[0] && value@[1] == wasm_value()[1] && value@[2]
                                == wasm_value()[2] && value@[3] == wasm_value()[3]);
                        }
                    }
                    is_wasm
                },
                None => false,
            };
        }
        proof {
            if key@ == source_key() {
                assert(key@[0] == source_key()[0] && key@[1] == source_key()[1] && key@[2] == source_key()[2]
                    && key@[3] == source_key()[3] && key@[4] == source_key()[4] && key@[5] == source_key()[5]);
            }
        }
        let v = match skip_value(bytes, c) {
            Some(v) => v,
            None => {
                return false;
            },
        };
        let d = ws(bytes, v);
        if d < bytes.len() && bytes[d] == COMMA {
            p = d + 1;
        } else {
            return false;
        }
    }
    false
}

// ── the probe's subset, as written ──────────────────────────────────────
/// A scalar as a configuration writes it: a string's bytes (no quote, no
/// backslash), or a number's text.
pub enum Scalar {
    Text(Seq<u8>),
    Number(Seq<u8>),
}

/// A member's value: a scalar, or an object whose members are scalars.
pub enum Value {
    Scalar(Scalar),
    Object(Seq<(Seq<u8>, Scalar)>),
}

/// Bytes a string holds as they are: no quote and no backslash.
pub open spec fn plain(t: Seq<u8>) -> bool {
    forall|i: int| 0 <= i < t.len() ==> #[trigger] t[i] != QUOTE && t[i] != BACKSLASH
}

/// A number's text: at least one byte, none of them a separator,
/// whitespace, a quote or an opening brace.
pub open spec fn number_text(t: Seq<u8>) -> bool {
    t.len() > 0 && forall|i: int| 0 <= i < t.len() ==> !ends_bare(#[trigger] t[i]) && t[i] != QUOTE && t[i] != LBRACE
}

pub open spec fn scalar_ok(x: Scalar) -> bool {
    match x {
        Scalar::Text(t) => plain(t),
        Scalar::Number(t) => number_text(t),
    }
}

pub open spec fn value_ok(v: Value) -> bool {
    match v {
        Value::Scalar(x) => scalar_ok(x),
        Value::Object(ms) => forall|i: int| 0 <= i < ms.len() ==> plain((#[trigger] ms[i]).0) && scalar_ok(ms[i].1),
    }
}

/// A string, quoted.
pub open spec fn quoted(t: Seq<u8>) -> Seq<u8> {
    seq![QUOTE] + t + seq![QUOTE]
}

pub open spec fn scalar_text(x: Scalar) -> Seq<u8> {
    match x {
        Scalar::Text(t) => quoted(t),
        Scalar::Number(t) => t,
    }
}

/// `"key":value`.
pub open spec fn pair_text(key: Seq<u8>, value: Seq<u8>) -> Seq<u8> {
    quoted(key) + seq![COLON] + value
}

/// An object's members, comma-separated, with no whitespace.
pub open spec fn scalar_members(ms: Seq<(Seq<u8>, Scalar)>) -> Seq<u8>
    decreases ms.len(),
{
    if ms.len() == 0 {
        Seq::empty()
    } else if ms.len() == 1 {
        pair_text(ms[0].0, scalar_text(ms[0].1))
    } else {
        pair_text(ms[0].0, scalar_text(ms[0].1)) + seq![COMMA] + scalar_members(ms.drop_first())
    }
}

pub open spec fn value_text(v: Value) -> Seq<u8> {
    match v {
        Value::Scalar(x) => scalar_text(x),
        Value::Object(ms) => seq![LBRACE] + scalar_members(ms) + seq![RBRACE],
    }
}

/// A configuration's members, comma-separated, with no whitespace.
pub open spec fn value_members(ms: Seq<(Seq<u8>, Value)>) -> Seq<u8>
    decreases ms.len(),
{
    if ms.len() == 0 {
        Seq::empty()
    } else if ms.len() == 1 {
        pair_text(ms[0].0, value_text(ms[0].1))
    } else {
        pair_text(ms[0].0, value_text(ms[0].1)) + seq![COMMA] + value_members(ms.drop_first())
    }
}

/// A configuration object, as written.
pub open spec fn config_text(ms: Seq<(Seq<u8>, Value)>) -> Seq<u8> {
    seq![LBRACE] + value_members(ms) + seq![RBRACE]
}

// ── reading what was written ──────────────────────────────────────────────
/// `s` holds `t` at `p`.
pub open spec fn holds_at(s: Seq<u8>, p: int, t: Seq<u8>) -> bool {
    0 <= p && p + t.len() <= s.len() && s.subrange(p, p + t.len()) == t
}

proof fn lemma_split(s: Seq<u8>, p: int, a: Seq<u8>, b: Seq<u8>)
    requires
        holds_at(s, p, a + b),
    ensures
        holds_at(s, p, a),
        holds_at(s, p + a.len(), b),
{
    assert(s.subrange(p, p + a.len()) =~= a) by {
        assert forall|i: int| 0 <= i < a.len() implies s.subrange(p, p + a.len())[i] == a[i] by {
            assert(s.subrange(p, p + (a + b).len())[i] == s[p + i]);
            assert((a + b)[i] == a[i]);
        }
    }
    assert(s.subrange(p + a.len(), p + a.len() + b.len()) =~= b) by {
        assert forall|i: int| 0 <= i < b.len() implies s.subrange(p + a.len(), p + a.len() + b.len())[i] == b[i] by {
            assert(s.subrange(p, p + (a + b).len())[a.len() + i] == s[p + a.len() + i]);
            assert((a + b)[a.len() + i] == b[i]);
        }
    }
}

proof fn lemma_byte(s: Seq<u8>, p: int, c: u8)
    requires
        holds_at(s, p, seq![c]),
    ensures
        s[p] == c,
{
    assert(s.subrange(p, p + 1)[0] == s[p]);
}

/// The string body `t` from `p + i` on reads back to its end.
proof fn lemma_string_body(s: Seq<u8>, p: int, t: Seq<u8>, i: int)
    requires
        plain(t),
        holds_at(s, p, quoted(t)),
        0 <= i <= t.len(),
    ensures
        string_rest(s, p + 1 + i) == Some((t.subrange(i, t.len() as int), p + t.len() + 2)),
    decreases t.len() - i,
{
    let q = quoted(t);
    assert(s.subrange(p, p + q.len())[1 + i] == s[p + 1 + i]);
    if i == t.len() {
        assert(q[1 + i] == QUOTE);
        assert(t.subrange(i, t.len() as int) =~= Seq::<u8>::empty());
    } else {
        assert(q[1 + i] == t[i]);
        lemma_string_body(s, p, t, i + 1);
        assert(seq![t[i]] + t.subrange(i + 1, t.len() as int) =~= t.subrange(i, t.len() as int));
    }
}

/// A quoted plain string reads back as itself, ending past its quote.
proof fn lemma_quoted(s: Seq<u8>, p: int, t: Seq<u8>)
    requires
        plain(t),
        holds_at(s, p, quoted(t)),
    ensures
        string_at(s, p) == Some((t, p + t.len() + 2)),
{
    let q = quoted(t);
    assert(s.subrange(p, p + q.len())[0] == s[p]);
    lemma_string_body(s, p, t, 0);
    assert(t.subrange(0, t.len() as int) =~= t);
}

/// A number's text runs to its end, where a separator (or the end of the
/// input) follows.
proof fn lemma_number_end(s: Seq<u8>, p: int, t: Seq<u8>, i: int)
    requires
        number_text(t),
        holds_at(s, p, t),
        p + t.len() == s.len() || ends_bare(s[p + t.len()]),
        0 <= i <= t.len(),
    ensures
        bare_end(s, p + i) == p + t.len(),
    decreases t.len() - i,
{
    if i < t.len() {
        assert(s.subrange(p, p + t.len())[i] == s[p + i]);
        assert(!ends_bare(t[i]));
        lemma_number_end(s, p, t, i + 1);
    }
}

/// What a value's first byte is: never whitespace.
proof fn lemma_scalar_first(x: Scalar)
    requires
        scalar_ok(x),
    ensures
        scalar_text(x).len() > 0,
        !is_ws(scalar_text(x)[0]),
        scalar_text(x)[0] != LBRACE,
        scalar_text(x)[0] == QUOTE <==> x is Text,
{
}

/// A scalar value ends where its text does, when a separator follows.
proof fn lemma_scalar_end(s: Seq<u8>, p: int, x: Scalar)
    requires
        scalar_ok(x),
        holds_at(s, p, scalar_text(x)),
        p + scalar_text(x).len() == s.len() || ends_bare(s[p + scalar_text(x).len()]),
    ensures
        value_end(s, p) == Some(p + scalar_text(x).len()),
{
    let t = scalar_text(x);
    lemma_scalar_first(x);
    assert(s.subrange(p, p + t.len())[0] == s[p]);
    match x {
        Scalar::Text(b) => {
            lemma_quoted(s, p, b);
        },
        Scalar::Number(b) => {
            lemma_number_end(s, p, b, 0);
        },
    }
}

/// An object's members, followed by its closing brace, end just past it.
proof fn lemma_members_end(s: Seq<u8>, p: int, ms: Seq<(Seq<u8>, Scalar)>)
    requires
        ms.len() >= 1,
        forall|i: int| 0 <= i < ms.len() ==> plain((#[trigger] ms[i]).0) && scalar_ok(ms[i].1),
        holds_at(s, p, scalar_members(ms) + seq![RBRACE]),
    ensures
        members_end(s, p) == Some(p + scalar_members(ms).len() + 1),
    decreases ms.len(),
{
    let key = ms[0].0;
    let x = ms[0].1;
    assert(plain(key) && scalar_ok(x));
    let head = pair_text(key, scalar_text(x));
    let tail = if ms.len() == 1 { seq![RBRACE] } else { seq![COMMA] + scalar_members(ms.drop_first()) + seq![RBRACE] };
    assert(scalar_members(ms) + seq![RBRACE] =~= head + tail);
    lemma_split(s, p, head, tail);
    lemma_split(s, p, quoted(key) + seq![COLON], scalar_text(x));
    lemma_split(s, p, quoted(key), seq![COLON]);
    assert(tail =~= seq![tail[0]] + tail.subrange(1, tail.len() as int));
    lemma_split(s, p + head.len(), seq![tail[0]], tail.subrange(1, tail.len() as int));
    let k = p + key.len() + 2;
    let c = k + 1;
    let v = p + head.len();
    lemma_quoted(s, p, key);
    assert(s.subrange(p, p + quoted(key).len())[0] == s[p]);
    lemma_byte(s, k, COLON);
    lemma_byte(s, v, tail[0]);
    lemma_scalar_first(x);
    assert(s.subrange(c, c + scalar_text(x).len())[0] == s[c]);
    lemma_scalar_end(s, c, x);
    if ms.len() > 1 {
        let rest = ms.drop_first();
        assert forall|i: int| 0 <= i < rest.len() implies plain((#[trigger] rest[i]).0) && scalar_ok(rest[i].1) by {
            assert(rest[i] == ms[i + 1]);
        }
        assert(tail =~= seq![COMMA] + (scalar_members(rest) + seq![RBRACE]));
        lemma_split(s, v, seq![COMMA], scalar_members(rest) + seq![RBRACE]);
        lemma_members_end(s, v + 1, rest);
    }
}

/// A value written in the probe's subset ends where its text does, when a
/// separator follows: an object of any number of members is skipped past
/// its closing brace.
proof fn lemma_value_end(s: Seq<u8>, p: int, v: Value)
    requires
        value_ok(v),
        holds_at(s, p, value_text(v)),
        p + value_text(v).len() == s.len() || ends_bare(s[p + value_text(v).len()]),
    ensures
        value_end(s, p) == Some(p + value_text(v).len()),
{
    match v {
        Value::Scalar(x) => {
            lemma_scalar_end(s, p, x);
        },
        Value::Object(ms) => {
            let body = scalar_members(ms) + seq![RBRACE];
            assert(value_text(v) =~= seq![LBRACE] + body);
            lemma_split(s, p, seq![LBRACE], body);
            lemma_byte(s, p, LBRACE);
            if ms.len() == 0 {
                assert(body =~= seq![RBRACE]);
                lemma_byte(s, p + 1, RBRACE);
            } else {
                let key = ms[0].0;
                assert(plain(key) && scalar_ok(ms[0].1));
                assert(body =~= quoted(key) + (seq![COLON] + scalar_text(ms[0].1) + (if ms.len() == 1 {
                    seq![RBRACE]
                } else {
                    seq![COMMA] + scalar_members(ms.drop_first()) + seq![RBRACE]
                })));
                lemma_split(s, p + 1, quoted(key), seq![COLON] + scalar_text(ms[0].1) + (if ms.len() == 1 {
                    seq![RBRACE]
                } else {
                    seq![COMMA] + scalar_members(ms.drop_first()) + seq![RBRACE]
                }));
                assert(s.subrange(p + 1, p + 1 + quoted(key).len())[0] == s[p + 1]);
                lemma_members_end(s, p + 1, ms);
            }
        },
    }
}

/// Skipping a value: for any value in the probe's subset followed by a
/// separator (or nothing), the value ends exactly where its text does; an
/// object of `n >= 1` members is skipped just past its closing brace.
pub proof fn lemma_skips_written_value(v: Value, rest: Seq<u8>)
    requires
        value_ok(v),
        rest.len() == 0 || ends_bare(rest[0]),
    ensures
        value_end(value_text(v) + rest, 0) == Some(value_text(v).len() as int),
{
    let s = value_text(v) + rest;
    assert(s.subrange(0, value_text(v).len() as int) =~= value_text(v));
    if rest.len() > 0 {
        assert(s[value_text(v).len() as int] == rest[0]);
    }
    lemma_value_end(s, 0, v);
}

/// A written value's first byte: never whitespace; a quote exactly for a
/// string.
proof fn lemma_value_first(v: Value)
    requires
        value_ok(v),
    ensures
        value_text(v).len() > 0,
        !is_ws(value_text(v)[0]),
        value_text(v)[0] == QUOTE <==> v matches Value::Scalar(Scalar::Text(_)),
{
    if let Value::Scalar(x) = v {
        lemma_scalar_first(x);
    }
}

/// The top-level walk from member `0` of `ms`, written at `p` and followed
/// by the closing brace, reaches the first `source` member (at `j`) and
/// answers whether it is the string `wasm`.
proof fn lemma_members_say(s: Seq<u8>, p: int, ms: Seq<(Seq<u8>, Value)>, j: int)
    requires
        0 <= j < ms.len(),
        forall|i: int| 0 <= i < ms.len() ==> plain((#[trigger] ms[i]).0) && value_ok(ms[i].1),
        forall|i: int| 0 <= i < j ==> (#[trigger] ms[i]).0 != source_key(),
        ms[j].0 == source_key(),
        holds_at(s, p, value_members(ms) + seq![RBRACE]),
    ensures
        members_say_wasm(s, p) == (ms[j].1 == Value::Scalar(Scalar::Text(wasm_value()))),
    decreases j,
{
    let key = ms[0].0;
    let v = ms[0].1;
    assert(plain(key) && value_ok(v));
    let head = pair_text(key, value_text(v));
    let tail = if ms.len() == 1 { seq![RBRACE] } else { seq![COMMA] + value_members(ms.drop_first()) + seq![RBRACE] };
    assert(value_members(ms) + seq![RBRACE] =~= head + tail);
    lemma_split(s, p, head, tail);
    lemma_split(s, p, quoted(key) + seq![COLON], value_text(v));
    lemma_split(s, p, quoted(key), seq![COLON]);
    assert(tail =~= seq![tail[0]] + tail.subrange(1, tail.len() as int));
    lemma_split(s, p + head.len(), seq![tail[0]], tail.subrange(1, tail.len() as int));
    let k = p + key.len() + 2;
    let c = k + 1;
    let e = p + head.len();
    lemma_quoted(s, p, key);
    assert(s.subrange(p, p + quoted(key).len())[0] == s[p]);
    lemma_byte(s, k, COLON);
    lemma_byte(s, e, tail[0]);
    lemma_value_first(v);
    assert(s.subrange(c, c + value_text(v).len())[0] == s[c]);
    if j == 0 {
        match v {
            Value::Scalar(Scalar::Text(t)) => {
                lemma_quoted(s, c, t);
            },
            _ => {},
        }
    } else {
        lemma_value_end(s, c, v);
        let rest = ms.drop_first();
        assert forall|i: int| 0 <= i < rest.len() implies plain((#[trigger] rest[i]).0) && value_ok(rest[i].1) by {
            assert(rest[i] == ms[i + 1]);
        }
        assert forall|i: int| 0 <= i < j - 1 implies (#[trigger] rest[i]).0 != source_key() by {
            assert(rest[i] == ms[i + 1]);
        }
        assert(rest[j - 1] == ms[j]);
        assert(tail =~= seq![COMMA] + (value_members(rest) + seq![RBRACE]));
        lemma_split(s, e, seq![COMMA], value_members(rest) + seq![RBRACE]);
        lemma_members_say(s, e + 1, rest, j - 1);
    }
}

/// The probe answers a configuration written in its subset exactly: when
/// the first `source` member is member `j`, every member before it another
/// key with a string, a number or an object of string and number members,
/// the answer is whether that member's value is the string `wasm`.
pub proof fn lemma_probe_reads_source(ms: Seq<(Seq<u8>, Value)>, j: int)
    requires
        0 <= j < ms.len(),
        forall|i: int| 0 <= i < ms.len() ==> plain((#[trigger] ms[i]).0) && value_ok(ms[i].1),
        forall|i: int| 0 <= i < j ==> (#[trigger] ms[i]).0 != source_key(),
        ms[j].0 == source_key(),
    ensures
        says_wasm(config_text(ms)) == (ms[j].1 == Value::Scalar(Scalar::Text(wasm_value()))),
{
    let s = config_text(ms);
    let body = value_members(ms) + seq![RBRACE];
    assert(s =~= seq![LBRACE] + body);
    assert(s.subrange(0, s.len() as int) =~= s);
    lemma_split(s, 0, seq![LBRACE], body);
    lemma_byte(s, 0, LBRACE);
    lemma_members_say(s, 1, ms, j);
}

} // verus!
