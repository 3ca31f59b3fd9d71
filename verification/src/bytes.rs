//! Little-endian reads and writes over byte buffers, and the spec-level
//! vocabulary every layout contract in this crate is stated in.

use vstd::prelude::*;

verus! {

/// The unsigned 16-bit little-endian value at `at`.
pub open spec fn le16(s: Seq<u8>, at: int) -> int {
    s[at] as int + s[at + 1] as int * 256
}

/// The unsigned 32-bit little-endian value at `at`.
pub open spec fn le32(s: Seq<u8>, at: int) -> int {
    le16(s, at) + le16(s, at + 2) * 65536
}

/// The unsigned 64-bit little-endian value at `at`.
pub open spec fn le64(s: Seq<u8>, at: int) -> int {
    le32(s, at) + le32(s, at + 4) * 0x1_0000_0000
}

/// `b` is `a` with at most the bytes in `[lo, hi)` changed.
pub open spec fn same_outside(a: Seq<u8>, b: Seq<u8>, lo: int, hi: int) -> bool {
    &&& a.len() == b.len()
    &&& forall|i: int| 0 <= i < a.len() && !(lo <= i < hi) ==> #[trigger] b[i] == a[i]
}

/// Every byte of `s` in `[lo, hi)` is zero.
pub open spec fn all_zero(s: Seq<u8>, lo: int, hi: int) -> bool {
    forall|i: int| lo <= i < hi ==> #[trigger] s[i] == 0
}

pub proof fn lemma_le16_bound(s: Seq<u8>, at: int)
    requires
        0 <= at,
        at + 2 <= s.len(),
    ensures
        0 <= le16(s, at) < 0x1_0000,
{
}

pub proof fn lemma_le32_bound(s: Seq<u8>, at: int)
    requires
        0 <= at,
        at + 4 <= s.len(),
    ensures
        0 <= le32(s, at) < 0x1_0000_0000,
{
    lemma_le16_bound(s, at);
    lemma_le16_bound(s, at + 2);
}

pub proof fn lemma_le64_bound(s: Seq<u8>, at: int)
    requires
        0 <= at,
        at + 8 <= s.len(),
    ensures
        0 <= le64(s, at) < 0x1_0000_0000_0000_0000,
{
    lemma_le32_bound(s, at);
    lemma_le32_bound(s, at + 4);
}

/// Two buffers that agree on `[at, at + 2)` read the same 16-bit value there.
pub proof fn lemma_le16_agree(a: Seq<u8>, b: Seq<u8>, at: int)
    requires
        a[at] == b[at],
        a[at + 1] == b[at + 1],
    ensures
        le16(a, at) == le16(b, at),
{
}

/// Two buffers that agree on `[at, at + 4)` read the same 32-bit value there.
pub proof fn lemma_le32_agree(a: Seq<u8>, b: Seq<u8>, at: int)
    requires
        forall|i: int| at <= i < at + 4 ==> a[i] == b[i],
    ensures
        le32(a, at) == le32(b, at),
{
    assert(a[at] == b[at] && a[at + 1] == b[at + 1] && a[at + 2] == b[at + 2] && a[at + 3]
        == b[at + 3]);
}

/// A 32-bit value read at `at_a` in `a` is the one read at `at_b` in `b` when
/// the four bytes agree.
pub proof fn lemma_le32_agree_at(a: Seq<u8>, b: Seq<u8>, at_a: int, at_b: int)
    requires
        forall|k: int| 0 <= k < 4 ==> #[trigger] a[at_a + k] == b[at_b + k],
    ensures
        le32(a, at_a) == le32(b, at_b),
{
    assert(a[at_a + 0] == b[at_b + 0]);
    assert(a[at_a + 1] == b[at_b + 1]);
    assert(a[at_a + 2] == b[at_b + 2]);
    assert(a[at_a + 3] == b[at_b + 3]);
}

/// Two buffers that agree on `[at, at + 8)` read the same 64-bit value there.
pub proof fn lemma_le64_agree(a: Seq<u8>, b: Seq<u8>, at: int)
    requires
        forall|i: int| at <= i < at + 8 ==> a[i] == b[i],
    ensures
        le64(a, at) == le64(b, at),
{
    lemma_le32_agree(a, b, at);
    lemma_le32_agree(a, b, at + 4);
}

/// Read the 16-bit little-endian value at `at`.
pub fn load_u16(buf: &[u8], at: usize) -> (r: u16)
    requires
        at + 2 <= buf.len(),
    ensures
        r as int == le16(buf@, at as int),
{
    buf[at] as u16 + (buf[at + 1] as u16) * 256
}

/// Read the 32-bit little-endian value at `at`.
pub fn load_u32(buf: &[u8], at: usize) -> (r: u32)
    requires
        at + 4 <= buf.len(),
    ensures
        r as int == le32(buf@, at as int),
{
    let lo = load_u16(buf, at) as u32;
    let hi = load_u16(buf, at + 2) as u32;
    lo + hi * 65536
}

/// Read the 64-bit little-endian value at `at`.
pub fn load_u64(buf: &[u8], at: usize) -> (r: u64)
    requires
        at + 8 <= buf.len(),
    ensures
        r as int == le64(buf@, at as int),
{
    let lo = load_u32(buf, at) as u64;
    let hi = load_u32(buf, at + 4) as u64;
    lo + hi * 0x1_0000_0000
}

/// The text `bytes` encode as UTF-8, or `None` when they are not valid
/// UTF-8.
///
/// Calls `std::str::from_utf8`, whose documentation says it succeeds exactly
/// when the bytes are valid UTF-8, and copies the text out. The contract
/// states validity and the decoded characters with vstd's own UTF-8
/// definitions.
#[verifier::external_body]
pub fn utf8_text(bytes: &[u8]) -> (r: Option<String>)
    ensures
        r is Some <==> vstd::utf8::valid_utf8(bytes@),
        r matches Some(t) ==> t@ == vstd::utf8::decode_utf8(bytes@),
{
    std::str::from_utf8(bytes).ok().map(|text| text.to_owned())
}

/// Write `value` little-endian at `at`.
pub fn store_u16(buf: &mut [u8], at: usize, value: u16)
    requires
        at + 2 <= old(buf).len(),
    ensures
        le16(final(buf)@, at as int) == value as int,
        same_outside(old(buf)@, final(buf)@, at as int, at + 2),
{
    buf[at] = (value % 256) as u8;
    buf[at + 1] = (value / 256) as u8;
}

/// Write `value` little-endian at `at`.
pub fn store_u32(buf: &mut [u8], at: usize, value: u32)
    requires
        at + 4 <= old(buf).len(),
    ensures
        le32(final(buf)@, at as int) == value as int,
        same_outside(old(buf)@, final(buf)@, at as int, at + 4),
{
    store_u16(buf, at, (value % 65536) as u16);
    let ghost mid = buf@;
    store_u16(buf, at + 2, (value / 65536) as u16);
    assert(le16(buf@, at as int) == le16(mid, at as int));
}

/// Write `value` little-endian at `at`.
pub fn store_u64(buf: &mut [u8], at: usize, value: u64)
    requires
        at + 8 <= old(buf).len(),
    ensures
        le64(final(buf)@, at as int) == value as int,
        same_outside(old(buf)@, final(buf)@, at as int, at + 8),
{
    store_u32(buf, at, (value % 0x1_0000_0000) as u32);
    let ghost mid = buf@;
    store_u32(buf, at + 4, (value / 0x1_0000_0000) as u32);
    proof {
        lemma_le32_agree(mid, buf@, at as int);
    }
}

} // verus!
