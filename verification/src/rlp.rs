//! Recursive-length-prefix encoding: the canonical byte form of strings,
//! unsigned integers and lists.

use crate::primitives::{limbs_value, U256};
use vstd::arithmetic::power2::{lemma2_to64, lemma_pow2_adds, pow2};
use vstd::prelude::*;

verus! {

/// All the byte strings of `items`, one after the other.
pub open spec fn concat(items: Seq<Seq<u8>>) -> Seq<u8>
    decreases items.len(),
{
    if items.len() == 0 {
        Seq::empty()
    } else {
        concat(items.drop_last()) + items.last()
    }
}

/// The views of the byte strings of `items`.
pub open spec fn views(items: Seq<Vec<u8>>) -> Seq<Seq<u8>> {
    Seq::new(items.len(), |i: int| items[i]@)
}

/// The shortest big-endian byte string that stands for `n`; empty for zero.
pub open spec fn be_bytes(n: nat) -> Seq<u8>
    decreases n,
{
    if n == 0 {
        Seq::empty()
    } else {
        be_bytes(n / 256).push((n % 256) as u8)
    }
}

/// The number that a big-endian byte string stands for.
pub open spec fn be_value(s: Seq<u8>) -> nat
    decreases s.len(),
{
    if s.len() == 0 {
        0
    } else {
        be_value(s.drop_last()) * 256 + s.last() as nat
    }
}

/// The prefix that announces a payload of `len` bytes; `base` is `0x80` for a
/// string and `0xc0` for a list.
pub open spec fn rlp_prefix(len: nat, base: nat) -> Seq<u8> {
    if len < 56 {
        seq![(base + len) as u8]
    } else {
        seq![(base + 55 + be_bytes(len).len()) as u8] + be_bytes(len)
    }
}

/// The encoding of a byte string.
pub open spec fn rlp_string(s: Seq<u8>) -> Seq<u8> {
    if s.len() == 1 && s[0] < 0x80 {
        s
    } else {
        rlp_prefix(s.len(), 0x80) + s
    }
}

/// The encoding of an unsigned integer: its shortest big-endian form, as a string.
pub open spec fn rlp_uint(n: nat) -> Seq<u8> {
    rlp_string(be_bytes(n))
}

/// The encoding of a list whose items, already encoded, make up `payload`.
pub open spec fn rlp_list(payload: Seq<u8>) -> Seq<u8> {
    rlp_prefix(payload.len(), 0xc0) + payload
}

/// Appending a byte multiplies the value by 256 and adds the byte.
pub proof fn lemma_be_value_push(s: Seq<u8>, b: u8)
    ensures
        be_value(s.push(b)) == be_value(s) * 256 + b as nat,
{
    assert(s.push(b).drop_last() =~= s);
}

/// A byte string that starts with a non-zero byte stands for a positive number.
pub proof fn lemma_be_value_positive(s: Seq<u8>)
    requires
        s.len() > 0,
        s[0] != 0,
    ensures
        be_value(s) > 0,
    decreases s.len(),
{
    if s.len() > 1 {
        lemma_be_value_positive(s.drop_last());
    }
}

/// Zero bytes in front do not change the value.
pub proof fn lemma_be_value_skip_zeros(s: Seq<u8>, k: int)
    requires
        0 <= k <= s.len(),
        forall|j: int| 0 <= j < k ==> s[j] == 0,
    ensures
        be_value(s) == be_value(s.skip(k)),
    decreases s.len(),
{
    if k == s.len() {
        assert(s.skip(k) =~= Seq::<u8>::empty());
        if s.len() > 0 {
            lemma_be_value_skip_zeros(s.drop_last(), k - 1);
            assert(s.drop_last().skip(k - 1) =~= Seq::<u8>::empty());
        }
    } else {
        lemma_be_value_skip_zeros(s.drop_last(), k);
        assert(s.drop_last().skip(k) =~= s.skip(k).drop_last());
    }
}

/// A byte string without a zero in front is the shortest form of its value.
pub proof fn lemma_be_bytes_of_value(s: Seq<u8>)
    requires
        s.len() == 0 || s[0] != 0,
    ensures
        be_bytes(be_value(s)) == s,
    decreases s.len(),
{
    if s.len() == 0 {
    } else {
        let t = s.drop_last();
        let b = s.last();
        let n = be_value(s);
        if t.len() == 0 {
            assert(be_value(t) == 0);
            assert(n == b as nat);
            assert(be_bytes(n / 256) =~= Seq::<u8>::empty());
            assert(be_bytes(n) =~= s);
        } else {
            lemma_be_value_positive(t);
            lemma_be_bytes_of_value(t);
            assert(n / 256 == be_value(t));
            assert(n % 256 == b as nat);
            assert(be_bytes(n) =~= s);
        }
    }
}

/// The shortest form of a number stands for that number, and has no zero in front.
pub proof fn lemma_be_value_of_bytes(n: nat)
    ensures
        be_value(be_bytes(n)) == n,
        n > 0 ==> be_bytes(n).len() > 0 && be_bytes(n)[0] != 0,
        n == 0 ==> be_bytes(n).len() == 0,
    decreases n,
{
    if n > 0 {
        lemma_be_value_of_bytes(n / 256);
        lemma_be_value_push(be_bytes(n / 256), (n % 256) as u8);
    }
}

/// Appends `data` to `out`.
pub fn append_bytes(out: &mut Vec<u8>, data: &[u8])
    ensures
        final(out)@ == old(out)@ + data@,
{
    let mut i: usize = 0;
    while i < data.len()
        invariant
            i <= data@.len(),
            out@ == old(out)@ + data@.subrange(0, i as int),
        decreases data@.len() - i,
    {
        out.push(data[i]);
        i += 1;
        assert(out@ =~= old(out)@ + data@.subrange(0, i as int));
    }
    assert(data@.subrange(0, data@.len() as int) =~= data@);
}

/// Appends the eight bytes of `x`, most significant first.
fn push_u64_be(out: &mut Vec<u8>, x: u64)
    ensures
        final(out)@.len() == old(out)@.len() + 8,
        final(out)@.subrange(0, old(out)@.len() as int) == old(out)@,
        be_value(final(out)@) == be_value(old(out)@) * 0x1_0000_0000_0000_0000 + x as nat,
{
    let q7: u64 = x;
    let b7: u8 = (q7 % 256) as u8;
    let q6: u64 = q7 / 256;
    let b6: u8 = (q6 % 256) as u8;
    let q5: u64 = q6 / 256;
    let b5: u8 = (q5 % 256) as u8;
    let q4: u64 = q5 / 256;
    let b4: u8 = (q4 % 256) as u8;
    let q3: u64 = q4 / 256;
    let b3: u8 = (q3 % 256) as u8;
    let q2: u64 = q3 / 256;
    let b2: u8 = (q2 % 256) as u8;
    let q1: u64 = q2 / 256;
    let b1: u8 = (q1 % 256) as u8;
    let q0: u64 = q1 / 256;
    let b0: u8 = (q0 % 256) as u8;
    assert(q0 < 256);
    assert(q0 == b0);
    assert(q1 == q0 * 256 + b1);
    assert(q2 == q1 * 256 + b2);
    assert(q3 == q2 * 256 + b3);
    assert(q4 == q3 * 256 + b4);
    assert(q5 == q4 * 256 + b5);
    assert(q6 == q5 * 256 + b6);
    assert(q7 == q6 * 256 + b7);
    let ghost s0 = out@;
    out.push(b0);
    let ghost s1 = out@;
    out.push(b1);
    let ghost s2 = out@;
    out.push(b2);
    let ghost s3 = out@;
    out.push(b3);
    let ghost s4 = out@;
    out.push(b4);
    let ghost s5 = out@;
    out.push(b5);
    let ghost s6 = out@;
    out.push(b6);
    let ghost s7 = out@;
    out.push(b7);
    proof {
        lemma_be_value_push(s0, b0);
        lemma_be_value_push(s1, b1);
        lemma_be_value_push(s2, b2);
        lemma_be_value_push(s3, b3);
        lemma_be_value_push(s4, b4);
        lemma_be_value_push(s5, b5);
        lemma_be_value_push(s6, b6);
        lemma_be_value_push(s7, b7);
        let v0 = be_value(s0);
        assert(be_value(s1) == v0 * 256 + q0);
        assert(be_value(s2) == v0 * 0x1_0000 + q1);
        assert(be_value(s3) == v0 * 0x100_0000 + q2);
        assert(be_value(s4) == v0 * 0x1_0000_0000 + q3);
        assert(be_value(s5) == v0 * 0x100_0000_0000 + q4);
        assert(be_value(s6) == v0 * 0x1_0000_0000_0000 + q5);
        assert(be_value(s7) == v0 * 0x100_0000_0000_0000 + q6);
        assert(be_value(out@) == v0 * 0x1_0000_0000_0000_0000 + q7);
        assert(out@.subrange(0, s0.len() as int) =~= s0);
    }
}

/// Drops the zero bytes in front of `full`.
fn strip_leading_zeros(full: &Vec<u8>) -> (r: Vec<u8>)
    ensures
        r@ == be_bytes(be_value(full@)),
        r@.len() <= full@.len(),
{
    let mut k: usize = 0;
    while k < full.len() && full[k] == 0
        invariant
            k <= full@.len(),
            forall|j: int| 0 <= j < k ==> full@[j] == 0,
        decreases full@.len() - k,
    {
        k += 1;
    }
    let mut r: Vec<u8> = Vec::new();
    let mut i: usize = k;
    while i < full.len()
        invariant
            k <= i <= full@.len(),
            r@ == full@.subrange(k as int, i as int),
        decreases full@.len() - i,
    {
        r.push(full[i]);
        i += 1;
        assert(r@ =~= full@.subrange(k as int, i as int));
    }
    proof {
        assert(r@ =~= full@.skip(k as int));
        lemma_be_value_skip_zeros(full@, k as int);
        lemma_be_bytes_of_value(r@);
    }
    r
}

/// The shortest big-endian form of a 64-bit integer.
pub fn u64_be_bytes(x: u64) -> (r: Vec<u8>)
    ensures
        r@ == be_bytes(x as nat),
        r@.len() <= 8,
{
    let mut full: Vec<u8> = Vec::new();
    push_u64_be(&mut full, x);
    strip_leading_zeros(&full)
}

/// The shortest big-endian form of a 256-bit integer.
pub fn u256_be_bytes(x: &U256) -> (r: Vec<u8>)
    ensures
        r@ == be_bytes(x@),
        r@.len() <= 32,
{
    let mut full: Vec<u8> = Vec::new();
    push_u64_be(&mut full, x.0[3]);
    push_u64_be(&mut full, x.0[2]);
    push_u64_be(&mut full, x.0[1]);
    push_u64_be(&mut full, x.0[0]);
    assert(be_value(full@) == limbs_value(x.0@));
    strip_leading_zeros(&full)
}

/// The eight bytes of `bytes` from `start` on, read as a big-endian number.
fn u64_from_be(bytes: &[u8], start: usize) -> (r: u64)
    requires
        start + 8 <= bytes@.len(),
    ensures
        be_value(bytes@.subrange(0, start + 8)) == be_value(bytes@.subrange(0, start as int))
            * 0x1_0000_0000_0000_0000 + r as nat,
{
    let a0: u64 = bytes[start] as u64;
    let a1: u64 = bytes[start + 1] as u64;
    let a2: u64 = bytes[start + 2] as u64;
    let a3: u64 = bytes[start + 3] as u64;
    let a4: u64 = bytes[start + 4] as u64;
    let a5: u64 = bytes[start + 5] as u64;
    let a6: u64 = bytes[start + 6] as u64;
    let a7: u64 = bytes[start + 7] as u64;
    proof {
        let s = bytes@;
        let b = start as int;
        assert(s.subrange(0, b + 1) =~= s.subrange(0, b).push(s[b]));
        assert(s.subrange(0, b + 2) =~= s.subrange(0, b + 1).push(s[b + 1]));
        assert(s.subrange(0, b + 3) =~= s.subrange(0, b + 2).push(s[b + 2]));
        assert(s.subrange(0, b + 4) =~= s.subrange(0, b + 3).push(s[b + 3]));
        assert(s.subrange(0, b + 5) =~= s.subrange(0, b + 4).push(s[b + 4]));
        assert(s.subrange(0, b + 6) =~= s.subrange(0, b + 5).push(s[b + 5]));
        assert(s.subrange(0, b + 7) =~= s.subrange(0, b + 6).push(s[b + 6]));
        assert(s.subrange(0, b + 8) =~= s.subrange(0, b + 7).push(s[b + 7]));
        lemma_be_value_push(s.subrange(0, b), s[b]);
        lemma_be_value_push(s.subrange(0, b + 1), s[b + 1]);
        lemma_be_value_push(s.subrange(0, b + 2), s[b + 2]);
        lemma_be_value_push(s.subrange(0, b + 3), s[b + 3]);
        lemma_be_value_push(s.subrange(0, b + 4), s[b + 4]);
        lemma_be_value_push(s.subrange(0, b + 5), s[b + 5]);
        lemma_be_value_push(s.subrange(0, b + 6), s[b + 6]);
        lemma_be_value_push(s.subrange(0, b + 7), s[b + 7]);
    }
    a0 * 0x100_0000_0000_0000 + a1 * 0x1_0000_0000_0000 + a2 * 0x100_0000_0000 + a3 * 0x1_0000_0000
        + a4 * 0x100_0000 + a5 * 0x1_0000 + a6 * 0x100 + a7
}

/// The 256-bit integer that 32 big-endian bytes stand for.
pub fn u256_from_be_bytes(bytes: &[u8; 32]) -> (r: U256)
    ensures
        r@ == be_value(bytes@),
{
    let s = bytes.as_slice();
    let l3 = u64_from_be(s, 0);
    let l2 = u64_from_be(s, 8);
    let l1 = u64_from_be(s, 16);
    let l0 = u64_from_be(s, 24);
    proof {
        assert(s@.subrange(0, 0) =~= Seq::<u8>::empty());
        assert(s@.subrange(0, 32) =~= bytes@);
    }
    U256([l0, l1, l2, l3])
}

/// Appends the prefix for a payload of `len` bytes.
pub fn append_rlp_prefix(out: &mut Vec<u8>, len: usize, base: u8)
    requires
        base == 0x80 || base == 0xc0,
    ensures
        final(out)@ == old(out)@ + rlp_prefix(len as nat, base as nat),
{
    if len < 56 {
        out.push(base + len as u8);
        assert(out@ =~= old(out)@ + rlp_prefix(len as nat, base as nat));
    } else {
        let b = u64_be_bytes(len as u64);
        out.push(base + 55 + b.len() as u8);
        let ghost mid = out@;
        append_bytes(out, b.as_slice());
        assert(out@ =~= old(out)@ + rlp_prefix(len as nat, base as nat));
    }
}

/// Appends the encoding of the byte string `data`.
pub fn append_rlp_string(out: &mut Vec<u8>, data: &[u8])
    ensures
        final(out)@ == old(out)@ + rlp_string(data@),
{
    if data.len() == 1 && data[0] < 0x80 {
        append_bytes(out, data);
    } else {
        append_rlp_prefix(out, data.len(), 0x80);
        append_bytes(out, data);
        assert(out@ =~= old(out)@ + rlp_string(data@));
    }
}

/// Appends the encoding of a 64-bit integer.
pub fn append_rlp_u64(out: &mut Vec<u8>, x: u64)
    ensures
        final(out)@ == old(out)@ + rlp_uint(x as nat),
{
    let b = u64_be_bytes(x);
    append_rlp_string(out, b.as_slice());
}

/// Appends the encoding of a 256-bit integer.
pub fn append_rlp_u256(out: &mut Vec<u8>, x: &U256)
    ensures
        final(out)@ == old(out)@ + rlp_uint(x@),
{
    let b = u256_be_bytes(x);
    append_rlp_string(out, b.as_slice());
}

/// The encoding of the list whose encoded items make up `payload`.
pub fn encode_list(payload: &[u8]) -> (r: Vec<u8>)
    ensures
        r@ == rlp_list(payload@),
{
    let mut r: Vec<u8> = Vec::new();
    append_rlp_prefix(&mut r, payload.len(), 0xc0);
    append_bytes(&mut r, payload);
    assert(r@ =~= rlp_list(payload@));
    r
}

/// What stands in front of an encoded item: whether the item is a list, where
/// its payload starts and how long the payload is.
pub struct RlpHead {
    pub is_list: bool,
    pub start: nat,
    pub len: nat,
}

impl RlpHead {
    /// Where the item ends.
    pub open spec fn end(self) -> nat {
        self.start + self.len
    }
}

/// The head of an item whose length is written out in `width` bytes after
/// the first byte. Such a length has no zero in front and is at least 56.
pub open spec fn long_head(s: Seq<u8>, width: nat, is_list: bool) -> Option<RlpHead> {
    if s.len() < 1 + width || s[1] == 0 {
        None
    } else {
        let len = be_value(s.subrange(1, 1 + width as int));
        if len < 56 || s.len() < 1 + width + len {
            None
        } else {
            Some(RlpHead { is_list, start: 1 + width, len })
        }
    }
}

/// The head of the item that `s` starts with; `None` where `s` does not
/// start with a whole item in canonical form.
pub open spec fn rlp_head(s: Seq<u8>) -> Option<RlpHead> {
    if s.len() == 0 {
        None
    } else if s[0] < 0x80 {
        Some(RlpHead { is_list: false, start: 0, len: 1 })
    } else if s[0] <= 0xb7 {
        let len = (s[0] - 0x80) as nat;
        if s.len() < 1 + len || (len == 1 && s[1] < 0x80) {
            None
        } else {
            Some(RlpHead { is_list: false, start: 1, len })
        }
    } else if s[0] <= 0xbf {
        long_head(s, (s[0] - 0xb7) as nat, false)
    } else if s[0] <= 0xf7 {
        let len = (s[0] - 0xc0) as nat;
        if s.len() < 1 + len {
            None
        } else {
            Some(RlpHead { is_list: true, start: 1, len })
        }
    } else {
        long_head(s, (s[0] - 0xf7) as nat, true)
    }
}

/// The byte string that `s` encodes; `None` where `s` is not the canonical
/// encoding of one byte string.
pub open spec fn string_of(s: Seq<u8>) -> Option<Seq<u8>> {
    match rlp_head(s) {
        Some(h) => if !h.is_list && h.end() == s.len() {
            Some(s.subrange(h.start as int, s.len() as int))
        } else {
            None
        },
        None => None,
    }
}

/// The encoded items that follow one another in `payload`; `None` where
/// `payload` is not a row of whole items.
pub open spec fn list_items(payload: Seq<u8>) -> Option<Seq<Seq<u8>>>
    decreases payload.len(),
{
    if payload.len() == 0 {
        Some(Seq::empty())
    } else {
        match rlp_head(payload) {
            None => None,
            Some(h) => if h.end() == 0 || h.end() > payload.len() {
                None
            } else {
                match list_items(payload.skip(h.end() as int)) {
                    None => None,
                    Some(rest) => Some(seq![payload.subrange(0, h.end() as int)] + rest),
                }
            },
        }
    }
}

/// The encoded items of the list that `s` encodes; `None` where `s` is not
/// the canonical encoding of one list.
pub open spec fn list_of(s: Seq<u8>) -> Option<Seq<Seq<u8>>> {
    match rlp_head(s) {
        Some(h) => if h.is_list && h.end() == s.len() {
            list_items(s.subrange(h.start as int, s.len() as int))
        } else {
            None
        },
        None => None,
    }
}

/// `items` in front of the items of `rest`, where there are any.
pub open spec fn items_then(items: Seq<Seq<u8>>, rest: Option<Seq<Seq<u8>>>) -> Option<
    Seq<Seq<u8>>,
> {
    match rest {
        Some(r) => Some(items + r),
        None => None,
    }
}

/// A longer byte string does not stand for a smaller number than its front part.
pub proof fn lemma_be_value_grows(s: Seq<u8>, j: int)
    requires
        0 <= j <= s.len(),
    ensures
        be_value(s.subrange(0, j)) <= be_value(s),
    decreases s.len(),
{
    if j == s.len() {
        assert(s.subrange(0, j) =~= s);
    } else {
        lemma_be_value_grows(s.drop_last(), j);
        assert(s.drop_last().subrange(0, j) =~= s.subrange(0, j));
    }
}

/// The head of an item: whether it is a list, and where its payload lies in the buffer.
#[derive(Clone, Copy, Debug, PartialEq, Eq)]
pub struct ItemHead {
    pub is_list: bool,
    pub start: usize,
    pub len: usize,
}

/// Reads a length that is written out in `width` bytes after the byte at `from`.
fn read_long_head(s: &[u8], from: usize, width: usize, is_list: bool) -> (r: Option<ItemHead>)
    requires
        from < s@.len(),
        1 <= width <= 8,
    ensures
        match r {
            Some(h) => long_head(s@.skip(from as int), width as nat, is_list) == Some(
                RlpHead { is_list: h.is_list, start: (h.start - from) as nat, len: h.len as nat },
            ) && from <= h.start && h.start + h.len <= s@.len(),
            None => long_head(s@.skip(from as int), width as nat, is_list) is None,
        },
{
    let ghost t = s@.skip(from as int);
    let n = s.len();
    if n - from < 1 + width {
        return None;
    }
    if s[from + 1] == 0 {
        return None;
    }
    let ghost digits = t.subrange(1, 1 + width as int);
    let mut acc: u64 = 0;
    let mut i: usize = 0;
    assert(digits.subrange(0, 0) =~= Seq::<u8>::empty());
    while i < width
        invariant
            i <= width <= 8,
            from + 1 + width <= s@.len() == n,
            t == s@.skip(from as int),
            digits == t.subrange(1, 1 + width as int),
            acc == be_value(digits.subrange(0, i as int)),
        decreases width - i,
    {
        proof {
            assert(digits.subrange(0, i + 1) =~= digits.subrange(0, i as int).push(
                s@[from + 1 + i],
            ));
            lemma_be_value_push(digits.subrange(0, i as int), s@[from + 1 + i]);
            lemma_be_value_grows(digits, i + 1);
        }
        if acc > 0x00ff_ffff_ffff_ffff {
            assert(be_value(digits) >= acc * 256);
            assert(be_value(digits) > n);
            return None;
        }
        acc = acc * 256 + s[from + 1 + i] as u64;
        i += 1;
    }
    assert(digits.subrange(0, width as int) =~= digits);
    if acc < 56 {
        return None;
    }
    let room = n - from - 1 - width;
    if acc > room as u64 {
        return None;
    }
    Some(ItemHead { is_list, start: from + 1 + width, len: acc as usize })
}

/// Reads the head of the item that starts at `from`.
pub fn read_head(s: &[u8], from: usize) -> (r: Option<ItemHead>)
    requires
        from <= s@.len(),
    ensures
        match r {
            Some(h) => rlp_head(s@.skip(from as int)) == Some(
                RlpHead { is_list: h.is_list, start: (h.start - from) as nat, len: h.len as nat },
            ) && from <= h.start && h.start + h.len <= s@.len(),
            None => rlp_head(s@.skip(from as int)) is None,
        },
{
    if from >= s.len() {
        return None;
    }
    let b = s[from];
    let room = s.len() - from - 1;
    if b < 0x80 {
        Some(ItemHead { is_list: false, start: from, len: 1 })
    } else if b <= 0xb7 {
        let len = (b - 0x80) as usize;
        if room < len || (len == 1 && s[from + 1] < 0x80) {
            None
        } else {
            Some(ItemHead { is_list: false, start: from + 1, len })
        }
    } else if b <= 0xbf {
        read_long_head(s, from, (b - 0xb7) as usize, false)
    } else if b <= 0xf7 {
        let len = (b - 0xc0) as usize;
        if room < len {
            None
        } else {
            Some(ItemHead { is_list: true, start: from + 1, len })
        }
    } else {
        read_long_head(s, from, (b - 0xf7) as usize, true)
    }
}

/// A copy of the bytes of `s` from `from` up to `to`.
pub fn copy_range(s: &[u8], from: usize, to: usize) -> (r: Vec<u8>)
    requires
        from <= to <= s@.len(),
    ensures
        r@ == s@.subrange(from as int, to as int),
{
    let mut r: Vec<u8> = Vec::new();
    let mut i: usize = from;
    while i < to
        invariant
            from <= i <= to <= s@.len(),
            r@ == s@.subrange(from as int, i as int),
        decreases to - i,
    {
        r.push(s[i]);
        i += 1;
        assert(r@ =~= s@.subrange(from as int, i as int));
    }
    r
}

/// Decodes one byte string.
pub fn decode_string(s: &[u8]) -> (r: Option<Vec<u8>>)
    ensures
        match r {
            Some(v) => string_of(s@) == Some(v@),
            None => string_of(s@) is None,
        },
{
    assert(s@.skip(0) =~= s@);
    let n = s.len();
    match read_head(s, 0) {
        Some(h) => {
            if !h.is_list && h.start + h.len == n {
                Some(copy_range(s, h.start, n))
            } else {
                None
            }
        },
        None => None,
    }
}

/// The items of a payload are its first item and the items of what follows it.
pub proof fn lemma_list_items_step(payload: Seq<u8>, h: RlpHead)
    requires
        payload.len() > 0,
        rlp_head(payload) == Some(h),
        0 < h.end() <= payload.len(),
    ensures
        list_items(payload) == items_then(
            seq![payload.subrange(0, h.end() as int)],
            list_items(payload.skip(h.end() as int)),
        ),
{
}

/// Putting `item` in front of what follows is putting it behind what came before.
pub proof fn lemma_items_then_push(done: Seq<Seq<u8>>, item: Seq<u8>, rest: Option<Seq<Seq<u8>>>)
    ensures
        items_then(done, items_then(seq![item], rest)) == items_then(done.push(item), rest),
{
    match rest {
        Some(tail) => {
            assert(done + (seq![item] + tail) =~= done.push(item) + tail);
        },
        None => {},
    }
}

/// Reading one more item off a row of items: where the items from `start`
/// on are `done` followed by the items from `pos` on, and an item with the
/// head `h` stands at `pos`, they are `done`, that item, and the items
/// behind it.
pub proof fn lemma_items_advance(s: Seq<u8>, start: int, pos: int, h: RlpHead, done: Seq<Seq<u8>>)
    requires
        0 <= start <= pos < s.len(),
        rlp_head(s.skip(pos)) == Some(h),
        0 < h.end(),
        pos + h.end() <= s.len(),
        list_items(s.skip(start)) == items_then(done, list_items(s.skip(pos))),
    ensures
        list_items(s.skip(start)) == items_then(
            done.push(s.subrange(pos, pos + h.end())),
            list_items(s.skip(pos + h.end())),
        ),
{
    let rest = s.skip(pos);
    let e = h.end() as int;
    lemma_list_items_step(rest, h);
    assert(rest.subrange(0, e) =~= s.subrange(pos, pos + e));
    assert(rest.skip(e) =~= s.skip(pos + e));
    lemma_items_then_push(done, s.subrange(pos, pos + e), list_items(s.skip(pos + e)));
}

/// Where nothing is left to read, the items read so far are all the items.
pub proof fn lemma_items_done(s: Seq<u8>, start: int, done: Seq<Seq<u8>>)
    requires
        0 <= start <= s.len(),
        list_items(s.skip(start)) == items_then(done, list_items(s.skip(s.len() as int))),
    ensures
        list_items(s.skip(start)) == Some(done),
{
    assert(s.skip(s.len() as int).len() == 0);
    assert(done + Seq::<Seq<u8>>::empty() =~= done);
}

/// Decodes one list into its encoded items.
pub fn decode_list(s: &[u8]) -> (r: Option<Vec<Vec<u8>>>)
    ensures
        match r {
            Some(v) => list_of(s@) == Some(views(v@)),
            None => list_of(s@) is None,
        },
{
    assert(s@.skip(0) =~= s@);
    let n = s.len();
    let head = match read_head(s, 0) {
        Some(h) => h,
        None => { return None; },
    };
    if !head.is_list || head.start + head.len != n {
        return None;
    }
    let mut items: Vec<Vec<u8>> = Vec::new();
    let mut pos: usize = head.start;
    proof {
        assert(s@.subrange(head.start as int, n as int) =~= s@.skip(head.start as int));
        assert(views(items@) =~= Seq::<Seq<u8>>::empty());
        match list_items(s@.skip(head.start as int)) {
            Some(all) => {
                assert(Seq::<Seq<u8>>::empty() + all =~= all);
            },
            None => {},
        }
    }
    while pos < n
        invariant
            head.start <= pos <= n == s@.len(),
            list_of(s@) == list_items(s@.skip(head.start as int)),
            list_items(s@.skip(head.start as int)) == items_then(
                views(items@),
                list_items(s@.skip(pos as int)),
            ),
        decreases n - pos,
    {
        let ghost done = views(items@);
        let h = match read_head(s, pos) {
            Some(h) => h,
            None => { return None; },
        };
        let end = h.start + h.len;
        if end == pos {
            return None;
        }
        let item = copy_range(s, pos, end);
        proof {
            lemma_items_advance(
                s@,
                head.start as int,
                pos as int,
                RlpHead { is_list: h.is_list, start: (h.start - pos) as nat, len: h.len as nat },
                done,
            );
        }
        items.push(item);
        assert(views(items@) =~= done.push(item@));
        pos = end;
    }
    proof {
        lemma_items_done(s@, head.start as int, views(items@));
    }
    Some(items)
}

/// A number below `2^(8k)` has at most `k` bytes in its shortest form.
pub proof fn lemma_be_bytes_len(n: nat, k: nat)
    requires
        n < pow2(8 * k),
    ensures
        be_bytes(n).len() <= k,
    decreases k,
{
    lemma2_to64();
    if n > 0 {
        if k == 0 {
            assert(pow2(0) == 1);
        } else {
            lemma_pow2_adds(8, (8 * (k - 1)) as nat);
            assert(8 + 8 * (k - 1) == 8 * k);
            assert(pow2(8 * k) == 256 * pow2((8 * (k - 1)) as nat));
            lemma_be_bytes_len(n / 256, (k - 1) as nat);
        }
    }
}

/// The prefix of a payload of fewer than `2^64` bytes is read back as the
/// head of the item, whatever follows the item.
pub proof fn lemma_head_of_prefix(payload: Seq<u8>, is_list: bool, rest: Seq<u8>)
    requires
        payload.len() < 0x1_0000_0000_0000_0000,
        is_list || !(payload.len() == 1 && payload[0] < 0x80),
    ensures
        ({
            let base: nat = if is_list { 0xc0 } else { 0x80 };
            let prefix = rlp_prefix(payload.len(), base);
            rlp_head(prefix + payload + rest) == Some(
                RlpHead { is_list, start: prefix.len(), len: payload.len() },
            )
        }),
{
    let base: nat = if is_list { 0xc0 } else { 0x80 };
    let len = payload.len();
    let prefix = rlp_prefix(len, base);
    let s = prefix + payload + rest;
    if len < 56 {
        assert(prefix.len() == 1);
        assert(s[0] == (base + len) as u8);
        if len == 1 {
            assert(s[1] == payload[0]);
        }
    } else {
        let digits = be_bytes(len);
        lemma2_to64();
        lemma_be_bytes_len(len, 8);
        lemma_be_value_of_bytes(len);
        let width = digits.len();
        assert(1 <= width <= 8);
        assert(prefix =~= seq![(base + 55 + width) as u8] + digits);
        assert(s[0] == (base + 55 + width) as u8);
        assert(s[1] == digits[0]);
        assert(s.subrange(1, 1 + width as int) =~= digits);
        assert(long_head(s, width, is_list) == Some(
            RlpHead { is_list, start: 1 + width, len },
        ));
    }
}

/// Decoding undoes encoding: the encoding of a byte string of fewer than
/// `2^64` bytes is decoded to that byte string.
pub proof fn law_string_round_trip(x: Seq<u8>)
    requires
        x.len() < 0x1_0000_0000_0000_0000,
    ensures
        string_of(rlp_string(x)) == Some(x),
{
    if x.len() == 1 && x[0] < 0x80 {
        assert(x.subrange(0, 1) =~= x);
    } else {
        let prefix = rlp_prefix(x.len(), 0x80);
        lemma_head_of_prefix(x, false, Seq::empty());
        assert(prefix + x + Seq::<u8>::empty() =~= rlp_string(x));
        assert(rlp_string(x).subrange(prefix.len() as int, rlp_string(x).len() as int) =~= x);
    }
}

/// Decoding undoes encoding: the encoding of a list with a payload of fewer
/// than `2^64` bytes is decoded to the items of the payload.
pub proof fn law_list_round_trip(payload: Seq<u8>)
    requires
        payload.len() < 0x1_0000_0000_0000_0000,
    ensures
        list_of(rlp_list(payload)) == list_items(payload),
{
    let prefix = rlp_prefix(payload.len(), 0xc0);
    lemma_head_of_prefix(payload, true, Seq::empty());
    assert(prefix + payload + Seq::<u8>::empty() =~= rlp_list(payload));
    assert(rlp_list(payload).subrange(prefix.len() as int, rlp_list(payload).len() as int)
        =~= payload);
}

/// An item whose head reads as `h` is the prefix for its payload, followed
/// by the payload.
pub proof fn lemma_item_is_encoding(s: Seq<u8>, h: RlpHead)
    requires
        rlp_head(s) == Some(h),
    ensures
        h.end() <= s.len(),
        h.is_list ==> s.subrange(0, h.end() as int) == rlp_list(
            s.subrange(h.start as int, h.end() as int),
        ),
        !h.is_list ==> s.subrange(0, h.end() as int) == rlp_string(
            s.subrange(h.start as int, h.end() as int),
        ),
{
    let payload = s.subrange(h.start as int, h.end() as int);
    let item = s.subrange(0, h.end() as int);
    if s[0] < 0x80 {
        assert(item =~= payload);
    } else if s[0] <= 0xb7 {
        assert(item =~= rlp_prefix(payload.len(), 0x80) + payload);
    } else if s[0] <= 0xbf {
        let width = (s[0] - 0xb7) as nat;
        let digits = s.subrange(1, 1 + width as int);
        lemma_be_bytes_of_value(digits);
        assert(item =~= rlp_prefix(payload.len(), 0x80) + payload);
    } else if s[0] <= 0xf7 {
        assert(item =~= rlp_prefix(payload.len(), 0xc0) + payload);
    } else {
        let width = (s[0] - 0xf7) as nat;
        let digits = s.subrange(1, 1 + width as int);
        lemma_be_bytes_of_value(digits);
        assert(item =~= rlp_prefix(payload.len(), 0xc0) + payload);
    }
}

/// Only the encoding of a byte string is decoded to it.
pub proof fn law_string_is_canonical(s: Seq<u8>, x: Seq<u8>)
    requires
        string_of(s) == Some(x),
    ensures
        s == rlp_string(x),
{
    let h = rlp_head(s).unwrap();
    lemma_item_is_encoding(s, h);
    assert(s.subrange(0, s.len() as int) =~= s);
}

/// The items of a payload, one after the other, make up the payload.
pub proof fn lemma_items_make_payload(payload: Seq<u8>, items: Seq<Seq<u8>>)
    requires
        list_items(payload) == Some(items),
    ensures
        concat(items) == payload,
    decreases payload.len(),
{
    if payload.len() == 0 {
        assert(items =~= Seq::<Seq<u8>>::empty());
    } else {
        let h = rlp_head(payload).unwrap();
        let first = payload.subrange(0, h.end() as int);
        let after = payload.skip(h.end() as int);
        let rest = list_items(after).unwrap();
        lemma_items_make_payload(after, rest);
        lemma_concat_front(first, rest);
        assert(first + after =~= payload);
    }
}

/// Concatenation takes the first string first.
pub proof fn lemma_concat_front(first: Seq<u8>, rest: Seq<Seq<u8>>)
    ensures
        concat(seq![first] + rest) == first + concat(rest),
    decreases rest.len(),
{
    let all = seq![first] + rest;
    if rest.len() == 0 {
        assert(all.drop_last() =~= Seq::<Seq<u8>>::empty());
        assert(concat(all.drop_last()) =~= Seq::<u8>::empty());
        assert(concat(all) =~= first + concat(rest));
    } else {
        assert(all.drop_last() =~= seq![first] + rest.drop_last());
        lemma_concat_front(first, rest.drop_last());
        assert(concat(all) =~= first + concat(rest));
    }
}

/// Only the encoding of a list is decoded to its items.
pub proof fn law_list_is_canonical(s: Seq<u8>, items: Seq<Seq<u8>>)
    requires
        list_of(s) == Some(items),
    ensures
        s == rlp_list(concat(items)),
{
    let h = rlp_head(s).unwrap();
    lemma_item_is_encoding(s, h);
    lemma_items_make_payload(s.subrange(h.start as int, s.len() as int), items);
    assert(s.subrange(0, s.len() as int) =~= s);
}

/// The encoding of a byte string of fewer than `2^64` bytes is read back as
/// one item that holds the string, whatever follows it.
pub proof fn lemma_head_of_string(x: Seq<u8>, rest: Seq<u8>)
    requires
        x.len() < 0x1_0000_0000_0000_0000,
    ensures
        rlp_head(rlp_string(x) + rest) == Some(
            RlpHead {
                is_list: false,
                start: (rlp_string(x).len() - x.len()) as nat,
                len: x.len(),
            },
        ),
        (rlp_string(x) + rest).subrange(
            rlp_string(x).len() - x.len(),
            rlp_string(x).len() as int,
        ) == x,
        (rlp_string(x) + rest).skip(rlp_string(x).len() as int) == rest,
{
    let s = rlp_string(x) + rest;
    if x.len() == 1 && x[0] < 0x80 {
        assert(s[0] == x[0]);
    } else {
        lemma_head_of_prefix(x, false, rest);
        assert(rlp_prefix(x.len(), 0x80) + x + rest =~= s);
    }
    assert(s.subrange(rlp_string(x).len() - x.len(), rlp_string(x).len() as int) =~= x);
    assert(s.skip(rlp_string(x).len() as int) =~= rest);
}

/// The encoding of a list with a payload of fewer than `2^64` bytes is read
/// back as one item that holds the payload, whatever follows it.
pub proof fn lemma_head_of_list(payload: Seq<u8>, rest: Seq<u8>)
    requires
        payload.len() < 0x1_0000_0000_0000_0000,
    ensures
        rlp_head(rlp_list(payload) + rest) == Some(
            RlpHead {
                is_list: true,
                start: (rlp_list(payload).len() - payload.len()) as nat,
                len: payload.len(),
            },
        ),
        (rlp_list(payload) + rest).subrange(
            rlp_list(payload).len() - payload.len(),
            rlp_list(payload).len() as int,
        ) == payload,
        (rlp_list(payload) + rest).skip(rlp_list(payload).len() as int) == rest,
{
    let s = rlp_list(payload) + rest;
    lemma_head_of_prefix(payload, true, rest);
    assert(rlp_prefix(payload.len(), 0xc0) + payload + rest =~= s);
    assert(s.subrange(rlp_list(payload).len() - payload.len(), rlp_list(payload).len() as int)
        =~= payload);
    assert(s.skip(rlp_list(payload).len() as int) =~= rest);
}

/// Two encoded byte strings, each followed by more bytes, make the same
/// bytes only if the strings are the same and what follows is the same.
pub proof fn lemma_split_string(x1: Seq<u8>, rest1: Seq<u8>, x2: Seq<u8>, rest2: Seq<u8>)
    requires
        rlp_string(x1) + rest1 == rlp_string(x2) + rest2,
        x1.len() < 0x1_0000_0000_0000_0000,
        x2.len() < 0x1_0000_0000_0000_0000,
    ensures
        x1 == x2,
        rest1 == rest2,
{
    lemma_head_of_string(x1, rest1);
    lemma_head_of_string(x2, rest2);
}

/// Two encoded lists, each followed by more bytes, make the same bytes only
/// if the payloads are the same and what follows is the same.
pub proof fn lemma_split_list(p1: Seq<u8>, rest1: Seq<u8>, p2: Seq<u8>, rest2: Seq<u8>)
    requires
        rlp_list(p1) + rest1 == rlp_list(p2) + rest2,
        p1.len() < 0x1_0000_0000_0000_0000,
        p2.len() < 0x1_0000_0000_0000_0000,
    ensures
        p1 == p2,
        rest1 == rest2,
{
    lemma_head_of_list(p1, rest1);
    lemma_head_of_list(p2, rest2);
}

/// No bytes start with an encoded byte string and with an encoded list at once.
pub proof fn lemma_string_is_no_list(x: Seq<u8>, rest1: Seq<u8>, p: Seq<u8>, rest2: Seq<u8>)
    requires
        x.len() < 0x1_0000_0000_0000_0000,
        p.len() < 0x1_0000_0000_0000_0000,
    ensures
        rlp_string(x) + rest1 != rlp_list(p) + rest2,
{
    lemma_head_of_string(x, rest1);
    lemma_head_of_list(p, rest2);
}

/// Different numbers have different shortest forms.
pub proof fn lemma_be_bytes_injective(a: nat, b: nat)
    requires
        be_bytes(a) == be_bytes(b),
    ensures
        a == b,
{
    lemma_be_value_of_bytes(a);
    lemma_be_value_of_bytes(b);
}

/// An encoding is at least one byte long and no shorter than what it holds.
pub proof fn lemma_encoding_len(x: Seq<u8>)
    ensures
        rlp_string(x).len() >= 1,
        rlp_string(x).len() >= x.len(),
        rlp_list(x).len() > x.len(),
{
}

} // verus!
