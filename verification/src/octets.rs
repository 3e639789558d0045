//! Octet strings: little-endian numbers and reference-counted buffers.

use bytes::{BufMut, Bytes, BytesMut};
use vstd::prelude::*;

verus! {

/// The `width` low octets of `x`, least significant first.
pub open spec fn le_bytes(x: nat, width: nat) -> Seq<u8>
    decreases width,
{
    if width == 0 {
        Seq::empty()
    } else {
        seq![(x % 256) as u8] + le_bytes(x / 256, (width - 1) as nat)
    }
}

/// The number that these octets spell, least significant first.
pub open spec fn le_value(s: Seq<u8>) -> nat
    decreases s.len(),
{
    if s.len() == 0 {
        0
    } else {
        s[0] as nat + 256 * le_value(s.skip(1))
    }
}

/// How many values `width` octets can spell.
pub open spec fn le_limit(width: nat) -> nat
    decreases width,
{
    if width == 0 {
        1
    } else {
        256 * le_limit((width - 1) as nat)
    }
}

/// `width` octets are written, whatever the number.
pub proof fn lemma_le_bytes_len(x: nat, width: nat)
    ensures
        le_bytes(x, width).len() == width,
    decreases width,
{
    if width > 0 {
        lemma_le_bytes_len(x / 256, (width - 1) as nat);
    }
}

/// Reading back the octets of a number that fits gives the number.
pub proof fn lemma_le_round_trip(x: nat, width: nat)
    requires
        x < le_limit(width),
    ensures
        le_value(le_bytes(x, width)) == x,
    decreases width,
{
    if width > 0 {
        let rest = le_bytes(x / 256, (width - 1) as nat);
        lemma_le_round_trip(x / 256, (width - 1) as nat);
        assert(le_bytes(x, width).skip(1) =~= rest);
    }
}

/// Writing the number that octets spell gives the octets.
pub proof fn lemma_le_bytes_of_value(s: Seq<u8>)
    ensures
        le_bytes(le_value(s), s.len()) == s,
        le_value(s) < le_limit(s.len()),
    decreases s.len(),
{
    if s.len() > 0 {
        lemma_le_bytes_of_value(s.skip(1));
        let v = le_value(s);
        let rest = le_value(s.skip(1));
        assert(v % 256 == s[0] as nat && v / 256 == rest);
        assert(le_bytes(v, s.len()) =~= s);
    }
}

/// The bounds of the widths in use.
pub proof fn lemma_le_limits()
    ensures
        le_limit(4) == 0x1_0000_0000,
        le_limit(8) == 0x1_0000_0000_0000_0000,
{
    reveal_with_fuel(le_limit, 9);
}

/// The octets of a `u32`, least significant first.
pub fn u32_to_le(x: u32) -> (b: [u8; 4])
    ensures
        b@ == le_bytes(x as nat, 4),
{
    let b: [u8; 4] = [
        (x % 256) as u8,
        (x / 256 % 256) as u8,
        (x / 65536 % 256) as u8,
        (x / 16777216) as u8,
    ];
    proof {
        reveal_with_fuel(le_bytes, 5);
        let n = x as nat;
        assert(n / 256 / 256 == n / 65536 && n / 256 / 256 / 256 == n / 16777216);
        assert(b@ =~= le_bytes(n, 4));
    }
    b
}

/// The octets of a `u64`, least significant first.
pub fn u64_to_le(x: u64) -> (b: [u8; 8])
    ensures
        b@ == le_bytes(x as nat, 8),
{
    let b: [u8; 8] = [
        (x % 256) as u8,
        (x / 0x100 % 256) as u8,
        (x / 0x1_0000 % 256) as u8,
        (x / 0x100_0000 % 256) as u8,
        (x / 0x1_0000_0000 % 256) as u8,
        (x / 0x100_0000_0000 % 256) as u8,
        (x / 0x1_0000_0000_0000 % 256) as u8,
        (x / 0x100_0000_0000_0000) as u8,
    ];
    proof {
        reveal_with_fuel(le_bytes, 9);
        let n = x as nat;
        assert(n / 256 / 256 == n / 0x1_0000);
        assert(n / 0x1_0000 / 256 == n / 0x100_0000);
        assert(n / 0x100_0000 / 256 == n / 0x1_0000_0000);
        assert(n / 0x1_0000_0000 / 256 == n / 0x100_0000_0000);
        assert(n / 0x100_0000_0000 / 256 == n / 0x1_0000_0000_0000);
        assert(n / 0x1_0000_0000_0000 / 256 == n / 0x100_0000_0000_0000);
        assert(b@ =~= le_bytes(n, 8));
    }
    b
}

/// The `u32` that four octets spell.
pub fn u32_from_le(b: [u8; 4]) -> (x: u32)
    ensures
        x as nat == le_value(b@),
{
    proof {
        reveal_with_fuel(le_value, 5);
        let s = b@;
        assert(s.skip(1).skip(1) =~= s.skip(2));
        assert(s.skip(2).skip(1) =~= s.skip(3));
        assert(s.skip(3).skip(1) =~= s.skip(4));
    }
    b[0] as u32 + 256 * (b[1] as u32) + 65536 * (b[2] as u32) + 16777216 * (b[3] as u32)
}

/// Appends octets to a vector.
pub fn append(v: &mut Vec<u8>, more: &[u8])
    ensures
        final(v)@ == old(v)@ + more@,
{
    let ghost before = v@;
    v.extend_from_slice(more);
    assert(v@ =~= before + more@);
}

/// The octets as an array, if there are exactly 32.
pub fn to_array32(v: &[u8]) -> (r: Option<[u8; 32]>)
    ensures
        match r {
            Some(a) => a@ == v@,
            None => v@.len() != 32,
        },
{
    if v.len() != 32 {
        return None;
    }
    let mut a: [u8; 32] = [0u8; 32];
    let mut i: usize = 0;
    while i < 32
        invariant
            i <= 32,
            v@.len() == 32,
            a@.take(i as int) == v@.take(i as int),
        decreases 32 - i,
    {
        a[i] = v[i];
        assert(a@.take(i + 1) =~= v@.take(i + 1));
        i += 1;
    }
    assert(a@.take(32) =~= a@ && v@.take(32) =~= v@);
    Some(a)
}

/// Whether two arrays hold the same octets.
pub fn same32(a: &[u8; 32], b: &[u8; 32]) -> (r: bool)
    ensures
        r == (a@ == b@),
{
    let mut i: usize = 0;
    while i < 32
        invariant
            i <= 32,
            forall|k: int| 0 <= k < i ==> a@[k] == b@[k],
        decreases 32 - i,
    {
        if a[i] != b[i] {
            return false;
        }
        i += 1;
    }
    assert(a@ =~= b@);
    true
}

/// A reference-counted run of octets.
#[verifier::external_type_specification]
#[verifier::external_body]
pub struct ExBytes(Bytes);

/// A growable run of octets, frozen into a [`Bytes`] when done.
#[verifier::external_type_specification]
#[verifier::external_body]
pub struct ExBytesMut(BytesMut);

/// The octets that a [`Bytes`] holds.
pub uninterp spec fn contents(b: Bytes) -> Seq<u8>;

/// The octets written to a [`BytesMut`] so far.
pub uninterp spec fn written(b: BytesMut) -> Seq<u8>;

/// `Bytes::len`: how many octets it holds.
#[verifier::external_body]
pub(crate) fn bytes_len(b: &Bytes) -> (n: usize)
    ensures
        n as nat == contents(*b).len(),
{
    b.len()
}

/// Indexing a [`Bytes`] through its slice: the octet at `i`.
#[verifier::external_body]
pub(crate) fn bytes_at(b: &Bytes, i: usize) -> (x: u8)
    requires
        i < contents(*b).len(),
    ensures
        x == contents(*b)[i as int],
{
    b[i]
}

/// `Bytes::slice` with a lower bound: everything from `from` on, sharing the
/// storage. It panics past the end, which `requires` leaves out.
#[verifier::external_body]
pub(crate) fn bytes_from(b: &Bytes, from: usize) -> (r: Bytes)
    requires
        from <= contents(*b).len(),
    ensures
        contents(r) == contents(*b).skip(from as int),
{
    b.slice(from..)
}

/// `Bytes::clone`: the same octets, sharing the storage.
pub assume_specification [<Bytes as Clone>::clone](b: &Bytes) -> (r: Bytes)
    ensures
        contents(r) == contents(*b),
;

/// `BytesMut::with_capacity`: nothing written yet. It panics when the capacity
/// exceeds what can be allocated, which `requires` leaves out.
#[verifier::external_body]
pub(crate) fn buffer_with_capacity(capacity: usize) -> (b: BytesMut)
    requires
        capacity <= isize::MAX,
    ensures
        written(b) == Seq::<u8>::empty(),
{
    BytesMut::with_capacity(capacity)
}

/// `BufMut::put_u8`: appends one octet. It panics past the largest
/// allocation, which `requires` leaves out.
#[verifier::external_body]
pub(crate) fn put_u8(b: &mut BytesMut, x: u8)
    requires
        written(*old(b)).len() + 1 <= isize::MAX,
    ensures
        written(*final(b)) == written(*old(b)).push(x),
{
    b.put_u8(x);
}

/// `BufMut::put_u32_le`: appends four octets, least significant first. It
/// panics past the largest allocation, which `requires` leaves out.
#[verifier::external_body]
pub(crate) fn put_u32_le(b: &mut BytesMut, x: u32)
    requires
        written(*old(b)).len() + 4 <= isize::MAX,
    ensures
        written(*final(b)) == written(*old(b)) + le_bytes(x as nat, 4),
{
    b.put_u32_le(x);
}

/// `BufMut::put_slice` on the octets of a [`Bytes`]: appends them all. It
/// panics past the largest allocation, which `requires` leaves out.
#[verifier::external_body]
pub(crate) fn put_bytes(b: &mut BytesMut, x: &Bytes)
    requires
        written(*old(b)).len() + contents(*x).len() <= isize::MAX,
    ensures
        written(*final(b)) == written(*old(b)) + contents(*x),
{
    b.put_slice(x);
}

/// `BytesMut::freeze`: the octets written, as a [`Bytes`].
#[verifier::external_body]
pub(crate) fn freeze(b: BytesMut) -> (r: Bytes)
    ensures
        contents(r) == written(b),
{
    b.freeze()
}

/// The number that four octets spell, least significant first.
pub open spec fn number_of_four(s: Seq<u8>, at: int) -> int {
    s[at] + 0x100 * s[at + 1] + 0x1_0000 * s[at + 2] + 0x100_0000 * s[at + 3]
}

/// Four octets hold a number least significant octet first, and are read so.
pub proof fn law_numbers_are_little_endian(x: u32, s: Seq<u8>)
    ensures
        le_bytes(x as nat, 4).len() == 4,
        number_of_four(le_bytes(x as nat, 4), 0) == x,
        s.len() == 4 ==> le_value(s) == number_of_four(s, 0),
{
    reveal_with_fuel(le_bytes, 5);
    let n = x as nat;
    assert(n / 256 / 256 == n / 65536 && n / 256 / 256 / 256 == n / 16777216);
    let b = le_bytes(n, 4);
    assert(b[0] == n % 256);
    assert(b[1] == n / 256 % 256);
    assert(b[2] == n / 65536 % 256);
    assert(b[3] == n / 16777216 % 256);
    if s.len() == 4 {
        reveal_with_fuel(le_value, 5);
        assert(s.skip(1).skip(1) =~= s.skip(2));
        assert(s.skip(2).skip(1) =~= s.skip(3));
        assert(s.skip(3).skip(1) =~= Seq::empty());
    }
}

} // verus!
