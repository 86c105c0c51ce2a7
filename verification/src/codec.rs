//! The fixed consensus encoding of primitive values: little-endian integers,
//! and helpers that append encoded bytes to a growing stream.

use vstd::prelude::*;

verus! {

/// The four little-endian bytes of a 32-bit integer.
pub open spec fn le32(v: u32) -> Seq<u8> {
    seq![
        (v & 0xff) as u8,
        ((v >> 8) & 0xff) as u8,
        ((v >> 16) & 0xff) as u8,
        ((v >> 24) & 0xff) as u8,
    ]
}

/// The eight little-endian bytes of a 64-bit integer.
pub open spec fn le64(v: u64) -> Seq<u8> {
    seq![
        (v & 0xff) as u8,
        ((v >> 8) & 0xff) as u8,
        ((v >> 16) & 0xff) as u8,
        ((v >> 24) & 0xff) as u8,
        ((v >> 32) & 0xff) as u8,
        ((v >> 40) & 0xff) as u8,
        ((v >> 48) & 0xff) as u8,
        ((v >> 56) & 0xff) as u8,
    ]
}

/// Appends the little-endian encoding of `v` to `acc`.
pub fn push_le32(acc: &mut Vec<u8>, v: u32)
    ensures
        final(acc)@ == old(acc)@ + le32(v),
{
    acc.push((v & 0xff) as u8);
    acc.push(((v >> 8) & 0xff) as u8);
    acc.push(((v >> 16) & 0xff) as u8);
    acc.push(((v >> 24) & 0xff) as u8);
    assert(acc@ =~= old(acc)@ + le32(v));
}

/// Appends the little-endian encoding of `v` to `acc`.
pub fn push_le64(acc: &mut Vec<u8>, v: u64)
    ensures
        final(acc)@ == old(acc)@ + le64(v),
{
    acc.push((v & 0xff) as u8);
    acc.push(((v >> 8) & 0xff) as u8);
    acc.push(((v >> 16) & 0xff) as u8);
    acc.push(((v >> 24) & 0xff) as u8);
    acc.push(((v >> 32) & 0xff) as u8);
    acc.push(((v >> 40) & 0xff) as u8);
    acc.push(((v >> 48) & 0xff) as u8);
    acc.push(((v >> 56) & 0xff) as u8);
    assert(acc@ =~= old(acc)@ + le64(v));
}

/// Appends a copy of `data` to `acc`.
pub fn push_bytes(acc: &mut Vec<u8>, data: &Vec<u8>)
    ensures
        final(acc)@ == old(acc)@ + data@,
{
    let ghost acc0 = old(acc)@;
    let mut i: usize = 0;
    while i < data.len()
        invariant
            i <= data@.len(),
            acc@ == acc0 + data@.take(i as int),
        decreases data@.len() - i,
    {
        acc.push(data[i]);
        assert(data@.take(i as int).push(data@[i as int]) =~= data@.take(i as int + 1));
        i = i + 1;
    }
    assert(data@.take(data@.len() as int) =~= data@);
}

/// A fresh copy of `data`.
pub fn clone_bytes(data: &Vec<u8>) -> (r: Vec<u8>)
    ensures
        r@ == data@,
{
    let mut v: Vec<u8> = Vec::new();
    push_bytes(&mut v, data);
    assert(Seq::<u8>::empty() + data@ =~= data@);
    v
}

/// A fresh copy of the bytes of `data` from `a` (inclusive) to `b`
/// (exclusive).
pub fn copy_range(data: &Vec<u8>, a: usize, b: usize) -> (r: Vec<u8>)
    requires
        a <= b <= data@.len(),
    ensures
        r@ == data@.subrange(a as int, b as int),
{
    let mut v: Vec<u8> = Vec::new();
    let mut i: usize = a;
    while i < b
        invariant
            a <= i <= b <= data@.len(),
            v@ == data@.subrange(a as int, i as int),
        decreases b - i,
    {
        v.push(data[i]);
        assert(data@.subrange(a as int, i as int).push(data@[i as int]) =~= data@.subrange(
            a as int,
            i as int + 1,
        ));
        i = i + 1;
    }
    v
}

} // verus!
