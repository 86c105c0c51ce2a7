//! The selection decoder: turns one selection byte (plus continuation bytes)
//! and an item count into a strictly increasing list of indices and a
//! commit-the-count flag.

use vstd::prelude::*;
use crate::error::TxfsError;
use crate::schema::TXFS_INOUT_NUMBER;
use crate::schema::TXFS_INOUT_SELECTION_ALL;
use crate::schema::TXFS_INOUT_SELECTION_CURRENT;
use crate::schema::TXFS_INOUT_SELECTION_MASK;
use crate::schema::TXFS_INOUT_SELECTION_MODE;
use crate::schema::TXFS_INOUT_SELECTION_NONE;
use crate::schema::TXFS_INOUT_LEADING_SIZE;
use crate::schema::TXFS_INOUT_INDIVIDUAL_MODE;

verus! {

/// A seven-bit two's-complement reading of a value below `0x80`.
pub open spec fn sign7i(n: int) -> int {
    if n < 0x40 {
        n
    } else {
        n - 0x80
    }
}

/// A fifteen-bit two's-complement reading of a value below `0x8000`.
pub open spec fn sign15i(n: int) -> int {
    if n < 0x4000 {
        n
    } else {
        n - 0x8000
    }
}

/// Reads the low seven bits of `input` as a signed integer.
pub fn read_i7(input: u8) -> (r: i8)
    ensures
        r as int == sign7i((input & 0x7f) as int),
{
    let masked = input & 0x7f;
    proof {
        assert(input & 0x7f <= 0x7f) by (bit_vector);
        assert((input & 0x7f) & 0x40 == 0 ==> input & 0x7f < 0x40) by (bit_vector);
        assert((input & 0x7f) & 0x40 != 0 ==> input & 0x7f >= 0x40) by (bit_vector);
    }
    if masked & 0x40 == 0 {
        masked as i8
    } else {
        ((masked as i16) - 0x80) as i8
    }
}

/// Reads the low fifteen bits of `input` as a signed integer.
pub fn read_i15(input: u16) -> (r: i16)
    ensures
        r as int == sign15i((input & 0x7fff) as int),
{
    let masked = input & 0x7fff;
    proof {
        assert(input & 0x7fff <= 0x7fff) by (bit_vector);
        assert((input & 0x7fff) & 0x4000 == 0 ==> input & 0x7fff < 0x4000) by (bit_vector);
        assert((input & 0x7fff) & 0x4000 != 0 ==> input & 0x7fff >= 0x4000) by (bit_vector);
    }
    if masked & 0x4000 == 0 {
        masked as i16
    } else {
        ((masked as i32) - 0x8000) as i16
    }
}

/// The index that precedes the next entry: the last resolved index, or -1
/// when none has been resolved yet.
pub open spec fn prev_of(s: Seq<usize>) -> int {
    if s.len() == 0 {
        -1
    } else {
        s.last() as int
    }
}

/// Decodes `k` individual-mode index entries starting at `pos`. Each entry
/// is one byte, or two when the first byte has its top bit set. In absolute
/// mode the magnitude is the index; in relative mode it is a signed offset
/// from the current input index. A negative offset must not reach before the
/// first item; a resolved index must not exceed the item count and must
/// exceed the previous one.
pub open spec fn spec_parse_entries(
    b: Seq<u8>,
    pos: int,
    k: nat,
    absolute: bool,
    nb: nat,
    cur: nat,
    prev: int,
) -> Result<(Seq<usize>, int), TxfsError>
    decreases k,
{
    if k == 0 {
        Ok((Seq::empty(), pos))
    } else if pos >= b.len() {
        Err(TxfsError::MalformedSelector)
    } else {
        let first = b[pos];
        let single = first & 0x80 == 0;
        if !single && pos + 1 >= b.len() {
            Err(TxfsError::MalformedSelector)
        } else {
            let next_pos: int = if single {
                pos + 1
            } else {
                pos + 2
            };
            let mag: int = if single {
                first as int
            } else {
                (first & 0x7f) * 256 + b[pos + 1]
            };
            let off: int = if single {
                sign7i(first as int)
            } else {
                sign15i(mag)
            };
            if !absolute && off < 0 && -off > cur {
                Err(TxfsError::OutOfRange)
            } else {
                let idx: int = if absolute {
                    mag
                } else {
                    cur + off
                };
                if idx > nb {
                    Err(TxfsError::OutOfRange)
                } else if idx <= prev {
                    Err(TxfsError::OrderingViolation)
                } else {
                    match spec_parse_entries(b, next_pos, (k - 1) as nat, absolute, nb, cur, idx) {
                        Ok(t) => Ok((seq![idx as usize] + t.0, t.1)),
                        Err(e) => Err(e),
                    }
                }
            }
        }
    }
}

/// Decodes the individual-mode entries into `acc`, advancing `pos`.
fn parse_entries(
    bytes: &Vec<u8>,
    pos: &mut usize,
    k: u8,
    absolute: bool,
    nb_items: usize,
    cur: u32,
    acc: &mut Vec<usize>,
) -> (r: Result<(), TxfsError>)
    requires
        *old(pos) <= bytes@.len(),
    ensures
        match spec_parse_entries(
            bytes@,
            *old(pos) as int,
            k as nat,
            absolute,
            nb_items as nat,
            cur as nat,
            prev_of(old(acc)@),
        ) {
            Ok(t) => r is Ok && final(acc)@ == old(acc)@ + t.0 && *final(pos) == t.1,
            Err(e) => r == Err::<(), TxfsError>(e) && *final(pos) <= bytes@.len(),
        },
    decreases k,
{
    let ghost b = bytes@;
    let ghost pos0 = *old(pos) as int;
    let ghost prev0 = prev_of(old(acc)@);
    let ghost spec_r = spec_parse_entries(
        b,
        pos0,
        k as nat,
        absolute,
        nb_items as nat,
        cur as nat,
        prev0,
    );
    if k == 0 {
        assert(acc@ + Seq::<usize>::empty() =~= acc@);
        return Ok(());
    }
    if *pos >= bytes.len() {
        return Err(TxfsError::MalformedSelector);
    }
    let first = bytes[*pos];
    let single = first & 0x80 == 0;
    proof {
        assert(first & 0x80 == 0 ==> first & 0x7f == first) by (bit_vector);
        assert(first & 0x7f <= 0x7f) by (bit_vector);
    }
    let mag: u16;
    if single {
        mag = first as u16;
        *pos = *pos + 1;
    } else {
        if *pos + 1 >= bytes.len() {
            return Err(TxfsError::MalformedSelector);
        }
        mag = ((first & 0x7f) as u16) * 256 + (bytes[*pos + 1] as u16);
        *pos = *pos + 2;
    }
    let ghost mag_g: int = if single {
        b[pos0] as int
    } else {
        (b[pos0] & 0x7f) * 256 + b[pos0 + 1]
    };
    assert(mag as int == mag_g);
    let ghost off_g: int = if single {
        sign7i(b[pos0] as int)
    } else {
        sign15i(mag_g)
    };
    let ghost idx_g: int = if absolute {
        mag_g
    } else {
        cur as int + off_g
    };
    let idx: usize;
    if absolute {
        if mag as u64 > nb_items as u64 {
            assert(spec_r == Err::<(Seq<usize>, int), TxfsError>(TxfsError::OutOfRange));
            return Err(TxfsError::OutOfRange);
        }
        idx = mag as usize;
    } else {
        let off: i16 = if single {
            read_i7(first) as i16
        } else {
            proof {
                assert(mag <= 0x7fff ==> mag & 0x7fff == mag) by (bit_vector);
            }
            read_i15(mag)
        };
        assert(off as int == off_g);
        if off < 0 {
            let mag_off: u32 = (-(off as i32)) as u32;
            assert(mag_off as int == -off_g);
            if mag_off > cur {
                assert(spec_r == Err::<(Seq<usize>, int), TxfsError>(TxfsError::OutOfRange));
                return Err(TxfsError::OutOfRange);
            }
        }
        let idx64: i64 = cur as i64 + off as i64;
        assert(idx64 >= 0);
        if (idx64 as u64) > (nb_items as u64) {
            assert(spec_r == Err::<(Seq<usize>, int), TxfsError>(TxfsError::OutOfRange));
            return Err(TxfsError::OutOfRange);
        }
        idx = idx64 as usize;
    }
    assert(idx as int == idx_g);
    if acc.len() > 0 {
        let last = acc[acc.len() - 1];
        if idx <= last {
            assert(spec_r == Err::<(Seq<usize>, int), TxfsError>(TxfsError::OrderingViolation));
            return Err(TxfsError::OrderingViolation);
        }
    }
    assert(idx_g > prev0);
    acc.push(idx);
    let ghost mid = acc@;
    let ghost np = *pos as int;
    assert(prev_of(mid) == idx as int);
    assert(mid =~= old(acc)@ + seq![idx]);
    let sub = parse_entries(bytes, pos, k - 1, absolute, nb_items, cur, acc);
    match sub {
        Ok(_u) => {
            proof {
                match spec_parse_entries(
                    b,
                    np,
                    (k - 1) as nat,
                    absolute,
                    nb_items as nat,
                    cur as nat,
                    idx as int,
                ) {
                    Ok(t) => {
                        assert(acc@ == mid + t.0);
                        assert(spec_r == Ok::<(Seq<usize>, int), TxfsError>(
                            (seq![idx_g as usize] + t.0, t.1),
                        ));
                        assert((old(acc)@ + seq![idx]) + t.0 =~= old(acc)@ + (seq![idx] + t.0));
                        assert(acc@ == old(acc)@ + (seq![idx as usize] + t.0));
                    },
                    Err(_e) => {
                        assert(false);
                    },
                }
            }
            Ok(())
        },
        Err(e) => Err(e),
    }
}

/// The first `n` indices, in increasing order.
pub open spec fn iota(n: nat) -> Seq<usize> {
    Seq::new(n, |i: int| i as usize)
}

/// Decodes one selection, starting at `pos` within `b`, against `nb` items.
/// The top bit of the selection byte asks for the item count to be
/// committed; the rest picks no item, every item, the current input's index,
/// a leading range, or an explicit list of indices. A missing selection byte
/// is an empty selection where `allow_empty` holds, and an error otherwise.
pub open spec fn spec_parse_selection(
    b: Seq<u8>,
    pos: int,
    nb: nat,
    cur: nat,
    allow_empty: bool,
) -> Result<(Seq<usize>, bool, int), TxfsError> {
    if pos >= b.len() {
        if allow_empty {
            Ok((Seq::empty(), false, pos))
        } else {
            Err(TxfsError::MalformedSelector)
        }
    } else {
        let first = b[pos];
        let commit = first & TXFS_INOUT_NUMBER != 0;
        let sel = first & 0x7f;
        if sel == TXFS_INOUT_SELECTION_NONE {
            Ok((Seq::empty(), commit, pos + 1))
        } else if sel == TXFS_INOUT_SELECTION_ALL {
            Ok((iota(nb), commit, pos + 1))
        } else if sel == TXFS_INOUT_SELECTION_CURRENT {
            if cur >= nb {
                Err(TxfsError::OutOfRange)
            } else {
                Ok((seq![cur as usize], commit, pos + 1))
            }
        } else if sel & TXFS_INOUT_SELECTION_MODE == 0 {
            if sel & TXFS_INOUT_LEADING_SIZE == 0 {
                let count = (sel & TXFS_INOUT_SELECTION_MASK) as int;
                if count == 0 {
                    Err(TxfsError::UnreachableState)
                } else if count > nb {
                    Err(TxfsError::OutOfRange)
                } else {
                    Ok((iota(count as nat), commit, pos + 1))
                }
            } else {
                if pos + 1 >= b.len() {
                    Err(TxfsError::MalformedSelector)
                } else {
                    let count = (sel & TXFS_INOUT_SELECTION_MASK) * 256 + b[pos + 1];
                    if count == 0 {
                        Err(TxfsError::UnreachableState)
                    } else if count > nb {
                        Err(TxfsError::OutOfRange)
                    } else {
                        Ok((iota(count as nat), commit, pos + 2))
                    }
                }
            }
        } else {
            let absolute = sel & TXFS_INOUT_INDIVIDUAL_MODE == 0;
            match spec_parse_entries(
                b,
                pos + 1,
                (sel & TXFS_INOUT_SELECTION_MASK) as nat,
                absolute,
                nb,
                cur,
                -1,
            ) {
                Ok(t) => Ok((t.0, commit, t.1)),
                Err(e) => Err(e),
            }
        }
    }
}

/// Builds the first `n` indices.
fn fill_iota(n: usize) -> (v: Vec<usize>)
    ensures
        v@ == iota(n as nat),
{
    let mut v: Vec<usize> = Vec::new();
    let mut i: usize = 0;
    while i < n
        invariant
            i <= n,
            v@ == iota(i as nat),
        decreases n - i,
    {
        v.push(i);
        assert(iota(i as nat).push(i) =~= iota((i + 1) as nat));
        i = i + 1;
    }
    v
}

/// Decodes one input or output selection from the selector bytes, advancing
/// `pos` by exactly the bytes consumed. Returns the selected indices, in
/// strictly increasing order, and whether to commit the number of items.
pub fn parse_inout_selection(
    bytes: &Vec<u8>,
    pos: &mut usize,
    nb_items: usize,
    current_input_idx: u32,
    allow_empty: bool,
) -> (r: Result<(Vec<usize>, bool), TxfsError>)
    requires
        *old(pos) <= bytes@.len(),
    ensures
        match spec_parse_selection(
            bytes@,
            *old(pos) as int,
            nb_items as nat,
            current_input_idx as nat,
            allow_empty,
        ) {
            Ok(t) => (match r {
                Ok(p) => p.0@ == t.0 && p.1 == t.1,
                Err(_) => false,
            }) && *final(pos) == t.2,
            Err(e) => r == Err::<(Vec<usize>, bool), TxfsError>(e) && *final(pos) <= bytes@.len(),
        },
{
    let ghost b = bytes@;
    let ghost pos0 = *old(pos) as int;
    let ghost spec_r = spec_parse_selection(
        b,
        pos0,
        nb_items as nat,
        current_input_idx as nat,
        allow_empty,
    );
    if *pos >= bytes.len() {
        if allow_empty {
            return Ok((Vec::new(), false));
        } else {
            return Err(TxfsError::MalformedSelector);
        }
    }
    let first = bytes[*pos];
    *pos = *pos + 1;
    let commit = first & TXFS_INOUT_NUMBER != 0;
    let sel = first & 0x7f;
    if sel == TXFS_INOUT_SELECTION_NONE {
        Ok((Vec::new(), commit))
    } else if sel == TXFS_INOUT_SELECTION_ALL {
        let v = fill_iota(nb_items);
        Ok((v, commit))
    } else if sel == TXFS_INOUT_SELECTION_CURRENT {
        if current_input_idx as u64 >= nb_items as u64 {
            return Err(TxfsError::OutOfRange);
        }
        let mut v: Vec<usize> = Vec::new();
        v.push(current_input_idx as usize);
        assert(v@ =~= seq![current_input_idx as usize]);
        Ok((v, commit))
    } else if sel & TXFS_INOUT_SELECTION_MODE == 0 {
        let count: usize;
        if sel & TXFS_INOUT_LEADING_SIZE == 0 {
            count = (sel & TXFS_INOUT_SELECTION_MASK) as usize;
        } else {
            if *pos >= bytes.len() {
                return Err(TxfsError::MalformedSelector);
            }
            count = ((sel & TXFS_INOUT_SELECTION_MASK) as usize) * 256 + (bytes[*pos] as usize);
            *pos = *pos + 1;
        }
        if count == 0 {
            return Err(TxfsError::UnreachableState);
        }
        if count > nb_items {
            return Err(TxfsError::OutOfRange);
        }
        let v = fill_iota(count);
        Ok((v, commit))
    } else {
        let absolute = sel & TXFS_INOUT_INDIVIDUAL_MODE == 0;
        let kk = sel & TXFS_INOUT_SELECTION_MASK;
        let mut v: Vec<usize> = Vec::new();
        match parse_entries(bytes, pos, kk, absolute, nb_items, current_input_idx, &mut v) {
            Ok(_u) => {
                proof {
                    match spec_parse_entries(
                        b,
                        pos0 + 1,
                        (sel & TXFS_INOUT_SELECTION_MASK) as nat,
                        absolute,
                        nb_items as nat,
                        current_input_idx as nat,
                        -1,
                    ) {
                        Ok(t) => {
                            assert(Seq::<usize>::empty() + t.0 =~= t.0);
                        },
                        Err(_e) => {
                            assert(false);
                        },
                    }
                }
                Ok((v, commit))
            },
            Err(e) => Err(e),
        }
    }
}

} // verus!
