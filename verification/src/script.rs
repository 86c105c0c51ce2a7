//! Script classification and the extraction of the spent script: the redeem
//! script of a pay-to-script-hash spend (the last push of the signature
//! script), the witness script of a pay-to-witness-script-hash spend, and the
//! leaf script, control block and annex of a taproot spend.

use vstd::prelude::*;
use crate::codec::clone_bytes;
use crate::codec::copy_range;
use crate::hashing::sha256;
use crate::hashing::sha256_of;
use crate::tx::TxIn;
use crate::tx::TxInV;
use crate::tx::TxOut;
use crate::tx::TxOutV;
use crate::tx::witness_view;

verus! {

/// A pay-to-script-hash output: `OP_HASH160 <20 bytes> OP_EQUAL`.
pub open spec fn is_p2sh_spec(s: Seq<u8>) -> bool {
    s.len() == 23 && s[0] == 0xa9 && s[1] == 0x14 && s[22] == 0x87
}

/// A pay-to-witness-script-hash output: version 0, 32-byte program.
pub open spec fn is_p2wsh_spec(s: Seq<u8>) -> bool {
    s.len() == 34 && s[0] == 0x00 && s[1] == 0x20
}

/// A pay-to-taproot output: version 1, 32-byte program.
pub open spec fn is_p2tr_spec(s: Seq<u8>) -> bool {
    s.len() == 34 && s[0] == 0x51 && s[1] == 0x20
}

pub fn is_p2sh(s: &Vec<u8>) -> (r: bool)
    ensures
        r == is_p2sh_spec(s@),
{
    s.len() == 23 && s[0] == 0xa9 && s[1] == 0x14 && s[22] == 0x87
}

pub fn is_p2wsh(s: &Vec<u8>) -> (r: bool)
    ensures
        r == is_p2wsh_spec(s@),
{
    s.len() == 34 && s[0] == 0x00 && s[1] == 0x20
}

pub fn is_p2tr(s: &Vec<u8>) -> (r: bool)
    ensures
        r == is_p2tr_spec(s@),
{
    s.len() == 34 && s[0] == 0x51 && s[1] == 0x20
}

/// The data bytes of the last push of a script made only of pushes, walking
/// the script from `pos` with `acc` holding the last push seen so far.
///
/// A byte up to `0x4b` pushes that many following bytes; `0x4c`, `0x4d` and
/// `0x4e` carry a one-, two- or four-byte little-endian length; any other
/// opcode, or a push that runs past the end, yields nothing.
pub open spec fn spec_last_push(s: Seq<u8>, pos: int, acc: Option<Seq<u8>>) -> Option<Seq<u8>>
    decreases s.len() - pos,
{
    if pos < 0 || pos >= s.len() {
        acc
    } else {
        let b = s[pos];
        if b <= 0x4b {
            let n = b as int;
            if pos + 1 + n <= s.len() {
                spec_last_push(s, pos + 1 + n, Some(s.subrange(pos + 1, pos + 1 + n)))
            } else {
                None
            }
        } else if b == 0x4c {
            if pos + 2 > s.len() {
                None
            } else {
                let n = s[pos + 1] as int;
                if pos + 2 + n <= s.len() {
                    spec_last_push(s, pos + 2 + n, Some(s.subrange(pos + 2, pos + 2 + n)))
                } else {
                    None
                }
            }
        } else if b == 0x4d {
            if pos + 3 > s.len() {
                None
            } else {
                let n = s[pos + 1] + 256 * s[pos + 2];
                if pos + 3 + n <= s.len() {
                    spec_last_push(s, pos + 3 + n, Some(s.subrange(pos + 3, pos + 3 + n)))
                } else {
                    None
                }
            }
        } else if b == 0x4e {
            if pos + 5 > s.len() {
                None
            } else {
                let n = s[pos + 1] + 256 * s[pos + 2] + 65536 * s[pos + 3] + 16777216 * s[pos
                    + 4];
                if pos + 5 + n <= s.len() {
                    spec_last_push(s, pos + 5 + n, Some(s.subrange(pos + 5, pos + 5 + n)))
                } else {
                    None
                }
            }
        } else {
            None
        }
    }
}

/// The redeem script carried by a signature script: the data of its last
/// push, provided the whole script consists of well-formed pushes.
pub open spec fn spec_redeem_script(script_sig: Seq<u8>) -> Option<Seq<u8>> {
    spec_last_push(script_sig, 0, None)
}

/// Extracts the redeem script from a signature script.
pub fn redeem_script(script_sig: &Vec<u8>) -> (r: Option<Vec<u8>>)
    ensures
        match (r, spec_redeem_script(script_sig@)) {
            (Some(rv), Some(v)) => rv@ == v,
            (None, None) => true,
            _ => false,
        },
{
    let s = script_sig;
    let mut pos: usize = 0;
    let mut start: usize = 0;
    let mut end: usize = 0;
    let mut have: bool = false;
    while pos < s.len()
        invariant
            s@ == script_sig@,
            pos <= s@.len(),
            have ==> start <= end <= s@.len(),
            spec_last_push(s@, 0, None) == spec_last_push(
                s@,
                pos as int,
                if have {
                    Some(s@.subrange(start as int, end as int))
                } else {
                    None::<Seq<u8>>
                },
            ),
        decreases s@.len() - pos,
    {
        let ghost acc_g: Option<Seq<u8>> = if have {
            Some(s@.subrange(start as int, end as int))
        } else {
            None
        };
        let b = s[pos];
        if b <= 0x4b {
            let n = b as usize;
            if s.len() - pos - 1 < n {
                assert(spec_last_push(s@, pos as int, acc_g) is None);
                assert(spec_last_push(s@, 0, None::<Seq<u8>>) is None);
                assert(spec_redeem_script(script_sig@) is None);
                return None;
            }
            start = pos + 1;
            end = pos + 1 + n;
            have = true;
            pos = end;
        } else if b == 0x4c {
            if s.len() - pos < 2 {
                assert(spec_last_push(s@, pos as int, acc_g) is None);
                assert(spec_last_push(s@, 0, None::<Seq<u8>>) is None);
                assert(spec_redeem_script(script_sig@) is None);
                return None;
            }
            let n = s[pos + 1] as usize;
            if s.len() - pos - 2 < n {
                assert(spec_last_push(s@, pos as int, acc_g) is None);
                assert(spec_last_push(s@, 0, None::<Seq<u8>>) is None);
                assert(spec_redeem_script(script_sig@) is None);
                return None;
            }
            start = pos + 2;
            end = pos + 2 + n;
            have = true;
            pos = end;
        } else if b == 0x4d {
            if s.len() - pos < 3 {
                assert(spec_last_push(s@, pos as int, acc_g) is None);
                assert(spec_last_push(s@, 0, None::<Seq<u8>>) is None);
                assert(spec_redeem_script(script_sig@) is None);
                return None;
            }
            let n = s[pos + 1] as usize + 256 * (s[pos + 2] as usize);
            if s.len() - pos - 3 < n {
                assert(spec_last_push(s@, pos as int, acc_g) is None);
                assert(spec_last_push(s@, 0, None::<Seq<u8>>) is None);
                assert(spec_redeem_script(script_sig@) is None);
                return None;
            }
            start = pos + 3;
            end = pos + 3 + n;
            have = true;
            pos = end;
        } else if b == 0x4e {
            if s.len() - pos < 5 {
                assert(spec_last_push(s@, pos as int, acc_g) is None);
                assert(spec_last_push(s@, 0, None::<Seq<u8>>) is None);
                assert(spec_redeem_script(script_sig@) is None);
                return None;
            }
            let n64: u64 = s[pos + 1] as u64 + 256 * (s[pos + 2] as u64) + 65536 * (s[pos
                + 3] as u64) + 16777216 * (s[pos + 4] as u64);
            if ((s.len() - pos - 5) as u64) < n64 {
                assert(spec_last_push(s@, pos as int, acc_g) is None);
                assert(spec_last_push(s@, 0, None::<Seq<u8>>) is None);
                assert(spec_redeem_script(script_sig@) is None);
                return None;
            }
            let n = n64 as usize;
            start = pos + 5;
            end = pos + 5 + n;
            have = true;
            pos = end;
        } else {
            assert(spec_last_push(s@, pos as int, acc_g) is None);
            assert(spec_last_push(s@, 0, None::<Seq<u8>>) is None);
            assert(spec_redeem_script(script_sig@) is None);
            return None;
        }
        assert(spec_last_push(s@, 0, None) == spec_last_push(
            s@,
            pos as int,
            Some(s@.subrange(start as int, end as int)),
        ));
    }
    if have {
        Some(copy_range(s, start, end))
    } else {
        None
    }
}

/// Whether the witness stack carries an annex: at least two elements, and
/// the last one begins with `0x50`.
pub open spec fn spec_has_annex(w: Seq<Seq<u8>>) -> bool {
    w.len() >= 2 && w.last().len() >= 1 && w.last()[0] == 0x50
}

/// The annex of a taproot spend, if the witness carries one.
pub open spec fn spec_taproot_annex(w: Seq<Seq<u8>>) -> Option<Seq<u8>> {
    if spec_has_annex(w) {
        Some(w.last())
    } else {
        None
    }
}

/// The leaf script of a taproot script-path spend: the second-to-last
/// element once the annex, if any, is set aside; a stack of one element is a
/// key-path spend and has none.
pub open spec fn spec_tapscript(w: Seq<Seq<u8>>) -> Option<Seq<u8>> {
    if w.len() <= 1 {
        None
    } else if spec_has_annex(w) {
        if w.len() >= 3 {
            Some(w[w.len() - 3])
        } else {
            None
        }
    } else {
        Some(w[w.len() - 2])
    }
}

/// The control block of a taproot script-path spend: the last element once
/// the annex, if any, is set aside.
pub open spec fn spec_taproot_control_block(w: Seq<Seq<u8>>) -> Option<Seq<u8>> {
    if w.len() <= 1 {
        None
    } else if spec_has_annex(w) {
        if w.len() >= 3 {
            Some(w[w.len() - 2])
        } else {
            None
        }
    } else {
        Some(w.last())
    }
}

/// The witness script of a pay-to-witness-script-hash spend: the last
/// witness element.
pub open spec fn spec_witness_script(w: Seq<Seq<u8>>) -> Option<Seq<u8>> {
    if w.len() == 0 {
        None
    } else {
        Some(w.last())
    }
}

fn has_annex(w: &Vec<Vec<u8>>) -> (r: bool)
    ensures
        r == spec_has_annex(witness_view(w@)),
{
    if w.len() < 2 {
        return false;
    }
    let last = &w[w.len() - 1];
    last.len() >= 1 && last[0] == 0x50
}

/// The value of an option of bytes, or the empty sequence.
pub open spec fn opt_or_empty(o: Option<Seq<u8>>) -> Seq<u8> {
    match o {
        Some(v) => v,
        None => Seq::empty(),
    }
}

/// The script that the current input actually spends: the redeem script for
/// a pay-to-script-hash prevout, the witness script for a
/// pay-to-witness-script-hash prevout, the taproot leaf script for a taproot
/// prevout, and empty otherwise or when absent.
pub open spec fn spec_spent_script(inp: TxInV, prev: TxOutV) -> Seq<u8> {
    if is_p2sh_spec(prev.script_pubkey) {
        opt_or_empty(spec_redeem_script(inp.script_sig))
    } else if is_p2wsh_spec(prev.script_pubkey) {
        opt_or_empty(spec_witness_script(inp.witness))
    } else if is_p2tr_spec(prev.script_pubkey) {
        opt_or_empty(spec_tapscript(inp.witness))
    } else {
        Seq::empty()
    }
}

/// Computes the spent script of an input given the output it spends.
pub fn spent_script(inp: &TxIn, prev: &TxOut) -> (r: Vec<u8>)
    ensures
        r@ == spec_spent_script(inp@, prev@),
{
    if is_p2sh(&prev.script_pubkey) {
        match redeem_script(&inp.script_sig) {
            Some(v) => v,
            None => Vec::new(),
        }
    } else if is_p2wsh(&prev.script_pubkey) {
        if inp.witness.len() >= 1 {
            clone_bytes(&inp.witness[inp.witness.len() - 1])
        } else {
            Vec::new()
        }
    } else if is_p2tr(&prev.script_pubkey) {
        let w = &inp.witness;
        if w.len() <= 1 {
            Vec::new()
        } else if has_annex(w) {
            if w.len() >= 3 {
                clone_bytes(&w[w.len() - 3])
            } else {
                Vec::new()
            }
        } else {
            clone_bytes(&w[w.len() - 2])
        }
    } else {
        Vec::new()
    }
}

/// The control-block commitment of the current input: the taproot control
/// block for a taproot prevout, and empty otherwise or when absent.
pub open spec fn spec_control_block(inp: TxInV, prev: TxOutV) -> Seq<u8> {
    if is_p2tr_spec(prev.script_pubkey) {
        opt_or_empty(spec_taproot_control_block(inp.witness))
    } else {
        Seq::empty()
    }
}

/// Computes the control-block commitment of an input given the output it
/// spends.
pub fn control_block(inp: &TxIn, prev: &TxOut) -> (r: Vec<u8>)
    ensures
        r@ == spec_control_block(inp@, prev@),
{
    if is_p2tr(&prev.script_pubkey) {
        let w = &inp.witness;
        if w.len() <= 1 {
            Vec::new()
        } else if has_annex(w) {
            if w.len() >= 3 {
                clone_bytes(&w[w.len() - 2])
            } else {
                Vec::new()
            }
        } else {
            clone_bytes(&w[w.len() - 1])
        }
    } else {
        Vec::new()
    }
}

/// The fixed-size annex commitment of one input: the hash of the annex bytes
/// when the spent output is taproot and the witness carries an annex, and
/// the hash of the empty byte string otherwise.
pub open spec fn spec_annex_leaf(inp: TxInV, prev: TxOutV) -> Seq<u8> {
    if is_p2tr_spec(prev.script_pubkey) && spec_has_annex(inp.witness) {
        sha256_of(inp.witness.last())
    } else {
        sha256_of(Seq::empty())
    }
}

/// Computes the annex commitment of one input.
pub fn annex_leaf(inp: &TxIn, prev: &TxOut) -> (r: Vec<u8>)
    ensures
        r@ == spec_annex_leaf(inp@, prev@),
{
    if is_p2tr(&prev.script_pubkey) && has_annex(&inp.witness) {
        let a = clone_bytes(&inp.witness[inp.witness.len() - 1]);
        sha256(&a)
    } else {
        let e: Vec<u8> = Vec::new();
        sha256(&e)
    }
}

} // verus!
