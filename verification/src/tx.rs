//! The read-only transaction data model: version, locktime, ordered inputs
//! and outputs, and the matching spent previous outputs, all held as plain
//! values.

use vstd::prelude::*;

verus! {

/// One transaction input: the outpoint it spends, its signature script, its
/// sequence number, and its witness stack.
pub struct TxIn {
    /// The 32 bytes of the spent transaction's id, in consensus byte order.
    pub prevout_txid: Vec<u8>,
    /// The index of the spent output within that transaction.
    pub prevout_vout: u32,
    pub script_sig: Vec<u8>,
    pub sequence: u32,
    /// The witness stack, one byte string per element, bottom first.
    pub witness: Vec<Vec<u8>>,
}

/// One transaction output: an amount in satoshi and a script public key.
pub struct TxOut {
    pub value: u64,
    pub script_pubkey: Vec<u8>,
}

/// A whole transaction. The version and locktime are held as the 32-bit
/// values that their consensus encoding writes.
pub struct Tx {
    pub version: u32,
    pub lock_time: u32,
    pub inputs: Vec<TxIn>,
    pub outputs: Vec<TxOut>,
}

/// The mathematical value of a [`TxIn`].
pub struct TxInV {
    pub prevout_txid: Seq<u8>,
    pub prevout_vout: u32,
    pub script_sig: Seq<u8>,
    pub sequence: u32,
    pub witness: Seq<Seq<u8>>,
}

/// The mathematical value of a [`TxOut`].
pub struct TxOutV {
    pub value: u64,
    pub script_pubkey: Seq<u8>,
}

/// The mathematical value of a [`Tx`].
pub struct TxV {
    pub version: u32,
    pub lock_time: u32,
    pub inputs: Seq<TxInV>,
    pub outputs: Seq<TxOutV>,
}

/// The witness stack as a sequence of byte sequences.
pub open spec fn witness_view(w: Seq<Vec<u8>>) -> Seq<Seq<u8>> {
    Seq::new(w.len(), |i: int| w[i]@)
}

impl View for TxIn {
    type V = TxInV;

    open spec fn view(&self) -> TxInV {
        TxInV {
            prevout_txid: self.prevout_txid@,
            prevout_vout: self.prevout_vout,
            script_sig: self.script_sig@,
            sequence: self.sequence,
            witness: witness_view(self.witness@),
        }
    }
}

impl View for TxOut {
    type V = TxOutV;

    open spec fn view(&self) -> TxOutV {
        TxOutV { value: self.value, script_pubkey: self.script_pubkey@ }
    }
}

/// A sequence of outputs as a sequence of their values.
pub open spec fn outputs_view(outs: Seq<TxOut>) -> Seq<TxOutV> {
    Seq::new(outs.len(), |i: int| outs[i]@)
}

/// A sequence of inputs as a sequence of their values.
pub open spec fn inputs_view(ins: Seq<TxIn>) -> Seq<TxInV> {
    Seq::new(ins.len(), |i: int| ins[i]@)
}

impl View for Tx {
    type V = TxV;

    open spec fn view(&self) -> TxV {
        TxV {
            version: self.version,
            lock_time: self.lock_time,
            inputs: inputs_view(self.inputs@),
            outputs: outputs_view(self.outputs@),
        }
    }
}

/// Validity of one input: the spent transaction id is exactly 32 bytes.
pub open spec fn tx_in_wf(i: TxInV) -> bool {
    i.prevout_txid.len() == 32
}

/// Validity of a transaction: every input holds a 32-byte outpoint id.
pub open spec fn tx_wf(t: TxV) -> bool {
    forall|i: int| 0 <= i < t.inputs.len() ==> tx_in_wf(#[trigger] t.inputs[i])
}

} // verus!
