//! The digest builder: a single pass over the selector bytes that layers
//! per-field-group hashes into one outer SHA-256 digest.

use vstd::prelude::*;
use crate::codec::clone_bytes;
use crate::codec::le32;
use crate::codec::le64;
use crate::codec::push_bytes;
use crate::codec::push_le32;
use crate::codec::push_le64;
use crate::error::TxfsError;
use crate::hashing::sha256;
use crate::hashing::sha256_of;
use crate::schema::TXFS_CONTROL;
use crate::schema::TXFS_CURRENT_INPUT_CONTROL_BLOCK;
use crate::schema::TXFS_CURRENT_INPUT_IDX;
use crate::schema::TXFS_CURRENT_INPUT_LAST_CODESEPARATOR_POS;
use crate::schema::TXFS_CURRENT_INPUT_SPENTSCRIPT;
use crate::schema::TXFS_INPUTS_ALL;
use crate::schema::TXFS_INPUTS_PREVOUTS;
use crate::schema::TXFS_INPUTS_PREV_SCRIPTPUBKEYS;
use crate::schema::TXFS_INPUTS_PREV_VALUES;
use crate::schema::TXFS_INPUTS_SCRIPTSIGS;
use crate::schema::TXFS_INPUTS_SEQUENCES;
use crate::schema::TXFS_INPUTS_TAPROOT_ANNEXES;
use crate::schema::TXFS_LOCKTIME;
use crate::schema::TXFS_OUTPUTS_ALL;
use crate::schema::TXFS_OUTPUTS_SCRIPTPUBKEYS;
use crate::schema::TXFS_OUTPUTS_VALUES;
use crate::schema::TXFS_VERSION;
use crate::schema::all_selector;
use crate::schema::spec_all_selector;
use crate::schema::spec_template_selector;
use crate::schema::template_selector;
use crate::script::annex_leaf;
use crate::script::control_block;
use crate::script::spec_annex_leaf;
use crate::script::spec_control_block;
use crate::script::spec_spent_script;
use crate::script::spent_script;
use crate::select::spec_parse_selection;
use crate::select::spec_parse_entries;
use crate::select::parse_inout_selection;
use crate::tx::Tx;
use crate::tx::TxOut;
use crate::tx::TxOutV;
use crate::tx::TxV;
use crate::tx::outputs_view;

verus! {

/// The field groups that the digest can hash over a selection of inputs or
/// outputs.
#[derive(Clone, Copy)]
pub enum FieldKind {
    Prevouts,
    Sequences,
    ScriptSigs,
    PrevScriptPubkeys,
    PrevValues,
    Annexes,
    OutScriptPubkeys,
    OutValues,
}

/// The bytes that the item at index `i` contributes to a field group.
pub open spec fn enc_field(kind: FieldKind, tx: TxV, prevouts: Seq<TxOutV>, i: int) -> Seq<u8> {
    match kind {
        FieldKind::Prevouts => tx.inputs[i].prevout_txid + le32(tx.inputs[i].prevout_vout),
        FieldKind::Sequences => le32(tx.inputs[i].sequence),
        FieldKind::ScriptSigs => sha256_of(tx.inputs[i].script_sig),
        FieldKind::PrevScriptPubkeys => sha256_of(prevouts[i].script_pubkey),
        FieldKind::PrevValues => le64(prevouts[i].value),
        FieldKind::Annexes => spec_annex_leaf(tx.inputs[i], prevouts[i]),
        FieldKind::OutScriptPubkeys => sha256_of(tx.outputs[i].script_pubkey),
        FieldKind::OutValues => le64(tx.outputs[i].value),
    }
}

/// Whether index `i` can be dereferenced for a field group.
pub open spec fn in_bounds_for(kind: FieldKind, tx: TxV, prevouts: Seq<TxOutV>, i: int) -> bool {
    match kind {
        FieldKind::Prevouts => 0 <= i < tx.inputs.len(),
        FieldKind::Sequences => 0 <= i < tx.inputs.len(),
        FieldKind::ScriptSigs => 0 <= i < tx.inputs.len(),
        FieldKind::PrevScriptPubkeys => 0 <= i < prevouts.len(),
        FieldKind::PrevValues => 0 <= i < prevouts.len(),
        FieldKind::Annexes => 0 <= i < tx.inputs.len() && 0 <= i < prevouts.len(),
        FieldKind::OutScriptPubkeys => 0 <= i < tx.outputs.len(),
        FieldKind::OutValues => 0 <= i < tx.outputs.len(),
    }
}

/// The concatenated contributions of every selected item, in selection
/// order.
pub open spec fn group_bytes(
    kind: FieldKind,
    tx: TxV,
    prevouts: Seq<TxOutV>,
    sel: Seq<usize>,
) -> Seq<u8>
    decreases sel.len(),
{
    if sel.len() == 0 {
        Seq::empty()
    } else {
        group_bytes(kind, tx, prevouts, sel.drop_last()) + enc_field(
            kind,
            tx,
            prevouts,
            sel.last() as int,
        )
    }
}

proof fn lemma_group_bytes_step(
    kind: FieldKind,
    tx: TxV,
    prevouts: Seq<TxOutV>,
    sel: Seq<usize>,
    j: int,
)
    requires
        0 <= j < sel.len(),
    ensures
        group_bytes(kind, tx, prevouts, sel.take(j + 1)) == group_bytes(
            kind,
            tx,
            prevouts,
            sel.take(j),
        ) + enc_field(kind, tx, prevouts, sel[j] as int),
{
    assert(sel.take(j + 1).drop_last() =~= sel.take(j));
    assert(sel.take(j + 1).last() == sel[j]);
}

/// Computes the contribution of the item at index `i` to a field group.
fn enc_field_exec(kind: FieldKind, tx: &Tx, prevouts: &Vec<TxOut>, i: usize) -> (r: Vec<u8>)
    requires
        in_bounds_for(kind, tx@, outputs_view(prevouts@), i as int),
    ensures
        r@ == enc_field(kind, tx@, outputs_view(prevouts@), i as int),
{
    match kind {
        FieldKind::Prevouts => {
            let mut v = clone_bytes(&tx.inputs[i].prevout_txid);
            push_le32(&mut v, tx.inputs[i].prevout_vout);
            v
        },
        FieldKind::Sequences => {
            let mut v: Vec<u8> = Vec::new();
            push_le32(&mut v, tx.inputs[i].sequence);
            assert(Seq::<u8>::empty() + le32(tx@.inputs[i as int].sequence) =~= le32(
                tx@.inputs[i as int].sequence,
            ));
            v
        },
        FieldKind::ScriptSigs => sha256(&tx.inputs[i].script_sig),
        FieldKind::PrevScriptPubkeys => sha256(&prevouts[i].script_pubkey),
        FieldKind::PrevValues => {
            let mut v: Vec<u8> = Vec::new();
            push_le64(&mut v, prevouts[i].value);
            assert(Seq::<u8>::empty() + le64(outputs_view(prevouts@)[i as int].value) =~= le64(
                outputs_view(prevouts@)[i as int].value,
            ));
            v
        },
        FieldKind::Annexes => annex_leaf(&tx.inputs[i], &prevouts[i]),
        FieldKind::OutScriptPubkeys => sha256(&tx.outputs[i].script_pubkey),
        FieldKind::OutValues => {
            let mut v: Vec<u8> = Vec::new();
            push_le64(&mut v, tx.outputs[i].value);
            assert(Seq::<u8>::empty() + le64(tx@.outputs[i as int].value) =~= le64(
                tx@.outputs[i as int].value,
            ));
            v
        },
    }
}

/// Every selected index is below `len`.
pub open spec fn sel_in_bounds(sel: Seq<usize>, len: int) -> bool {
    forall|j: int| 0 <= j < sel.len() ==> (#[trigger] sel[j]) < len
}

/// Checks every selected index against `len`.
fn all_in_range(sel: &Vec<usize>, len: usize) -> (r: bool)
    ensures
        r == sel_in_bounds(sel@, len as int),
{
    let mut j: usize = 0;
    while j < sel.len()
        invariant
            j <= sel@.len(),
            forall|i: int| 0 <= i < j ==> (#[trigger] sel@[i]) < len,
        decreases sel@.len() - j,
    {
        if sel[j] >= len {
            assert(!sel_in_bounds(sel@, len as int));
            return false;
        }
        j = j + 1;
    }
    true
}

/// Hashes one field group over the selected items.
fn group_hash(kind: FieldKind, tx: &Tx, prevouts: &Vec<TxOut>, sel: &Vec<usize>) -> (r: Vec<u8>)
    requires
        forall|j: int|
            0 <= j < sel@.len() ==> in_bounds_for(
                kind,
                tx@,
                outputs_view(prevouts@),
                (#[trigger] sel@[j]) as int,
            ),
    ensures
        r@ == sha256_of(group_bytes(kind, tx@, outputs_view(prevouts@), sel@)),
        r@.len() == 32,
{
    let mut bytes: Vec<u8> = Vec::new();
    let mut j: usize = 0;
    while j < sel.len()
        invariant
            j <= sel@.len(),
            forall|i: int|
                0 <= i < sel@.len() ==> in_bounds_for(
                    kind,
                    tx@,
                    outputs_view(prevouts@),
                    (#[trigger] sel@[i]) as int,
                ),
            bytes@ == group_bytes(kind, tx@, outputs_view(prevouts@), sel@.take(j as int)),
        decreases sel@.len() - j,
    {
        let piece = enc_field_exec(kind, tx, prevouts, sel[j]);
        push_bytes(&mut bytes, &piece);
        proof {
            lemma_group_bytes_step(kind, tx@, outputs_view(prevouts@), sel@, j as int);
        }
        j = j + 1;
    }
    assert(sel@.take(sel@.len() as int) =~= sel@);
    sha256(&bytes)
}

/// The position that an absent code-separator context commits: the all-ones
/// sentinel.
pub open spec fn csp_or_max(csp: Option<u32>) -> u32 {
    match csp {
        Some(p) => p,
        None => 0xffff_ffff,
    }
}

/// The bytes that the global-flags byte `g` selects, in the fixed order:
/// version, locktime, current input index, spent-script hash, control-block
/// hash, last code-separator position.
pub open spec fn spec_global_bytes(
    g: u8,
    tx: TxV,
    prevouts: Seq<TxOutV>,
    cur: nat,
    csp: Option<u32>,
) -> Seq<u8> {
    (if g & TXFS_VERSION != 0 {
        le32(tx.version)
    } else {
        Seq::empty()
    }) + (if g & TXFS_LOCKTIME != 0 {
        le32(tx.lock_time)
    } else {
        Seq::empty()
    }) + (if g & TXFS_CURRENT_INPUT_IDX != 0 {
        le32(cur as u32)
    } else {
        Seq::empty()
    }) + (if g & TXFS_CURRENT_INPUT_SPENTSCRIPT != 0 {
        sha256_of(spec_spent_script(tx.inputs[cur as int], prevouts[cur as int]))
    } else {
        Seq::empty()
    }) + (if g & TXFS_CURRENT_INPUT_CONTROL_BLOCK != 0 {
        sha256_of(spec_control_block(tx.inputs[cur as int], prevouts[cur as int]))
    } else {
        Seq::empty()
    }) + (if g & TXFS_CURRENT_INPUT_LAST_CODESEPARATOR_POS != 0 {
        le32(csp_or_max(csp))
    } else {
        Seq::empty()
    })
}

/// Appends the globally selected bytes to the stream.
#[verifier::rlimit(100)]
fn push_globals(
    acc: &mut Vec<u8>,
    g: u8,
    tx: &Tx,
    prevouts: &Vec<TxOut>,
    cur: u32,
    csp: Option<u32>,
)
    requires
        prevouts@.len() == tx.inputs@.len(),
        (cur as int) < tx.inputs@.len(),
    ensures
        final(acc)@ == old(acc)@ + spec_global_bytes(
            g,
            tx@,
            outputs_view(prevouts@),
            cur as nat,
            csp,
        ),
{
    let ghost txv = tx@;
    let ghost pv = outputs_view(prevouts@);
    let ghost c = cur as nat;
    let cur_usize = cur as usize;
    let ghost p1: Seq<u8> = if g & TXFS_VERSION != 0 {
        le32(txv.version)
    } else {
        Seq::empty()
    };
    let ghost p2: Seq<u8> = if g & TXFS_LOCKTIME != 0 {
        le32(txv.lock_time)
    } else {
        Seq::empty()
    };
    let ghost p3: Seq<u8> = if g & TXFS_CURRENT_INPUT_IDX != 0 {
        le32(c as u32)
    } else {
        Seq::empty()
    };
    let ghost p4: Seq<u8> = if g & TXFS_CURRENT_INPUT_SPENTSCRIPT != 0 {
        sha256_of(spec_spent_script(txv.inputs[c as int], pv[c as int]))
    } else {
        Seq::empty()
    };
    let ghost p5: Seq<u8> = if g & TXFS_CURRENT_INPUT_CONTROL_BLOCK != 0 {
        sha256_of(spec_control_block(txv.inputs[c as int], pv[c as int]))
    } else {
        Seq::empty()
    };
    let ghost p6: Seq<u8> = if g & TXFS_CURRENT_INPUT_LAST_CODESEPARATOR_POS != 0 {
        le32(csp_or_max(csp))
    } else {
        Seq::empty()
    };
    if g & TXFS_VERSION != 0 {
        push_le32(acc, tx.version);
    }
    assert(acc@ =~= old(acc)@ + p1);
    let ghost a1 = acc@;
    if g & TXFS_LOCKTIME != 0 {
        push_le32(acc, tx.lock_time);
    }
    assert(acc@ =~= a1 + p2);
    let ghost a2 = acc@;
    if g & TXFS_CURRENT_INPUT_IDX != 0 {
        push_le32(acc, cur);
    }
    assert(acc@ =~= a2 + p3);
    let ghost a3 = acc@;
    if g & TXFS_CURRENT_INPUT_SPENTSCRIPT != 0 {
        let ss = spent_script(&tx.inputs[cur_usize], &prevouts[cur_usize]);
        let h = sha256(&ss);
        push_bytes(acc, &h);
    }
    assert(acc@ =~= a3 + p4);
    let ghost a4 = acc@;
    if g & TXFS_CURRENT_INPUT_CONTROL_BLOCK != 0 {
        let cb = control_block(&tx.inputs[cur_usize], &prevouts[cur_usize]);
        let h = sha256(&cb);
        push_bytes(acc, &h);
    }
    assert(acc@ =~= a4 + p5);
    let ghost a5 = acc@;
    if g & TXFS_CURRENT_INPUT_LAST_CODESEPARATOR_POS != 0 {
        let p = match csp {
            Some(p) => p,
            None => 0xffff_ffffu32,
        };
        push_le32(acc, p);
    }
    assert(acc@ =~= a5 + p6);
    assert(spec_global_bytes(g, txv, pv, c, csp) == p1 + p2 + p3 + p4 + p5 + p6);
    assert(acc@ =~= old(acc)@ + (p1 + p2 + p3 + p4 + p5 + p6));
}

/// The input-side midstates that the field-flags byte selects, each hashed
/// over the selected inputs, in the fixed order of the input sub-field bits.
/// An empty selection contributes nothing.
pub open spec fn spec_input_groups(
    fields: u8,
    tx: TxV,
    prevouts: Seq<TxOutV>,
    sel: Seq<usize>,
) -> Seq<u8> {
    let go = sel.len() > 0;
    (if go && fields & TXFS_INPUTS_PREVOUTS != 0 {
        sha256_of(group_bytes(FieldKind::Prevouts, tx, prevouts, sel))
    } else {
        Seq::empty()
    }) + (if go && fields & TXFS_INPUTS_SEQUENCES != 0 {
        sha256_of(group_bytes(FieldKind::Sequences, tx, prevouts, sel))
    } else {
        Seq::empty()
    }) + (if go && fields & TXFS_INPUTS_SCRIPTSIGS != 0 {
        sha256_of(group_bytes(FieldKind::ScriptSigs, tx, prevouts, sel))
    } else {
        Seq::empty()
    }) + (if go && fields & TXFS_INPUTS_PREV_SCRIPTPUBKEYS != 0 {
        sha256_of(group_bytes(FieldKind::PrevScriptPubkeys, tx, prevouts, sel))
    } else {
        Seq::empty()
    }) + (if go && fields & TXFS_INPUTS_PREV_VALUES != 0 {
        sha256_of(group_bytes(FieldKind::PrevValues, tx, prevouts, sel))
    } else {
        Seq::empty()
    }) + (if go && fields & TXFS_INPUTS_TAPROOT_ANNEXES != 0 {
        sha256_of(group_bytes(FieldKind::Annexes, tx, prevouts, sel))
    } else {
        Seq::empty()
    })
}

/// Appends the selected input-side midstates to the stream.
#[verifier::rlimit(100)]
fn push_input_groups(acc: &mut Vec<u8>, fields: u8, tx: &Tx, prevouts: &Vec<TxOut>, sel: &Vec<
    usize,
>)
    requires
        prevouts@.len() == tx.inputs@.len(),
        sel@.len() > 0 && fields & TXFS_INPUTS_ALL != 0 ==> sel_in_bounds(
            sel@,
            tx.inputs@.len() as int,
        ),
    ensures
        final(acc)@ == old(acc)@ + spec_input_groups(fields, tx@, outputs_view(prevouts@), sel@),
{
    proof {
        assert(fields & 0x01u8 != 0 ==> fields & 0x3fu8 != 0) by (bit_vector);
        assert(fields & 0x02u8 != 0 ==> fields & 0x3fu8 != 0) by (bit_vector);
        assert(fields & 0x04u8 != 0 ==> fields & 0x3fu8 != 0) by (bit_vector);
        assert(fields & 0x08u8 != 0 ==> fields & 0x3fu8 != 0) by (bit_vector);
        assert(fields & 0x10u8 != 0 ==> fields & 0x3fu8 != 0) by (bit_vector);
        assert(fields & 0x20u8 != 0 ==> fields & 0x3fu8 != 0) by (bit_vector);
    }
    let ghost txv = tx@;
    let ghost pv = outputs_view(prevouts@);
    let ghost go = sel@.len() > 0;
    let ghost p1: Seq<u8> = if go && fields & TXFS_INPUTS_PREVOUTS != 0 {
        sha256_of(group_bytes(FieldKind::Prevouts, txv, pv, sel@))
    } else {
        Seq::empty()
    };
    let ghost p2: Seq<u8> = if go && fields & TXFS_INPUTS_SEQUENCES != 0 {
        sha256_of(group_bytes(FieldKind::Sequences, txv, pv, sel@))
    } else {
        Seq::empty()
    };
    let ghost p3: Seq<u8> = if go && fields & TXFS_INPUTS_SCRIPTSIGS != 0 {
        sha256_of(group_bytes(FieldKind::ScriptSigs, txv, pv, sel@))
    } else {
        Seq::empty()
    };
    let ghost p4: Seq<u8> = if go && fields & TXFS_INPUTS_PREV_SCRIPTPUBKEYS != 0 {
        sha256_of(group_bytes(FieldKind::PrevScriptPubkeys, txv, pv, sel@))
    } else {
        Seq::empty()
    };
    let ghost p5: Seq<u8> = if go && fields & TXFS_INPUTS_PREV_VALUES != 0 {
        sha256_of(group_bytes(FieldKind::PrevValues, txv, pv, sel@))
    } else {
        Seq::empty()
    };
    let ghost p6: Seq<u8> = if go && fields & TXFS_INPUTS_TAPROOT_ANNEXES != 0 {
        sha256_of(group_bytes(FieldKind::Annexes, txv, pv, sel@))
    } else {
        Seq::empty()
    };
    if sel.len() > 0 && fields & TXFS_INPUTS_PREVOUTS != 0 {
        let h = group_hash(FieldKind::Prevouts, tx, prevouts, sel);
        push_bytes(acc, &h);
    }
    assert(acc@ =~= old(acc)@ + p1);
    let ghost a1 = acc@;
    if sel.len() > 0 && fields & TXFS_INPUTS_SEQUENCES != 0 {
        let h = group_hash(FieldKind::Sequences, tx, prevouts, sel);
        push_bytes(acc, &h);
    }
    assert(acc@ =~= a1 + p2);
    let ghost a2 = acc@;
    if sel.len() > 0 && fields & TXFS_INPUTS_SCRIPTSIGS != 0 {
        let h = group_hash(FieldKind::ScriptSigs, tx, prevouts, sel);
        push_bytes(acc, &h);
    }
    assert(acc@ =~= a2 + p3);
    let ghost a3 = acc@;
    if sel.len() > 0 && fields & TXFS_INPUTS_PREV_SCRIPTPUBKEYS != 0 {
        let h = group_hash(FieldKind::PrevScriptPubkeys, tx, prevouts, sel);
        push_bytes(acc, &h);
    }
    assert(acc@ =~= a3 + p4);
    let ghost a4 = acc@;
    if sel.len() > 0 && fields & TXFS_INPUTS_PREV_VALUES != 0 {
        let h = group_hash(FieldKind::PrevValues, tx, prevouts, sel);
        push_bytes(acc, &h);
    }
    assert(acc@ =~= a4 + p5);
    let ghost a5 = acc@;
    if sel.len() > 0 && fields & TXFS_INPUTS_TAPROOT_ANNEXES != 0 {
        let h = group_hash(FieldKind::Annexes, tx, prevouts, sel);
        push_bytes(acc, &h);
    }
    assert(acc@ =~= a5 + p6);
    assert(spec_input_groups(fields, txv, pv, sel@) == p1 + p2 + p3 + p4 + p5 + p6);
    assert(acc@ =~= old(acc)@ + (p1 + p2 + p3 + p4 + p5 + p6));
}

/// The output-side midstates, in the fixed order of the output sub-field
/// bits.
pub open spec fn spec_output_groups(
    fields: u8,
    tx: TxV,
    prevouts: Seq<TxOutV>,
    sel: Seq<usize>,
) -> Seq<u8> {
    let go = sel.len() > 0;
    (if go && fields & TXFS_OUTPUTS_SCRIPTPUBKEYS != 0 {
        sha256_of(group_bytes(FieldKind::OutScriptPubkeys, tx, prevouts, sel))
    } else {
        Seq::empty()
    }) + (if go && fields & TXFS_OUTPUTS_VALUES != 0 {
        sha256_of(group_bytes(FieldKind::OutValues, tx, prevouts, sel))
    } else {
        Seq::empty()
    })
}

/// Appends the selected output-side midstates to the stream.
fn push_output_groups(acc: &mut Vec<u8>, fields: u8, tx: &Tx, prevouts: &Vec<TxOut>, sel: &Vec<
    usize,
>)
    requires
        sel@.len() > 0 && fields & TXFS_OUTPUTS_ALL != 0 ==> sel_in_bounds(
            sel@,
            tx.outputs@.len() as int,
        ),
    ensures
        final(acc)@ == old(acc)@ + spec_output_groups(fields, tx@, outputs_view(prevouts@), sel@),
{
    proof {
        assert(fields & 0x40u8 != 0 ==> fields & 0xc0u8 != 0) by (bit_vector);
        assert(fields & 0x80u8 != 0 ==> fields & 0xc0u8 != 0) by (bit_vector);
    }
    if sel.len() > 0 && fields & TXFS_OUTPUTS_SCRIPTPUBKEYS != 0 {
        let h = group_hash(FieldKind::OutScriptPubkeys, tx, prevouts, sel);
        push_bytes(acc, &h);
    }
    if sel.len() > 0 && fields & TXFS_OUTPUTS_VALUES != 0 {
        let h = group_hash(FieldKind::OutValues, tx, prevouts, sel);
        push_bytes(acc, &h);
    }
    assert(acc@ =~= old(acc)@ + spec_output_groups(fields, tx@, outputs_view(prevouts@), sel@));
}

/// The selector that a byte stream stands for: the empty stream and the
/// single zero byte expand to their aliases; anything else stands for
/// itself.
pub open spec fn spec_effective(s: Seq<u8>) -> Seq<u8> {
    if s.len() == 0 {
        spec_template_selector()
    } else if s.len() == 1 && s[0] == 0x00 {
        spec_all_selector()
    } else {
        s
    }
}

/// The byte stream fed to the outer hash after the optional self-commitment
/// of the selector bytes, or the failure that decoding meets, for an
/// already-expanded selector `s`.
pub open spec fn spec_body_stream(
    s: Seq<u8>,
    tx: TxV,
    prevouts: Seq<TxOutV>,
    cur: nat,
    csp: Option<u32>,
) -> Result<Seq<u8>, TxfsError>
    recommends
        s.len() >= 1,
{
    let head = spec_global_bytes(s[0], tx, prevouts, cur, csp);
    if s.len() == 1 {
        Ok(head)
    } else {
        let fields = s[1];
        match spec_parse_selection(s, 2, tx.inputs.len(), cur, true) {
            Err(e) => Err(e),
            Ok(tin) => {
                if fields & TXFS_INPUTS_ALL != 0 && !sel_in_bounds(
                    tin.0,
                    tx.inputs.len() as int,
                ) {
                    Err(TxfsError::UnreachableState)
                } else {
                    let head2 = head + (if tin.1 {
                        le32(tx.inputs.len() as u32)
                    } else {
                        Seq::empty()
                    }) + spec_input_groups(fields, tx, prevouts, tin.0);
                    if tin.2 == s.len() {
                        Ok(head2)
                    } else {
                        match spec_parse_selection(
                            s,
                            tin.2,
                            tx.outputs.len(),
                            cur,
                            fields & TXFS_OUTPUTS_ALL == 0,
                        ) {
                            Err(e) => Err(e),
                            Ok(tout) => {
                                if fields & TXFS_OUTPUTS_ALL != 0 && !sel_in_bounds(
                                    tout.0,
                                    tx.outputs.len() as int,
                                ) {
                                    Err(TxfsError::UnreachableState)
                                } else if tout.2 != s.len() {
                                    Err(TxfsError::NonCanonical)
                                } else {
                                    Ok(
                                        head2 + (if tout.1 {
                                            le32(tx.outputs.len() as u32)
                                        } else {
                                            Seq::empty()
                                        }) + spec_output_groups(fields, tx, prevouts, tout.0),
                                    )
                                }
                            },
                        }
                    }
                }
            },
        }
    }
}

/// The outer byte stream that the digest hashes, or the failure that
/// decoding meets.
pub open spec fn spec_txhash_stream(
    txfs: Seq<u8>,
    tx: TxV,
    prevouts: Seq<TxOutV>,
    cur: nat,
    csp: Option<u32>,
) -> Result<Seq<u8>, TxfsError> {
    let s = spec_effective(txfs);
    match spec_body_stream(s, tx, prevouts, cur, csp) {
        Ok(t) => Ok(
            (if s[0] & TXFS_CONTROL != 0 {
                s
            } else {
                Seq::empty()
            }) + t,
        ),
        Err(e) => Err(e),
    }
}

/// A selector of one byte commits the global fields alone.
proof fn lemma_body_globals_only(s: Seq<u8>, tx: TxV, prevouts: Seq<TxOutV>, cur: nat, csp: Option<
    u32,
>)
    requires
        s.len() == 1,
    ensures
        spec_body_stream(s, tx, prevouts, cur, csp) == Ok::<Seq<u8>, TxfsError>(
            spec_global_bytes(s[0], tx, prevouts, cur, csp),
        ),
{
}

/// A failing input selection fails the whole stream.
proof fn lemma_body_in_err(
    s: Seq<u8>,
    tx: TxV,
    prevouts: Seq<TxOutV>,
    cur: nat,
    csp: Option<u32>,
    e: TxfsError,
)
    requires
        s.len() >= 2,
        spec_parse_selection(s, 2, tx.inputs.len(), cur, true) == Err::<
            (Seq<usize>, bool, int),
            TxfsError,
        >(e),
    ensures
        spec_body_stream(s, tx, prevouts, cur, csp) == Err::<Seq<u8>, TxfsError>(e),
{
}

/// An input selection that reaches the item count, with an input sub-field
/// requested, is an internal fault.
proof fn lemma_body_in_oob(
    s: Seq<u8>,
    tx: TxV,
    prevouts: Seq<TxOutV>,
    cur: nat,
    csp: Option<u32>,
    tin: (Seq<usize>, bool, int),
)
    requires
        s.len() >= 2,
        spec_parse_selection(s, 2, tx.inputs.len(), cur, true) == Ok::<
            (Seq<usize>, bool, int),
            TxfsError,
        >(tin),
        s[1] & TXFS_INPUTS_ALL != 0,
        !sel_in_bounds(tin.0, tx.inputs.len() as int),
    ensures
        spec_body_stream(s, tx, prevouts, cur, csp) == Err::<Seq<u8>, TxfsError>(
            TxfsError::UnreachableState,
        ),
{
}

/// A selector that ends with the input portion commits the globals, the
/// optional input count, and the input midstates.
proof fn lemma_body_inputs_done(
    s: Seq<u8>,
    tx: TxV,
    prevouts: Seq<TxOutV>,
    cur: nat,
    csp: Option<u32>,
    tin: (Seq<usize>, bool, int),
)
    requires
        s.len() >= 2,
        spec_parse_selection(s, 2, tx.inputs.len(), cur, true) == Ok::<
            (Seq<usize>, bool, int),
            TxfsError,
        >(tin),
        s[1] & TXFS_INPUTS_ALL != 0 ==> sel_in_bounds(tin.0, tx.inputs.len() as int),
        tin.2 == s.len(),
    ensures
        spec_body_stream(s, tx, prevouts, cur, csp) == Ok::<Seq<u8>, TxfsError>(
            spec_global_bytes(s[0], tx, prevouts, cur, csp) + (if tin.1 {
                le32(tx.inputs.len() as u32)
            } else {
                Seq::empty()
            }) + spec_input_groups(s[1], tx, prevouts, tin.0),
        ),
{
}

/// A failing output selection fails the whole stream.
proof fn lemma_body_out_err(
    s: Seq<u8>,
    tx: TxV,
    prevouts: Seq<TxOutV>,
    cur: nat,
    csp: Option<u32>,
    tin: (Seq<usize>, bool, int),
    e: TxfsError,
)
    requires
        s.len() >= 2,
        spec_parse_selection(s, 2, tx.inputs.len(), cur, true) == Ok::<
            (Seq<usize>, bool, int),
            TxfsError,
        >(tin),
        s[1] & TXFS_INPUTS_ALL != 0 ==> sel_in_bounds(tin.0, tx.inputs.len() as int),
        tin.2 != s.len(),
        spec_parse_selection(s, tin.2, tx.outputs.len(), cur, s[1] & TXFS_OUTPUTS_ALL == 0)
            == Err::<(Seq<usize>, bool, int), TxfsError>(e),
    ensures
        spec_body_stream(s, tx, prevouts, cur, csp) == Err::<Seq<u8>, TxfsError>(e),
{
}

/// An output selection that reaches the item count, with an output
/// sub-field requested, is an internal fault.
proof fn lemma_body_out_oob(
    s: Seq<u8>,
    tx: TxV,
    prevouts: Seq<TxOutV>,
    cur: nat,
    csp: Option<u32>,
    tin: (Seq<usize>, bool, int),
    tout: (Seq<usize>, bool, int),
)
    requires
        s.len() >= 2,
        spec_parse_selection(s, 2, tx.inputs.len(), cur, true) == Ok::<
            (Seq<usize>, bool, int),
            TxfsError,
        >(tin),
        s[1] & TXFS_INPUTS_ALL != 0 ==> sel_in_bounds(tin.0, tx.inputs.len() as int),
        tin.2 != s.len(),
        spec_parse_selection(s, tin.2, tx.outputs.len(), cur, s[1] & TXFS_OUTPUTS_ALL == 0)
            == Ok::<(Seq<usize>, bool, int), TxfsError>(tout),
        s[1] & TXFS_OUTPUTS_ALL != 0,
        !sel_in_bounds(tout.0, tx.outputs.len() as int),
    ensures
        spec_body_stream(s, tx, prevouts, cur, csp) == Err::<Seq<u8>, TxfsError>(
            TxfsError::UnreachableState,
        ),
{
}

/// Bytes left over after the output portion make the selector
/// non-canonical.
pub(crate) proof fn lemma_body_trailing(
    s: Seq<u8>,
    tx: TxV,
    prevouts: Seq<TxOutV>,
    cur: nat,
    csp: Option<u32>,
    tin: (Seq<usize>, bool, int),
    tout: (Seq<usize>, bool, int),
)
    requires
        s.len() >= 2,
        spec_parse_selection(s, 2, tx.inputs.len(), cur, true) == Ok::<
            (Seq<usize>, bool, int),
            TxfsError,
        >(tin),
        s[1] & TXFS_INPUTS_ALL != 0 ==> sel_in_bounds(tin.0, tx.inputs.len() as int),
        tin.2 != s.len(),
        spec_parse_selection(s, tin.2, tx.outputs.len(), cur, s[1] & TXFS_OUTPUTS_ALL == 0)
            == Ok::<(Seq<usize>, bool, int), TxfsError>(tout),
        s[1] & TXFS_OUTPUTS_ALL != 0 ==> sel_in_bounds(tout.0, tx.outputs.len() as int),
        tout.2 != s.len(),
    ensures
        spec_body_stream(s, tx, prevouts, cur, csp) == Err::<Seq<u8>, TxfsError>(
            TxfsError::NonCanonical,
        ),
{
}

/// A fully consumed selector with an output portion commits the globals,
/// both optional counts, and both sides' midstates.
proof fn lemma_body_full(
    s: Seq<u8>,
    tx: TxV,
    prevouts: Seq<TxOutV>,
    cur: nat,
    csp: Option<u32>,
    tin: (Seq<usize>, bool, int),
    tout: (Seq<usize>, bool, int),
)
    requires
        s.len() >= 2,
        spec_parse_selection(s, 2, tx.inputs.len(), cur, true) == Ok::<
            (Seq<usize>, bool, int),
            TxfsError,
        >(tin),
        s[1] & TXFS_INPUTS_ALL != 0 ==> sel_in_bounds(tin.0, tx.inputs.len() as int),
        tin.2 != s.len(),
        spec_parse_selection(s, tin.2, tx.outputs.len(), cur, s[1] & TXFS_OUTPUTS_ALL == 0)
            == Ok::<(Seq<usize>, bool, int), TxfsError>(tout),
        s[1] & TXFS_OUTPUTS_ALL != 0 ==> sel_in_bounds(tout.0, tx.outputs.len() as int),
        tout.2 == s.len(),
    ensures
        spec_body_stream(s, tx, prevouts, cur, csp) == Ok::<Seq<u8>, TxfsError>(
            spec_global_bytes(s[0], tx, prevouts, cur, csp) + (if tin.1 {
                le32(tx.inputs.len() as u32)
            } else {
                Seq::empty()
            }) + spec_input_groups(s[1], tx, prevouts, tin.0) + (if tout.1 {
                le32(tx.outputs.len() as u32)
            } else {
                Seq::empty()
            }) + spec_output_groups(s[1], tx, prevouts, tout.0),
        ),
{
}

/// What the digest promises: the result is the SHA-256 of the stream that
/// the selector, transaction, prevouts and context determine, and exactly
/// the decode failure otherwise.
pub open spec fn txhash_post(
    r: Result<Vec<u8>, TxfsError>,
    txfs: Seq<u8>,
    tx: TxV,
    prevouts: Seq<TxOutV>,
    cur: nat,
    csp: Option<u32>,
) -> bool {
    match (r, spec_txhash_stream(txfs, tx, prevouts, cur, csp)) {
        (Ok(h), Ok(stream)) => h@ == sha256_of(stream) && h@.len() == 32,
        (Err(e1), Err(e2)) => e1 == e2,
        _ => false,
    }
}

/// Every successful decode of individual entries ends at or after where it
/// started, and within the stream.
pub proof fn lemma_entries_end(
    b: Seq<u8>,
    pos: int,
    k: nat,
    absolute: bool,
    nb: nat,
    cur: nat,
    prev: int,
)
    requires
        0 <= pos <= b.len(),
    ensures
        match spec_parse_entries(b, pos, k, absolute, nb, cur, prev) {
            Ok(t) => pos <= t.1 <= b.len(),
            Err(_) => true,
        },
    decreases k,
{
    if k == 0 {
    } else if pos >= b.len() {
    } else {
        let first = b[pos];
        let single = first & 0x80 == 0;
        if !single && pos + 1 >= b.len() {
        } else {
            let next_pos: int = if single {
                pos + 1
            } else {
                pos + 2
            };
            let mag: int = if single {
                first as int
            } else {
                (first & 0x7f) * 256 + b[pos + 1]
            };
            let off: int = if single {
                crate::select::sign7i(first as int)
            } else {
                crate::select::sign15i(mag)
            };
            let idx: int = if absolute {
                mag
            } else {
                cur + off
            };
            lemma_entries_end(b, next_pos, (k - 1) as nat, absolute, nb, cur, idx);
        }
    }
}

/// A successful selection decode consumes bytes forward and never past the
/// end.
pub proof fn lemma_selection_end(b: Seq<u8>, pos: int, nb: nat, cur: nat, allow_empty: bool)
    requires
        0 <= pos <= b.len(),
    ensures
        match spec_parse_selection(b, pos, nb, cur, allow_empty) {
            Ok(t) => pos <= t.2 <= b.len(),
            Err(_) => true,
        },
{
    if pos >= b.len() {
    } else {
        let first = b[pos];
        let sel = first & 0x7f;
        lemma_entries_end(
            b,
            pos + 1,
            (sel & crate::schema::TXFS_INOUT_SELECTION_MASK) as nat,
            sel & crate::schema::TXFS_INOUT_INDIVIDUAL_MODE == 0,
            nb,
            cur,
            -1,
        );
    }
}

/// Computes the transaction digest committed by the selector `txfs`.
///
/// The empty selector and the single zero byte expand to the template and
/// commit-all aliases first. If the expanded selector's control bit is set,
/// the digest also commits the expanded selector bytes themselves. Decoding
/// failures are returned exactly as [`spec_txhash_stream`] names them; on
/// success the result is the 32-byte outer hash of the committed stream.
#[verifier::rlimit(100)]
pub fn calculate_txhash(
    txfs: &Vec<u8>,
    tx: &Tx,
    prevouts: &Vec<TxOut>,
    current_input_idx: u32,
    current_input_last_codeseparator_pos: Option<u32>,
) -> (r: Result<Vec<u8>, TxfsError>)
    requires
        prevouts@.len() == tx.inputs@.len(),
        (current_input_idx as int) < tx.inputs@.len(),
        tx.inputs@.len() <= 0xffff_ffff,
        tx.outputs@.len() <= 0xffff_ffff,
    ensures
        txhash_post(
            r,
            txfs@,
            tx@,
            outputs_view(prevouts@),
            current_input_idx as nat,
            current_input_last_codeseparator_pos,
        ),
{
    let ghost prev_v = outputs_view(prevouts@);
    let ghost cur_n = current_input_idx as nat;
    let ghost csp = current_input_last_codeseparator_pos;
    let sel: Vec<u8> = if txfs.len() == 0 {
        template_selector()
    } else if txfs.len() == 1 && txfs[0] == 0x00 {
        all_selector()
    } else {
        clone_bytes(txfs)
    };
    assert(sel@ == spec_effective(txfs@));
    assert(sel@.len() >= 1);
    let mut acc: Vec<u8> = Vec::new();
    let global = sel[0];
    let ghost ctrl: Seq<u8> = if global & TXFS_CONTROL != 0 {
        sel@
    } else {
        Seq::empty()
    };
    if global & TXFS_CONTROL != 0 {
        push_bytes(&mut acc, &sel);
    }
    push_globals(
        &mut acc,
        global,
        tx,
        prevouts,
        current_input_idx,
        current_input_last_codeseparator_pos,
    );
    let ghost g_head = spec_global_bytes(sel@[0], tx@, prev_v, cur_n, csp);
    assert(acc@ =~= ctrl + g_head);
    if sel.len() == 1 {
        proof {
            lemma_body_globals_only(sel@, tx@, prev_v, cur_n, csp);
        }
        assert(spec_txhash_stream(txfs@, tx@, prev_v, cur_n, csp) == Ok::<Seq<u8>, TxfsError>(
            ctrl + g_head,
        ));
        let d = sha256(&acc);
        return Ok(d);
    }
    let fields = sel[1];
    let mut pos: usize = 2;
    let r_in = parse_inout_selection(&sel, &mut pos, tx.inputs.len(), current_input_idx, true);
    proof {
        lemma_selection_end(sel@, 2, tx@.inputs.len(), cur_n, true);
    }
    let (in_sel, in_commit) = match r_in {
        Ok(t) => t,
        Err(e) => {
            proof {
                lemma_body_in_err(sel@, tx@, prev_v, cur_n, csp, e);
            }
            return Err(e);
        },
    };
    let ghost tin: (Seq<usize>, bool, int) = (in_sel@, in_commit, pos as int);
    proof {
        match spec_parse_selection(sel@, 2, tx@.inputs.len(), cur_n, true) {
            Ok(t) => {
                assert(in_sel@ == t.0 && in_commit == t.1 && pos as int == t.2);
                assert(t == tin);
            },
            Err(_e) => {
                assert(false);
            },
        }
    }
    if fields & TXFS_INPUTS_ALL != 0 {
        if !all_in_range(&in_sel, tx.inputs.len()) {
            proof {
                lemma_body_in_oob(sel@, tx@, prev_v, cur_n, csp, tin);
            }
            return Err(TxfsError::UnreachableState);
        }
    }
    if in_commit {
        push_le32(&mut acc, tx.inputs.len() as u32);
    }
    let ghost in_cnt: Seq<u8> = if in_commit {
        le32(tx@.inputs.len() as u32)
    } else {
        Seq::empty()
    };
    push_input_groups(&mut acc, fields, tx, prevouts, &in_sel);
    let ghost g_in = spec_input_groups(fields, tx@, prev_v, in_sel@);
    let ghost head2 = g_head + in_cnt + g_in;
    assert(acc@ =~= ctrl + head2);
    if pos == sel.len() {
        proof {
            lemma_body_inputs_done(sel@, tx@, prev_v, cur_n, csp, tin);
        }
        assert(spec_body_stream(sel@, tx@, prev_v, cur_n, csp) == Ok::<Seq<u8>, TxfsError>(
            head2,
        ));
        assert(spec_txhash_stream(txfs@, tx@, prev_v, cur_n, csp) == Ok::<Seq<u8>, TxfsError>(
            ctrl + head2,
        ));
        let d = sha256(&acc);
        return Ok(d);
    }
    let allow = fields & TXFS_OUTPUTS_ALL == 0;
    let ghost pos_in = pos as int;
    let r_out = parse_inout_selection(&sel, &mut pos, tx.outputs.len(), current_input_idx, allow);
    proof {
        lemma_selection_end(sel@, pos_in, tx@.outputs.len(), cur_n, allow);
    }
    let (out_sel, out_commit) = match r_out {
        Ok(t) => t,
        Err(e) => {
            proof {
                lemma_body_out_err(sel@, tx@, prev_v, cur_n, csp, tin, e);
            }
            return Err(e);
        },
    };
    let ghost tout: (Seq<usize>, bool, int) = (out_sel@, out_commit, pos as int);
    proof {
        match spec_parse_selection(sel@, pos_in, tx@.outputs.len(), cur_n, allow) {
            Ok(t) => {
                assert(out_sel@ == t.0 && out_commit == t.1 && pos as int == t.2);
                assert(t == tout);
            },
            Err(_e) => {
                assert(false);
            },
        }
    }
    if fields & TXFS_OUTPUTS_ALL != 0 {
        if !all_in_range(&out_sel, tx.outputs.len()) {
            proof {
                lemma_body_out_oob(sel@, tx@, prev_v, cur_n, csp, tin, tout);
            }
            return Err(TxfsError::UnreachableState);
        }
    }
    if pos != sel.len() {
        proof {
            lemma_body_trailing(sel@, tx@, prev_v, cur_n, csp, tin, tout);
        }
        return Err(TxfsError::NonCanonical);
    }
    if out_commit {
        push_le32(&mut acc, tx.outputs.len() as u32);
    }
    let ghost out_cnt: Seq<u8> = if out_commit {
        le32(tx@.outputs.len() as u32)
    } else {
        Seq::empty()
    };
    push_output_groups(&mut acc, fields, tx, prevouts, &out_sel);
    let ghost g_out = spec_output_groups(fields, tx@, prev_v, out_sel@);
    let ghost full = head2 + out_cnt + g_out;
    assert(acc@ =~= ctrl + full);
    proof {
        lemma_body_full(sel@, tx@, prev_v, cur_n, csp, tin, tout);
    }
    assert(spec_body_stream(sel@, tx@, prev_v, cur_n, csp) == Ok::<Seq<u8>, TxfsError>(full));
    assert(spec_txhash_stream(txfs@, tx@, prev_v, cur_n, csp) == Ok::<Seq<u8>, TxfsError>(
        ctrl + full,
    ));
    let d = sha256(&acc);
    Ok(d)
}

} // verus!
