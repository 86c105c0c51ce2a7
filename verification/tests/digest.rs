//! Tests of the digest builder against independently computed streams.

use txfs::digest::calculate_txhash;
use txfs::error::TxfsError;
use txfs::schema::{all_selector, template_selector};
use txfs::tx::{Tx, TxIn, TxOut};

fn sha(b: &[u8]) -> Vec<u8> {
    let h = <bitcoin::hashes::sha256::Hash as bitcoin::hashes::Hash>::hash(b);
    <bitcoin::hashes::sha256::Hash as bitcoin::hashes::Hash>::to_byte_array(h).to_vec()
}

fn le32(v: u32) -> Vec<u8> {
    v.to_le_bytes().to_vec()
}

fn le64(v: u64) -> Vec<u8> {
    v.to_le_bytes().to_vec()
}

fn p2wsh_script(first: u8) -> Vec<u8> {
    let mut s = vec![0x00u8, 0x20, first];
    s.resize(34, 0x00);
    s
}

fn p2tr_script(first: u8) -> Vec<u8> {
    let mut s = vec![0x51u8, 0x20, first];
    s.resize(34, 0x00);
    s
}

/// The reference fixture: four inputs and three outputs with fixed values.
fn fixture() -> (Tx, Vec<TxOut>) {
    let tx = Tx {
        version: 2,
        lock_time: 42,
        inputs: vec![
            TxIn {
                prevout_txid: vec![0x11; 32],
                prevout_vout: 1,
                script_sig: vec![0x23],
                sequence: 1,
                witness: vec![],
            },
            TxIn {
                prevout_txid: vec![0x22; 32],
                prevout_vout: 2,
                script_sig: vec![],
                sequence: 3,
                witness: vec![vec![0x13], vec![0x14], vec![0x50, 0x42]],
            },
            TxIn {
                prevout_txid: vec![0x33; 32],
                prevout_vout: 3,
                script_sig: vec![],
                sequence: 2,
                witness: vec![vec![0x12]],
            },
            TxIn {
                prevout_txid: vec![0x44; 32],
                prevout_vout: 4,
                script_sig: vec![],
                sequence: 3,
                witness: vec![vec![0x13], vec![0x14], vec![0x50, 0x42]],
            },
        ],
        outputs: vec![
            TxOut { value: 350, script_pubkey: vec![0x56] },
            TxOut { value: 351, script_pubkey: vec![0x57] },
            TxOut { value: 353, script_pubkey: vec![0x58] },
        ],
    };
    let prevs = vec![
        TxOut { value: 360, script_pubkey: vec![0x60] },
        TxOut { value: 361, script_pubkey: p2wsh_script(0x01) },
        TxOut { value: 361, script_pubkey: p2tr_script(0x01) },
        TxOut { value: 362, script_pubkey: p2tr_script(0x02) },
    ];
    (tx, prevs)
}

fn digest(sel: &[u8], cur: u32, csp: Option<u32>) -> Result<Vec<u8>, TxfsError> {
    let (tx, prevs) = fixture();
    calculate_txhash(&sel.to_vec(), &tx, &prevs, cur, csp)
}

/// The spent script of the fixture's input `cur`, as the format defines it.
fn fixture_spent_script(cur: u32) -> Vec<u8> {
    match cur {
        0 => Vec::new(),                // not a special output type
        1 => vec![0x50, 0x42],          // p2wsh: last witness element
        2 => Vec::new(),                // p2tr key-path spend: no leaf script
        3 => vec![0x13],                // p2tr with annex: third-to-last
        _ => unreachable!(),
    }
}

/// The control-block commitment of the fixture's input `cur`.
fn fixture_control_block(cur: u32) -> Vec<u8> {
    match cur {
        0 | 1 => Vec::new(),            // not taproot
        2 => Vec::new(),                // single witness element: none
        3 => vec![0x14],                // p2tr with annex: second-to-last
        _ => unreachable!(),
    }
}

/// The stream that an expanded alias selector hashes, built here from
/// scratch. `fields` is the field-flags byte of the selector.
fn alias_selector_stream(fields: u8, cur: u32, csp: Option<u32>) -> Vec<u8> {
    let (tx, prevs) = fixture();
    let mut st: Vec<u8> = vec![0xbf, fields, 0xbf, 0xbf];
    st.extend(le32(tx.version));
    st.extend(le32(tx.lock_time));
    st.extend(le32(cur));
    st.extend(sha(&fixture_spent_script(cur)));
    st.extend(sha(&fixture_control_block(cur)));
    st.extend(le32(csp.unwrap_or(u32::MAX)));
    st.extend(le32(4));
    let mut prevouts_bytes = Vec::new();
    let mut sequences_bytes = Vec::new();
    let mut scriptsigs_bytes = Vec::new();
    let mut prevspk_bytes = Vec::new();
    let mut prevval_bytes = Vec::new();
    let mut annex_bytes = Vec::new();
    for (i, inp) in tx.inputs.iter().enumerate() {
        prevouts_bytes.extend(inp.prevout_txid.clone());
        prevouts_bytes.extend(le32(inp.prevout_vout));
        sequences_bytes.extend(le32(inp.sequence));
        scriptsigs_bytes.extend(sha(&inp.script_sig));
        prevspk_bytes.extend(sha(&prevs[i].script_pubkey));
        prevval_bytes.extend(le64(prevs[i].value));
        let is_p2tr = prevs[i].script_pubkey.len() == 34 && prevs[i].script_pubkey[0] == 0x51;
        let annex = if is_p2tr && inp.witness.len() >= 2
            && inp.witness.last().unwrap().first() == Some(&0x50)
        {
            inp.witness.last().unwrap().clone()
        } else {
            Vec::new()
        };
        annex_bytes.extend(sha(&annex));
    }
    if fields & 0x01 != 0 {
        st.extend(sha(&prevouts_bytes));
    }
    if fields & 0x02 != 0 {
        st.extend(sha(&sequences_bytes));
    }
    if fields & 0x04 != 0 {
        st.extend(sha(&scriptsigs_bytes));
    }
    if fields & 0x08 != 0 {
        st.extend(sha(&prevspk_bytes));
    }
    if fields & 0x10 != 0 {
        st.extend(sha(&prevval_bytes));
    }
    if fields & 0x20 != 0 {
        st.extend(sha(&annex_bytes));
    }
    st.extend(le32(3));
    let mut outspk_bytes = Vec::new();
    let mut outval_bytes = Vec::new();
    for out in tx.outputs.iter() {
        outspk_bytes.extend(sha(&out.script_pubkey));
        outval_bytes.extend(le64(out.value));
    }
    st.extend(sha(&outspk_bytes));
    st.extend(sha(&outval_bytes));
    st
}

#[test]
fn version_only() {
    assert_eq!(digest(&[0x01], 0, None).unwrap(), sha(&le32(2)));
}

#[test]
fn locktime_only() {
    assert_eq!(digest(&[0x02], 0, None).unwrap(), sha(&le32(42)));
}

#[test]
fn current_input_index_only() {
    assert_eq!(digest(&[0x04], 2, None).unwrap(), sha(&le32(2)));
}

#[test]
fn spent_script_per_input() {
    for cur in 0..4u32 {
        let mut expect = sha(&fixture_spent_script(cur));
        expect = sha(&expect);
        assert_eq!(digest(&[0x08], cur, None).unwrap(), expect, "input {}", cur);
    }
}

#[test]
fn spent_script_p2sh_redeem_script() {
    // A pay-to-script-hash prevout takes the spent script from the last push
    // of the signature script.
    let (mut tx, mut prevs) = fixture();
    let mut spk = vec![0xa9u8, 0x14];
    spk.resize(22, 0x00);
    spk.push(0x87);
    prevs[0] = TxOut { value: 360, script_pubkey: spk };
    tx.inputs[0].script_sig = vec![0x01, 0xab, 0x02, 0xcd, 0xef];
    let d = calculate_txhash(&vec![0x08], &tx, &prevs, 0, None).unwrap();
    assert_eq!(d, sha(&sha(&[0xcd, 0xef])));
}

#[test]
fn spent_script_p2sh_non_push_script_sig_is_empty() {
    let (mut tx, mut prevs) = fixture();
    let mut spk = vec![0xa9u8, 0x14];
    spk.resize(22, 0x00);
    spk.push(0x87);
    prevs[0] = TxOut { value: 360, script_pubkey: spk };
    tx.inputs[0].script_sig = vec![0xac];  // a non-push opcode
    let d = calculate_txhash(&vec![0x08], &tx, &prevs, 0, None).unwrap();
    assert_eq!(d, sha(&sha(&[])));
}

#[test]
fn control_block_per_input() {
    for cur in 0..4u32 {
        let expect = sha(&sha(&fixture_control_block(cur)));
        assert_eq!(digest(&[0x10], cur, None).unwrap(), expect, "input {}", cur);
    }
}

#[test]
fn codeseparator_present() {
    assert_eq!(digest(&[0x20], 0, Some(7)).unwrap(), sha(&le32(7)));
}

#[test]
fn codeseparator_absent_commits_sentinel() {
    assert_eq!(digest(&[0x20], 0, None).unwrap(), sha(&le32(0xffff_ffff)));
}

#[test]
fn input_count_only() {
    // No global bits, no sub-fields; the input selection commits the count.
    let d = digest(&[0x00, 0x00, 0x80], 0, None).unwrap();
    assert_eq!(d, sha(&le32(4)));
}

#[test]
fn both_counts_only() {
    let d = digest(&[0x00, 0x00, 0x80, 0x80], 0, None).unwrap();
    let mut st = le32(4);
    st.extend(le32(3));
    assert_eq!(d, sha(&st));
}

#[test]
fn annexes_over_all_inputs() {
    let d = digest(&[0x00, 0x20, 0x3f], 0, None).unwrap();
    let mut group = Vec::new();
    group.extend(sha(&[]));
    group.extend(sha(&[]));
    group.extend(sha(&[]));
    group.extend(sha(&[0x50, 0x42]));
    assert_eq!(d, sha(&sha(&group)));
}

#[test]
fn output_values_all() {
    // The reference check: only the output values, over every output.
    let d = digest(&[0x00, 0x80, 0x00, 0x3f], 0, None).unwrap();
    let mut group = le64(350);
    group.extend(le64(351));
    group.extend(le64(353));
    assert_eq!(d, sha(&sha(&group)));
}

#[test]
fn output_scripts_current() {
    let d = digest(&[0x00, 0x40, 0x00, 0x40], 1, None).unwrap();
    assert_eq!(d, sha(&sha(&sha(&[0x57]))));
}

#[test]
fn commit_all_alias_matches_model_stream() {
    for cur in 0..4u32 {
        let d = digest(&[0x00], cur, None).unwrap();
        assert_eq!(d, sha(&alias_selector_stream(0xff, cur, None)), "input {}", cur);
    }
}

#[test]
fn commit_all_alias_with_codeseparator_matches_model_stream() {
    let d = digest(&[0x00], 2, Some(5)).unwrap();
    assert_eq!(d, sha(&alias_selector_stream(0xff, 2, Some(5))));
}

#[test]
fn template_alias_matches_model_stream() {
    for cur in 0..4u32 {
        let d = digest(&[], cur, None).unwrap();
        assert_eq!(d, sha(&alias_selector_stream(0xf6, cur, None)), "input {}", cur);
    }
}

#[test]
fn empty_selector_equals_template_bytes() {
    let t = template_selector();
    for cur in 0..4u32 {
        assert_eq!(digest(&[], cur, None).unwrap(), digest(&t, cur, None).unwrap());
    }
}

#[test]
fn zero_selector_equals_all_bytes() {
    let a = all_selector();
    for cur in 0..4u32 {
        assert_eq!(digest(&[0x00], cur, None).unwrap(), digest(&a, cur, None).unwrap());
    }
}

#[test]
fn digest_is_deterministic() {
    let d1 = digest(&[0x00], 0, None).unwrap();
    let d2 = digest(&[0x00], 0, None).unwrap();
    assert_eq!(d1, d2);
}

#[test]
fn current_input_changes_digest() {
    let d0 = digest(&[0x00], 0, None).unwrap();
    let d1 = digest(&[0x00], 1, None).unwrap();
    assert_eq!(d0.len(), 32);
    assert_eq!(d1.len(), 32);
    assert_ne!(d0, d1);
}

#[test]
fn self_binding_distinguishes_encodings() {
    // Both selectors commit output 0's script and nothing else, but their
    // encodings differ; with the control bit set the digests must differ.
    let s1 = [0x81u8, 0x40, 0x00, 0x01];
    let s2 = [0x81u8, 0x40, 0x00, 0x41, 0x00];
    let d1 = digest(&s1, 0, None).unwrap();
    let d2 = digest(&s2, 0, None).unwrap();
    assert_ne!(d1, d2);
}

#[test]
fn without_control_bit_same_commitments_collide() {
    let s1 = [0x01u8, 0x40, 0x00, 0x01];
    let s2 = [0x01u8, 0x40, 0x00, 0x41, 0x00];
    let d1 = digest(&s1, 0, None).unwrap();
    let d2 = digest(&s2, 0, None).unwrap();
    assert_eq!(d1, d2);
}

#[test]
fn ordering_violation_via_digest() {
    let r = digest(&[0x01, 0x01, 0x42, 0x02, 0x00], 0, None);
    assert_eq!(r.unwrap_err(), TxfsError::OrderingViolation);
    assert!(digest(&[0x01, 0x01, 0x42, 0x00, 0x02], 0, None).is_ok());
}

#[test]
fn current_output_out_of_range() {
    let r = digest(&[0x01, 0xc0, 0x00, 0x40], 3, None);
    assert_eq!(r.unwrap_err(), TxfsError::OutOfRange);
    assert!(digest(&[0x01, 0xc0, 0x00, 0x40], 1, None).is_ok());
}

#[test]
fn trailing_byte_is_non_canonical() {
    let valid = [0x01u8, 0xc0, 0x00, 0x3f];
    assert!(digest(&valid, 0, None).is_ok());
    for extra in [0x00u8, 0x01, 0x3f, 0x80, 0xff] {
        let mut sel = valid.to_vec();
        sel.push(extra);
        let r = digest(&sel, 0, None);
        assert_eq!(r.unwrap_err(), TxfsError::NonCanonical, "extra byte {:#x}", extra);
    }
}

#[test]
fn missing_field_flags_commits_globals_only() {
    let d = digest(&[0x03], 0, None).unwrap();
    let mut st = le32(2);
    st.extend(le32(42));
    assert_eq!(d, sha(&st));
}

#[test]
fn missing_input_selection_is_empty() {
    // A selector that ends right after the field-flags byte tolerates the
    // absent input selection.
    let d = digest(&[0x00, 0x01], 0, None).unwrap();
    assert_eq!(d, sha(&[]));
}

#[test]
fn control_bit_commits_selector_bytes() {
    let sel = [0x80u8];
    let d = digest(&sel, 0, None).unwrap();
    assert_eq!(d, sha(&sel));
}

#[test]
fn malformed_individual_entry() {
    let r = digest(&[0x01, 0x01, 0x42, 0x01], 0, None);
    assert_eq!(r.unwrap_err(), TxfsError::MalformedSelector);
}

#[test]
fn leading_zero_count_is_internal_fault() {
    let r = digest(&[0x01, 0x01, 0x20, 0x00], 0, None);
    assert_eq!(r.unwrap_err(), TxfsError::UnreachableState);
}

#[test]
fn index_at_item_count_faults_when_dereferenced() {
    let r = digest(&[0x01, 0x01, 0x41, 0x04], 0, None);
    assert_eq!(r.unwrap_err(), TxfsError::UnreachableState);
}

#[test]
fn index_at_item_count_without_fields_is_accepted() {
    let r = digest(&[0x01, 0x00, 0x41, 0x04], 0, None);
    assert_eq!(r.unwrap(), sha(&le32(2)));
}

#[test]
fn leading_count_above_items_via_digest() {
    let r = digest(&[0x01, 0x01, 0x05], 0, None);
    assert_eq!(r.unwrap_err(), TxfsError::OutOfRange);
}
