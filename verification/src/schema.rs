//! Static bit layout of the selector format: the global-flags byte, the
//! field-flags byte, the selection byte, and the two canonical aliases.

use vstd::prelude::*;

verus! {

// Global-flags byte: one bit per global field, committed in this order.
pub const TXFS_VERSION: u8 = 0x01;
pub const TXFS_LOCKTIME: u8 = 0x02;
pub const TXFS_CURRENT_INPUT_IDX: u8 = 0x04;
pub const TXFS_CURRENT_INPUT_SPENTSCRIPT: u8 = 0x08;
pub const TXFS_CURRENT_INPUT_CONTROL_BLOCK: u8 = 0x10;
pub const TXFS_CURRENT_INPUT_LAST_CODESEPARATOR_POS: u8 = 0x20;
// Bit 6 is reserved.
/// The control bit: also commit the raw selector bytes themselves.
pub const TXFS_CONTROL: u8 = 0x80;

/// Every global bit together with the control bit.
pub const TXFS_ALL: u8 = 0xbf;

// Field-flags byte: low bits select input sub-fields, high bits output
// sub-fields.
pub const TXFS_INPUTS_PREVOUTS: u8 = 0x01;
pub const TXFS_INPUTS_SEQUENCES: u8 = 0x02;
pub const TXFS_INPUTS_SCRIPTSIGS: u8 = 0x04;
pub const TXFS_INPUTS_PREV_SCRIPTPUBKEYS: u8 = 0x08;
pub const TXFS_INPUTS_PREV_VALUES: u8 = 0x10;
pub const TXFS_INPUTS_TAPROOT_ANNEXES: u8 = 0x20;
pub const TXFS_OUTPUTS_SCRIPTPUBKEYS: u8 = 0x40;
pub const TXFS_OUTPUTS_VALUES: u8 = 0x80;

/// All six input sub-field bits.
pub const TXFS_INPUTS_ALL: u8 = 0x3f;
/// The template set: sequences, signature scripts, previous values and
/// taproot annexes.
pub const TXFS_INPUTS_TEMPLATE: u8 = 0x36;
/// Both output sub-field bits.
pub const TXFS_OUTPUTS_ALL: u8 = 0xc0;

// Selection byte layout.
/// Top bit: also commit the number of items of the selected list.
pub const TXFS_INOUT_NUMBER: u8 = 0x80;
pub const TXFS_INOUT_SELECTION_NONE: u8 = 0x00;
pub const TXFS_INOUT_SELECTION_CURRENT: u8 = 0x40;
pub const TXFS_INOUT_SELECTION_ALL: u8 = 0x3f;
pub const TXFS_INOUT_SELECTION_MODE: u8 = 0x40;
pub const TXFS_INOUT_LEADING_SIZE: u8 = 0x20;
pub const TXFS_INOUT_INDIVIDUAL_MODE: u8 = 0x20;
pub const TXFS_INOUT_SELECTION_MASK: u8 = 0x1f;

/// The expansion of the empty-selector alias: commit every global field, the
/// template set of input sub-fields, and all output sub-fields, over all
/// inputs and outputs, with both item counts.
pub open spec fn spec_template_selector() -> Seq<u8> {
    seq![
        TXFS_ALL,
        0xf6,  // the template input sub-fields and both output sub-fields
        0xbf,  // every input, with the input count
        0xbf,  // every output, with the output count
    ]
}

/// The expansion of the single-zero-byte alias: commit everything.
pub open spec fn spec_all_selector() -> Seq<u8> {
    seq![
        TXFS_ALL,
        0xff,  // every input and output sub-field
        0xbf,  // every input, with the input count
        0xbf,  // every output, with the output count
    ]
}

/// The selector bytes that the empty selector stands for.
pub fn template_selector() -> (r: Vec<u8>)
    ensures
        r@ == spec_template_selector(),
{
    let mut v: Vec<u8> = Vec::new();
    v.push(TXFS_ALL);
    v.push(0xf6);
    v.push(0xbf);
    v.push(0xbf);
    assert(v@ =~= spec_template_selector());
    v
}

/// The selector bytes that the single zero byte stands for.
pub fn all_selector() -> (r: Vec<u8>)
    ensures
        r@ == spec_all_selector(),
{
    let mut v: Vec<u8> = Vec::new();
    v.push(TXFS_ALL);
    v.push(0xff);
    v.push(0xbf);
    v.push(0xbf);
    assert(v@ =~= spec_all_selector());
    v
}

} // verus!
