//! Properties of the digest that hold for every transaction and context:
//! determinism, the two selector aliases, self-binding under the control
//! bit, and the rejection of trailing bytes.

use vstd::prelude::*;
use crate::digest::lemma_body_trailing;
use crate::digest::spec_body_stream;
use crate::digest::spec_effective;
use crate::digest::spec_txhash_stream;
use crate::digest::txhash_post;
use crate::error::TxfsError;
use crate::schema::TXFS_CONTROL;
use crate::schema::TXFS_INPUTS_ALL;
use crate::schema::TXFS_OUTPUTS_ALL;
use crate::schema::spec_all_selector;
use crate::schema::spec_template_selector;
use crate::select::spec_parse_entries;
use crate::select::spec_parse_selection;
use crate::tx::TxOutV;
use crate::tx::TxV;

verus! {

/// Determinism: two results that both satisfy the digest's contract for the
/// same selector, transaction, prevouts and context agree — the same digest
/// bytes, or the same failure.
pub proof fn lemma_digest_deterministic(
    r1: Result<Vec<u8>, TxfsError>,
    r2: Result<Vec<u8>, TxfsError>,
    txfs: Seq<u8>,
    tx: TxV,
    prevouts: Seq<TxOutV>,
    cur: nat,
    csp: Option<u32>,
)
    requires
        txhash_post(r1, txfs, tx, prevouts, cur, csp),
        txhash_post(r2, txfs, tx, prevouts, cur, csp),
    ensures
        match (r1, r2) {
            (Ok(h1), Ok(h2)) => h1@ == h2@,
            (Err(e1), Err(e2)) => e1 == e2,
            _ => false,
        },
{
}

/// Aliasing: the empty selector commits exactly what the template selector
/// commits.
pub proof fn lemma_alias_template(tx: TxV, prevouts: Seq<TxOutV>, cur: nat, csp: Option<u32>)
    ensures
        spec_txhash_stream(Seq::<u8>::empty(), tx, prevouts, cur, csp) == spec_txhash_stream(
            spec_template_selector(),
            tx,
            prevouts,
            cur,
            csp,
        ),
{
    assert(spec_effective(Seq::<u8>::empty()) == spec_template_selector());
    assert(spec_effective(spec_template_selector()) == spec_template_selector());
}

/// Aliasing: the single zero byte commits exactly what the commit-all
/// selector commits.
pub proof fn lemma_alias_all(tx: TxV, prevouts: Seq<TxOutV>, cur: nat, csp: Option<u32>)
    ensures
        spec_txhash_stream(seq![0x00u8], tx, prevouts, cur, csp) == spec_txhash_stream(
            spec_all_selector(),
            tx,
            prevouts,
            cur,
            csp,
        ),
{
    assert(spec_effective(seq![0x00u8]) == spec_all_selector());
    assert(spec_effective(spec_all_selector()) == spec_all_selector());
}

/// Self-binding: with the control bit set, two canonical selectors that
/// differ as byte sequences while committing the same body bytes still
/// produce different outer streams — the digest input binds the exact
/// selector encoding.
pub proof fn lemma_self_binding(
    s1: Seq<u8>,
    s2: Seq<u8>,
    tx: TxV,
    prevouts: Seq<TxOutV>,
    cur: nat,
    csp: Option<u32>,
    t: Seq<u8>,
)
    requires
        spec_effective(s1) == s1,
        spec_effective(s2) == s2,
        s1.len() >= 1 && s1[0] & TXFS_CONTROL != 0,
        s2.len() >= 1 && s2[0] & TXFS_CONTROL != 0,
        s1 != s2,
        spec_body_stream(s1, tx, prevouts, cur, csp) == Ok::<Seq<u8>, TxfsError>(t),
        spec_body_stream(s2, tx, prevouts, cur, csp) == Ok::<Seq<u8>, TxfsError>(t),
    ensures
        spec_txhash_stream(s1, tx, prevouts, cur, csp) == Ok::<Seq<u8>, TxfsError>(s1 + t),
        spec_txhash_stream(s2, tx, prevouts, cur, csp) == Ok::<Seq<u8>, TxfsError>(s2 + t),
        s1 + t != s2 + t,
{
    if s1.len() == s2.len() {
        if forall|i: int| 0 <= i < s1.len() ==> s1[i] == s2[i] {
            assert(s1 =~= s2);
            assert(false);
        }
        let i = choose|i: int| 0 <= i < s1.len() && s1[i] != s2[i];
        assert((s1 + t)[i] == s1[i]);
        assert((s2 + t)[i] == s2[i]);
    } else {
        assert((s1 + t).len() != (s2 + t).len());
    }
}

/// The indices of a selection, in the order resolved, grow strictly.
pub open spec fn strictly_increasing(s: Seq<usize>) -> bool {
    forall|i: int, j: int| 0 <= i < j < s.len() ==> s[i] < s[j]
}

proof fn lemma_entries_increasing(
    b: Seq<u8>,
    pos: int,
    k: nat,
    absolute: bool,
    nb: nat,
    cur: nat,
    prev: int,
)
    requires
        nb <= usize::MAX,
    ensures
        match spec_parse_entries(b, pos, k, absolute, nb, cur, prev) {
            Ok(t) => strictly_increasing(t.0) && forall|i: int|
                0 <= i < t.0.len() ==> prev < (#[trigger] t.0[i]) as int <= nb,
            Err(_) => true,
        },
    decreases k,
{
    if k == 0 {
    } else if pos >= b.len() {
    } else {
        let first = b[pos];
        let single = first & 0x80 == 0;
        if !single && pos + 1 >= b.len() {
        } else {
            let next_pos: int = if single {
                pos + 1
            } else {
                pos + 2
            };
            let mag: int = if single {
                first as int
            } else {
                (first & 0x7f) * 256 + b[pos + 1]
            };
            let off: int = if single {
                crate::select::sign7i(first as int)
            } else {
                crate::select::sign15i(mag)
            };
            if !absolute && off < 0 && -off > cur {
            } else {
                let idx: int = if absolute {
                    mag
                } else {
                    cur + off
                };
                if idx > nb || idx <= prev {
                } else {
                    lemma_entries_increasing(b, next_pos, (k - 1) as nat, absolute, nb, cur, idx);
                    match spec_parse_entries(b, next_pos, (k - 1) as nat, absolute, nb, cur, idx) {
                        Ok(t) => {
                            let whole = seq![idx as usize] + t.0;
                            assert(whole[0] == idx as usize);
                            assert(forall|i: int|
                                1 <= i < whole.len() ==> whole[i] == t.0[i - 1]);
                            assert(strictly_increasing(whole));
                            assert(forall|i: int|
                                0 <= i < whole.len() ==> prev < (#[trigger] whole[i]) as int
                                    <= nb);
                        },
                        Err(_e) => {},
                    }
                }
            }
        }
    }
}

proof fn lemma_iota_bounds(n: nat)
    requires
        n <= usize::MAX,
    ensures
        strictly_increasing(crate::select::iota(n)),
        forall|i: int|
            0 <= i < crate::select::iota(n).len() ==> (#[trigger] crate::select::iota(n)[i]) as int
                <= n,
{
    assert forall|i: int, j: int|
        0 <= i < j < crate::select::iota(n).len() implies crate::select::iota(n)[i]
        < crate::select::iota(n)[j] by {
        assert(crate::select::iota(n)[i] == i as usize);
        assert(crate::select::iota(n)[j] == j as usize);
    }
}

/// Every successful selection decode against at most `usize::MAX` items
/// yields a strictly increasing list of indices, none above the item count.
pub proof fn lemma_selection_increasing(b: Seq<u8>, pos: int, nb: nat, cur: nat, allow_empty: bool)
    requires
        nb <= usize::MAX,
    ensures
        match spec_parse_selection(b, pos, nb, cur, allow_empty) {
            Ok(t) => strictly_increasing(t.0) && forall|i: int|
                0 <= i < t.0.len() ==> (#[trigger] t.0[i]) as int <= nb,
            Err(_) => true,
        },
{
    if pos >= b.len() {
    } else {
        let first = b[pos];
        let sel = first & 0x7f;
        lemma_iota_bounds(nb);
        if sel & crate::schema::TXFS_INOUT_SELECTION_MODE == 0 && sel
            != crate::schema::TXFS_INOUT_SELECTION_NONE && sel
            != crate::schema::TXFS_INOUT_SELECTION_ALL {
            if sel & crate::schema::TXFS_INOUT_LEADING_SIZE == 0 {
                lemma_iota_bounds((sel & crate::schema::TXFS_INOUT_SELECTION_MASK) as nat);
            } else if pos + 1 < b.len() {
                let count = (sel & crate::schema::TXFS_INOUT_SELECTION_MASK) * 256 + b[pos + 1];
                if 0 < count <= nb {
                    lemma_iota_bounds(count as nat);
                }
            }
        }
        lemma_entries_increasing(
            b,
            pos + 1,
            (sel & crate::schema::TXFS_INOUT_SELECTION_MASK) as nat,
            sel & crate::schema::TXFS_INOUT_INDIVIDUAL_MODE == 0,
            nb,
            cur,
            -1,
        );
    }
}

/// Decoding individual entries reads only bytes of the shorter stream, so a
/// successful decode survives extending the stream.
proof fn lemma_entries_extend(
    b: Seq<u8>,
    b2: Seq<u8>,
    pos: int,
    k: nat,
    absolute: bool,
    nb: nat,
    cur: nat,
    prev: int,
)
    requires
        b2.len() > b.len(),
        b2.take(b.len() as int) == b,
        0 <= pos,
        spec_parse_entries(b, pos, k, absolute, nb, cur, prev) is Ok,
    ensures
        spec_parse_entries(b2, pos, k, absolute, nb, cur, prev) == spec_parse_entries(
            b,
            pos,
            k,
            absolute,
            nb,
            cur,
            prev,
        ),
    decreases k,
{
    if k == 0 {
    } else {
        assert(pos < b.len());
        assert(b2[pos] == b2.take(b.len() as int)[pos]);
        let first = b[pos];
        let single = first & 0x80 == 0;
        if !single {
            assert(pos + 1 < b.len());
            assert(b2[pos + 1] == b2.take(b.len() as int)[pos + 1]);
        }
        let next_pos: int = if single {
            pos + 1
        } else {
            pos + 2
        };
        let mag: int = if single {
            first as int
        } else {
            (first & 0x7f) * 256 + b[pos + 1]
        };
        let off: int = if single {
            crate::select::sign7i(first as int)
        } else {
            crate::select::sign15i(mag)
        };
        let idx: int = if absolute {
            mag
        } else {
            cur + off
        };
        lemma_entries_extend(b, b2, next_pos, (k - 1) as nat, absolute, nb, cur, idx);
    }
}

/// Decoding one selection reads only bytes of the shorter stream, provided
/// its first byte is present, so a successful decode survives extending the
/// stream.
proof fn lemma_selection_extend(
    b: Seq<u8>,
    b2: Seq<u8>,
    pos: int,
    nb: nat,
    cur: nat,
    allow_empty: bool,
)
    requires
        b2.len() > b.len(),
        b2.take(b.len() as int) == b,
        0 <= pos < b.len(),
        spec_parse_selection(b, pos, nb, cur, allow_empty) is Ok,
    ensures
        spec_parse_selection(b2, pos, nb, cur, allow_empty) == spec_parse_selection(
            b,
            pos,
            nb,
            cur,
            allow_empty,
        ),
{
    assert(b2[pos] == b2.take(b.len() as int)[pos]);
    let first = b[pos];
    let sel = first & 0x7f;
    if sel == 0x00 || sel == 0x3f || sel == 0x40 {
    } else if sel & 0x40 == 0 {
        if sel & 0x20 != 0 {
            assert(pos + 1 < b.len());
            assert(b2[pos + 1] == b2.take(b.len() as int)[pos + 1]);
        }
    } else {
        lemma_entries_extend(b, b2, pos + 1, (sel & 0x1f) as nat, sel & 0x20 == 0, nb, cur, -1);
    }
}

/// Canonicality: a selector whose decode consumed every byte, with the
/// output portion present, rejects one appended byte — whatever its value —
/// as non-canonical.
pub proof fn lemma_trailing_byte(
    s: Seq<u8>,
    x: u8,
    tx: TxV,
    prevouts: Seq<TxOutV>,
    cur: nat,
    csp: Option<u32>,
)
    requires
        s.len() >= 2,
        spec_txhash_stream(s, tx, prevouts, cur, csp) is Ok,
        match spec_parse_selection(s, 2, tx.inputs.len(), cur, true) {
            Ok(t) => t.2 < s.len(),
            Err(_) => false,
        },
    ensures
        spec_txhash_stream(s.push(x), tx, prevouts, cur, csp) == Err::<Seq<u8>, TxfsError>(
            TxfsError::NonCanonical,
        ),
{
    let s2 = s.push(x);
    assert(spec_effective(s) == s);
    assert(spec_effective(s2) == s2);
    assert(s2.take(s.len() as int) =~= s);
    assert(spec_body_stream(s, tx, prevouts, cur, csp) is Ok);
    match spec_parse_selection(s, 2, tx.inputs.len(), cur, true) {
        Ok(tin) => {
            assert(2 < s.len());
            lemma_selection_extend(s, s2, 2, tx.inputs.len(), cur, true);
            crate::digest::lemma_selection_end(s, 2, tx.inputs.len(), cur, true);
            assert(s[1] & TXFS_INPUTS_ALL != 0 ==> crate::digest::sel_in_bounds(
                tin.0,
                tx.inputs.len() as int,
            ));
            let allow = s[1] & TXFS_OUTPUTS_ALL == 0;
            match spec_parse_selection(s, tin.2, tx.outputs.len(), cur, allow) {
                Ok(tout) => {
                    assert(s[1] & TXFS_OUTPUTS_ALL != 0 ==> crate::digest::sel_in_bounds(
                        tout.0,
                        tx.outputs.len() as int,
                    ));
                    assert(tout.2 == s.len());
                    lemma_selection_extend(s, s2, tin.2, tx.outputs.len(), cur, allow);
                    assert(s2[1] == s[1]);
                    lemma_body_trailing(s2, tx, prevouts, cur, csp, tin, tout);
                },
                Err(_e) => {
                    assert(false);
                },
            }
        },
        Err(_e) => {
            assert(false);
        },
    }
}

} // verus!
