//! What holds of the wallet's payments as a whole.

use crate::amount::{as_unsigned, DEFAULT_FEE};
use crate::balance::total;
use crate::builder::{
    empty_memo, recovered_output, spend_nullifier, spend_nullifiers, spent_value,
    transparent_value, tx_expiry, tx_id, tx_nullifiers, tx_transparent_outputs, tx_value_balance,
    BuilderView, SpendView,
};
use crate::decode::{
    all_received, gather, note_values, row_outcome, row_outcomes, RowOutcome, SelectedNoteView,
};
use crate::heights::{anchor_height, ANCHOR_OFFSET};
use crate::keys::{
    diversified_address, encoded_shielded, encoded_transparent, note_recipient, note_value,
};
use crate::notes::{
    eligible, funding, joined, lemma_selection_in_bounds, matching, pair_with, reached, selected,
    selection, so_far, total_overflows, witnesses, Criteria, NoteWitness, ReceivedNote,
};
use crate::persist::{
    marks, memo_view, note_after, notes_after, transactions_after, StatementView,
    StoredTransaction,
};
use crate::transact::{
    anchor_agrees, change, closing_statements, empty_builder, have_their_values,
    opening_statements, paying, pays, recovers, spend_outcomes, Payment, RecipientAddress,
    SpendOutcome,
};
use crate::witness::{path_root, witness_path};
use sapling_crypto::zip32::{ExtendedFullViewingKey, ExtendedSpendingKey};
use vstd::prelude::*;
use zcash_primitives::transaction::Transaction;
use zcash_protocol::consensus::Network;

verus! {

/// No note that may be spent has a negative value.
pub open spec fn no_negative_values(rows: Seq<ReceivedNote>, c: Criteria) -> bool {
    forall|i: int|
        0 <= i < rows.len() && eligible(#[trigger] rows[i], c) ==> rows[i].value >= 0
}

/// The total value of the notes at the positions `picked`.
pub open spec fn value_at(rows: Seq<ReceivedNote>, picked: Seq<int>) -> int
    decreases picked.len(),
{
    if picked.len() == 0 {
        0
    } else {
        value_at(rows, picked.drop_last()) + rows[picked.last()].value
    }
}

/// The total value of the notes that may be spent.
pub open spec fn spendable(rows: Seq<ReceivedNote>, c: Criteria) -> int {
    so_far(rows, rows.len() as int, c)
}

/// The positions of the notes selected for a payment.
pub open spec fn selected_positions(rows: Seq<ReceivedNote>, c: Criteria) -> Seq<int> {
    selection(rows, rows.len() as int, c)
}

/// The selection holds the positions of the selected notes, each once, oldest first.
pub proof fn lemma_selection_members(rows: Seq<ReceivedNote>, k: int, c: Criteria)
    requires
        0 <= k <= rows.len(),
    ensures
        forall|j: int|
            #![trigger selection(rows, k, c).contains(j)]
            #![trigger selected(rows, j, c)]
            selection(rows, k, c).contains(j) == (0 <= j < k && selected(rows, j, c)),
        forall|a: int, b: int|
            #![trigger selection(rows, k, c)[a], selection(rows, k, c)[b]]
            0 <= a < b < selection(rows, k, c).len() ==> selection(rows, k, c)[a] < selection(
                rows,
                k,
                c,
            )[b],
    decreases k,
{
    if k > 0 {
        lemma_selection_members(rows, k - 1, c);
        let shorter = selection(rows, k - 1, c);
        let longer = selection(rows, k, c);
        assert forall|j: int|
            #![trigger longer.contains(j)]
            #![trigger selected(rows, j, c)]
            longer.contains(j) == (0 <= j < k && selected(rows, j, c)) by {
            if longer.contains(j) {
                let i = longer.index_of(j);
                if i < shorter.len() {
                    assert(shorter[i] == j);
                    assert(shorter.contains(j));
                }
            }
            if 0 <= j < k && selected(rows, j, c) {
                if j == k - 1 {
                    assert(longer[longer.len() - 1] == j);
                } else {
                    assert(shorter.contains(j));
                    let i = shorter.index_of(j);
                    assert(longer[i] == j);
                }
            }
        }
        assert forall|a: int, b: int|
            #![trigger longer[a], longer[b]]
            0 <= a < b < longer.len() implies longer[a] < longer[b] by {
            if b < shorter.len() {
                assert(longer[a] == shorter[a] && longer[b] == shorter[b]);
            } else {
                assert(shorter.contains(longer[a])) by {
                    assert(shorter[a] == longer[a]);
                }
            }
        }
    }
}

/// Every selected note may be spent: it belongs to the paying account, is unspent, and was
/// mined no later than the anchor.
pub proof fn selected_notes_may_be_spent(rows: Seq<ReceivedNote>, c: Criteria)
    ensures
        forall|i: int|
            #![trigger selected_positions(rows, c)[i]]
            0 <= i < selected_positions(rows, c).len() ==> {
                &&& 0 <= selected_positions(rows, c)[i] < rows.len()
                &&& rows[selected_positions(rows, c)[i]].account == c.account
                &&& rows[selected_positions(rows, c)[i]].spent is None
                &&& rows[selected_positions(rows, c)[i]].block matches Some(height) && height
                    <= c.anchor_height
            },
{
    lemma_selection_members(rows, rows.len() as int, c);
    assert forall|i: int|
        #![trigger selected_positions(rows, c)[i]]
        0 <= i < selected_positions(rows, c).len() implies 0 <= selected_positions(rows, c)[i]
        < rows.len() && eligible(rows[selected_positions(rows, c)[i]], c) by {
        assert(selected_positions(rows, c).contains(selected_positions(rows, c)[i]));
    }
}

/// Running totals never decrease.
pub proof fn lemma_so_far_grows(rows: Seq<ReceivedNote>, j: int, k: int, c: Criteria)
    requires
        no_negative_values(rows, c),
        0 <= j <= k <= rows.len(),
    ensures
        0 <= so_far(rows, j, c) <= so_far(rows, k, c),
    decreases k,
{
    if j < k {
        lemma_so_far_grows(rows, j, k - 1, c);
        assert(eligible(rows[k - 1], c) ==> rows[k - 1].value >= 0);
    } else if j > 0 {
        lemma_so_far_grows(rows, j - 1, k - 1, c);
        assert(eligible(rows[j - 1], c) ==> rows[j - 1].value >= 0);
    }
}

/// The oldest notes go first: no note is selected while an older one that may be spent is
/// passed over.
pub proof fn oldest_notes_go_first(rows: Seq<ReceivedNote>, c: Criteria, older: int, newer: int)
    requires
        no_negative_values(rows, c),
        0 <= older < newer < rows.len(),
        eligible(rows[older], c),
        selected(rows, newer, c),
    ensures
        selected(rows, older, c),
{
    lemma_so_far_grows(rows, older + 1, newer + 1, c);
}

/// As long as no note has reached a positive target, the running total is below it.
proof fn lemma_below_until_reached(rows: Seq<ReceivedNote>, k: int, c: Criteria)
    requires
        0 <= k <= rows.len(),
        c.target_value > 0,
        !reached(rows, k, c),
    ensures
        so_far(rows, k, c) < c.target_value,
    decreases k,
{
    if k > 0 {
        if eligible(rows[k - 1], c) {
        } else {
            assert(!reached(rows, k - 1, c));
            lemma_below_until_reached(rows, k - 1, c);
        }
    }
}

proof fn lemma_selected_value(rows: Seq<ReceivedNote>, k: int, c: Criteria)
    requires
        no_negative_values(rows, c),
        0 <= k <= rows.len(),
    ensures
        ({
            let picked = selection(rows, k, c);
            if reached(rows, k, c) {
                &&& picked.len() > 0
                &&& c.target_value <= value_at(rows, picked) <= so_far(rows, k, c)
                &&& c.target_value > 0 ==> value_at(rows, picked.drop_last()) < c.target_value
            } else {
                value_at(rows, picked) == so_far(rows, k, c)
            }
        }),
    decreases k,
{
    if k > 0 {
        lemma_selected_value(rows, k - 1, c);
        let note = rows[k - 1];
        let shorter = selection(rows, k - 1, c);
        let before = reached(rows, k - 1, c);
        assert(eligible(note, c) ==> note.value >= 0);
        if eligible(note, c) {
            if before {
                let j = choose|j: int|
                    0 <= j < k - 1 && eligible(#[trigger] rows[j], c) && so_far(rows, j + 1, c)
                        >= c.target_value;
                assert(reached(rows, k, c)) by {
                    assert(eligible(rows[j], c));
                }
                assert(!selected(rows, k - 1, c));
            } else {
                assert(selected(rows, k - 1, c));
                assert(shorter.push(k - 1).drop_last() =~= shorter);
                assert(value_at(rows, selection(rows, k, c)) == so_far(rows, k, c));
                if so_far(rows, k, c) >= c.target_value {
                    assert(reached(rows, k, c));
                    if c.target_value > 0 {
                        lemma_below_until_reached(rows, k - 1, c);
                    }
                } else if reached(rows, k, c) {
                    let j = choose|j: int|
                        0 <= j < k && eligible(#[trigger] rows[j], c) && so_far(rows, j + 1, c)
                            >= c.target_value;
                    assert(j < k - 1);
                    assert(reached(rows, k - 1, c));
                }
            }
        } else {
            if before {
                let j = choose|j: int|
                    0 <= j < k - 1 && eligible(#[trigger] rows[j], c) && so_far(rows, j + 1, c)
                        >= c.target_value;
                assert(eligible(rows[j], c) && 0 <= j < k);
            } else if reached(rows, k, c) {
                let j = choose|j: int|
                    0 <= j < k && eligible(#[trigger] rows[j], c) && so_far(rows, j + 1, c)
                        >= c.target_value;
                assert(j < k - 1);
            }
        }
    }
}

/// The selected notes reach the target whenever the spendable notes do, and then none of
/// them is superfluous: without the newest they fall short. Where the spendable notes fall
/// short, all of them are selected.
pub proof fn selection_reaches_the_target(rows: Seq<ReceivedNote>, c: Criteria)
    requires
        no_negative_values(rows, c),
    ensures
        ({
            let picked = selected_positions(rows, c);
            &&& spendable(rows, c) >= c.target_value ==> {
                &&& value_at(rows, picked) >= c.target_value
                &&& c.target_value > 0 ==> {
                    &&& picked.len() > 0
                    &&& value_at(rows, picked.drop_last()) < c.target_value
                }
            }
            &&& spendable(rows, c) < c.target_value ==> {
                &&& value_at(rows, picked) == spendable(rows, c)
                &&& forall|j: int|
                    0 <= j < rows.len() && eligible(#[trigger] rows[j], c) ==> picked.contains(j)
            }
        }),
{
    let n = rows.len() as int;
    lemma_selected_value(rows, n, c);
    lemma_selection_members(rows, n, c);
    if spendable(rows, c) < c.target_value {
        if reached(rows, n, c) {
            let j = choose|j: int|
                0 <= j < n && eligible(#[trigger] rows[j], c) && so_far(rows, j + 1, c)
                    >= c.target_value;
            lemma_so_far_grows(rows, j + 1, n, c);
        }
        assert forall|j: int|
            0 <= j < rows.len() && eligible(#[trigger] rows[j], c) implies selected_positions(
            rows,
            c,
        ).contains(j) by {
            lemma_so_far_grows(rows, j + 1, n, c);
            assert(selected(rows, j, c));
        }
    } else if c.target_value > 0 && !reached(rows, n, c) {
        lemma_below_until_reached(rows, n, c);
    }
}

/// A higher target keeps every note that a lower one selects.
pub proof fn higher_target_keeps_selection(
    rows: Seq<ReceivedNote>,
    lower: Criteria,
    higher: Criteria,
    k: int,
)
    requires
        0 <= k < rows.len(),
        lower.account == higher.account,
        lower.anchor_height == higher.anchor_height,
        lower.target_value <= higher.target_value,
        selected(rows, k, lower),
    ensures
        selected(rows, k, higher),
{
    lemma_same_totals(rows, lower, higher, k + 1);
    if reached(rows, k, higher) && so_far(rows, k + 1, higher) >= higher.target_value {
        let j = choose|j: int|
            0 <= j < k && eligible(#[trigger] rows[j], higher) && so_far(rows, j + 1, higher)
                >= higher.target_value;
        lemma_same_totals(rows, lower, higher, j + 1);
        assert(eligible(rows[j], lower));
        assert(reached(rows, k, lower));
    }
}

/// The running totals do not depend on the target.
proof fn lemma_same_totals(rows: Seq<ReceivedNote>, c: Criteria, d: Criteria, k: int)
    requires
        0 <= k <= rows.len(),
        c.account == d.account,
        c.anchor_height == d.anchor_height,
    ensures
        so_far(rows, k, c) == so_far(rows, k, d),
    decreases k,
{
    if k > 0 {
        lemma_same_totals(rows, c, d, k - 1);
    }
}

/// Each selected note has exactly one witness at the anchor.
pub open spec fn witnessed(rows: Seq<ReceivedNote>, ws: Seq<NoteWitness>, c: Criteria) -> bool {
    forall|k: int|
        0 <= k < rows.len() && #[trigger] selected(rows, k, c) ==> matching(
            ws,
            ws.len() as int,
            rows[k].id_note,
            c.anchor_height,
        ).len() == 1
}

/// Each selected note can be recovered from its row and its witness.
pub open spec fn recoverable(
    extfvk: ExtendedFullViewingKey,
    rows: Seq<ReceivedNote>,
    ws: Seq<NoteWitness>,
    c: Criteria,
) -> bool {
    forall|k: int, w: int|
        #![trigger row_outcome(extfvk, rows[k], ws[w])]
        0 <= k < rows.len() && 0 <= w < ws.len() && selected(rows, k, c) && witnesses(
            ws[w],
            rows[k].id_note,
            c.anchor_height,
        ) ==> row_outcome(extfvk, rows[k], ws[w]) is Row
}

/// The positions found are those of witnesses.
proof fn lemma_matching_members(ws: Seq<NoteWitness>, m: int, id: i64, height: i64)
    requires
        0 <= m <= ws.len(),
    ensures
        forall|i: int|
            #![trigger matching(ws, m, id, height)[i]]
            0 <= i < matching(ws, m, id, height).len() ==> {
                &&& 0 <= matching(ws, m, id, height)[i] < m
                &&& witnesses(ws[matching(ws, m, id, height)[i]], id, height)
            },
    decreases m,
{
    if m > 0 {
        lemma_matching_members(ws, m - 1, id, height);
        let shorter = matching(ws, m - 1, id, height);
        let longer = matching(ws, m, id, height);
        assert forall|i: int|
            #![trigger longer[i]]
            0 <= i < longer.len() implies 0 <= longer[i] < m && witnesses(
            ws[longer[i]],
            id,
            height,
        ) by {
            if i < shorter.len() {
                assert(longer[i] == shorter[i]);
            }
        }
    }
}

proof fn lemma_joined_pairs(
    rows: Seq<ReceivedNote>,
    picked: Seq<int>,
    ws: Seq<NoteWitness>,
    height: i64,
)
    requires
        forall|i: int|
            #![trigger picked[i]]
            0 <= i < picked.len() ==> matching(
                ws,
                ws.len() as int,
                rows[picked[i]].id_note,
                height,
            ).len() == 1,
    ensures
        joined(rows, picked, ws, height).len() == picked.len(),
        forall|i: int|
            #![trigger joined(rows, picked, ws, height)[i]]
            0 <= i < picked.len() ==> {
                &&& joined(rows, picked, ws, height)[i].0 == picked[i]
                &&& 0 <= joined(rows, picked, ws, height)[i].1 < ws.len()
                &&& witnesses(
                    ws[joined(rows, picked, ws, height)[i].1],
                    rows[picked[i]].id_note,
                    height,
                )
            },
    decreases picked.len(),
{
    if picked.len() > 0 {
        let front = picked.drop_last();
        let id = rows[picked.last()].id_note;
        assert forall|i: int| #![trigger front[i]] 0 <= i < front.len() implies matching(
            ws,
            ws.len() as int,
            rows[front[i]].id_note,
            height,
        ).len() == 1 by {
            assert(front[i] == picked[i]);
        }
        lemma_joined_pairs(rows, front, ws, height);
        lemma_matching_members(ws, ws.len() as int, id, height);
        let found = matching(ws, ws.len() as int, id, height);
        let shorter = joined(rows, front, ws, height);
        let longer = joined(rows, picked, ws, height);
        assert(picked[picked.len() - 1] == picked.last());
        assert(longer =~= shorter.push((picked.last(), found[0]))) by {
            assert(pair_with(picked.last(), found) =~= seq![(picked.last(), found[0])]);
        }
        assert forall|i: int| #![trigger longer[i]] 0 <= i < picked.len() implies longer[i].0
            == picked[i] && 0 <= longer[i].1 < ws.len() && witnesses(
            ws[longer[i].1],
            rows[picked[i]].id_note,
            height,
        ) by {
            if i < front.len() {
                assert(longer[i] == shorter[i]);
                assert(front[i] == picked[i]);
            }
        }
    }
}

/// Where each selected note has one witness at the anchor, the payment is funded by exactly
/// the selected notes, each with its own witness.
pub proof fn funding_is_the_selection(rows: Seq<ReceivedNote>, ws: Seq<NoteWitness>, c: Criteria)
    requires
        witnessed(rows, ws, c),
    ensures
        funding(rows, ws, c).len() == selected_positions(rows, c).len(),
        forall|i: int|
            #![trigger funding(rows, ws, c)[i]]
            0 <= i < funding(rows, ws, c).len() ==> {
                &&& funding(rows, ws, c)[i].0 == selected_positions(rows, c)[i]
                &&& 0 <= funding(rows, ws, c)[i].0 < rows.len()
                &&& selected(rows, funding(rows, ws, c)[i].0, c)
                &&& 0 <= funding(rows, ws, c)[i].1 < ws.len()
                &&& witnesses(
                    ws[funding(rows, ws, c)[i].1],
                    rows[funding(rows, ws, c)[i].0].id_note,
                    c.anchor_height,
                )
            },
{
    let picked = selected_positions(rows, c);
    lemma_selection_members(rows, rows.len() as int, c);
    assert forall|i: int| #![trigger picked[i]] 0 <= i < picked.len() implies 0 <= picked[i]
        < rows.len() && selected(rows, picked[i], c) && matching(
        ws,
        ws.len() as int,
        rows[picked[i]].id_note,
        c.anchor_height,
    ).len() == 1 by {
        assert(picked.contains(picked[i]));
    }
    lemma_joined_pairs(rows, picked, ws, c.anchor_height);
}

proof fn lemma_gather_rows(outcomes: Seq<RowOutcome>)
    requires
        forall|i: int| 0 <= i < outcomes.len() ==> (#[trigger] outcomes[i]) is Row,
    ensures
        gather(outcomes) matches Ok(views) && views.len() == outcomes.len() && forall|i: int|
            #![trigger views[i]]
            0 <= i < views.len() ==> outcomes[i] == RowOutcome::Row(views[i]),
    decreases outcomes.len(),
{
    if outcomes.len() > 0 {
        let front = outcomes.drop_last();
        assert forall|i: int| 0 <= i < front.len() implies (#[trigger] front[i]) is Row by {
            assert(front[i] == outcomes[i]);
        }
        lemma_gather_rows(front);
        assert(outcomes[outcomes.len() - 1] is Row);
    }
}

proof fn lemma_total_is_value(
    rows: Seq<ReceivedNote>,
    picked: Seq<int>,
    views: Seq<SelectedNoteView>,
)
    requires
        views.len() == picked.len(),
        forall|i: int|
            0 <= i < views.len() ==> (#[trigger] views[i]).value == rows[picked[i]].value,
    ensures
        total(note_values(views)) == value_at(rows, picked),
    decreases views.len(),
{
    if views.len() > 0 {
        let front = views.drop_last();
        assert forall|i: int| 0 <= i < front.len() implies (#[trigger] front[i]).value
            == rows[picked.drop_last()[i]].value by {
            assert(front[i] == views[i]);
        }
        lemma_total_is_value(rows, picked.drop_last(), front);
        assert(note_values(views).drop_last() =~= note_values(front));
        assert(views[views.len() - 1] == views.last());
    }
}

/// A payment is covered exactly where the spendable notes are: the notes found for it come
/// to at least the target where those do, and where they do not, to what they hold, which
/// is the balance that the refusal states.
pub proof fn covered_exactly_by_spendable_notes(
    extfvk: ExtendedFullViewingKey,
    rows: Seq<ReceivedNote>,
    ws: Seq<NoteWitness>,
    c: Criteria,
)
    requires
        no_negative_values(rows, c),
        !total_overflows(rows, c),
        witnessed(rows, ws, c),
        recoverable(extfvk, rows, ws, c),
        c.target_value >= 0,
    ensures
        gather(row_outcomes(extfvk, rows, ws, funding(rows, ws, c))) matches Ok(views) && {
            let have = total(note_values(views));
            let need = as_unsigned(c.target_value);
            &&& have <= u64::MAX
            &&& have == value_at(rows, selected_positions(rows, c))
            &&& have < need <==> spendable(rows, c) < need
            &&& have < need ==> have == spendable(rows, c)
        },
{
    let picked = selected_positions(rows, c);
    let pairs = funding(rows, ws, c);
    let outcomes = row_outcomes(extfvk, rows, ws, pairs);
    funding_is_the_selection(rows, ws, c);
    assert forall|i: int| 0 <= i < outcomes.len() implies (#[trigger] outcomes[i]) is Row by {
        assert(outcomes[i] == row_outcome(extfvk, rows[pairs[i].0], ws[pairs[i].1]));
    }
    lemma_gather_rows(outcomes);
    let views = gather(outcomes)->Ok_0;
    assert forall|i: int| 0 <= i < views.len() implies (#[trigger] views[i]).value
        == rows[picked[i]].value by {
        assert(outcomes[i] == row_outcome(extfvk, rows[pairs[i].0], ws[pairs[i].1]));
        assert(eligible(rows[pairs[i].0], c));
    }
    lemma_total_is_value(rows, picked, views);
    selection_reaches_the_target(rows, c);
    lemma_selected_value(rows, rows.len() as int, c);
    assert(i64::MIN <= so_far(rows, rows.len() as int, c) <= i64::MAX);
}

/// Where all notes could be added, the transaction spends each of them, with the path that
/// its own witness gives and under the payer's key, all anchored in the same tree; and it
/// holds nothing else.
pub proof fn every_note_is_spent(
    network: Network,
    height: u32,
    extsk: ExtendedSpendingKey,
    notes: Seq<SelectedNoteView>,
    b: BuilderView,
)
    requires
        spend_outcomes(empty_builder(network, height), extsk, notes) == SpendOutcome::Added(b),
    ensures
        b.network == network,
        b.target_height == height,
        b.outputs.len() == 0,
        b.transparent_outputs.len() == 0,
        b.spends.len() == notes.len(),
        forall|i: int|
            #![trigger b.spends[i]]
            0 <= i < notes.len() ==> {
                &&& witness_path(notes[i].witness) == Some(b.spends[i].path)
                &&& b.spends[i].extsk == extsk
                &&& b.spends[i].note == notes[i].note
                &&& path_root(b.spends[i].note, b.spends[i].path) == b.anchor
            },
    decreases notes.len(),
{
    if notes.len() > 0 {
        let front = notes.drop_last();
        let before = spend_outcomes(empty_builder(network, height), extsk, front)->Added_0;
        every_note_is_spent(network, height, extsk, front, before);
        assert(anchor_agrees(before, notes.last().note, witness_path(notes.last().witness)->0));
        assert forall|i: int|
            #![trigger b.spends[i]]
            0 <= i < notes.len() implies witness_path(notes[i].witness) == Some(b.spends[i].path)
            && b.spends[i].extsk == extsk && b.spends[i].note == notes[i].note && path_root(
            b.spends[i].note,
            b.spends[i].path,
        ) == b.anchor by {
            if i < before.spends.len() {
                assert(b.spends[i] == before.spends[i]);
                assert(front[i] == notes[i]);
            }
        }
    }
}

/// The transaction built for a payment pays the recipient exactly the value, with the memo
/// where there is one, leaves exactly the fee, and returns the rest to the address that
/// received the oldest note spent.
pub proof fn transaction_pays_the_recipient(payment: Payment, b: BuilderView, tx: Transaction)
    requires
        payment.value >= 0,
        0 <= change(payment, b.spends) <= i64::MAX,
        pays(tx, paying(payment, b)),
    ensures
        match *payment.to {
            RecipientAddress::Shielded(to) => {
                &&& tx_transparent_outputs(tx).len() == 0
                &&& tx_value_balance(tx) == DEFAULT_FEE
                &&& exists|index: usize|
                    #[trigger] recovered_output(
                        tx,
                        index,
                        b.network,
                        b.target_height,
                        payment.extfvk(),
                    ) == Some(
                        (
                            to,
                            payment.value as u64,
                            match memo_view(payment.memo) {
                                Some(bytes) => bytes,
                                None => empty_memo(),
                            },
                        ),
                    )
            },
            RecipientAddress::Transparent(to) => {
                &&& tx_transparent_outputs(tx) == seq![(to, payment.value)]
                &&& tx_value_balance(tx) == DEFAULT_FEE + payment.value
            },
        },
        change(payment, b.spends) > 0 ==> exists|index: usize|
            #[trigger] recovered_output(
                tx,
                index,
                b.network,
                b.target_height,
                payment.extfvk(),
            ) == Some(
                (
                    note_recipient(b.spends[0].note),
                    change(payment, b.spends) as u64,
                    empty_memo(),
                ),
            ),
{
    let given = paying(payment, b);
    let outputs = given.outputs;
    if let RecipientAddress::Shielded(to) = *payment.to {
        assert(outputs[0].to == to);
        let index = choose|index: usize| #[trigger] recovers(tx, index, given, 0);
        assert(recovers(tx, index, given, 0));
    } else {
        let transparent = given.transparent_outputs;
        assert(transparent.drop_last().len() == 0);
        assert(transparent_value(transparent.drop_last()) == 0);
    }
    if change(payment, b.spends) > 0 {
        let last = outputs.len() - 1;
        assert(outputs[last].value == change(payment, b.spends));
        let index = choose|index: usize| #[trigger] recovers(tx, index, given, last);
        assert(recovers(tx, index, given, last));
    }
}

/// Where all notes could be added, the transaction spends what they hold.
pub proof fn lemma_spent_value_is_total(
    network: Network,
    height: u32,
    extsk: ExtendedSpendingKey,
    notes: Seq<SelectedNoteView>,
    b: BuilderView,
)
    requires
        spend_outcomes(empty_builder(network, height), extsk, notes) == SpendOutcome::Added(b),
        have_their_values(notes),
    ensures
        spent_value(b.spends) == total(note_values(notes)),
    decreases notes.len(),
{
    if notes.len() > 0 {
        let front = notes.drop_last();
        let before = spend_outcomes(empty_builder(network, height), extsk, front)->Added_0;
        assert forall|i: int| #![trigger front[i]] 0 <= i < front.len() implies note_value(
            front[i].note,
        ) == front[i].value by {
            assert(front[i] == notes[i]);
        }
        lemma_spent_value_is_total(network, height, extsk, front, before);
        assert(note_values(notes).drop_last() =~= note_values(front));
        assert(b.spends.drop_last() =~= before.spends);
        assert(notes[notes.len() - 1] == notes.last());
    }
}

/// The change returns to the account that pays: what the notes hold beyond the value and the
/// fee goes to the address that the account's viewing key has for the diversifier of the
/// oldest note that funds the payment.
pub proof fn change_returns_to_the_account(
    payment: Payment,
    height: u32,
    rows: Seq<ReceivedNote>,
    ws: Seq<NoteWitness>,
    c: Criteria,
    notes: Seq<SelectedNoteView>,
    b: BuilderView,
    tx: Transaction,
)
    requires
        payment.value >= 0,
        all_received(payment.extfvk(), rows, funding(rows, ws, c), notes),
        spend_outcomes(empty_builder(payment.network, height), *payment.extsk, notes)
            == SpendOutcome::Added(b),
        0 < change(payment, b.spends) <= i64::MAX,
        pays(tx, paying(payment, b)),
    ensures
        ({
            let oldest = rows[funding(rows, ws, c)[0].0];
            &&& eligible(oldest, c)
            &&& diversified_address(payment.extfvk(), oldest.diversifier@) matches Some(own)
                && exists|index: usize|
                #[trigger] recovered_output(tx, index, b.network, b.target_height, payment.extfvk())
                    == Some(
                    (
                        own,
                        (total(note_values(notes)) - payment.value - DEFAULT_FEE) as u64,
                        empty_memo(),
                    ),
                )
        }),
{
    let pairs = funding(rows, ws, c);
    lemma_spent_value_is_total(payment.network, height, *payment.extsk, notes, b);
    every_note_is_spent(payment.network, height, *payment.extsk, notes, b);
    transaction_pays_the_recipient(payment, b, tx);
    assert(notes.len() > 0) by {
        if notes.len() == 0 {
            assert(spent_value(b.spends) == 0);
        }
    }
    lemma_joined_members(rows, selected_positions(rows, c), ws, c.anchor_height);
    lemma_selection_members(rows, rows.len() as int, c);
    assert(selected_positions(rows, c).contains(pairs[0].0));
    assert(b.spends[0].note == notes[0].note);
}

/// Everything that storing a payment's transaction asks of the database, in order.
pub open spec fn all_statements(
    payment: Payment,
    tx: Transaction,
    raw: Seq<u8>,
    output_index: usize,
    id_tx: i64,
) -> Seq<StatementView> {
    opening_statements(tx, raw) + closing_statements(payment, tx, output_index, id_tx)
}

/// A transaction is stored atomically: the first statement opens a database transaction,
/// the last one commits it, and none in between does either. The transaction's row comes
/// first; after it every nullifier that the transaction reveals is marked as spent by that
/// row, and nothing else is; and the sent note refers to the same row and names the paying
/// account, the recipient, the value and the memo.
pub proof fn stored_atomically(
    payment: Payment,
    tx: Transaction,
    raw: Seq<u8>,
    output_index: usize,
    id_tx: i64,
)
    ensures
        ({
            let st = all_statements(payment, tx, raw, output_index, id_tx);
            let n = tx_nullifiers(tx).len() as int;
            &&& st.len() == n + 4
            &&& st[0] is Begin
            &&& st[1] == (StatementView::InsertTransaction {
                txid: tx_id(tx),
                expiry_height: tx_expiry(tx),
                raw,
            })
            &&& forall|i: int|
                #![trigger st[i + 2]]
                0 <= i < n ==> st[i + 2] == (StatementView::MarkSpent {
                    nf: tx_nullifiers(tx)[i],
                    spent: id_tx,
                })
            &&& st[n + 2] == (StatementView::InsertSentNote {
                tx: id_tx,
                output_index: output_index as i64,
                from_account: payment.account,
                address: match *payment.to {
                    RecipientAddress::Shielded(to) => encoded_shielded(payment.network, to),
                    RecipientAddress::Transparent(to) => encoded_transparent(payment.network, to),
                },
                value: payment.value,
                memo: match payment.memo {
                    Some(bytes) => Some(bytes@),
                    None => None,
                },
            })
            &&& st[n + 3] is Commit
        }),
{
    let st = all_statements(payment, tx, raw, output_index, id_tx);
    let n = tx_nullifiers(tx).len() as int;
    let closing = closing_statements(payment, tx, output_index, id_tx);
    assert(st.len() == n + 4);
    assert(st[n + 2] == closing[n]);
    assert(st[n + 3] == closing[n + 1]);
    assert forall|i: int| #![trigger st[i + 2]] 0 <= i < n implies st[i + 2] == (
    StatementView::MarkSpent { nf: tx_nullifiers(tx)[i], spent: id_tx }) by {
        assert(st[i + 2] == closing[i]);
        assert(closing[i] == marks(tx_nullifiers(tx), id_tx)[i]);
    }
}

/// Marking notes inserts no transaction.
proof fn lemma_marks_insert_nothing(
    rows: Seq<StoredTransaction>,
    nullifiers: Seq<Seq<u8>>,
    id_tx: i64,
)
    ensures
        transactions_after(rows, marks(nullifiers, id_tx)) == rows,
    decreases nullifiers.len(),
{
    if nullifiers.len() > 0 {
        lemma_marks_insert_nothing(rows, nullifiers.drop_last(), id_tx);
        assert(marks(nullifiers, id_tx).drop_last() =~= marks(nullifiers.drop_last(), id_tx));
    }
}

proof fn lemma_transactions_after_append(
    rows: Seq<StoredTransaction>,
    s: Seq<StatementView>,
    t: Seq<StatementView>,
)
    ensures
        transactions_after(rows, s + t) == transactions_after(transactions_after(rows, s), t),
    decreases t.len(),
{
    if t.len() == 0 {
        assert(s + t =~= s);
    } else {
        assert((s + t).drop_last() =~= s + t.drop_last());
        lemma_transactions_after_append(rows, s, t.drop_last());
    }
}

/// Storing a transaction adds its row, with the raw bytes to broadcast, and leaves the rows
/// of all earlier transactions as they are.
pub proof fn storing_keeps_earlier_transactions(
    rows: Seq<StoredTransaction>,
    payment: Payment,
    tx: Transaction,
    raw: Seq<u8>,
    output_index: usize,
    id_tx: i64,
)
    ensures
        transactions_after(rows, all_statements(payment, tx, raw, output_index, id_tx))
            == rows.push(
            StoredTransaction { txid: tx_id(tx), expiry_height: tx_expiry(tx), raw },
        ),
{
    let opening = opening_statements(tx, raw);
    let closing = closing_statements(payment, tx, output_index, id_tx);
    let first = seq![StatementView::Begin];
    lemma_transactions_after_append(rows, opening, closing);
    assert(first.drop_last() =~= Seq::<StatementView>::empty());
    assert(transactions_after(rows, first.drop_last()) == rows);
    assert(transactions_after(rows, first) == rows);
    assert(opening.drop_last() =~= first);
    let stored = rows.push(
        StoredTransaction { txid: tx_id(tx), expiry_height: tx_expiry(tx), raw },
    );
    assert(transactions_after(rows, opening) == stored);
    lemma_marks_insert_nothing(stored, tx_nullifiers(tx), id_tx);
    assert(closing.drop_last().drop_last() =~= marks(tx_nullifiers(tx), id_tx));
    assert(transactions_after(stored, closing.drop_last()) == stored);
}

/// What storing a transaction makes of a received note: one whose nullifier it reveals is
/// marked as spent by it, any other stays as it is.
pub open spec fn locked_by(note: ReceivedNote, tx: Transaction, id_tx: i64) -> ReceivedNote {
    if tx_nullifiers(tx).contains(note.nf@) {
        ReceivedNote { spent: Some(id_tx), ..note }
    } else {
        note
    }
}

proof fn lemma_notes_after_append(
    rows: Seq<ReceivedNote>,
    s: Seq<StatementView>,
    t: Seq<StatementView>,
)
    ensures
        notes_after(rows, s + t) == notes_after(notes_after(rows, s), t),
    decreases t.len(),
{
    if t.len() == 0 {
        assert(s + t =~= s);
    } else {
        assert((s + t).drop_last() =~= s + t.drop_last());
        lemma_notes_after_append(rows, s, t.drop_last());
    }
}

proof fn lemma_marks_lock(rows: Seq<ReceivedNote>, nullifiers: Seq<Seq<u8>>, id_tx: i64)
    ensures
        notes_after(rows, marks(nullifiers, id_tx)).len() == rows.len(),
        forall|i: int|
            #![trigger notes_after(rows, marks(nullifiers, id_tx))[i]]
            0 <= i < rows.len() ==> notes_after(rows, marks(nullifiers, id_tx))[i]
                == if nullifiers.contains(rows[i].nf@) {
                ReceivedNote { spent: Some(id_tx), ..rows[i] }
            } else {
                rows[i]
            },
    decreases nullifiers.len(),
{
    if nullifiers.len() > 0 {
        let front = nullifiers.drop_last();
        lemma_marks_lock(rows, front, id_tx);
        assert(marks(nullifiers, id_tx).drop_last() =~= marks(front, id_tx));
        let before = notes_after(rows, marks(front, id_tx));
        let after = notes_after(rows, marks(nullifiers, id_tx));
        assert forall|i: int| #![trigger after[i]] 0 <= i < rows.len() implies after[i]
            == if nullifiers.contains(rows[i].nf@) {
            ReceivedNote { spent: Some(id_tx), ..rows[i] }
        } else {
            rows[i]
        } by {
            let nf = rows[i].nf@;
            assert(after[i] == note_after(before[i], marks(nullifiers, id_tx).last()));
            assert(nullifiers.contains(nf) == (front.contains(nf) || nullifiers.last() == nf)) by {
                if front.contains(nf) {
                    let j = front.index_of(nf);
                    assert(nullifiers[j] == nf);
                }
                if nullifiers.contains(nf) {
                    let j = nullifiers.index_of(nf);
                    if j < front.len() {
                        assert(front[j] == nf);
                    }
                }
                assert(nullifiers[nullifiers.len() - 1] == nullifiers.last());
            }
        }
    }
}

/// Storing a transaction locks exactly the received notes whose nullifiers it reveals.
pub proof fn storing_locks_the_notes(
    rows: Seq<ReceivedNote>,
    payment: Payment,
    tx: Transaction,
    raw: Seq<u8>,
    output_index: usize,
    id_tx: i64,
)
    ensures
        notes_after(
            rows,
            all_statements(payment, tx, raw, output_index, id_tx),
        ) == rows.map_values(|n: ReceivedNote| locked_by(n, tx, id_tx)),
{
    let opening = opening_statements(tx, raw);
    let closing = closing_statements(payment, tx, output_index, id_tx);
    let marked = marks(tx_nullifiers(tx), id_tx);
    let locked = rows.map_values(|n: ReceivedNote| locked_by(n, tx, id_tx));
    lemma_notes_after_append(rows, opening, closing);
    assert(notes_after(rows, opening) == rows) by {
        let first = seq![StatementView::Begin];
        assert(first.drop_last() =~= Seq::<StatementView>::empty());
        assert(notes_after(rows, first.drop_last()) == rows);
        assert(notes_after(rows, first) =~= rows);
        assert(opening.drop_last() =~= first);
        assert(notes_after(rows, opening) =~= rows);
    }
    lemma_marks_lock(rows, tx_nullifiers(tx), id_tx);
    assert(notes_after(rows, marked) =~= locked);
    assert(closing.drop_last().drop_last() =~= marked);
    assert(notes_after(rows, closing.drop_last()) =~= locked);
    assert(notes_after(rows, closing) =~= locked);
}

/// A payment never selects notes that a stored transaction has locked.
pub proof fn locked_notes_are_not_selected(
    rows: Seq<ReceivedNote>,
    tx: Transaction,
    id_tx: i64,
    c: Criteria,
    k: int,
)
    requires
        0 <= k < rows.len(),
        tx_nullifiers(tx).contains(rows[k].nf@),
    ensures
        !selected_positions(
            rows.map_values(|n: ReceivedNote| locked_by(n, tx, id_tx)),
            c,
        ).contains(k),
{
    let after = rows.map_values(|n: ReceivedNote| locked_by(n, tx, id_tx));
    lemma_selection_members(after, after.len() as int, c);
    assert(after[k].spent is Some);
}

/// A note that one payment has spent is not selected for the next: the received note whose
/// nullifier is that of some spend of a transaction is locked once the transaction has been
/// stored.
pub proof fn no_note_is_spent_twice(
    rows: Seq<ReceivedNote>,
    spends: Seq<SpendView>,
    tx: Transaction,
    id_tx: i64,
    c: Criteria,
    s: int,
    k: int,
)
    requires
        tx_nullifiers(tx).to_multiset() == spend_nullifiers(spends).to_multiset(),
        0 <= s < spends.len(),
        0 <= k < rows.len(),
        rows[k].nf@ == spend_nullifier(spends[s].extsk, spends[s].note, spends[s].path),
    ensures
        !selected_positions(
            rows.map_values(|n: ReceivedNote| locked_by(n, tx, id_tx)),
            c,
        ).contains(k),
{
    broadcast use vstd::seq_lib::group_to_multiset_ensures;

    let nf = rows[k].nf@;
    assert(spend_nullifiers(spends)[s] == nf);
    assert(spend_nullifiers(spends).to_multiset().contains(nf));
    assert(tx_nullifiers(tx).contains(nf));
    locked_notes_are_not_selected(rows, tx, id_tx, c, k);
}

/// Every funding note is a selected one.
proof fn lemma_joined_members(
    rows: Seq<ReceivedNote>,
    picked: Seq<int>,
    ws: Seq<NoteWitness>,
    height: i64,
)
    ensures
        forall|i: int|
            #![trigger joined(rows, picked, ws, height)[i]]
            0 <= i < joined(rows, picked, ws, height).len() ==> picked.contains(
                joined(rows, picked, ws, height)[i].0,
            ),
    decreases picked.len(),
{
    if picked.len() > 0 {
        let front = picked.drop_last();
        lemma_joined_members(rows, front, ws, height);
        let shorter = joined(rows, front, ws, height);
        let longer = joined(rows, picked, ws, height);
        assert forall|i: int| #![trigger longer[i]] 0 <= i < longer.len() implies picked.contains(
            longer[i].0,
        ) by {
            if i < shorter.len() {
                assert(longer[i] == shorter[i]);
                let j = front.index_of(shorter[i].0);
                assert(picked[j] == longer[i].0);
            } else {
                assert(picked[picked.len() - 1] == longer[i].0);
            }
        }
    }
}

proof fn lemma_gather_length(outcomes: Seq<RowOutcome>)
    ensures
        gather(outcomes) matches Ok(views) ==> views.len() == outcomes.len(),
    decreases outcomes.len(),
{
    if outcomes.len() > 0 {
        lemma_gather_length(outcomes.drop_last());
    }
}

/// A payment locks the notes it was funded with: once its transaction has been stored, no
/// later payment selects them, whatever it asks for. The stored nullifier of each note has
/// to be the one that spending the note reveals.
pub proof fn payment_locks_its_notes(
    payment: Payment,
    height: u32,
    rows: Seq<ReceivedNote>,
    ws: Seq<NoteWitness>,
    c: Criteria,
    notes: Seq<SelectedNoteView>,
    b: BuilderView,
    tx: Transaction,
    id_tx: i64,
    later: Criteria,
    i: int,
)
    requires
        gather(row_outcomes(payment.extfvk(), rows, ws, funding(rows, ws, c))) == Ok::<
            Seq<SelectedNoteView>,
            RowOutcome,
        >(notes),
        spend_outcomes(empty_builder(payment.network, height), *payment.extsk, notes)
            == SpendOutcome::Added(b),
        tx_nullifiers(tx).to_multiset() == spend_nullifiers(b.spends).to_multiset(),
        0 <= i < notes.len(),
        witness_path(notes[i].witness) matches Some(path) ==> rows[funding(
            rows,
            ws,
            c,
        )[i].0].nf@ == spend_nullifier(*payment.extsk, notes[i].note, path),
    ensures
        0 <= funding(rows, ws, c)[i].0 < rows.len(),
        !selected_positions(
            rows.map_values(|n: ReceivedNote| locked_by(n, tx, id_tx)),
            later,
        ).contains(funding(rows, ws, c)[i].0),
{
    let pairs = funding(rows, ws, c);
    let k = pairs[i].0;
    lemma_gather_length(row_outcomes(payment.extfvk(), rows, ws, pairs));
    lemma_joined_members(rows, selected_positions(rows, c), ws, c.anchor_height);
    lemma_selection_members(rows, rows.len() as int, c);
    assert(selected_positions(rows, c).contains(k));
    every_note_is_spent(payment.network, height, *payment.extsk, notes, b);
    assert(b.spends[i].note == notes[i].note);
    no_note_is_spent_twice(rows, b.spends, tx, id_tx, later, i, k);
}

/// The stored nullifier of each note that funds a payment is the one that spending the note
/// reveals.
pub open spec fn nullifiers_are_right(
    payment: Payment,
    rows: Seq<ReceivedNote>,
    pairs: Seq<(int, int)>,
    notes: Seq<SelectedNoteView>,
) -> bool {
    forall|i: int|
        #![trigger pairs[i]]
        0 <= i < notes.len() ==> (witness_path(notes[i].witness) matches Some(path)
            ==> rows[pairs[i].0].nf@ == spend_nullifier(*payment.extsk, notes[i].note, path))
}

/// No note is marked as spent by the transaction in row `id_tx`.
pub open spec fn none_spent_by(rows: Seq<ReceivedNote>, id_tx: i64) -> bool {
    forall|i: int| 0 <= i < rows.len() ==> (#[trigger] rows[i]).spent != Some(id_tx)
}

/// No double spend: of two payments, of which the second starts once the transaction of the
/// first has been stored, no nullifier is revealed by both transactions, and storing the
/// second leaves every note marked as spent by the first as it is, where the row of the first
/// is a new one. The stored nullifiers of the notes that fund the second payment have to be
/// those that spending them reveals.
///
/// `rows` are the received notes before the transaction `first` is stored as row `a`, and
/// `between` those after it; the second payment asks for `c`, is funded with `notes`, and
/// has its transaction `second` stored as row `b`.
pub proof fn no_double_spend(
    rows: Seq<ReceivedNote>,
    first: Transaction,
    a: i64,
    between: Seq<ReceivedNote>,
    payment: Payment,
    height: u32,
    ws: Seq<NoteWitness>,
    c: Criteria,
    notes: Seq<SelectedNoteView>,
    built: BuilderView,
    second: Transaction,
    b: i64,
)
    requires
        between == rows.map_values(|n: ReceivedNote| locked_by(n, first, a)),
        gather(row_outcomes(payment.extfvk(), between, ws, funding(between, ws, c))) == Ok::<
            Seq<SelectedNoteView>,
            RowOutcome,
        >(notes),
        nullifiers_are_right(payment, between, funding(between, ws, c), notes),
        spend_outcomes(empty_builder(payment.network, height), *payment.extsk, notes)
            == SpendOutcome::Added(built),
        tx_nullifiers(second).to_multiset() == spend_nullifiers(built.spends).to_multiset(),
    ensures
        forall|nf: Seq<u8>|
            !(#[trigger] tx_nullifiers(first).contains(nf) && tx_nullifiers(second).contains(nf)),
        none_spent_by(rows, a) ==> forall|k: int|
            #![trigger between[k]]
            0 <= k < between.len() && between[k].spent == Some(a) ==> locked_by(
                between[k],
                second,
                b,
            ) == between[k],
{
    let pairs = funding(between, ws, c);
    lemma_gather_length(row_outcomes(payment.extfvk(), between, ws, pairs));
    lemma_joined_members(between, selected_positions(between, c), ws, c.anchor_height);
    lemma_selection_members(between, between.len() as int, c);
    every_note_is_spent(payment.network, height, *payment.extsk, notes, built);
    assert forall|nf: Seq<u8>| #[trigger] tx_nullifiers(second).contains(nf) implies exists|k: int|
        0 <= k < between.len() && (#[trigger] between[k]).nf@ == nf && between[k].spent is None by {
        broadcast use vstd::seq_lib::group_to_multiset_ensures;

        assert(tx_nullifiers(second).to_multiset().contains(nf));
        assert(spend_nullifiers(built.spends).contains(nf));
        let i = spend_nullifiers(built.spends).index_of(nf);
        assert(spend_nullifiers(built.spends)[i] == nf);
        assert(built.spends[i].note == notes[i].note);
        let k = pairs[i].0;
        assert(selected_positions(between, c).contains(k));
        assert(eligible(between[k], c));
        assert(between[k].nf@ == nf);
    }
    assert forall|nf: Seq<u8>|
        !(#[trigger] tx_nullifiers(first).contains(nf) && tx_nullifiers(second).contains(nf)) by {
        if tx_nullifiers(first).contains(nf) && tx_nullifiers(second).contains(nf) {
            let k = choose|k: int|
                0 <= k < between.len() && (#[trigger] between[k]).nf@ == nf
                    && between[k].spent is None;
            assert(between[k] == locked_by(rows[k], first, a));
        }
    }
    assert forall|k: int|
        #![trigger between[k]]
        none_spent_by(rows, a) && 0 <= k < between.len() && between[k].spent == Some(
            a,
        ) implies locked_by(
        between[k],
        second,
        b,
    ) == between[k] by {
        let nf = between[k].nf@;
        if tx_nullifiers(second).contains(nf) {
            let j = choose|j: int|
                0 <= j < between.len() && (#[trigger] between[j]).nf@ == nf
                    && between[j].spent is None;
            assert(between[j] == locked_by(rows[j], first, a));
            assert(between[k] == locked_by(rows[k], first, a));
        }
    }
}

/// Once every spendable note is locked, a payment finds no notes at all, and nothing is
/// left to spend.
pub proof fn nothing_left_when_all_is_locked(
    rows: Seq<ReceivedNote>,
    ws: Seq<NoteWitness>,
    tx: Transaction,
    id_tx: i64,
    c: Criteria,
)
    requires
        forall|k: int|
            0 <= k < rows.len() && eligible(#[trigger] rows[k], c) ==> tx_nullifiers(tx).contains(
                rows[k].nf@,
            ),
    ensures
        ({
            let after = rows.map_values(|n: ReceivedNote| locked_by(n, tx, id_tx));
            &&& spendable(after, c) == 0
            &&& !total_overflows(after, c)
            &&& funding(after, ws, c).len() == 0
        }),
{
    let after = rows.map_values(|n: ReceivedNote| locked_by(n, tx, id_tx));
    assert forall|k: int| 0 <= k < after.len() implies !eligible(#[trigger] after[k], c) by {
        assert(after[k] == locked_by(rows[k], tx, id_tx));
    }
    assert forall|k: int| 0 <= k <= after.len() implies #[trigger] so_far(after, k, c) == 0 by {
        lemma_nothing_so_far(after, k, c);
    }
    lemma_nothing_so_far(after, after.len() as int, c);
}

proof fn lemma_nothing_so_far(rows: Seq<ReceivedNote>, k: int, c: Criteria)
    requires
        0 <= k <= rows.len(),
        forall|i: int| 0 <= i < rows.len() ==> !eligible(#[trigger] rows[i], c),
    ensures
        so_far(rows, k, c) == 0,
        selection(rows, k, c).len() == 0,
    decreases k,
{
    if k > 0 {
        lemma_nothing_so_far(rows, k - 1, c);
        assert(!eligible(rows[k - 1], c));
    }
}

/// Notes that may not be spent have no bearing on the choice: replacing them by others that
/// may not be spent either leaves the selection as it is.
pub proof fn other_notes_do_not_matter(
    rows: Seq<ReceivedNote>,
    others: Seq<ReceivedNote>,
    c: Criteria,
)
    requires
        rows.len() == others.len(),
        forall|i: int|
            #![trigger rows[i]]
            #![trigger others[i]]
            0 <= i < rows.len() ==> rows[i] == others[i] || (!eligible(rows[i], c) && !eligible(
                others[i],
                c,
            )),
    ensures
        selected_positions(rows, c) == selected_positions(others, c),
        spendable(rows, c) == spendable(others, c),
{
    lemma_same_selection(rows, others, rows.len() as int, c);
}

proof fn lemma_same_selection(
    rows: Seq<ReceivedNote>,
    others: Seq<ReceivedNote>,
    k: int,
    c: Criteria,
)
    requires
        0 <= k <= rows.len(),
        rows.len() == others.len(),
        forall|i: int|
            #![trigger rows[i]]
            #![trigger others[i]]
            0 <= i < rows.len() ==> rows[i] == others[i] || (!eligible(rows[i], c) && !eligible(
                others[i],
                c,
            )),
    ensures
        so_far(rows, k, c) == so_far(others, k, c),
        selection(rows, k, c) == selection(others, k, c),
        reached(rows, k, c) == reached(others, k, c),
    decreases k,
{
    if k > 0 {
        lemma_same_selection(rows, others, k - 1, c);
        assert(eligible(rows[k - 1], c) == eligible(others[k - 1], c));
        lemma_reached_step(rows, k, c);
        lemma_reached_step(others, k, c);
    }
}

proof fn lemma_reached_step(rows: Seq<ReceivedNote>, k: int, c: Criteria)
    requires
        0 < k <= rows.len(),
    ensures
        reached(rows, k, c) == (reached(rows, k - 1, c) || (eligible(rows[k - 1], c) && so_far(
            rows,
            k,
            c,
        ) >= c.target_value)),
{
    if reached(rows, k, c) {
        let j = choose|j: int|
            0 <= j < k && eligible(#[trigger] rows[j], c) && so_far(rows, j + 1, c)
                >= c.target_value;
        if j < k - 1 {
            assert(reached(rows, k - 1, c));
        }
    }
    if reached(rows, k - 1, c) {
        let j = choose|j: int|
            0 <= j < k - 1 && eligible(#[trigger] rows[j], c) && so_far(rows, j + 1, c)
                >= c.target_value;
        assert(0 <= j < k && eligible(rows[j], c));
    }
}

/// Where a position among the rows without the one at `k` lies among all rows.
spec fn shifted(p: int, k: int) -> int {
    if p < k {
        p
    } else {
        p + 1
    }
}

/// The positions among all rows.
spec fn all_shifted(picked: Seq<int>, k: int) -> Seq<int> {
    picked.map_values(|p: int| shifted(p, k))
}

proof fn lemma_selection_without(rows: Seq<ReceivedNote>, k: int, j: int, c: Criteria)
    requires
        0 <= k < rows.len(),
        !eligible(rows[k], c),
        0 <= j < rows.len(),
    ensures
        so_far(rows.remove(k), j, c) == so_far(rows, shifted(j, k), c),
        reached(rows.remove(k), j, c) == reached(rows, shifted(j, k), c),
        all_shifted(selection(rows.remove(k), j, c), k) == selection(rows, shifted(j, k), c),
    decreases j,
{
    let fewer = rows.remove(k);
    let at = shifted(j, k);
    if j == k {
        lemma_reached_step(rows, at, c);
        assert(so_far(rows, at, c) == so_far(rows, k, c));
        assert(selection(rows, at, c) == selection(rows, k, c));
    }
    if j > 0 {
        lemma_selection_without(rows, k, j - 1, c);
        let before = if j <= k { j } else { at };
        assert(fewer[j - 1] == rows[before - 1]);
        assert(shifted(j - 1, k) == before - 1);
        lemma_reached_step(fewer, j, c);
        lemma_reached_step(rows, before, c);
        assert(so_far(fewer, j, c) == so_far(rows, before, c));
        assert(selected(fewer, j - 1, c) == selected(rows, before - 1, c));
        assert(all_shifted(selection(fewer, j, c), k) =~= selection(rows, before, c));
    } else {
        assert(all_shifted(selection(fewer, j, c), k) =~= selection(rows, 0, c));
    }
}

proof fn lemma_outcomes_without(
    extfvk: ExtendedFullViewingKey,
    rows: Seq<ReceivedNote>,
    k: int,
    picked: Seq<int>,
    ws: Seq<NoteWitness>,
    height: i64,
)
    requires
        0 <= k < rows.len(),
        forall|i: int|
            #![trigger picked[i]]
            0 <= i < picked.len() ==> 0 <= picked[i] < rows.len() - 1,
    ensures
        row_outcomes(extfvk, rows.remove(k), ws, joined(rows.remove(k), picked, ws, height))
            == row_outcomes(extfvk, rows, ws, joined(rows, all_shifted(picked, k), ws, height)),
    decreases picked.len(),
{
    let fewer = rows.remove(k);
    let there = all_shifted(picked, k);
    if picked.len() > 0 {
        let front = picked.drop_last();
        assert forall|i: int| #![trigger front[i]] 0 <= i < front.len() implies 0 <= front[i]
            < rows.len() - 1 by {
            assert(front[i] == picked[i]);
        }
        lemma_outcomes_without(extfvk, rows, k, front, ws, height);
        assert(there.drop_last() =~= all_shifted(front, k));
        let p = picked.last();
        assert(picked[picked.len() - 1] == p);
        assert(fewer[p] == rows[shifted(p, k)]);
        let found = matching(ws, ws.len() as int, fewer[p].id_note, height);
        let left = joined(fewer, front, ws, height);
        let right = joined(rows, all_shifted(front, k), ws, height);
        assert(row_outcomes(extfvk, fewer, ws, left + pair_with(p, found)) =~= row_outcomes(
            extfvk,
            fewer,
            ws,
            left,
        ) + row_outcomes(extfvk, fewer, ws, pair_with(p, found)));
        assert(row_outcomes(extfvk, rows, ws, right + pair_with(shifted(p, k), found))
            =~= row_outcomes(extfvk, rows, ws, right) + row_outcomes(
            extfvk,
            rows,
            ws,
            pair_with(shifted(p, k), found),
        ));
        assert(row_outcomes(extfvk, fewer, ws, pair_with(p, found)) =~= row_outcomes(
            extfvk,
            rows,
            ws,
            pair_with(shifted(p, k), found),
        ));
    } else {
        assert(there =~= Seq::<int>::empty());
        assert(row_outcomes(extfvk, fewer, ws, joined(fewer, picked, ws, height))
            =~= row_outcomes(extfvk, rows, ws, joined(rows, there, ws, height)));
    }
}

/// A note that may not be spent can as well be left out: without its row a payment is funded
/// with the same notes, and the running totals fit as before.
pub proof fn other_notes_may_be_left_out(
    extfvk: ExtendedFullViewingKey,
    rows: Seq<ReceivedNote>,
    ws: Seq<NoteWitness>,
    c: Criteria,
    k: int,
)
    requires
        0 <= k < rows.len(),
        !eligible(rows[k], c),
    ensures
        total_overflows(rows.remove(k), c) == total_overflows(rows, c),
        row_outcomes(extfvk, rows.remove(k), ws, funding(rows.remove(k), ws, c)) == row_outcomes(
            extfvk,
            rows,
            ws,
            funding(rows, ws, c),
        ),
{
    let fewer = rows.remove(k);
    let n = fewer.len() as int;
    lemma_selection_without(rows, k, n, c);
    lemma_selection_in_bounds(fewer, n, c);
    lemma_outcomes_without(extfvk, rows, k, selected_positions(fewer, c), ws, c.anchor_height);
    if total_overflows(fewer, c) {
        let j = choose|j: int|
            0 <= j <= n && !(i64::MIN <= #[trigger] so_far(fewer, j, c) <= i64::MAX);
        lemma_selection_without(rows, k, j, c);
        assert(!(i64::MIN <= so_far(rows, shifted(j, k), c) <= i64::MAX));
    }
    if total_overflows(rows, c) {
        let j = choose|j: int|
            0 <= j <= rows.len() && !(i64::MIN <= #[trigger] so_far(rows, j, c) <= i64::MAX);
        let back = if j <= k { j } else { j - 1 };
        lemma_selection_without(rows, k, back, c);
        assert(so_far(rows, k + 1, c) == so_far(rows, k, c));
        assert(!(i64::MIN <= so_far(fewer, back, c) <= i64::MAX));
    }
}

/// A note above the first scanned block becomes spendable once it has `ANCHOR_OFFSET`
/// confirmations, where the block that holds it counts as the first; one in the first
/// scanned block is spendable at once.
pub proof fn notes_need_confirmations(min_height: int, max_height: int, height: int)
    requires
        min_height <= height <= max_height,
    ensures
        height > min_height ==> (height <= anchor_height(min_height, max_height) <==> max_height
            - height + 1 >= ANCHOR_OFFSET),
        height == min_height ==> height <= anchor_height(min_height, max_height),
{
}

} // verus!
