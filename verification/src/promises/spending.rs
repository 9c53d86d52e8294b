//! Adding the notes, the payment and the change to a transaction, and what is built of them.

use crate::amount::{DEFAULT_FEE, MAX_MONEY};
use crate::balance::{lemma_total_of_prefix, total};
use crate::builder::{
    empty_memo, fee, output_value, recovered_output, spend_nullifier, spend_nullifiers,
    spent_value, transparent_value, tx_bytes, tx_expiry, tx_nullifiers, tx_output_count,
    tx_transparent_outputs, tx_value_balance, value_balance, BuilderView, OutputView, SpendView,
};
use crate::decode::{note_values, SelectedNoteView};
use crate::error::BuilderError;
use crate::keys::{full_viewing_key, note_recipient, note_value};
use crate::laws::{every_note_is_spent, lemma_spent_value_is_total};
use crate::transact::{
    change, empty_builder, lemma_first_refusal_stands, paying, pays, recovers, spend_outcome,
    spend_outcomes, Payment, RecipientAddress, SpendOutcome,
};
use crate::witness::{fits, path_root, witness_parts, witness_path};
use sapling_crypto::zip32::ExtendedSpendingKey;
use vstd::prelude::*;
use zcash_primitives::transaction::Transaction;
use zcash_protocol::consensus::Network;
use zcash_transparent::address::TransparentAddress;

verus! {

/// A payment needs its value and the fee of 10000 zatoshis, whatever the value.
pub proof fn payment_needs_value_and_fee(payment: Payment)
    ensures
        payment.needed() == payment.value + 10_000,
        DEFAULT_FEE == 10_000,
        payment.extfvk() == full_viewing_key(*payment.extsk),
{
}

/// Adding a note adds its value to what is spent, and so for the outputs; what is spent beyond
/// all outputs is the fee.
pub proof fn values_of_a_transaction_add_up(
    b: BuilderView,
    spend: SpendView,
    output: OutputView,
    transparent: (TransparentAddress, i64),
)
    ensures
        spent_value(Seq::<SpendView>::empty()) == 0,
        output_value(Seq::<OutputView>::empty()) == 0,
        transparent_value(Seq::<(TransparentAddress, i64)>::empty()) == 0,
        spent_value(b.spends.push(spend)) == spent_value(b.spends) + note_value(spend.note),
        output_value(b.outputs.push(output)) == output_value(b.outputs) + output.value,
        transparent_value(b.transparent_outputs.push(transparent)) == transparent_value(
            b.transparent_outputs,
        ) + transparent.1,
        value_balance(b) == spent_value(b.spends) - output_value(b.outputs),
        fee(b) == spent_value(b.spends) - output_value(b.outputs) - transparent_value(
            b.transparent_outputs,
        ),
{
    assert(b.spends.push(spend).drop_last() =~= b.spends);
    assert(b.outputs.push(output).drop_last() =~= b.outputs);
    assert(b.transparent_outputs.push(transparent).drop_last() =~= b.transparent_outputs);
}

proof fn lemma_values_of_front(notes: Seq<SelectedNoteView>, k: int)
    requires
        0 <= k <= notes.len(),
        forall|i: int|
            #![trigger notes[i]]
            0 <= i < notes.len() ==> note_value(notes[i].note) == notes[i].value,
    ensures
        note_values(notes.take(k)) == note_values(notes).take(k),
        0 <= total(note_values(notes.take(k))) <= total(note_values(notes)),
        forall|i: int|
            #![trigger notes.take(k)[i]]
            0 <= i < k ==> note_value(notes.take(k)[i].note) == notes.take(k)[i].value,
{
    assert(note_values(notes.take(k)) =~= note_values(notes).take(k));
    lemma_total_of_prefix(note_values(notes), k);
    assert forall|i: int| #![trigger notes.take(k)[i]] 0 <= i < k implies note_value(
        notes.take(k)[i].note,
    ) == notes.take(k)[i].value by {
        assert(notes.take(k)[i] == notes[i]);
    }
}

/// Adding the notes to an empty transaction succeeds if, and only if, the parts of each
/// witness fit together and give a path, all paths lead to the same root, and the notes come
/// to no more than the money supply. They are then all spent.
pub proof fn notes_within_the_supply_are_added(
    network: Network,
    height: u32,
    extsk: ExtendedSpendingKey,
    notes: Seq<SelectedNoteView>,
)
    requires
        forall|i: int|
            #![trigger notes[i]]
            0 <= i < notes.len() ==> note_value(notes[i].note) == notes[i].value,
    ensures
        spend_outcomes(empty_builder(network, height), extsk, notes) is Added <==> {
            &&& forall|i: int|
                #![trigger notes[i]]
                0 <= i < notes.len() ==> {
                    &&& fits(witness_parts(notes[i].witness))
                    &&& witness_path(notes[i].witness) matches Some(path)
                    &&& witness_path(notes[0].witness) matches Some(first)
                    &&& path_root(notes[i].note, path) == path_root(notes[0].note, first)
                }
            &&& total(note_values(notes)) <= 21_000_000 * 100_000_000
        },
        spend_outcomes(empty_builder(network, height), extsk, notes) matches SpendOutcome::Added(b)
            ==> b.spends.len() == notes.len() && spent_value(b.spends) == total(
            note_values(notes),
        ),
    decreases notes.len(),
{
    let empty = empty_builder(network, height);
    if notes.len() > 0 {
        let n = notes.len() - 1;
        let front = notes.drop_last();
        let last = notes.last();
        assert(front =~= notes.take(n));
        assert(notes[n] == last);
        lemma_values_of_front(notes, n);
        notes_within_the_supply_are_added(network, height, extsk, front);
        assert(note_values(notes).drop_last() =~= note_values(front));
        assert(total(note_values(notes)) == total(note_values(front)) + last.value);
        assert forall|i: int| 0 <= i < n implies #[trigger] front[i] == notes[i] by {}
        if let SpendOutcome::Added(so_far) = spend_outcomes(empty, extsk, front) {
            every_note_is_spent(network, height, extsk, front, so_far);
            lemma_spent_value_is_total(network, height, extsk, front, so_far);
            if n > 0 {
                assert(front[0] == notes[0]);
                assert(so_far.spends[0].note == notes[0].note);
                assert(witness_path(notes[0].witness) == Some(so_far.spends[0].path));
            }
            assert forall|i: int| #![trigger notes[i]] 0 <= i < n implies {
                &&& fits(witness_parts(notes[i].witness))
                &&& witness_path(notes[i].witness) matches Some(path)
                &&& witness_path(notes[0].witness) matches Some(first)
                &&& path_root(notes[i].note, path) == path_root(notes[0].note, first)
            } by {
                assert(front[i] == notes[i]);
                assert(front[0] == notes[0]);
            }
        } else {
            if total(note_values(notes)) <= 21_000_000 * 100_000_000 {
                let i = choose|i: int|
                    #![trigger front[i]]
                    0 <= i < front.len() && !({
                        &&& fits(witness_parts(front[i].witness))
                        &&& witness_path(front[i].witness) matches Some(path)
                        &&& witness_path(front[0].witness) matches Some(first)
                        &&& path_root(front[i].note, path) == path_root(front[0].note, first)
                    });
                assert(front[i] == notes[i]);
                assert(front[0] == notes[0]);
            }
        }
        if let SpendOutcome::Added(b) = spend_outcomes(empty, extsk, notes) {
            every_note_is_spent(network, height, extsk, notes, b);
            lemma_spent_value_is_total(network, height, extsk, notes, b);
        }
    } else {
        assert(note_values(notes).len() == 0);
    }
}

/// Where the notes before it could be added and a note cannot, that note decides, and in this
/// order: a witness whose parts do not fit together, a witness without a path, a root other
/// than that of the first note, a value beyond the money supply, and a sum beyond it.
pub proof fn first_note_in_the_way_decides(
    network: Network,
    height: u32,
    extsk: ExtendedSpendingKey,
    notes: Seq<SelectedNoteView>,
    k: int,
)
    requires
        0 <= k < notes.len(),
        forall|i: int|
            #![trigger notes[i]]
            0 <= i < notes.len() ==> note_value(notes[i].note) == notes[i].value,
        spend_outcomes(empty_builder(network, height), extsk, notes.take(k)) is Added,
    ensures
        ({
            let outcome = spend_outcomes(empty_builder(network, height), extsk, notes);
            let next = notes[k];
            if !fits(witness_parts(next.witness)) {
                outcome is BrokenWitness
            } else {
                match witness_path(next.witness) {
                    None => outcome == SpendOutcome::Refused(BuilderError::InvalidWitness),
                    Some(path) => if k > 0 && (witness_path(notes[0].witness) matches Some(first)
                        && path_root(next.note, path) != path_root(notes[0].note, first)) {
                        outcome == SpendOutcome::Refused(BuilderError::AnchorMismatch)
                    } else if next.value > 21_000_000 * 100_000_000 {
                        outcome == SpendOutcome::Refused(BuilderError::InvalidAmount)
                    } else if total(note_values(notes.take(k + 1))) > 21_000_000 * 100_000_000 {
                        outcome is ExceedsSupply
                    } else {
                        spend_outcomes(
                            empty_builder(network, height),
                            extsk,
                            notes.take(k + 1),
                        ) is Added
                    },
                }
            }
        }),
{
    let empty = empty_builder(network, height);
    let front = notes.take(k);
    let upto = notes.take(k + 1);
    assert(upto.drop_last() =~= front);
    assert(upto.last() == notes[k]);
    lemma_values_of_front(notes, k);
    lemma_values_of_front(notes, k + 1);
    let b = spend_outcomes(empty, extsk, front)->Added_0;
    every_note_is_spent(network, height, extsk, front, b);
    lemma_spent_value_is_total(network, height, extsk, front, b);
    assert(note_values(upto).drop_last() =~= note_values(front));
    if k > 0 {
        assert(front[0] == notes[0]);
        assert(b.spends[0].note == notes[0].note);
        assert(witness_path(notes[0].witness) == Some(b.spends[0].path));
    }
    if !(spend_outcomes(empty, extsk, upto) is Added) {
        lemma_first_refusal_stands(empty, extsk, notes, k + 1);
    }
}

/// A note that is added is the only thing that changes: it comes behind those added before,
/// under the key given and with the path of its own witness.
pub proof fn added_note_is_all_that_changes(
    b: BuilderView,
    extsk: ExtendedSpendingKey,
    selected: SelectedNoteView,
)
    ensures
        spend_outcome(b, extsk, selected) matches SpendOutcome::Added(after) ==> {
            &&& after.network == b.network
            &&& after.target_height == b.target_height
            &&& after.outputs == b.outputs
            &&& after.transparent_outputs == b.transparent_outputs
            &&& after.spends.len() == b.spends.len() + 1
            &&& after.spends.drop_last() == b.spends
            &&& after.spends.last().extsk == extsk
            &&& after.spends.last().note == selected.note
            &&& witness_path(selected.witness) == Some(after.spends.last().path)
            &&& after.anchor == path_root(selected.note, after.spends.last().path)
        },
{
    if let SpendOutcome::Added(after) = spend_outcome(b, extsk, selected) {
        assert(after.spends.drop_last() =~= b.spends);
    }
}

/// Paying adds the payment, and behind it the change where there is any, and leaves the notes
/// being spent as they are. What is spent is exactly the value, the change and the fee.
pub proof fn payment_comes_before_the_change(payment: Payment, b: BuilderView)
    requires
        payment.value >= 0,
        0 <= spent_value(b.spends) - payment.value - DEFAULT_FEE <= MAX_MONEY,
    ensures
        ({
            let paid = paying(payment, b);
            let rest = spent_value(b.spends) - payment.value - DEFAULT_FEE;
            &&& paid.network == b.network
            &&& paid.target_height == b.target_height
            &&& paid.anchor == b.anchor
            &&& paid.spends == b.spends
            &&& change(payment, b.spends) == rest
            &&& match *payment.to {
                RecipientAddress::Shielded(to) => {
                    &&& paid.transparent_outputs.len() == 0
                    &&& paid.outputs.len() == if rest > 0 {
                        2
                    } else {
                        1nat
                    }
                    &&& paid.outputs[0].extfvk == full_viewing_key(*payment.extsk)
                    &&& paid.outputs[0].to == to
                    &&& paid.outputs[0].value == payment.value
                    &&& paid.outputs[0].memo == match payment.memo {
                        Some(bytes) => Some(bytes@),
                        None => None,
                    }
                },
                RecipientAddress::Transparent(to) => {
                    &&& paid.transparent_outputs == seq![(to, payment.value)]
                    &&& paid.outputs.len() == if rest > 0 {
                        1
                    } else {
                        0nat
                    }
                },
            }
            &&& rest > 0 ==> {
                &&& paid.outputs.last().extfvk == full_viewing_key(*payment.extsk)
                &&& paid.outputs.last().to == note_recipient(b.spends[0].note)
                &&& paid.outputs.last().value == rest
                &&& paid.outputs.last().memo is None
            }
            &&& output_value(paid.outputs) + transparent_value(paid.transparent_outputs)
                + DEFAULT_FEE == spent_value(b.spends)
        }),
{
    let paid = paying(payment, b);
    let none = Seq::<OutputView>::empty();
    assert(output_value(none) == 0);
    let transparent = paid.transparent_outputs;
    if transparent.len() > 0 {
        assert(transparent.drop_last() =~= Seq::<(TransparentAddress, i64)>::empty());
        assert(transparent_value(transparent.drop_last()) == 0);
    }
    if paid.outputs.len() == 1 {
        assert(paid.outputs.drop_last() =~= none);
    } else if paid.outputs.len() == 2 {
        let one = paid.outputs.drop_last();
        assert(one.drop_last() =~= none);
        assert(one.last() == paid.outputs[0]);
        assert(output_value(one) == paid.outputs[0].value);
    }
}

/// The transaction built does what the builder was given, no more and no less: it reveals the
/// nullifiers of the notes, has the transparent outputs, leaves the fee of 10000 zatoshis, has
/// two shielded outputs among which each given one can be recovered with its recipient, value
/// and memo, expires twenty blocks after its target, and can be broadcast.
pub proof fn built_transaction_does_what_was_given(tx: Transaction, b: BuilderView)
    requires
        pays(tx, b),
        b.outputs.len() <= 2,
    ensures
        tx_nullifiers(tx).to_multiset() == b.spends.map_values(
            |s: SpendView| spend_nullifier(s.extsk, s.note, s.path),
        ).to_multiset(),
        tx_transparent_outputs(tx) == b.transparent_outputs,
        tx_value_balance(tx) == 10_000 + transparent_value(b.transparent_outputs),
        tx_output_count(tx) == 2,
        forall|n: int|
            #![trigger b.outputs[n]]
            0 <= n < b.outputs.len() ==> exists|index: usize|
                index < 2 && #[trigger] recovered_output(
                    tx,
                    index,
                    b.network,
                    b.target_height,
                    b.outputs[n].extfvk,
                ) == Some(
                    (
                        b.outputs[n].to,
                        b.outputs[n].value as u64,
                        match b.outputs[n].memo {
                            Some(bytes) => bytes,
                            None => empty_memo(),
                        },
                    ),
                ),
        tx_expiry(tx) == b.target_height + 20,
        tx_bytes(tx) is Some,
{
    assert(spend_nullifiers(b.spends) =~= b.spends.map_values(
        |s: SpendView| spend_nullifier(s.extsk, s.note, s.path),
    ));
    assert forall|n: int| #![trigger b.outputs[n]] 0 <= n < b.outputs.len() implies exists|
        index: usize,
    |
        index < 2 && #[trigger] recovered_output(
            tx,
            index,
            b.network,
            b.target_height,
            b.outputs[n].extfvk,
        ) == Some(
            (
                b.outputs[n].to,
                b.outputs[n].value as u64,
                match b.outputs[n].memo {
                    Some(bytes) => bytes,
                    None => empty_memo(),
                },
            ),
        ) by {
        let index = choose|index: usize| #[trigger] recovers(tx, index, b, n);
        assert(recovers(tx, index, b, n));
    }
}

/// No memo is written as a marker byte and zeros.
pub proof fn no_memo_is_a_marker(i: int)
    requires
        0 <= i < 512,
    ensures
        empty_memo().len() == 512,
        empty_memo()[i] == if i == 0 {
            0xf6
        } else {
            0u8
        },
{
}

/// The output that is recorded holds the payment where it is to a shielded address: from it
/// the payer recovers the recipient, the value and the memo.
pub proof fn recorded_output_holds_the_payment(
    payment: Payment,
    b: BuilderView,
    tx: Transaction,
    index: usize,
)
    requires
        payment.value >= 0,
        0 <= spent_value(b.spends) - payment.value - DEFAULT_FEE <= MAX_MONEY,
        recovers(tx, index, paying(payment, b), 0),
    ensures
        index < tx_output_count(tx),
        *payment.to matches RecipientAddress::Shielded(to) ==> recovered_output(
            tx,
            index,
            b.network,
            b.target_height,
            full_viewing_key(*payment.extsk),
        ) == Some(
            (
                to,
                payment.value as u64,
                match payment.memo {
                    Some(bytes) => bytes@,
                    None => empty_memo(),
                },
            ),
        ),
{
    payment_comes_before_the_change(payment, b);
}

} // verus!
