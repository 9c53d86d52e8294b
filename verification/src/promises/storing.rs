//! What storing a transaction asks of the wallet's database.

use crate::amount::{DEFAULT_FEE, MAX_MONEY};
use crate::builder::{
    byte_views, empty_memo, recovered_output, spent_value, tx_expiry, tx_id, tx_nullifiers,
    BuilderView,
};
use crate::keys::{encoded_shielded, encoded_transparent, full_viewing_key};
use crate::notes::ReceivedNote;
use crate::persist::{marks, notes_after, statement_views, Statement, StatementView};
use crate::promises::spending::{
    payment_comes_before_the_change, recorded_output_holds_the_payment,
};
use crate::transact::{
    closing_statements, opening_statements, paying, pays, recovers, Payment, RecipientAddress,
};
use vstd::prelude::*;
use zcash_primitives::transaction::Transaction;

verus! {

/// A statement says exactly what it holds.
pub proof fn statements_say_what_they_hold(statements: Seq<Statement>, i: int)
    requires
        0 <= i < statements.len(),
    ensures
        statement_views(statements).len() == statements.len(),
        statement_views(statements)[i] == match statements[i] {
            Statement::Begin => StatementView::Begin,
            Statement::InsertTransaction(row) => StatementView::InsertTransaction {
                txid: row.txid@,
                expiry_height: row.expiry_height,
                raw: row.raw@,
            },
            Statement::MarkSpent { nf, spent } => StatementView::MarkSpent { nf: nf@, spent },
            Statement::InsertSentNote(row) => StatementView::InsertSentNote {
                tx: row.tx,
                output_index: row.output_index,
                from_account: row.from_account,
                address: row.address@,
                value: row.value,
                memo: match row.memo {
                    Some(bytes) => Some(bytes@),
                    None => None,
                },
            },
            Statement::Commit => StatementView::Commit,
        },
{
}

/// Each nullifier is marked, in order and with its own bytes, as spent by the transaction.
pub proof fn each_nullifier_is_marked(nullifiers: Seq<[u8; 32]>, id_tx: i64)
    ensures
        marks(byte_views(nullifiers), id_tx).len() == nullifiers.len(),
        forall|i: int|
            #![trigger marks(byte_views(nullifiers), id_tx)[i]]
            0 <= i < nullifiers.len() ==> marks(byte_views(nullifiers), id_tx)[i] == (
            StatementView::MarkSpent { nf: nullifiers[i]@, spent: id_tx }),
{
}

/// Storing starts with the transaction's own row: its identifier, the height at which it
/// expires, twenty blocks after its target, and the bytes to broadcast.
pub proof fn stored_row_is_that_of_the_transaction(tx: Transaction, b: BuilderView, raw: Seq<u8>)
    requires
        pays(tx, b),
    ensures
        opening_statements(tx, raw).len() == 2,
        opening_statements(tx, raw)[0] is Begin,
        opening_statements(tx, raw)[1] matches StatementView::InsertTransaction {
            txid,
            expiry_height,
            raw: bytes,
        } && txid == tx_id(tx) && expiry_height == tx_expiry(tx) && expiry_height == b.target_height
            + 20 && bytes == raw,
{
}

/// The sent note names the payment: the row of the transaction, the account that pays, the
/// recipient in writing on the payment's network, the value, the memo, and the position from
/// which the payer can recover the payment where it is to a shielded address. It is the one
/// sent note inserted; before it each nullifier of the transaction is marked as spent by the
/// transaction, after it the changes are committed, and there is nothing else.
pub proof fn sent_note_names_the_payment(
    payment: Payment,
    b: BuilderView,
    tx: Transaction,
    output_index: usize,
    id_tx: i64,
)
    requires
        payment.value >= 0,
        0 <= spent_value(b.spends) - payment.value - DEFAULT_FEE <= MAX_MONEY,
        pays(tx, paying(payment, b)),
        recovers(tx, output_index, paying(payment, b), 0),
    ensures
        ({
            let closing = closing_statements(payment, tx, output_index, id_tx);
            let n = tx_nullifiers(tx).len() as int;
            &&& closing.len() == n + 2
            &&& forall|i: int|
                #![trigger closing[i]]
                0 <= i < n ==> closing[i] == (StatementView::MarkSpent {
                    nf: tx_nullifiers(tx)[i],
                    spent: id_tx,
                })
            &&& closing[n] matches StatementView::InsertSentNote {
                tx: row,
                output_index: recorded,
                from_account,
                address,
                value,
                memo,
            } && {
                &&& row == id_tx
                &&& from_account == payment.account
                &&& value == payment.value
                &&& memo == match payment.memo {
                    Some(bytes) => Some(bytes@),
                    None => None,
                }
                &&& recorded == output_index
                &&& match *payment.to {
                    RecipientAddress::Shielded(to) => {
                        &&& address == encoded_shielded(payment.network, to)
                        &&& recovered_output(
                            tx,
                            recorded as usize,
                            b.network,
                            b.target_height,
                            full_viewing_key(*payment.extsk),
                        ) == Some(
                            (
                                to,
                                value as u64,
                                match memo {
                                    Some(bytes) => bytes,
                                    None => empty_memo(),
                                },
                            ),
                        )
                    },
                    RecipientAddress::Transparent(to) => address == encoded_transparent(
                        payment.network,
                        to,
                    ),
                }
            }
            &&& closing[n + 1] is Commit
        }),
{
    let closing = closing_statements(payment, tx, output_index, id_tx);
    let marked = marks(tx_nullifiers(tx), id_tx);
    recorded_output_holds_the_payment(payment, b, tx, output_index);
    payment_comes_before_the_change(payment, b);
    assert forall|i: int| #![trigger closing[i]] 0 <= i < marked.len() implies closing[i] == (
    StatementView::MarkSpent { nf: tx_nullifiers(tx)[i], spent: id_tx }) by {
        assert(closing[i] == marked[i]);
    }
}

/// Sent notes tell payments apart: only payments of the same account, value and memo are
/// stored alike.
pub proof fn sent_notes_tell_payments_apart(
    one: Payment,
    other: Payment,
    tx: Transaction,
    output_index: usize,
    id_tx: i64,
)
    requires
        closing_statements(one, tx, output_index, id_tx) == closing_statements(
            other,
            tx,
            output_index,
            id_tx,
        ),
    ensures
        one.account == other.account,
        one.value == other.value,
        one.memo is Some == other.memo is Some,
        one.memo is Some ==> one.memo->0@ == other.memo->0@,
{
    let n = tx_nullifiers(tx).len() as int;
    let a = closing_statements(one, tx, output_index, id_tx)[n];
    let b = closing_statements(other, tx, output_index, id_tx)[n];
    assert(a == b);
}

/// Marking a nullifier touches the notes that have it and no others, and of those nothing but
/// the transaction that spends them.
pub proof fn marking_touches_notes_with_the_nullifier(
    rows: Seq<ReceivedNote>,
    nf: Seq<u8>,
    spent: i64,
    i: int,
)
    requires
        0 <= i < rows.len(),
    ensures
        ({
            let after = notes_after(rows, seq![StatementView::MarkSpent { nf, spent }]);
            &&& after.len() == rows.len()
            &&& rows[i].nf@ != nf ==> after[i] == rows[i]
            &&& rows[i].nf@ == nf ==> after[i] == (ReceivedNote { spent: Some(spent), ..rows[i] })
        }),
{
    let statements = seq![StatementView::MarkSpent { nf, spent }];
    assert(statements.drop_last() =~= Seq::<StatementView>::empty());
    assert(notes_after(rows, statements.drop_last()) == rows);
}

} // verus!
