//! What a new transaction changes in the wallet's database.

use crate::builder::byte_views;
use crate::notes::ReceivedNote;
use vstd::prelude::*;

verus! {

/// A row for the table of transactions; the time of its creation is added when it is
/// stored.
pub struct TransactionRow {
    pub txid: [u8; 32],
    pub expiry_height: u32,
    pub raw: Vec<u8>,
}

/// A row for the table of sent notes.
pub struct SentNoteRow {
    /// The row of the transaction.
    pub tx: i64,
    pub output_index: i64,
    pub from_account: u32,
    pub address: String,
    pub value: i64,
    /// `None` leaves the memo column empty.
    pub memo: Option<[u8; 512]>,
}

/// A change to the database.
pub enum Statement {
    /// Starts an immediate database transaction.
    Begin,
    /// Inserts a row into the table of transactions.
    InsertTransaction(TransactionRow),
    /// Sets the spending transaction of the received note with this nullifier.
    MarkSpent { nf: [u8; 32], spent: i64 },
    /// Inserts a row into the table of sent notes.
    InsertSentNote(SentNoteRow),
    /// Commits the database transaction.
    Commit,
}

/// What a `Statement` says.
#[verifier::ext_equal]
pub enum StatementView {
    Begin,
    InsertTransaction { txid: Seq<u8>, expiry_height: u32, raw: Seq<u8> },
    MarkSpent { nf: Seq<u8>, spent: i64 },
    InsertSentNote {
        tx: i64,
        output_index: i64,
        from_account: u32,
        address: Seq<char>,
        value: i64,
        memo: Option<Seq<u8>>,
    },
    Commit,
}

/// The bytes of a memo.
pub open spec fn memo_view(memo: Option<[u8; 512]>) -> Option<Seq<u8>> {
    match memo {
        Some(bytes) => Some(bytes@),
        None => None,
    }
}

impl View for Statement {
    type V = StatementView;

    open spec fn view(&self) -> StatementView {
        match self {
            Statement::Begin => StatementView::Begin,
            Statement::InsertTransaction(row) => StatementView::InsertTransaction {
                txid: row.txid@,
                expiry_height: row.expiry_height,
                raw: row.raw@,
            },
            Statement::MarkSpent { nf, spent } => StatementView::MarkSpent {
                nf: nf@,
                spent: *spent,
            },
            Statement::InsertSentNote(row) => StatementView::InsertSentNote {
                tx: row.tx,
                output_index: row.output_index,
                from_account: row.from_account,
                address: row.address@,
                value: row.value,
                memo: memo_view(row.memo),
            },
            Statement::Commit => StatementView::Commit,
        }
    }
}

/// What the statements say.
pub open spec fn statement_views(statements: Seq<Statement>) -> Seq<StatementView> {
    statements.map_values(|s: Statement| s@)
}

/// The statements that mark the notes with these nullifiers as spent by transaction `id_tx`.
pub open spec fn marks(nullifiers: Seq<Seq<u8>>, id_tx: i64) -> Seq<StatementView> {
    nullifiers.map_values(|nf: Seq<u8>| StatementView::MarkSpent { nf, spent: id_tx })
}

/// Writes the statements that mark the notes with these nullifiers as spent.
pub fn mark_spent(nullifiers: &Vec<[u8; 32]>, id_tx: i64) -> (statements: Vec<Statement>)
    ensures
        statement_views(statements@) == marks(byte_views(nullifiers@), id_tx),
{
    let mut statements: Vec<Statement> = Vec::new();
    let mut i: usize = 0;
    let ghost nfs = byte_views(nullifiers@);
    assert(statement_views(statements@) =~= marks(nfs.take(0), id_tx));
    while i < nullifiers.len()
        invariant
            i <= nullifiers@.len(),
            nfs == byte_views(nullifiers@),
            statement_views(statements@) == marks(nfs.take(i as int), id_tx),
        decreases nullifiers@.len() - i,
    {
        let ghost before = statements@;
        statements.push(Statement::MarkSpent { nf: nullifiers[i], spent: id_tx });
        assert(statement_views(statements@) =~= statement_views(before).push(
            StatementView::MarkSpent { nf: nfs[i as int], spent: id_tx },
        ));
        assert(marks(nfs.take(i + 1), id_tx) =~= marks(nfs.take(i as int), id_tx).push(
            StatementView::MarkSpent { nf: nfs[i as int], spent: id_tx },
        ));
        i = i + 1;
    }
    assert(nfs.take(i as int) =~= nfs);
    statements
}

/// The effect of a statement on a received note.
pub open spec fn note_after(note: ReceivedNote, statement: StatementView) -> ReceivedNote {
    match statement {
        StatementView::MarkSpent { nf, spent } => if note.nf@ == nf {
            ReceivedNote { spent: Some(spent), ..note }
        } else {
            note
        },
        _ => note,
    }
}

/// The received notes after the statements have been executed in order.
pub open spec fn notes_after(
    rows: Seq<ReceivedNote>,
    statements: Seq<StatementView>,
) -> Seq<ReceivedNote>
    decreases statements.len(),
{
    if statements.len() == 0 {
        rows
    } else {
        notes_after(rows, statements.drop_last()).map_values(
            |n: ReceivedNote| note_after(n, statements.last()),
        )
    }
}

/// A row of the table of transactions, as it is inserted.
#[verifier::ext_equal]
pub struct StoredTransaction {
    pub txid: Seq<u8>,
    pub expiry_height: u32,
    pub raw: Seq<u8>,
}

/// The rows of the table of transactions, in the order of their insertion, after the
/// statements have been executed in order.
pub open spec fn transactions_after(
    rows: Seq<StoredTransaction>,
    statements: Seq<StatementView>,
) -> Seq<StoredTransaction>
    decreases statements.len(),
{
    if statements.len() == 0 {
        rows
    } else {
        let before = transactions_after(rows, statements.drop_last());
        match statements.last() {
            StatementView::InsertTransaction { txid, expiry_height, raw } => before.push(
                StoredTransaction { txid, expiry_height, raw },
            ),
            _ => before,
        }
    }
}

} // verus!
