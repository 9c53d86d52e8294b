//! Functions for creating transactions.
//!
//! A payment runs through a fixed series of states. Each state says what has to be looked
//! up or carried out next, and takes the answer to the state after it. A payment that is
//! refused ends with an `Error`, and until its last states nothing has been written.
//!
//! A step that answers `None` has met wallet data that no scan of the chain can have
//! produced, or a chain or an amount at the very end of its range; nothing sensible can
//! be done with the payment.

use crate::amount::{as_unsigned, in_money_range, target_value, DEFAULT_FEE, MAX_MONEY};
use crate::balance::{confirm_balance, lemma_total_of_rest, total};
use crate::builder::{
    add_sapling_output, add_sapling_spend, add_transparent_output, build_transaction, contents, fee,
    new_builder, output_index, output_position, output_value, recoverable_part, recovered_output,
    spend_nullifier, spend_nullifiers, spent_under, spent_value, transaction_bytes,
    transaction_expiry, transaction_id, transaction_nullifiers, transparent_value, tx_bytes,
    tx_expiry, tx_id, tx_nullifiers, tx_output_count, tx_transparent_outputs, tx_value_balance,
    value_balance, BuilderView, OutputView, SpendView, EXPIRY_DELTA,
};
use crate::decode::{
    all_received, decode_notes, gather, note_values, note_views, reports, row_outcomes, RowOutcome,
    SelectedNoteRow, SelectedNoteView,
};
use crate::error::{BuilderError, Error};
use crate::heights::{anchor_height, get_target_and_anchor_heights, target_height};
use crate::keys::{
    encode_key, encode_shielded, encode_transparent, encoded_key, encoded_shielded,
    encoded_transparent, full_viewing_key, note_recipient, note_value, recipient, viewing_key,
};
use crate::notes::{
    find_funding, funding, is_available, may_be_spent, total_overflows, Criteria, NoteTable,
    NoteWitness,
};
use crate::persist::{
    mark_spent, marks, memo_view, statement_views, SentNoteRow, Statement, StatementView,
    TransactionRow,
};
use crate::witness::{
    find_path, find_root, fits, parts, parts_fit, path_root, witness_parts, witness_path,
};
use incrementalmerkletree::MerklePath;
use sapling_crypto::builder::SaplingMetadata;
use sapling_crypto::prover::{OutputProver, SpendProver};
use sapling_crypto::zip32::{ExtendedFullViewingKey, ExtendedSpendingKey};
use sapling_crypto::{Node, Note, PaymentAddress};
use vstd::prelude::*;
use zcash_primitives::transaction::builder::Builder;
use zcash_primitives::transaction::Transaction;
use zcash_protocol::consensus::Network;
use zcash_transparent::address::TransparentAddress;

verus! {

/// An address to which funds can be sent.
pub enum RecipientAddress {
    Shielded(PaymentAddress),
    Transparent(TransparentAddress),
}

/// The text of an address on a network.
pub open spec fn address_text(network: Network, to: RecipientAddress) -> Seq<char> {
    match to {
        RecipientAddress::Shielded(to) => encoded_shielded(network, to),
        RecipientAddress::Transparent(to) => encoded_transparent(network, to),
    }
}

/// What a payment consists of.
pub struct Payment<'a> {
    pub network: Network,
    /// The account that pays.
    pub account: u32,
    /// The spending key of the account.
    pub extsk: &'a ExtendedSpendingKey,
    pub to: &'a RecipientAddress,
    /// The value to be paid, in zatoshis.
    pub value: i64,
    pub memo: Option<[u8; 512]>,
}

impl<'a> Payment<'a> {
    /// The value is a valid amount.
    pub open spec fn well_formed(&self) -> bool {
        in_money_range(self.value as int)
    }

    /// What the notes must come to: the value and the fee.
    pub open spec fn needed(&self) -> int {
        self.value + DEFAULT_FEE
    }

    /// The viewing key of the spending key.
    pub open spec fn extfvk(&self) -> ExtendedFullViewingKey {
        full_viewing_key(*self.extsk)
    }
}

/// A payment waiting to learn whether the spending key is that of the account: whether
/// the wallet holds the account with this viewing key.
pub struct AccountLookup<'a> {
    payment: Payment<'a>,
    extfvk: ExtendedFullViewingKey,
}

/// A payment waiting to learn the lowest and highest heights among the scanned blocks.
pub struct BlockLookup<'a> {
    payment: Payment<'a>,
    extfvk: ExtendedFullViewingKey,
}

/// A payment waiting for the account's notes and their witnesses.
pub struct NoteLookup<'a> {
    payment: Payment<'a>,
    extfvk: ExtendedFullViewingKey,
    target_height: u32,
    anchor_height: u32,
    target_value: i64,
}

/// A payment whose notes are being added to the transaction one by one.
pub struct Spending<'a> {
    payment: Payment<'a>,
    extfvk: ExtendedFullViewingKey,
    target_height: u32,
    notes: Vec<SelectedNoteRow>,
    spent: u64,
    begun: Option<Begun>,
}

/// A transaction with its first notes: the builder, the anchor, and the address that
/// received the oldest note, which is where the change goes.
struct Begun {
    builder: Builder<Network, ()>,
    anchor: [u8; 32],
    change_address: PaymentAddress,
}

/// A payment whose transaction is waiting to be built.
pub struct Building<'a> {
    payment: Payment<'a>,
    builder: Builder<Network, ()>,
}

/// A payment whose transaction is waiting to be stored.
pub struct Recording<'a> {
    payment: Payment<'a>,
    tx: Transaction,
    output_index: usize,
}

/// Creates a transaction paying the specified address from the given account.
///
/// The steps that follow end with the row index of the newly-created transaction in the
/// table of transactions. The caller can read the raw transaction bytes there in order to
/// broadcast the transaction to the network.
///
/// Do not run two payments in parallel, or they will generate transactions that
/// double-spend the same notes.
pub fn create_to_address<'a>(
    network: Network,
    account: u32,
    extsk: &'a ExtendedSpendingKey,
    to: &'a RecipientAddress,
    value: i64,
    memo: Option<[u8; 512]>,
) -> (r: AccountLookup<'a>)
    requires
        in_money_range(value as int),
    ensures
        r.well_formed(),
        r.payment() == (Payment { network, account, extsk, to, value, memo }),
{
    let extfvk = viewing_key(extsk);
    AccountLookup { payment: Payment { network, account, extsk, to, value, memo }, extfvk }
}

impl<'a> AccountLookup<'a> {
    /// The payment.
    pub closed spec fn payment(&self) -> Payment<'a> {
        self.payment
    }

    /// The viewing key is that of the payment.
    pub closed spec fn well_formed(&self) -> bool {
        self.payment.well_formed() && self.extfvk == self.payment.extfvk()
    }

    /// The account to look for.
    pub fn account(&self) -> (account: u32)
        ensures
            account == self.payment().account,
    {
        self.payment.account
    }

    /// The viewing key to look for, in writing.
    pub fn encoded_key(&self) -> (text: String)
        requires
            self.well_formed(),
        ensures
            text@ == encoded_key(self.payment().network, self.payment().extfvk()),
    {
        encode_key(self.payment.network, &self.extfvk)
    }

    /// Goes on where the wallet holds the account with the viewing key.
    pub fn account_found(self, found: bool) -> (r: Result<BlockLookup<'a>, Error>)
        requires
            self.well_formed(),
        ensures
            match r {
                Ok(next) => found && next.well_formed() && next.payment() == self.payment(),
                Err(e) => !found && e == Error::InvalidExtSK(self.payment().account),
            },
            r is Ok == found,
    {
        if !found {
            return Err(Error::InvalidExtSK(self.payment.account));
        }
        Ok(BlockLookup { payment: self.payment, extfvk: self.extfvk })
    }
}

impl<'a> BlockLookup<'a> {
    /// The payment.
    pub closed spec fn payment(&self) -> Payment<'a> {
        self.payment
    }

    /// The viewing key is that of the payment.
    pub closed spec fn well_formed(&self) -> bool {
        self.payment.well_formed() && self.extfvk == self.payment.extfvk()
    }

    /// Goes on with the lowest and highest heights among the scanned blocks. `None` where
    /// the block after the highest has no height, or the value and the fee exceed the money
    /// supply.
    pub fn blocks_scanned(self, scanned: Option<(u32, u32)>) -> (r: Option<
        Result<NoteLookup<'a>, Error>,
    >)
        requires
            self.well_formed(),
        ensures
            match scanned {
                None => r matches Some(Err(Error::ScanRequired)),
                Some((min_height, max_height)) => if max_height == u32::MAX || !in_money_range(
                    self.payment().needed(),
                ) {
                    r is None
                } else {
                    &&& r matches Some(Ok(next))
                    &&& next.well_formed()
                    &&& next.payment() == self.payment()
                    &&& next.target_height() == target_height(max_height as int)
                    &&& next.criteria() == (Criteria {
                        account: self.payment().account as i64,
                        anchor_height: anchor_height(min_height as int, max_height as int) as i64,
                        target_value: self.payment().needed() as i64,
                    })
                },
            },
            match scanned {
                Some((min_height, max_height)) => max_height < u32::MAX && self.payment().value
                    + DEFAULT_FEE <= MAX_MONEY ==> {
                    &&& r matches Some(Ok(next))
                    &&& next.criteria().account == self.payment().account
                    &&& next.criteria().target_value == self.payment().value + DEFAULT_FEE
                    &&& next.target_height() == max_height + 1
                },
                None => true,
            },
    {
        if let Some((_, max_height)) = scanned {
            if max_height == u32::MAX {
                return None;
            }
        }
        match get_target_and_anchor_heights(scanned) {
            Err(e) => Some(Err(e)),
            Ok((target_height, anchor_height)) => {
                if self.payment.value > MAX_MONEY - DEFAULT_FEE {
                    return None;
                }
                let target_value: i64 = target_value(self.payment.value);
                Some(
                    Ok(
                        NoteLookup {
                            payment: self.payment,
                            extfvk: self.extfvk,
                            target_height,
                            anchor_height,
                            target_value,
                        },
                    ),
                )
            },
        }
    }
}

/// The values of the notes.
fn values_of(notes: &Vec<SelectedNoteRow>) -> (values: Vec<u64>)
    ensures
        values@ == note_values(note_views(notes@)),
{
    let mut values: Vec<u64> = Vec::new();
    let mut i: usize = 0;
    while i < notes.len()
        invariant
            i <= notes@.len(),
            values@.len() == i,
            forall|k: int| 0 <= k < i ==> values@[k] == (#[trigger] notes@[k]).value,
        decreases notes@.len() - i,
    {
        values.push(notes[i].value);
        i = i + 1;
    }
    assert(values@ =~= note_values(note_views(notes@)));
    values
}

/// An empty builder for a transaction on `network` targeted at `height`.
pub open spec fn empty_builder(network: Network, height: u32) -> BuilderView {
    BuilderView {
        network,
        target_height: height,
        anchor: Seq::empty(),
        spends: Seq::empty(),
        outputs: Seq::empty(),
        transparent_outputs: Seq::empty(),
    }
}

impl<'a> NoteLookup<'a> {
    /// The payment.
    pub closed spec fn payment(&self) -> Payment<'a> {
        self.payment
    }

    /// The height that the transaction targets.
    pub closed spec fn target_height(&self) -> u32 {
        self.target_height
    }

    /// What the payment asks of the notes.
    pub closed spec fn criteria(&self) -> Criteria {
        Criteria {
            account: self.payment.account as i64,
            anchor_height: self.anchor_height as i64,
            target_value: self.target_value,
        }
    }

    /// The viewing key is that of the payment, and the target value is what it needs.
    pub closed spec fn well_formed(&self) -> bool {
        &&& self.payment.well_formed()
        &&& self.extfvk == self.payment.extfvk()
        &&& in_money_range(self.payment.needed())
        &&& self.target_value == self.payment.needed()
    }

    /// The height at which the witnesses are needed.
    pub fn anchor_height(&self) -> (height: u32)
        ensures
            height == self.criteria().anchor_height,
    {
        self.anchor_height
    }

    /// What the payment asks of the notes, in executable form.
    fn asked(&self) -> (c: Criteria)
        ensures
            c == self.criteria(),
    {
        Criteria {
            account: self.payment.account as i64,
            anchor_height: self.anchor_height as i64,
            target_value: self.target_value,
        }
    }

    /// Whether the payment asks for a note of this account, spent by this transaction and
    /// mined at this height. The rows of other notes need not be looked up.
    pub fn asks_for(&self, account: i64, spent: Option<i64>, block: Option<i64>) -> (r: bool)
        ensures
            r == may_be_spent(account, spent, block, self.criteria()),
            r == (account == self.payment().account && spent is None && (block matches Some(height)
                && height <= self.criteria().anchor_height)),
    {
        is_available(account, spent, block, &self.asked())
    }

    /// Selects the notes that fund the payment among those received, and confirms that
    /// they suffice. Notes and witnesses that the payment does not ask for may be among
    /// them. `None` where a stored note is not a note of the account, where the values do not
    /// add up within 64 bits, or where the transaction's expiry height would not fit 32 bits.
    pub fn notes_found(self, table: &NoteTable, witnesses: &Vec<NoteWitness>) -> (r: Option<
        Result<Spending<'a>, Error>,
    >)
        requires
            self.well_formed(),
        ensures
            if total_overflows(table@, self.criteria()) {
                r matches Some(Err(Error::IntegerOverflow))
            } else {
                match gather(
                    row_outcomes(
                        self.payment().extfvk(),
                        table@,
                        witnesses@,
                        funding(table@, witnesses@, self.criteria()),
                    ),
                ) {
                    Err(RowOutcome::NoSuchNote) => r is None,
                    Err(failure) => r matches Some(Err(e)) && reports(e, failure),
                    Ok(views) => {
                        let have = total(note_values(views));
                        let need = as_unsigned(self.criteria().target_value);
                        if have > u64::MAX {
                            r is None
                        } else if have < need {
                            r matches Some(Err(Error::InsufficientBalance(h, n))) && h == have && n
                                == need
                        } else if self.target_height() + EXPIRY_DELTA > u32::MAX {
                            r is None
                        } else {
                            &&& r matches Some(Ok(next))
                            &&& next.well_formed()
                            &&& next.payment() == self.payment()
                            &&& next.remaining() == views
                            &&& all_received(
                                self.payment().extfvk(),
                                table@,
                                funding(table@, witnesses@, self.criteria()),
                                views,
                            )
                            &&& next.builder() == empty_builder(
                                self.payment().network,
                                self.target_height(),
                            )
                        }
                    },
                }
            },
            self.payment().value >= -DEFAULT_FEE ==> match r {
                Some(Err(Error::InsufficientBalance(have, need))) => have < need && need
                    == self.payment().value + DEFAULT_FEE,
                Some(Ok(next)) => total(note_values(next.remaining())) >= self.payment().value
                    + DEFAULT_FEE,
                _ => true,
            },
    {
        let criteria = self.asked();
        let pairs = match find_funding(table, witnesses, &criteria) {
            Ok(pairs) => pairs,
            Err(e) => {
                return Some(Err(e));
            },
        };
        let notes = match decode_notes(&self.extfvk, table, witnesses, &pairs) {
            None => {
                return None;
            },
            Some(Err(e)) => {
                return Some(Err(e));
            },
            Some(Ok(notes)) => notes,
        };
        let values = values_of(&notes);
        match confirm_balance(&values, self.target_value) {
            None => {
                return None;
            },
            Some(Err(e)) => {
                return Some(Err(e));
            },
            Some(Ok(())) => {},
        }
        if self.target_height > u32::MAX - EXPIRY_DELTA {
            return None;
        }
        Some(
            Ok(
                Spending {
                    payment: self.payment,
                    extfvk: self.extfvk,
                    target_height: self.target_height,
                    notes,
                    spent: 0,
                    begun: None,
                },
            ),
        )
    }
}

/// Each note has the value stated beside it.
pub open spec fn have_their_values(views: Seq<SelectedNoteView>) -> bool {
    forall|i: int|
        #![trigger views[i]]
        0 <= i < views.len() ==> note_value(views[i].note) == views[i].value
}

/// The notes of a payment are asked to come to its value and the fee, and to be those of its
/// account.
pub proof fn target_is_value_and_fee(lookup: NoteLookup)
    requires
        lookup.well_formed(),
    ensures
        lookup.criteria().account == lookup.payment().account,
        lookup.criteria().target_value == lookup.payment().value + DEFAULT_FEE,
        lookup.payment().value >= -DEFAULT_FEE ==> as_unsigned(lookup.criteria().target_value)
            == lookup.payment().value + DEFAULT_FEE,
{
}

/// What comes of adding notes to a transaction.
pub enum SpendOutcome {
    /// The transaction with the notes added.
    Added(BuilderView),
    /// The builder refuses a note.
    Refused(BuilderError),
    /// The parts of a note's witness do not fit together.
    BrokenWitness,
    /// The notes hold more than there is money.
    ExceedsSupply,
}

/// The note's path leads to the same root as that of the first note being spent, where
/// there is one.
pub open spec fn anchor_agrees(b: BuilderView, note: Note, path: MerklePath<Node, 32>) -> bool {
    b.spends.len() == 0 || path_root(note, path) == b.anchor
}

/// What comes of adding the note `selected` to the transaction `b`.
pub open spec fn spend_outcome(
    b: BuilderView,
    extsk: ExtendedSpendingKey,
    selected: SelectedNoteView,
) -> SpendOutcome {
    if !fits(witness_parts(selected.witness)) {
        SpendOutcome::BrokenWitness
    } else {
        match witness_path(selected.witness) {
            None => SpendOutcome::Refused(BuilderError::InvalidWitness),
            Some(path) => if !anchor_agrees(b, selected.note, path) {
                SpendOutcome::Refused(BuilderError::AnchorMismatch)
            } else if selected.value > MAX_MONEY {
                SpendOutcome::Refused(BuilderError::InvalidAmount)
            } else if spent_value(b.spends) + selected.value > MAX_MONEY {
                SpendOutcome::ExceedsSupply
            } else {
                SpendOutcome::Added(
                    BuilderView {
                        anchor: path_root(selected.note, path),
                        spends: b.spends.push(SpendView { extsk, note: selected.note, path }),
                        ..b
                    },
                )
            },
        }
    }
}

/// What comes of adding the notes in order.
pub open spec fn spend_outcomes(
    b: BuilderView,
    extsk: ExtendedSpendingKey,
    notes: Seq<SelectedNoteView>,
) -> SpendOutcome
    decreases notes.len(),
{
    if notes.len() == 0 {
        SpendOutcome::Added(b)
    } else {
        match spend_outcomes(b, extsk, notes.drop_last()) {
            SpendOutcome::Added(so_far) => spend_outcome(so_far, extsk, notes.last()),
            failure => failure,
        }
    }
}

/// Where the first `k` notes cannot be added, nothing after them changes the outcome.
pub proof fn lemma_first_refusal_stands(
    b: BuilderView,
    extsk: ExtendedSpendingKey,
    notes: Seq<SelectedNoteView>,
    k: int,
)
    requires
        0 <= k <= notes.len(),
        !(spend_outcomes(b, extsk, notes.take(k)) is Added),
    ensures
        spend_outcomes(b, extsk, notes) == spend_outcomes(b, extsk, notes.take(k)),
    decreases notes.len() - k,
{
    if k < notes.len() {
        assert(notes.take(k + 1).drop_last() =~= notes.take(k));
        lemma_first_refusal_stands(b, extsk, notes, k + 1);
    } else {
        assert(notes.take(k) =~= notes);
    }
}

/// What the spends hold beyond the payment and the fee.
pub open spec fn change(payment: Payment, spends: Seq<SpendView>) -> int {
    spent_value(spends) - payment.value - DEFAULT_FEE
}

/// The shielded outputs of the transaction for a payment: the payment, where it is to a
/// shielded address, and the change, where there is any, to the address that received the
/// oldest note spent.
pub open spec fn shielded_outputs(payment: Payment, spends: Seq<SpendView>) -> Seq<OutputView> {
    let paid = match *payment.to {
        RecipientAddress::Shielded(to) => seq![
            OutputView {
                extfvk: payment.extfvk(),
                to,
                value: payment.value,
                memo: memo_view(payment.memo),
            },
        ],
        RecipientAddress::Transparent(_) => Seq::empty(),
    };
    if change(payment, spends) > 0 {
        paid.push(
            OutputView {
                extfvk: payment.extfvk(),
                to: note_recipient(spends[0].note),
                value: change(payment, spends) as i64,
                memo: None,
            },
        )
    } else {
        paid
    }
}

/// The transparent outputs of the transaction for a payment.
pub open spec fn transparent_outputs(payment: Payment) -> Seq<(TransparentAddress, i64)> {
    match *payment.to {
        RecipientAddress::Shielded(_) => Seq::empty(),
        RecipientAddress::Transparent(to) => seq![(to, payment.value)],
    }
}

/// The transaction that pays: the spends of `b`, the payment, and the change.
pub open spec fn paying(payment: Payment, b: BuilderView) -> BuilderView {
    BuilderView {
        outputs: shielded_outputs(payment, b.spends),
        transparent_outputs: transparent_outputs(payment),
        ..b
    }
}

/// The two hold the same bytes.
fn same_bytes(a: &[u8; 32], b: &[u8; 32]) -> (same: bool)
    ensures
        same == (a@ == b@),
{
    let mut i: usize = 0;
    while i < 32
        invariant
            i <= 32,
            forall|k: int| 0 <= k < i ==> a@[k] == b@[k],
        decreases 32 - i,
    {
        if a[i] != b[i] {
            assert(a@[i as int] != b@[i as int]);
            return false;
        }
        i = i + 1;
    }
    assert(a@ =~= b@);
    true
}

impl<'a> Spending<'a> {
    /// The payment.
    pub closed spec fn payment(&self) -> Payment<'a> {
        self.payment
    }

    /// The notes that have not been added yet.
    pub closed spec fn remaining(&self) -> Seq<SelectedNoteView> {
        note_views(self.notes@)
    }

    /// The transaction so far.
    pub closed spec fn builder(&self) -> BuilderView {
        match self.begun {
            Some(begun) => contents(begun.builder),
            None => empty_builder(self.payment.network, self.target_height),
        }
    }

    /// Only the payment's notes have been added so far, all under its key; together with
    /// those that remain they cover what it needs.
    pub closed spec fn well_formed(&self) -> bool {
        &&& self.payment.well_formed()
        &&& self.extfvk == self.payment.extfvk()
        &&& have_their_values(self.remaining())
        &&& self.begun is Some == (self.builder().spends.len() > 0)
        &&& self.begun matches Some(begun) ==> {
            &&& begun.anchor@ == self.builder().anchor
            &&& begun.change_address == note_recipient(self.builder().spends[0].note)
        }
        &&& spent_under(self.builder().spends, *self.payment.extsk)
        &&& self.builder().outputs.len() == 0
        &&& self.builder().transparent_outputs.len() == 0
        &&& self.target_height + EXPIRY_DELTA <= u32::MAX
        &&& self.spent == spent_value(self.builder().spends)
        &&& self.spent <= MAX_MONEY
        &&& self.spent + total(note_values(self.remaining())) >= as_unsigned(
            self.payment.needed() as i64,
        )
        &&& in_money_range(self.payment.needed())
    }

    /// The number of notes that have not been added yet.
    pub fn remaining_notes(&self) -> (n: usize)
        ensures
            n == self.remaining().len(),
    {
        self.notes.len()
    }

    /// Adds the next note to the transaction. `None` where the parts of its witness do not
    /// fit together, or the notes' values exceed the money supply.
    pub fn add_spend(self) -> (r: Option<Result<Spending<'a>, Error>>)
        requires
            self.well_formed(),
            self.remaining().len() > 0,
        ensures
            match spend_outcome(self.builder(), *self.payment().extsk, self.remaining()[0]) {
                SpendOutcome::Added(b) => {
                    &&& r matches Some(Ok(next))
                    &&& next.well_formed()
                    &&& next.payment() == self.payment()
                    &&& next.remaining() == self.remaining().drop_first()
                    &&& next.builder() == b
                },
                SpendOutcome::Refused(cause) => r == Some(
                    Err::<Spending<'a>, Error>(Error::Builder(cause)),
                ),
                SpendOutcome::BrokenWitness | SpendOutcome::ExceedsSupply => r is None,
            },
    {
        let ghost before = self.notes@;
        let ghost given = self.builder();
        let mut notes = self.notes;
        let row = notes.remove(0);
        proof {
            assert(before[0] == row);
            assert(row@ == self.remaining()[0]);
            assert(note_views(notes@) =~= self.remaining().drop_first());
            assert(note_values(self.remaining().drop_first()) =~= note_values(
                self.remaining(),
            ).drop_first());
            lemma_total_of_rest(note_values(self.remaining()));
            assert(have_their_values(note_views(notes@))) by {
                assert forall|i: int|
                    #![trigger note_views(notes@)[i]]
                    0 <= i < notes@.len() implies note_value(note_views(notes@)[i].note)
                    == note_views(notes@)[i].value by {
                    assert(note_views(notes@)[i] == self.remaining()[i + 1]);
                }
            }
        }
        if !parts_fit(&parts(&row.witness)) {
            return None;
        }
        let path = match find_path(&row.witness) {
            Some(path) => path,
            None => {
                return Some(Err(Error::Builder(BuilderError::InvalidWitness)));
            },
        };
        let root = find_root(&row.note, &path);
        if let Some(begun) = &self.begun {
            if !same_bytes(&root, &begun.anchor) {
                return Some(Err(Error::Builder(BuilderError::AnchorMismatch)));
            }
        }
        let value: u64 = row.value;
        if value > MAX_MONEY as u64 {
            return Some(Err(Error::Builder(BuilderError::InvalidAmount)));
        }
        if value > MAX_MONEY as u64 - self.spent {
            return None;
        }
        let mut begun = match self.begun {
            Some(begun) => begun,
            None => {
                let expiry_height: u32 = self.target_height + EXPIRY_DELTA;
                Begun {
                    builder: new_builder(
                        self.payment.network,
                        self.target_height,
                        expiry_height,
                        &row.note,
                        &path,
                    ),
                    anchor: root,
                    change_address: recipient(&row.note),
                }
            },
        };
        let extsk = self.payment.extsk;
        let mut builder = begun.builder;
        if !add_sapling_spend(&mut builder, extsk, row.note, path) {
            return Some(Err(Error::Builder(BuilderError::AnchorMismatch)));
        }
        begun.builder = builder;
        assert(contents(builder).spends.drop_last() =~= given.spends);
        let spent: u64 = self.spent + value;
        Some(
            Ok(
                Spending {
                    payment: self.payment,
                    extfvk: self.extfvk,
                    target_height: self.target_height,
                    notes,
                    spent,
                    begun: Some(begun),
                },
            ),
        )
    }

    /// Adds all notes to the transaction, oldest first, and stops at the first that cannot
    /// be added.
    pub fn add_spends(self) -> (r: Option<Result<Spending<'a>, Error>>)
        requires
            self.well_formed(),
        ensures
            match spend_outcomes(self.builder(), *self.payment().extsk, self.remaining()) {
                SpendOutcome::Added(b) => {
                    &&& r matches Some(Ok(next))
                    &&& next.well_formed()
                    &&& next.payment() == self.payment()
                    &&& next.remaining().len() == 0
                    &&& next.builder() == b
                },
                SpendOutcome::Refused(cause) => r == Some(
                    Err::<Spending<'a>, Error>(Error::Builder(cause)),
                ),
                SpendOutcome::BrokenWitness | SpendOutcome::ExceedsSupply => r is None,
            },
    {
        let ghost b = self.builder();
        let ghost extsk = *self.payment().extsk;
        let ghost views = self.remaining();
        let mut state = self;
        let ghost mut i: int = 0;
        assert(views.take(0) =~= Seq::<SelectedNoteView>::empty());
        assert(views.skip(0) =~= views);
        while state.notes.len() > 0
            invariant
                b == self.builder(),
                extsk == *self.payment().extsk,
                views == self.remaining(),
                0 <= i <= views.len(),
                state.well_formed(),
                state.payment() == self.payment(),
                state.remaining() == views.skip(i),
                spend_outcomes(b, extsk, views.take(i)) == SpendOutcome::Added(state.builder()),
            decreases state.notes@.len(),
        {
            proof {
                assert(state.remaining()[0] == views[i]);
                assert(state.remaining().drop_first() =~= views.skip(i + 1));
                assert(views.take(i + 1).drop_last() =~= views.take(i));
            }
            match state.add_spend() {
                Some(Ok(next)) => {
                    assert(next.remaining().len() == views.len() - i - 1);
                    state = next;
                },
                other => {
                    proof {
                        lemma_first_refusal_stands(b, extsk, views, i + 1);
                    }
                    return other;
                },
            }
            proof {
                i = i + 1;
            }
        }
        assert(views.take(i) =~= views);
        Some(Ok(state))
    }

    /// Adds the payment itself to the transaction, once all notes have been added, and the
    /// change: what the notes hold beyond the value and the fee.
    pub fn add_output(self) -> (r: Result<Building<'a>, Error>)
        requires
            self.well_formed(),
            self.remaining().len() == 0,
        ensures
            match r {
                Ok(next) => {
                    &&& self.payment().value >= 0
                    &&& next.well_formed()
                    &&& next.payment() == self.payment()
                    &&& next.builder() == paying(self.payment(), self.builder())
                    &&& 0 <= change(self.payment(), self.builder().spends) <= MAX_MONEY
                    &&& spent_value(self.builder().spends) == self.payment().value + DEFAULT_FEE
                        + change(self.payment(), self.builder().spends)
                    &&& fee(next.builder()) == DEFAULT_FEE
                },
                Err(e) => e == Error::Builder(BuilderError::InvalidAmount) && self.payment().value
                    < 0,
            },
            r is Ok == (self.payment().value >= 0),
    {
        let payment = self.payment;
        if payment.value < 0 {
            return Err(Error::Builder(BuilderError::InvalidAmount));
        }
        let ghost before = self.builder();
        assert(before.outputs =~= Seq::<OutputView>::empty());
        assert(before.transparent_outputs =~= Seq::<(TransparentAddress, i64)>::empty());
        assert(total(note_values(self.remaining())) == 0);
        assert(before.spends.len() > 0) by {
            if before.spends.len() == 0 {
                assert(spent_value(before.spends) == 0);
            }
        }
        let begun = match self.begun {
            Some(begun) => begun,
            None => {
                return Err(Error::Builder(BuilderError::InvalidAmount));
            },
        };
        let mut builder = begun.builder;
        assert(output_value(before.outputs) == 0);
        match payment.to {
            RecipientAddress::Shielded(to) => {
                add_sapling_output(&mut builder, &self.extfvk, to, payment.value, payment.memo);
                proof {
                    let outputs = contents(builder).outputs;
                    assert(outputs.drop_last() =~= before.outputs);
                    assert(output_value(outputs) == payment.value);
                }
            },
            RecipientAddress::Transparent(to) => {
                add_transparent_output(&mut builder, to, payment.value);
            },
        }
        let ghost paid = contents(builder);
        proof {
            assert(paid.transparent_outputs =~= transparent_outputs(payment));
            lemma_one_transparent_output(payment);
        }
        let change: i64 = self.spent as i64 - payment.value - DEFAULT_FEE;
        if change > 0 {
            add_sapling_output(&mut builder, &self.extfvk, &begun.change_address, change, None);
            proof {
                assert(contents(builder).outputs.drop_last() =~= paid.outputs);
            }
        }
        assert(contents(builder).outputs =~= shielded_outputs(payment, before.spends));
        Ok(Building { payment, builder })
    }
}

/// The transparent outputs of a payment hold its value where it is to a transparent address.
proof fn lemma_one_transparent_output(payment: Payment)
    ensures
        transparent_value(transparent_outputs(payment)) == match *payment.to {
            RecipientAddress::Shielded(_) => 0int,
            RecipientAddress::Transparent(_) => payment.value as int,
        },
{
    let outputs = transparent_outputs(payment);
    if outputs.len() > 0 {
        assert(outputs.drop_last() =~= Seq::<(TransparentAddress, i64)>::empty());
        assert(transparent_value(outputs.drop_last()) == 0);
    }
}

impl<'a> Building<'a> {
    /// The payment.
    pub closed spec fn payment(&self) -> Payment<'a> {
        self.payment
    }

    /// The transaction to be built.
    pub closed spec fn builder(&self) -> BuilderView {
        contents(self.builder)
    }

    /// The notes are spent under the payment's key, and hold the outputs and the fee.
    pub closed spec fn well_formed(&self) -> bool {
        &&& self.builder().spends.len() > 0
        &&& spent_under(self.builder().spends, *self.payment.extsk)
        &&& self.builder().outputs.len() <= 2
        &&& 0 <= value_balance(self.builder()) <= MAX_MONEY
        &&& fee(self.builder()) == DEFAULT_FEE
    }

    /// Builds the transaction, with proofs by the provers, who decide whether it can be.
    /// `None` where the transaction has no shielded output to record: the payment is to a
    /// transparent address, and there is no change.
    pub fn build<S: SpendProver, O: OutputProver>(self, spend_prover: &S, output_prover: &O) -> (r:
        Option<Result<Recording<'a>, Error>>)
        requires
            self.well_formed(),
        ensures
            match r {
                Some(Ok(next)) => {
                    &&& next.payment() == self.payment()
                    &&& self.builder().outputs.len() > 0
                    &&& pays(next.tx(), self.builder())
                    &&& recovers(next.tx(), next.output_index(), self.builder(), 0)
                },
                Some(Err(e)) => e matches Error::Builder(cause) && cause is Failed,
                None => self.builder().outputs.len() == 0,
            },
    {
        let ghost b = contents(self.builder);
        let fixed_fee: u64 = DEFAULT_FEE as u64;
        let built = build_transaction(
            self.builder,
            self.payment.extsk,
            fixed_fee,
            spend_prover,
            output_prover,
        );
        proof {
            assert(spend_nullifiers(b.spends) =~= b.spends.map_values(
                |s: SpendView| spend_nullifier(s.extsk, s.note, s.path),
            ));
            if built is Ok {
                let tx = built->Ok_0.0;
                let metadata = built->Ok_0.1;
                assert forall|n: int|
                    #![trigger b.outputs[n]]
                    0 <= n < b.outputs.len() implies exists|index: usize|
                    #[trigger] recovers(tx, index, b, n) by {
                    assert(recovers(tx, output_position(metadata, n as usize)->0, b, n));
                }
            }
        }
        transaction_built(self.payment, built)
    }
}

/// The transaction's shielded output at `index` is the `n`-th that the builder was given: it
/// can be recovered with the viewing key that it was added under.
pub open spec fn recovers(tx: Transaction, index: usize, b: BuilderView, n: int) -> bool {
    &&& index < tx_output_count(tx)
    &&& recovered_output(tx, index, b.network, b.target_height, b.outputs[n].extfvk) == Some(
        recoverable_part(b.outputs[n]),
    )
}

/// The transaction does what the builder was given: it reveals the nullifiers of the notes,
/// makes the outputs, leaves the fee, expires in time, and can be serialised.
pub open spec fn pays(tx: Transaction, b: BuilderView) -> bool {
    &&& tx_nullifiers(tx).to_multiset() == spend_nullifiers(b.spends).to_multiset()
    &&& tx_transparent_outputs(tx) == b.transparent_outputs
    &&& tx_value_balance(tx) == DEFAULT_FEE + transparent_value(b.transparent_outputs)
    &&& tx_output_count(tx) == if b.outputs.len() < 2 {
        2
    } else {
        b.outputs.len()
    }
    &&& forall|n: int|
        #![trigger b.outputs[n]]
        0 <= n < b.outputs.len() ==> exists|index: usize| #[trigger] recovers(tx, index, b, n)
    &&& tx_expiry(tx) == b.target_height + EXPIRY_DELTA
    &&& tx_bytes(tx) is Some
}

/// Goes on with the outcome of building the transaction. `None` where the transaction has
/// no shielded output.
pub fn transaction_built<'a>(
    payment: Payment<'a>,
    built: Result<(Transaction, SaplingMetadata), BuilderError>,
) -> (r: Option<Result<Recording<'a>, Error>>)
    ensures
        match built {
            Err(cause) => r == Some(Err::<Recording<'a>, Error>(Error::Builder(cause))),
            Ok((tx, metadata)) => match output_position(metadata, 0) {
                None => r is None,
                Some(index) => {
                    &&& r matches Some(Ok(next))
                    &&& next.payment() == payment
                    &&& next.tx() == tx
                    &&& next.output_index() == index
                },
            },
        },
{
    match built {
        Err(cause) => Some(Err(Error::Builder(cause))),
        Ok((tx, metadata)) => match output_index(&metadata, 0) {
            Some(output_index) => Some(Ok(Recording { payment, tx, output_index })),
            None => None,
        },
    }
}

impl<'a> Recording<'a> {
    /// The payment.
    pub closed spec fn payment(&self) -> Payment<'a> {
        self.payment
    }

    /// The transaction to be stored.
    pub closed spec fn tx(&self) -> Transaction {
        self.tx
    }

    /// The position of the payment among the transaction's shielded outputs.
    pub closed spec fn output_index(&self) -> usize {
        self.output_index
    }

    /// The statements that start storing the transaction; the second gives its row index.
    /// Fails where the transaction cannot be serialised.
    pub fn opening(&self) -> (r: Result<Vec<Statement>, Error>)
        ensures
            match tx_bytes(self.tx()) {
                Some(raw) => r matches Ok(statements) && statement_views(statements@)
                    == opening_statements(self.tx(), raw),
                None => r matches Err(Error::Io(_)),
            },
    {
        let raw = match transaction_bytes(&self.tx) {
            Ok(raw) => raw,
            Err(e) => {
                return Err(Error::Io(e));
            },
        };
        let txid = transaction_id(&self.tx);
        let expiry_height: u32 = transaction_expiry(&self.tx);
        let mut statements: Vec<Statement> = Vec::new();
        statements.push(Statement::Begin);
        statements.push(Statement::InsertTransaction(TransactionRow { txid, expiry_height, raw }));
        assert(statement_views(statements@) =~= opening_statements(
            self.tx,
            tx_bytes(self.tx)->0,
        ));
        Ok(statements)
    }

    /// The statements that complete storing the transaction, once it has the row index
    /// `id_tx`, which is what the payment comes to.
    pub fn closing(self, id_tx: i64) -> (r: (Vec<Statement>, i64))
        ensures
            statement_views(r.0@) == closing_statements(
                self.payment(),
                self.tx(),
                self.output_index(),
                id_tx,
            ),
            r.1 == id_tx,
    {
        let address = match self.payment.to {
            RecipientAddress::Shielded(to) => encode_shielded(self.payment.network, to),
            RecipientAddress::Transparent(to) => encode_transparent(self.payment.network, to),
        };
        let nullifiers = transaction_nullifiers(&self.tx);
        let mut statements = mark_spent(&nullifiers, id_tx);
        let ghost marked = statement_views(statements@);
        statements.push(
            Statement::InsertSentNote(
                SentNoteRow {
                    tx: id_tx,
                    output_index: self.output_index as i64,
                    from_account: self.payment.account,
                    address,
                    value: self.payment.value,
                    memo: self.payment.memo,
                },
            ),
        );
        statements.push(Statement::Commit);
        assert(statement_views(statements@) =~= closing_statements(
            self.payment(),
            self.tx(),
            self.output_index(),
            id_tx,
        ));
        (statements, id_tx)
    }
}

/// The statements that start storing a transaction: a database transaction begins, and the
/// row of `tx` is inserted, with its bytes `raw`.
pub open spec fn opening_statements(tx: Transaction, raw: Seq<u8>) -> Seq<StatementView> {
    seq![
        StatementView::Begin,
        StatementView::InsertTransaction {
            txid: tx_id(tx),
            expiry_height: tx_expiry(tx),
            raw,
        },
    ]
}

/// The statements that complete storing a transaction: the notes it spends are marked as
/// spent by it, the sent note is inserted, and the database transaction is committed.
pub open spec fn closing_statements(
    payment: Payment,
    tx: Transaction,
    output_index: usize,
    id_tx: i64,
) -> Seq<StatementView> {
    marks(tx_nullifiers(tx), id_tx).push(
        StatementView::InsertSentNote {
            tx: id_tx,
            output_index: output_index as i64,
            from_account: payment.account,
            address: address_text(payment.network, *payment.to),
            value: payment.value,
            memo: memo_view(payment.memo),
        },
    ).push(StatementView::Commit)
}

} // verus!
