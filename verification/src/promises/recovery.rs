//! Recovering the notes from their rows, and what is reported where that fails.

use crate::amount::as_unsigned;
use crate::decode::{
    gather, note_values, note_views, reports, row_outcome, row_outcomes, RowOutcome,
    SelectedNoteRow, SelectedNoteView,
};
use crate::error::{decimal, digit, error_text, BuilderError, Error};
use crate::keys::{created_note, diversified_address, le_integer, unexpected_eof};
use crate::notes::{NoteWitness, ReceivedNote};
use crate::witness::{
    absent, absent_after, fits, parsed_witness, witness_front, Parts, PartsView,
};
use sapling_crypto::zip32::ExtendedFullViewingKey;
use vstd::prelude::*;

verus! {

/// A witness is read from the front of the stored bytes: from all of them, or from so many of
/// the first that any tree's witness stands there whole.
pub proof fn witnesses_are_read_from_the_front(bytes: Seq<u8>)
    ensures
        bytes.len() <= 7_167 ==> witness_front(bytes) == bytes,
        bytes.len() > 7_167 ==> witness_front(bytes).len() == 7_167,
        forall|i: int|
            #![trigger witness_front(bytes)[i]]
            0 <= i < witness_front(bytes).len() ==> witness_front(bytes)[i] == bytes[i],
{
}

/// A row is decoded if, and only if, its diversifier has eleven bytes and an address, its
/// commitment randomness starts with 32 bytes below the order of the group, and a witness can
/// be read. The note is then the one made for that address, the row's value and those 32
/// bytes, unchanged, so that it has the commitment and the nullifier of the note received.
pub proof fn decoded_note_is_the_one_stored(
    extfvk: ExtendedFullViewingKey,
    row: ReceivedNote,
    w: NoteWitness,
)
    ensures
        row_outcome(extfvk, row, w) is Row <==> {
            &&& row.diversifier@.len() == 11
            &&& row.rcm@.len() >= 32
            &&& le_integer(row.rcm@.take(32))
                < 0x0e7db4ea6533afa906673b0101343b00a6682093ccc81082d0970e5ed6f72cb7nat
            &&& diversified_address(extfvk, row.diversifier@) is Some
            &&& parsed_witness(witness_front(w.witness@)) is Some
        },
        row_outcome(extfvk, row, w) matches RowOutcome::Row(view) ==> {
            &&& diversified_address(extfvk, row.diversifier@) matches Some(address) && view.note
                == created_note(address, view.value, row.rcm@.take(32))
            &&& parsed_witness(witness_front(w.witness@)) == Some(view.witness)
            &&& row.value >= 0 ==> view.value == row.value
            &&& row.value < 0 ==> view.value == row.value + 0x1_0000_0000_0000_0000
        },
{
    assert(0 <= as_unsigned(row.value) <= u64::MAX);
}

/// Where a row is not decoded, the outcome says what is wrong with it: the first of the
/// length of its diversifier, the length and the size of its commitment randomness, its
/// address, and its witness.
pub proof fn undecoded_rows_say_why(
    extfvk: ExtendedFullViewingKey,
    row: ReceivedNote,
    w: NoteWitness,
)
    ensures
        row.diversifier@.len() != 11 ==> row_outcome(extfvk, row, w) is WrongDiversifierLength,
        row.diversifier@.len() == 11 && row.rcm@.len() < 32 ==> row_outcome(
            extfvk,
            row,
            w,
        ) is ShortRcm,
        row.diversifier@.len() == 11 && row.rcm@.len() >= 32 ==> {
            let scalar = le_integer(row.rcm@.take(32))
                < 0x0e7db4ea6533afa906673b0101343b00a6682093ccc81082d0970e5ed6f72cb7nat;
            let address = diversified_address(extfvk, row.diversifier@);
            &&& !scalar ==> row_outcome(extfvk, row, w) is NotAScalar
            &&& scalar && address is None ==> row_outcome(extfvk, row, w) is NoSuchNote
            &&& scalar && address is Some && parsed_witness(witness_front(w.witness@)) is None
                ==> row_outcome(extfvk, row, w) is UnreadableWitness
        },
{
}

/// Each failure of a row has the error of its own kind, and rows that no scan stores have
/// none.
pub proof fn failures_are_reported_by_kind(e: Error, view: SelectedNoteView)
    ensures
        reports(e, RowOutcome::WrongDiversifierLength) <==> (e matches Error::CorruptedData(reason)
            && reason@ == "Invalid diversifier length"@),
        reports(e, RowOutcome::ShortRcm) <==> (e matches Error::Io(cause) && unexpected_eof(cause)),
        reports(e, RowOutcome::NotAScalar) <==> e is InvalidNote,
        reports(e, RowOutcome::UnreadableWitness) <==> e is Io,
        !reports(e, RowOutcome::NoSuchNote),
        !reports(e, RowOutcome::Row(view)),
{
}

/// The outcomes are those of the rows and witnesses at the given positions, one for one.
pub proof fn rows_are_decoded_one_for_one(
    extfvk: ExtendedFullViewingKey,
    rows: Seq<ReceivedNote>,
    ws: Seq<NoteWitness>,
    pairs: Seq<(int, int)>,
)
    ensures
        row_outcomes(extfvk, rows, ws, pairs).len() == pairs.len(),
        forall|i: int|
            #![trigger row_outcomes(extfvk, rows, ws, pairs)[i]]
            0 <= i < pairs.len() ==> row_outcomes(extfvk, rows, ws, pairs)[i] == row_outcome(
                extfvk,
                rows[pairs[i].0],
                ws[pairs[i].1],
            ),
{
}

/// The notes are gathered where every row describes one: all of them, in order. Otherwise
/// the first row that describes none decides.
pub proof fn first_undecoded_row_decides(outcomes: Seq<RowOutcome>)
    ensures
        match gather(outcomes) {
            Ok(views) => {
                &&& views.len() == outcomes.len()
                &&& forall|i: int|
                    #![trigger views[i]]
                    #![trigger outcomes[i]]
                    0 <= i < views.len() ==> outcomes[i] == RowOutcome::Row(views[i])
            },
            Err(failure) => {
                &&& !(failure is Row)
                &&& exists|k: int|
                    0 <= k < outcomes.len() && #[trigger] outcomes[k] == failure && forall|i: int|
                        0 <= i < k ==> (#[trigger] outcomes[i]) is Row
            },
        },
    decreases outcomes.len(),
{
    if outcomes.len() > 0 {
        let front = outcomes.drop_last();
        let n = front.len() as int;
        first_undecoded_row_decides(front);
        assert(outcomes[n] == outcomes.last());
        match gather(front) {
            Ok(views) => {
                assert forall|i: int| 0 <= i < n implies (#[trigger] outcomes[i])
                    == RowOutcome::Row(views[i]) by {
                    assert(front[i] == outcomes[i]);
                }
            },
            Err(failure) => {
                let k = choose|k: int|
                    0 <= k < front.len() && #[trigger] front[k] == failure && forall|i: int|
                        0 <= i < k ==> (#[trigger] front[i]) is Row;
                assert(outcomes[k] == failure);
                assert forall|i: int| 0 <= i < k implies (#[trigger] outcomes[i]) is Row by {
                    assert(front[i] == outcomes[i]);
                }
            },
        }
    }
}

/// A note about to be spent is seen as it is, and its value is the one that counts.
pub proof fn selected_notes_are_seen_as_they_are(notes: Seq<SelectedNoteRow>)
    ensures
        note_views(notes).len() == notes.len(),
        note_values(note_views(notes)).len() == notes.len(),
        forall|i: int|
            #![trigger notes[i]]
            0 <= i < notes.len() ==> {
                &&& note_views(notes)[i].value == notes[i].value
                &&& note_views(notes)[i].note == notes[i].note
                &&& note_views(notes)[i].witness == notes[i].witness
                &&& note_values(note_views(notes))[i] == notes[i].value
            },
{
}

/// The parts of a witness are seen as they are.
pub proof fn parts_are_seen_as_they_are(parts: Parts)
    ensures
        parts@.slots == parts.slots@,
        parts@.filled == parts.filled,
        parts@.cursor == parts.cursor,
{
}

/// Little-endian bytes: the first counts as it is, and each further one counts 256 times as
/// much as the one before.
pub proof fn later_bytes_weigh_more(first: u8, rest: Seq<u8>)
    ensures
        le_integer(Seq::<u8>::empty()) == 0,
        le_integer(seq![first] + rest) == first + 256 * le_integer(rest),
{
    assert((seq![first] + rest).skip(1) =~= rest);
}

/// The nodes that are absent from two stretches are those absent from each.
pub proof fn absent_nodes_add_up(a: Seq<bool>, b: Seq<bool>)
    ensures
        absent(a + b) == absent(a) + absent(b),
        absent(Seq::<bool>::empty()) == 0,
        absent(seq![true]) == 0,
        absent(seq![false]) == 1,
    decreases b.len(),
{
    assert(seq![true].drop_last() =~= Seq::<bool>::empty());
    assert(seq![false].drop_last() =~= Seq::<bool>::empty());
    assert(absent(Seq::<bool>::empty()) == 0);
    if b.len() == 0 {
        assert(a + b =~= a);
    } else {
        assert((a + b).drop_last() =~= a + b.drop_last());
        absent_nodes_add_up(a, b.drop_last());
    }
}

proof fn lemma_absent_after_bounds(slots: Seq<bool>, skip: int, i: int)
    requires
        0 <= skip,
        0 <= i <= slots.len(),
    ensures
        0 <= absent(slots) <= slots.len(),
        absent(slots.take(i)) <= absent(slots),
        skip < absent(slots) ==> 0 <= absent_after(slots, skip) < slots.len(),
        skip >= absent(slots) ==> absent_after(slots, skip) == slots.len() + skip - absent(slots),
        absent_after(slots, skip) >= i <==> absent(slots.take(i)) <= skip,
    decreases slots.len(),
{
    if slots.len() > 0 {
        let front = slots.drop_last();
        if i == slots.len() {
            assert(slots.take(i) =~= slots);
            lemma_absent_after_bounds(front, skip, i - 1);
        } else {
            assert(slots.take(i) =~= front.take(i));
            lemma_absent_after_bounds(front, skip, i);
        }
    } else {
        assert(slots.take(i) =~= slots);
    }
}

/// The parts of a witness fit together where no subtree is being filled now; where at least
/// one is missing above the leaves once the completed ones have taken their places; and where
/// the completed ones take all places, as long as the next lies no higher than one level
/// above a tree of 32 levels. Otherwise they do not.
pub proof fn unfinished_subtrees_fit_above_the_leaves(parts: PartsView)
    requires
        2 <= parts.slots.len() <= 33,
    ensures
        !parts.cursor ==> fits(parts),
        parts.cursor && parts.filled < absent(parts.slots) ==> (fits(parts) <==> absent(
            parts.slots.take(2),
        ) <= parts.filled),
        parts.cursor && parts.filled >= absent(parts.slots) ==> (fits(parts)
            <==> parts.slots.len() + parts.filled - absent(parts.slots) <= 34),
{
    lemma_absent_after_bounds(parts.slots, parts.filled as int, 2);
}

/// The number that decimal digits stand for.
pub open spec fn number(digits: Seq<char>) -> int
    decreases digits.len(),
{
    if digits.len() == 0 {
        0
    } else {
        10 * number(digits.drop_last()) + (digits.last() as int - '0' as int)
    }
}

/// Numbers are written in decimal digits, as few as are needed, and can be read back.
pub proof fn decimals_can_be_read_back(n: nat)
    ensures
        number(decimal(n)) == n,
        decimal(n).len() > 0,
        n > 0 ==> decimal(n)[0] != '0',
        n == 0 ==> decimal(n) == seq!['0'],
        forall|i: int|
            #![trigger decimal(n)[i]]
            0 <= i < decimal(n).len() ==> '0' <= decimal(n)[i] <= '9',
    decreases n,
{
    let digits = decimal(n);
    assert(digits.last() == digit(n % 10));
    if n < 10 {
        assert(digits.drop_last() =~= Seq::<char>::empty());
        assert(number(digits.drop_last()) == 0);
    } else {
        decimals_can_be_read_back(n / 10);
        assert(digits.drop_last() =~= decimal(n / 10));
        assert(digits[0] == decimal(n / 10)[0]);
        assert forall|i: int| #![trigger digits[i]] 0 <= i < digits.len() implies '0' <= digits[i]
            <= '9' by {
            if i < digits.len() - 1 {
                assert(digits[i] == decimal(n / 10)[i]);
            }
        }
    }
}

/// The texts that report a refusal name the numbers they are about.
pub proof fn refusals_name_their_numbers(have: u64, need: u64, account: u32, reason: &'static str)
    ensures
        error_text(Error::InsufficientBalance(have, need)) == Some(
            "Insufficient balance (have "@ + decimal(have as nat) + ", need "@ + decimal(
                need as nat,
            ) + " including fee)"@,
        ),
        error_text(Error::InvalidExtSK(account)) == Some(
            "Incorrect ExtendedSpendingKey for account "@ + decimal(account as nat),
        ),
        error_text(Error::CorruptedData(reason)) == Some("Data DB is corrupted: "@ + reason@),
        error_text(Error::IntegerOverflow) == Some("integer overflow"@),
        error_text(Error::InvalidNote) == Some("Invalid note"@),
        error_text(Error::ScanRequired) == Some("Must scan blocks first"@),
        error_text(Error::Builder(BuilderError::AnchorMismatch)) == Some(
            "Anchor mismatch (anchors for all spends must be equal)"@,
        ),
        error_text(Error::Builder(BuilderError::InvalidAmount)) == Some("Invalid amount"@),
        error_text(Error::Builder(BuilderError::InvalidWitness)) == Some("Invalid note witness"@),
{
}

} // verus!
