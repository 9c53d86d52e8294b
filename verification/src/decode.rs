//! From stored rows to notes that can be spent.

use crate::amount::{as_unsigned, to_unsigned};
use crate::error::Error;
use crate::keys::{
    canonical_scalar, create_note, created_note, diversified_address, is_canonical_scalar,
    note_recipient, note_value, payment_address, read_32, unexpected_eof,
};
use crate::notes::{position_pairs, NoteTable, NoteWitness, ReceivedNote};
use crate::witness::{front_of, parsed_witness, read_witness, witness_front};
use incrementalmerkletree::witness::IncrementalWitness;
use sapling_crypto::zip32::ExtendedFullViewingKey;
use sapling_crypto::{Node, Note};
use vstd::prelude::*;

verus! {

/// The length of a diversifier, in bytes.
pub const DIVERSIFIER_LENGTH: usize = 11;

/// A note about to be spent.
pub struct SelectedNoteRow {
    /// The value of `note`, in zatoshis.
    pub value: u64,
    pub note: Note,
    /// The witness of the note at the anchor.
    pub witness: IncrementalWitness<Node, 32>,
}

/// What a `SelectedNoteRow` holds.
#[verifier::ext_equal]
pub struct SelectedNoteView {
    pub value: u64,
    pub note: Note,
    pub witness: IncrementalWitness<Node, 32>,
}

impl View for SelectedNoteRow {
    type V = SelectedNoteView;

    open spec fn view(&self) -> SelectedNoteView {
        SelectedNoteView {
            value: self.value,
            note: self.note,
            witness: self.witness,
        }
    }
}

/// What becomes of a stored row.
pub enum RowOutcome {
    /// The row describes this note.
    Row(SelectedNoteView),
    /// The diversifier has the wrong length.
    WrongDiversifierLength,
    /// The commitment randomness is too short.
    ShortRcm,
    /// The commitment randomness is not a scalar.
    NotAScalar,
    /// The viewing key has no address for the diversifier: the row cannot have come from
    /// decrypting an output with it.
    NoSuchNote,
    /// No witness can be read from the front of the bytes.
    UnreadableWitness,
}

/// What becomes of the note `row` with the witness `w`, under the viewing key `extfvk`.
pub open spec fn row_outcome(
    extfvk: ExtendedFullViewingKey,
    row: ReceivedNote,
    w: NoteWitness,
) -> RowOutcome {
    let value = as_unsigned(row.value) as u64;
    let rcm = row.rcm@.take(32);
    if row.diversifier@.len() != DIVERSIFIER_LENGTH {
        RowOutcome::WrongDiversifierLength
    } else if row.rcm@.len() < 32 {
        RowOutcome::ShortRcm
    } else if !canonical_scalar(rcm) {
        RowOutcome::NotAScalar
    } else {
        match diversified_address(extfvk, row.diversifier@) {
            None => RowOutcome::NoSuchNote,
            Some(address) => match parsed_witness(witness_front(w.witness@)) {
                None => RowOutcome::UnreadableWitness,
                Some(witness) => RowOutcome::Row(
                    SelectedNoteView {
                        value,
                        note: created_note(address, value, rcm),
                        witness,
                    },
                ),
            },
        }
    }
}

/// `e` is the error that reports the outcome `o`.
pub open spec fn reports(e: Error, o: RowOutcome) -> bool {
    match o {
        RowOutcome::WrongDiversifierLength => e matches Error::CorruptedData(reason) && reason@
            == "Invalid diversifier length"@,
        RowOutcome::ShortRcm => e matches Error::Io(cause) && unexpected_eof(cause),
        RowOutcome::NotAScalar => e is InvalidNote,
        RowOutcome::UnreadableWitness => e is Io,
        RowOutcome::Row(_) | RowOutcome::NoSuchNote => false,
    }
}

/// Reads a diversifier out of stored bytes.
pub fn read_diversifier(bytes: &Vec<u8>) -> (r: Result<[u8; 11], Error>)
    ensures
        match r {
            Ok(diversifier) => diversifier@ == bytes@,
            Err(e) => bytes@.len() != DIVERSIFIER_LENGTH && reports(
                e,
                RowOutcome::WrongDiversifierLength,
            ),
        },
        r is Ok == (bytes@.len() == DIVERSIFIER_LENGTH),
{
    if bytes.len() != DIVERSIFIER_LENGTH {
        return Err(Error::CorruptedData("Invalid diversifier length"));
    }
    let mut diversifier: [u8; 11] = [0u8;11];
    let mut i: usize = 0;
    while i < DIVERSIFIER_LENGTH
        invariant
            i <= DIVERSIFIER_LENGTH,
            bytes@.len() == DIVERSIFIER_LENGTH,
            forall|k: int| 0 <= k < i ==> diversifier@[k] == bytes@[k],
        decreases DIVERSIFIER_LENGTH - i,
    {
        diversifier[i] = bytes[i];
        i = i + 1;
    }
    assert(diversifier@ =~= bytes@);
    Ok(diversifier)
}

/// The note has the value stated beside it, and was received at the address that the viewing
/// key has for the diversifier.
pub open spec fn received_at(
    extfvk: ExtendedFullViewingKey,
    diversifier: Seq<u8>,
    view: SelectedNoteView,
) -> bool {
    &&& note_value(view.note) == view.value
    &&& diversified_address(extfvk, diversifier) == Some(note_recipient(view.note))
}

/// Turns a stored row and its witness into a note that can be spent. `None` where the
/// viewing key has no address for the row's diversifier.
pub fn decode_note(extfvk: &ExtendedFullViewingKey, row: &ReceivedNote, w: &NoteWitness) -> (r:
    Option<Result<SelectedNoteRow, Error>>)
    ensures
        match row_outcome(*extfvk, *row, *w) {
            RowOutcome::Row(view) => r matches Some(Ok(selected)) && selected@ == view
                && received_at(*extfvk, row.diversifier@, view),
            RowOutcome::NoSuchNote => r is None,
            failure => r matches Some(Err(e)) && reports(e, failure),
        },
        r matches Some(Ok(selected)) ==> {
            &&& diversified_address(*extfvk, row.diversifier@) matches Some(address)
            &&& selected.note == created_note(address, selected.value, row.rcm@.take(32))
            &&& selected.value == as_unsigned(row.value)
        },
{
    let diversifier = match read_diversifier(&row.diversifier) {
        Ok(diversifier) => diversifier,
        Err(e) => {
            return Some(Err(e));
        },
    };
    let rcm = match read_32(&row.rcm) {
        Ok(rcm) => rcm,
        Err(e) => {
            return Some(Err(Error::Io(e)));
        },
    };
    if !is_canonical_scalar(&rcm) {
        return Some(Err(Error::InvalidNote));
    }
    let value: u64 = to_unsigned(row.value);
    let address = match payment_address(extfvk, diversifier) {
        Some(address) => address,
        None => {
            return None;
        },
    };
    let note = create_note(&address, value, rcm);
    let witness = match read_witness(front_of(&w.witness)) {
        Ok(witness) => witness,
        Err(e) => {
            return Some(Err(Error::Io(e)));
        },
    };
    Some(Ok(SelectedNoteRow { value, note, witness }))
}

/// The notes that the outcomes describe, or the first outcome that describes none.
pub open spec fn gather(outcomes: Seq<RowOutcome>) -> Result<Seq<SelectedNoteView>, RowOutcome>
    decreases outcomes.len(),
{
    if outcomes.len() == 0 {
        Ok(Seq::empty())
    } else {
        match gather(outcomes.drop_last()) {
            Err(failure) => Err(failure),
            Ok(views) => match outcomes.last() {
                RowOutcome::Row(view) => Ok(views.push(view)),
                failure => Err(failure),
            },
        }
    }
}

/// The outcomes of the rows and witnesses at the given positions.
pub open spec fn row_outcomes(
    extfvk: ExtendedFullViewingKey,
    rows: Seq<ReceivedNote>,
    ws: Seq<NoteWitness>,
    pairs: Seq<(int, int)>,
) -> Seq<RowOutcome> {
    pairs.map_values(|p: (int, int)| row_outcome(extfvk, rows[p.0], ws[p.1]))
}

/// What the selected notes hold.
pub open spec fn note_views(notes: Seq<SelectedNoteRow>) -> Seq<SelectedNoteView> {
    notes.map_values(|n: SelectedNoteRow| n@)
}

/// The values of the selected notes.
pub open spec fn note_values(views: Seq<SelectedNoteView>) -> Seq<u64> {
    views.map_values(|v: SelectedNoteView| v.value)
}

/// The notes are those of the rows at the given positions, each received at the address that
/// the viewing key has for its row's diversifier.
pub open spec fn all_received(
    extfvk: ExtendedFullViewingKey,
    rows: Seq<ReceivedNote>,
    pairs: Seq<(int, int)>,
    views: Seq<SelectedNoteView>,
) -> bool {
    &&& views.len() == pairs.len()
    &&& forall|i: int|
        #![trigger views[i]]
        0 <= i < views.len() ==> received_at(extfvk, rows[pairs[i].0].diversifier@, views[i])
}

proof fn lemma_gather_keeps_failure(outcomes: Seq<RowOutcome>, k: int)
    requires
        0 <= k <= outcomes.len(),
        gather(outcomes.take(k)) is Err,
    ensures
        gather(outcomes) == gather(outcomes.take(k)),
    decreases outcomes.len() - k,
{
    if k < outcomes.len() {
        assert(outcomes.take(k + 1).drop_last() =~= outcomes.take(k));
        lemma_gather_keeps_failure(outcomes, k + 1);
    } else {
        assert(outcomes.take(k) =~= outcomes);
    }
}

/// Turns the stored rows and witnesses at the given positions into notes that can be
/// spent, and stops at the first that fails.
pub fn decode_notes(
    extfvk: &ExtendedFullViewingKey,
    table: &NoteTable,
    ws: &Vec<NoteWitness>,
    pairs: &Vec<(usize, usize)>,
) -> (r: Option<Result<Vec<SelectedNoteRow>, Error>>)
    requires
        forall|i: int|
            0 <= i < pairs@.len() ==> (#[trigger] pairs@[i]).0 < table@.len() && pairs@[i].1
                < ws@.len(),
    ensures
        match gather(row_outcomes(*extfvk, table@, ws@, position_pairs(pairs@))) {
            Ok(views) => r matches Some(Ok(notes)) && note_views(notes@) == views && all_received(
                *extfvk,
                table@,
                position_pairs(pairs@),
                views,
            ),
            Err(RowOutcome::NoSuchNote) => r is None,
            Err(failure) => r matches Some(Err(e)) && reports(e, failure),
        },
{
    let ghost outcomes = row_outcomes(*extfvk, table@, ws@, position_pairs(pairs@));
    let mut notes: Vec<SelectedNoteRow> = Vec::new();
    let mut i: usize = 0;
    assert(outcomes.take(0) =~= Seq::<RowOutcome>::empty());
    assert(note_views(notes@) =~= Seq::<SelectedNoteView>::empty());
    while i < pairs.len()
        invariant
            i <= pairs@.len(),
            outcomes == row_outcomes(*extfvk, table@, ws@, position_pairs(pairs@)),
            forall|n: int|
                0 <= n < pairs@.len() ==> (#[trigger] pairs@[n]).0 < table@.len() && pairs@[n].1
                    < ws@.len(),
            gather(outcomes.take(i as int)) == Ok::<Seq<SelectedNoteView>, RowOutcome>(
                note_views(notes@),
            ),
            all_received(
                *extfvk,
                table@,
                position_pairs(pairs@).take(i as int),
                note_views(notes@),
            ),
        decreases pairs@.len() - i,
    {
        let pair = pairs[i];
        let ghost done = notes@;
        let ghost next = outcomes.take(i + 1);
        assert(next.drop_last() =~= outcomes.take(i as int));
        assert(next.last() == row_outcome(*extfvk, table@[pair.0 as int], ws@[pair.1 as int]));
        match decode_note(extfvk, table.get(pair.0), &ws[pair.1]) {
            None => {
                proof {
                    lemma_gather_keeps_failure(outcomes, i + 1);
                }
                return None;
            },
            Some(Err(e)) => {
                proof {
                    lemma_gather_keeps_failure(outcomes, i + 1);
                }
                return Some(Err(e));
            },
            Some(Ok(note)) => {
                notes.push(note);
                assert(note_views(notes@) =~= note_views(done).push(note@));
                assert(position_pairs(pairs@).take(i + 1) =~= position_pairs(pairs@).take(
                    i as int,
                ).push((pair.0 as int, pair.1 as int)));
            },
        }
        i = i + 1;
    }
    assert(outcomes.take(i as int) =~= outcomes);
    assert(position_pairs(pairs@).take(i as int) =~= position_pairs(pairs@));
    Some(Ok(notes))
}

} // verus!
