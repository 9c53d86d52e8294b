//! The wallet's received notes, and the choice of those that fund a payment.

use crate::error::Error;
use vstd::prelude::*;

verus! {

/// A row of the table of received notes, joined with the transaction it was received in.
pub struct ReceivedNote {
    /// The row's identifier: later notes have higher ones.
    pub id_note: i64,
    /// The account that received the note.
    pub account: i64,
    /// The transaction that spends the note, where there is one.
    pub spent: Option<i64>,
    /// The height at which the note's transaction was mined, where it was.
    pub block: Option<i64>,
    pub diversifier: Vec<u8>,
    /// The value of the note, in zatoshis.
    pub value: i64,
    pub rcm: Vec<u8>,
    /// The nullifier that spending the note reveals.
    pub nf: Vec<u8>,
}

/// A row of the table of witnesses: the path from a note to the root of the commitment
/// tree as of some block.
pub struct NoteWitness {
    pub note: i64,
    pub block: i64,
    pub witness: Vec<u8>,
}

/// What a payment asks of the notes that fund it.
#[derive(Clone, Copy)]
pub struct Criteria {
    /// The account that pays.
    pub account: i64,
    /// The height of the block that anchors the spends.
    pub anchor_height: i64,
    /// The value to be reached.
    pub target_value: i64,
}

/// The received notes, oldest first; `id_note` is the table's primary key.
pub struct NoteTable {
    rows: Vec<ReceivedNote>,
}

impl View for NoteTable {
    type V = Seq<ReceivedNote>;

    closed spec fn view(&self) -> Seq<ReceivedNote> {
        self.rows@
    }
}

/// The rows come in the order of their identifiers, and no two share one.
pub open spec fn ids_ascend(rows: Seq<ReceivedNote>) -> bool {
    forall|i: int, j: int|
        #![trigger rows[i], rows[j]]
        0 <= i < j < rows.len() ==> rows[i].id_note < rows[j].id_note
}

/// Some row has the identifier `id`.
pub open spec fn has_id(rows: Seq<ReceivedNote>, id: i64) -> bool {
    exists|i: int| 0 <= i < rows.len() && (#[trigger] rows[i]).id_note == id
}

/// The place of identifier `id` among rows that are in order.
pub open spec fn insertion_point(rows: Seq<ReceivedNote>, id: i64) -> int
    decreases rows.len(),
{
    if rows.len() == 0 {
        0
    } else if rows.last().id_note < id {
        rows.len() as int
    } else {
        insertion_point(rows.drop_last(), id)
    }
}

impl NoteTable {
    /// The table's invariant.
    pub open spec fn well_formed(&self) -> bool {
        ids_ascend(self@)
    }

    /// A table without rows.
    pub fn new() -> (table: NoteTable)
        ensures
            table.well_formed(),
            table@ == Seq::<ReceivedNote>::empty(),
    {
        NoteTable { rows: Vec::new() }
    }

    /// Adds a row at its place; `false`, and no change, where its identifier is taken.
    pub fn insert(&mut self, row: ReceivedNote) -> (inserted: bool)
        requires
            old(self).well_formed(),
        ensures
            final(self).well_formed(),
            inserted == !has_id(old(self)@, row.id_note),
            inserted ==> final(self)@ == old(self)@.insert(
                insertion_point(old(self)@, row.id_note),
                row,
            ),
            !inserted ==> final(self)@ == old(self)@,
    {
        let ghost rows = self.rows@;
        let mut at: usize = self.rows.len();
        assert(rows.take(at as int) =~= rows);
        while at > 0 && self.rows[at - 1].id_note >= row.id_note
            invariant
                at <= self.rows.len(),
                self.rows@ == rows,
                ids_ascend(rows),
                insertion_point(rows, row.id_note) == insertion_point(
                    rows.take(at as int),
                    row.id_note,
                ),
                forall|i: int|
                    at <= i < rows.len() ==> (#[trigger] rows[i]).id_note >= row.id_note,
            decreases at,
        {
            at = at - 1;
            assert(rows.take(at + 1).drop_last() =~= rows.take(at as int));
        }
        if at < self.rows.len() && self.rows[at].id_note == row.id_note {
            return false;
        }
        assert(insertion_point(rows, row.id_note) == at) by {
            if at > 0 {
                assert(rows.take(at as int).last() == rows[at - 1]);
            }
        }
        self.rows.insert(at, row);
        true
    }

    /// The number of rows.
    pub fn len(&self) -> (n: usize)
        ensures
            n == self@.len(),
    {
        self.rows.len()
    }

    /// The row at position `i`.
    pub fn get(&self, i: usize) -> (row: &ReceivedNote)
        requires
            i < self@.len(),
        ensures
            *row == self@[i as int],
    {
        &self.rows[i]
    }
}

/// A note may be spent where it belongs to the paying account, is unspent, and was mined no
/// later than the anchor.
pub open spec fn may_be_spent(
    account: i64,
    spent: Option<i64>,
    block: Option<i64>,
    c: Criteria,
) -> bool {
    &&& account == c.account
    &&& spent is None
    &&& block matches Some(height) && height <= c.anchor_height
}

/// The note may be spent.
pub open spec fn eligible(note: ReceivedNote, c: Criteria) -> bool {
    may_be_spent(note.account, note.spent, note.block, c)
}

/// The total value of the eligible notes among the `k` oldest.
pub open spec fn so_far(rows: Seq<ReceivedNote>, k: int, c: Criteria) -> int
    decreases k,
{
    if k <= 0 {
        0
    } else if eligible(rows[k - 1], c) {
        so_far(rows, k - 1, c) + rows[k - 1].value
    } else {
        so_far(rows, k - 1, c)
    }
}

/// Among the `k` oldest notes there is an eligible one with which the running total
/// reaches the target.
pub open spec fn reached(rows: Seq<ReceivedNote>, k: int, c: Criteria) -> bool {
    exists|j: int|
        0 <= j < k && eligible(#[trigger] rows[j], c) && so_far(rows, j + 1, c)
            >= c.target_value
}

/// The note at position `k` is selected: its running total is below the target, or it is
/// the one that first reaches it.
pub open spec fn selected(rows: Seq<ReceivedNote>, k: int, c: Criteria) -> bool {
    &&& eligible(rows[k], c)
    &&& so_far(rows, k + 1, c) < c.target_value || !reached(rows, k, c)
}

/// The positions of the selected notes among the `k` oldest, oldest first.
pub open spec fn selection(rows: Seq<ReceivedNote>, k: int, c: Criteria) -> Seq<int>
    decreases k,
{
    if k <= 0 {
        Seq::empty()
    } else if selected(rows, k - 1, c) {
        selection(rows, k - 1, c).push(k - 1)
    } else {
        selection(rows, k - 1, c)
    }
}

/// Some running total does not fit a 64-bit signed integer.
pub open spec fn total_overflows(rows: Seq<ReceivedNote>, c: Criteria) -> bool {
    exists|k: int|
        0 <= k <= rows.len() && !(i64::MIN <= #[trigger] so_far(rows, k, c) <= i64::MAX)
}

/// The positions as mathematical integers.
pub open spec fn positions(v: Seq<usize>) -> Seq<int> {
    v.map_values(|i: usize| i as int)
}

/// Decides whether a note may be spent, by its account, the transaction that spends it and
/// the height at which it was mined.
pub fn is_available(account: i64, spent: Option<i64>, block: Option<i64>, c: &Criteria) -> (r: bool)
    ensures
        r == may_be_spent(account, spent, block, *c),
        r == (account == c.account && spent is None && (block matches Some(height) && height
            <= c.anchor_height)),
{
    if account != c.account || spent.is_some() {
        return false;
    }
    match block {
        Some(height) => height <= c.anchor_height,
        None => false,
    }
}

/// Decides whether a note may be spent.
pub fn is_eligible(note: &ReceivedNote, c: &Criteria) -> (r: bool)
    ensures
        r == eligible(*note, *c),
        r == (note.account == c.account && note.spent is None && (note.block matches Some(height)
            && height <= c.anchor_height)),
{
    is_available(note.account, note.spent, note.block, c)
}

/// Selects the oldest eligible notes until the target value is reached; where all of them
/// together fall short, selects them all.
pub fn select_notes(table: &NoteTable, c: &Criteria) -> (r: Result<Vec<usize>, Error>)
    ensures
        match r {
            Ok(picked) => !total_overflows(table@, *c) && positions(picked@) == selection(
                table@,
                table@.len() as int,
                *c,
            ),
            Err(e) => e is IntegerOverflow && total_overflows(table@, *c),
        },
{
    let ghost rows = table@;
    let mut picked: Vec<usize> = Vec::new();
    let mut sum: i64 = 0;
    let mut crossed: bool = false;
    let mut i: usize = 0;
    assert(positions(picked@) =~= selection(rows, 0, *c));
    while i < table.rows.len()
        invariant
            rows == table@,
            i <= rows.len(),
            sum == so_far(rows, i as int, *c),
            forall|k: int|
                0 <= k <= i ==> i64::MIN <= #[trigger] so_far(rows, k, *c) <= i64::MAX,
            crossed == reached(rows, i as int, *c),
            positions(picked@) == selection(rows, i as int, *c),
        decreases rows.len() - i,
    {
        let note = &table.rows[i];
        let ghost before = crossed;
        if is_eligible(note, c) {
            match sum.checked_add(note.value) {
                None => {
                    assert(so_far(rows, i + 1, *c) == sum + rows[i as int].value);
                    return Err(Error::IntegerOverflow);
                },
                Some(s) => {
                    sum = s;
                },
            }
            if sum < c.target_value || !crossed {
                let ghost old_picked = picked@;
                picked.push(i);
                assert(positions(picked@) =~= positions(old_picked).push(i as int));
            }
            if sum >= c.target_value {
                crossed = true;
                assert(eligible(rows[i as int], *c));
            }
        }
        proof {
            assert(so_far(rows, i + 1, *c) == sum);
            if reached(rows, i + 1, *c) && !before {
                let j = choose|j: int|
                    0 <= j < i + 1 && eligible(#[trigger] rows[j], *c) && so_far(rows, j + 1, *c)
                        >= c.target_value;
                assert(j == i);
            }
            if before {
                let j = choose|j: int|
                    0 <= j < i && eligible(#[trigger] rows[j], *c) && so_far(rows, j + 1, *c)
                        >= c.target_value;
                assert(0 <= j < i + 1 && eligible(rows[j], *c));
            }
        }
        i = i + 1;
    }
    Ok(picked)
}

/// The witness belongs to the note `id` and to the block at `height`.
pub open spec fn witnesses(w: NoteWitness, id: i64, height: i64) -> bool {
    w.note == id && w.block == height
}

/// The positions of the witnesses of the note `id` at `height`, among the first `m`.
pub open spec fn matching(ws: Seq<NoteWitness>, m: int, id: i64, height: i64) -> Seq<int>
    decreases m,
{
    if m <= 0 {
        Seq::empty()
    } else if witnesses(ws[m - 1], id, height) {
        matching(ws, m - 1, id, height).push(m - 1)
    } else {
        matching(ws, m - 1, id, height)
    }
}

/// The note at position `k`, paired with each of its witnesses.
pub open spec fn pair_with(k: int, found: Seq<int>) -> Seq<(int, int)> {
    found.map_values(|w: int| (k, w))
}

/// The notes at the positions `picked`, each paired with its witnesses at `height`; a note
/// without a witness there drops out.
pub open spec fn joined(
    rows: Seq<ReceivedNote>,
    picked: Seq<int>,
    ws: Seq<NoteWitness>,
    height: i64,
) -> Seq<(int, int)>
    decreases picked.len(),
{
    if picked.len() == 0 {
        Seq::empty()
    } else {
        joined(rows, picked.drop_last(), ws, height) + pair_with(
            picked.last(),
            matching(ws, ws.len() as int, rows[picked.last()].id_note, height),
        )
    }
}

/// The notes that fund a payment, each with its witness at the anchor.
pub open spec fn funding(
    rows: Seq<ReceivedNote>,
    ws: Seq<NoteWitness>,
    c: Criteria,
) -> Seq<(int, int)> {
    joined(rows, selection(rows, rows.len() as int, c), ws, c.anchor_height)
}

/// The pairs of positions as mathematical integers.
pub open spec fn position_pairs(v: Seq<(usize, usize)>) -> Seq<(int, int)> {
    v.map_values(|p: (usize, usize)| (p.0 as int, p.1 as int))
}

/// Pairs the selected notes with their witnesses at `height`.
pub fn match_witnesses(
    table: &NoteTable,
    picked: &Vec<usize>,
    ws: &Vec<NoteWitness>,
    height: i64,
) -> (pairs: Vec<(usize, usize)>)
    requires
        forall|i: int| 0 <= i < picked@.len() ==> (#[trigger] picked@[i]) < table@.len(),
    ensures
        position_pairs(pairs@) == joined(table@, positions(picked@), ws@, height),
        forall|i: int|
            0 <= i < pairs@.len() ==> (#[trigger] pairs@[i]).0 < table@.len() && pairs@[i].1
                < ws@.len(),
{
    let ghost rows = table@;
    let mut pairs: Vec<(usize, usize)> = Vec::new();
    let mut i: usize = 0;
    assert(position_pairs(pairs@) =~= joined(rows, positions(picked@).take(0), ws@, height));
    while i < picked.len()
        invariant
            rows == table@,
            i <= picked@.len(),
            forall|n: int| 0 <= n < picked@.len() ==> (#[trigger] picked@[n]) < rows.len(),
            position_pairs(pairs@) == joined(
                rows,
                positions(picked@).take(i as int),
                ws@,
                height,
            ),
            forall|n: int|
                0 <= n < pairs@.len() ==> (#[trigger] pairs@[n]).0 < rows.len() && pairs@[n].1
                    < ws@.len(),
        decreases picked@.len() - i,
    {
        let k: usize = picked[i];
        let id: i64 = table.rows[k].id_note;
        let ghost done = position_pairs(pairs@);
        let mut m: usize = 0;
        assert(position_pairs(pairs@) =~= done + pair_with(k as int, matching(ws@, 0, id, height)));
        while m < ws.len()
            invariant
                m <= ws@.len(),
                k < rows.len(),
                position_pairs(pairs@) == done + pair_with(
                    k as int,
                    matching(ws@, m as int, id, height),
                ),
                forall|n: int|
                    0 <= n < pairs@.len() ==> (#[trigger] pairs@[n]).0 < rows.len() && pairs@[n].1
                        < ws@.len(),
            decreases ws@.len() - m,
        {
            if ws[m].note == id && ws[m].block == height {
                let ghost before = pairs@;
                pairs.push((k, m));
                assert(position_pairs(pairs@) =~= position_pairs(before).push(
                    (k as int, m as int),
                ));
                assert(pair_with(k as int, matching(ws@, m + 1, id, height)) =~= pair_with(
                    k as int,
                    matching(ws@, m as int, id, height),
                ).push((k as int, m as int)));
                assert(position_pairs(pairs@) =~= done + pair_with(
                    k as int,
                    matching(ws@, m + 1, id, height),
                ));
            }
            m = m + 1;
        }
        proof {
            let upto = positions(picked@).take(i + 1);
            assert(upto.drop_last() =~= positions(picked@).take(i as int));
            assert(upto.last() == k as int);
        }
        i = i + 1;
    }
    assert(positions(picked@).take(picked@.len() as int) =~= positions(picked@));
    pairs
}

/// Every selected position is a position of the table.
pub proof fn lemma_selection_in_bounds(rows: Seq<ReceivedNote>, k: int, c: Criteria)
    requires
        0 <= k <= rows.len(),
    ensures
        forall|i: int|
            #![trigger selection(rows, k, c)[i]]
            0 <= i < selection(rows, k, c).len() ==> 0 <= selection(rows, k, c)[i] < k,
    decreases k,
{
    if k > 0 {
        lemma_selection_in_bounds(rows, k - 1, c);
        let shorter = selection(rows, k - 1, c);
        assert forall|i: int|
            #![trigger selection(rows, k, c)[i]]
            0 <= i < selection(rows, k, c).len() implies 0 <= selection(rows, k, c)[i] < k by {
            if i < shorter.len() {
                assert(selection(rows, k, c)[i] == shorter[i]);
            }
        }
    }
}

/// Finds the notes that fund a payment, each with its witness at the anchor.
pub fn find_funding(table: &NoteTable, ws: &Vec<NoteWitness>, c: &Criteria) -> (r: Result<
    Vec<(usize, usize)>,
    Error,
>)
    ensures
        match r {
            Ok(pairs) => {
                &&& !total_overflows(table@, *c)
                &&& position_pairs(pairs@) == funding(table@, ws@, *c)
                &&& forall|i: int|
                    0 <= i < pairs@.len() ==> (#[trigger] pairs@[i]).0 < table@.len()
                        && pairs@[i].1 < ws@.len()
            },
            Err(e) => e is IntegerOverflow && total_overflows(table@, *c),
        },
{
    match select_notes(table, c) {
        Err(e) => Err(e),
        Ok(picked) => {
            proof {
                lemma_selection_in_bounds(table@, table@.len() as int, *c);
                assert forall|i: int| 0 <= i < picked@.len() implies (#[trigger] picked@[i])
                    < table@.len() by {
                    assert(positions(picked@)[i] == picked@[i]);
                }
            }
            Ok(match_witnesses(table, &picked, ws, c.anchor_height))
        },
    }
}

} // verus!
