//! Heights, amounts, and the choice of the notes that fund a payment.

use crate::amount::{as_unsigned, in_money_range, MAX_MONEY};
use crate::balance::total;
use crate::heights::{anchor_height, target_height};
use crate::laws::{lemma_selection_members, lemma_so_far_grows, no_negative_values};
use crate::notes::{
    eligible, funding, has_id, ids_ascend, insertion_point, joined, matching, may_be_spent,
    pair_with, position_pairs, positions, reached, selected, selection, so_far, total_overflows,
    Criteria, NoteWitness, ReceivedNote,
};
use vstd::prelude::*;

verus! {

/// An amount is valid where it comes to no more than 21 million coins of 100 million zatoshis
/// each, owed or owned.
pub proof fn valid_amounts_are_within_the_supply(v: int)
    ensures
        in_money_range(v) <==> -21_000_000 * 100_000_000 <= v <= 21_000_000 * 100_000_000,
        MAX_MONEY == 21_000_000 * 100_000_000,
{
}

/// Read as an unsigned integer, a value stays as it is where it is not negative, and moves up
/// by a full 64-bit range where it is.
pub proof fn unsigned_values_keep_their_bits(v: i64)
    ensures
        0 <= as_unsigned(v) <= u64::MAX,
        v >= 0 ==> as_unsigned(v) == v,
        v < 0 ==> as_unsigned(v) - v == u64::MAX + 1,
{
}

/// The total of two groups of values is the sum of their totals; that of a single value is
/// the value, and that of none is nothing.
pub proof fn totals_add_up(a: Seq<u64>, b: Seq<u64>, v: u64)
    ensures
        total(a + b) == total(a) + total(b),
        total(seq![v]) == v,
        total(Seq::<u64>::empty()) == 0,
    decreases b.len(),
{
    assert(seq![v].drop_last() =~= Seq::<u64>::empty());
    assert(total(seq![v].drop_last()) == 0);
    if b.len() == 0 {
        assert(a + b =~= a);
    } else {
        assert((a + b).drop_last() =~= a + b.drop_last());
        totals_add_up(a, b.drop_last(), v);
    }
}

/// A transaction targets the block after the newest one scanned. Its anchor lies ten blocks
/// below that, or at the first scanned block where that is higher.
pub proof fn anchor_lies_ten_blocks_below_the_target(min_height: int, max_height: int)
    ensures
        target_height(max_height) == max_height + 1,
        anchor_height(min_height, max_height) >= min_height,
        anchor_height(min_height, max_height) >= max_height + 1 - 10,
        anchor_height(min_height, max_height) == min_height || anchor_height(
            min_height,
            max_height,
        ) == max_height + 1 - 10,
{
}

/// A note may be spent if, and only if, it is one of the paying account, is unspent, and was
/// mined at a height no later than the anchor, however long ago that was.
pub proof fn unspent_mined_notes_may_be_spent(note: ReceivedNote, c: Criteria)
    ensures
        note.account == c.account && note.spent is None && (note.block matches Some(height)
            && height <= c.anchor_height) <==> eligible(note, c),
        eligible(note, c) == may_be_spent(note.account, note.spent, note.block, c),
{
}

/// The running total starts at nothing, and grows by the value of each note of the paying
/// account that is unspent and was mined no later than the anchor, and by nothing else.
pub proof fn running_total_counts_each_spendable_note(
    rows: Seq<ReceivedNote>,
    k: int,
    c: Criteria,
)
    requires
        0 <= k < rows.len(),
    ensures
        so_far(rows, 0, c) == 0,
        rows[k].account == c.account && rows[k].spent is None && (rows[k].block matches Some(height)
            && height <= c.anchor_height) ==> so_far(rows, k + 1, c) == so_far(rows, k, c)
            + rows[k].value,
        rows[k].account != c.account || rows[k].spent is Some || rows[k].block is None || (
        rows[k].block matches Some(height) && height > c.anchor_height) ==> so_far(
            rows,
            k + 1,
            c,
        ) == so_far(rows, k, c),
{
}

proof fn lemma_total_without(rows: Seq<ReceivedNote>, k: int, j: int, c: Criteria)
    requires
        0 <= k < rows.len(),
        0 <= j < rows.len(),
    ensures
        j <= k ==> so_far(rows.remove(k), j, c) == so_far(rows, j, c),
        j >= k ==> so_far(rows.remove(k), j, c) == so_far(rows, j + 1, c) - if eligible(
            rows[k],
            c,
        ) {
            rows[k].value as int
        } else {
            0
        },
    decreases j,
{
    assert(so_far(rows, j + 1, c) == so_far(rows, j, c) + if eligible(rows[j], c) {
        rows[j].value as int
    } else {
        0
    });
    if j > 0 {
        lemma_total_without(rows, k, j - 1, c);
        if j <= k {
            assert(rows.remove(k)[j - 1] == rows[j - 1]);
        } else {
            assert(rows.remove(k)[j - 1] == rows[j]);
        }
    }
}

/// Every note of the paying account that is unspent and was mined no later than the anchor
/// counts in the spendable total: without it the total is less by its value. No other note
/// counts, and without notes there is nothing to spend.
pub proof fn spendable_notes_count(rows: Seq<ReceivedNote>, k: int, c: Criteria)
    requires
        0 <= k < rows.len(),
    ensures
        rows[k].account == c.account && rows[k].spent is None && (rows[k].block matches Some(height)
            && height <= c.anchor_height) ==> so_far(rows, rows.len() as int, c) == so_far(
            rows.remove(k),
            rows.len() - 1,
            c,
        ) + rows[k].value,
        rows[k].account != c.account || rows[k].spent is Some || rows[k].block is None || (
        rows[k].block matches Some(height) && height > c.anchor_height) ==> so_far(
            rows,
            rows.len() as int,
            c,
        ) == so_far(rows.remove(k), rows.len() - 1, c),
        so_far(Seq::<ReceivedNote>::empty(), 0, c) == 0,
{
    lemma_total_without(rows, k, rows.len() - 1, c);
}

/// The selection, told by the rows alone: a note of the paying account, unspent and mined no
/// later than the anchor, is selected where the running total up to it is below the target,
/// or where it is the first such note with which the total is not. No other note is selected,
/// and the selected ones come each once, oldest first.
pub proof fn selection_follows_the_running_total(rows: Seq<ReceivedNote>, c: Criteria)
    ensures
        forall|k: int|
            #![trigger selection(rows, rows.len() as int, c).contains(k)]
            selection(rows, rows.len() as int, c).contains(k) <==> {
                &&& 0 <= k < rows.len()
                &&& rows[k].account == c.account
                &&& rows[k].spent is None
                &&& rows[k].block matches Some(height) && height <= c.anchor_height
                &&& so_far(rows, k + 1, c) < c.target_value || forall|j: int|
                    0 <= j < k && (#[trigger] rows[j]).account == c.account && rows[j].spent is None
                        && (rows[j].block matches Some(height) && height <= c.anchor_height)
                        ==> so_far(rows, j + 1, c) < c.target_value
            },
        ({
            let picked = selection(rows, rows.len() as int, c);
            forall|a: int, b: int|
                #![trigger picked[a], picked[b]]
                0 <= a < b < picked.len() ==> picked[a] < picked[b]
        }),
{
    let picked = selection(rows, rows.len() as int, c);
    lemma_selection_members(rows, rows.len() as int, c);
    assert forall|k: int|
        #![trigger picked.contains(k)]
        picked.contains(k) <==> {
            &&& 0 <= k < rows.len()
            &&& rows[k].account == c.account
            &&& rows[k].spent is None
            &&& rows[k].block matches Some(height) && height <= c.anchor_height
            &&& so_far(rows, k + 1, c) < c.target_value || forall|j: int|
                0 <= j < k && (#[trigger] rows[j]).account == c.account && rows[j].spent is None
                    && (rows[j].block matches Some(height) && height <= c.anchor_height) ==> so_far(
                    rows,
                    j + 1,
                    c,
                ) < c.target_value
        } by {
        assert(picked.contains(k) == (0 <= k < rows.len() && selected(rows, k, c)));
        if reached(rows, k, c) {
            let j = choose|j: int|
                0 <= j < k && eligible(#[trigger] rows[j], c) && so_far(rows, j + 1, c)
                    >= c.target_value;
            assert(rows[j].account == c.account);
        } else {
            assert forall|j: int|
                0 <= j < k && (#[trigger] rows[j]).account == c.account && rows[j].spent is None
                    && (rows[j].block matches Some(height) && height
                    <= c.anchor_height) implies so_far(rows, j + 1, c) < c.target_value by {
                assert(eligible(rows[j], c));
            }
        }
    }
}

/// Where the running totals all fall short of the target, every note of the paying account
/// that is unspent and was mined no later than the anchor is selected.
pub proof fn falling_short_selects_every_spendable_note(
    rows: Seq<ReceivedNote>,
    c: Criteria,
    k: int,
)
    requires
        forall|j: int| 0 <= j <= rows.len() ==> #[trigger] so_far(rows, j, c) < c.target_value,
        0 <= k < rows.len(),
        rows[k].account == c.account,
        rows[k].spent is None,
        rows[k].block matches Some(height) && height <= c.anchor_height,
    ensures
        selection(rows, rows.len() as int, c).contains(k),
{
    selection_follows_the_running_total(rows, c);
    assert(so_far(rows, k + 1, c) < c.target_value);
}

/// The running totals overflow exactly where one of them does not fit 64 bits, with a sign;
/// never where no spendable note has a negative value, and all of them together fit.
pub proof fn only_large_totals_overflow(rows: Seq<ReceivedNote>, c: Criteria)
    ensures
        total_overflows(rows, c) <==> exists|k: int|
            0 <= k <= rows.len() && (#[trigger] so_far(rows, k, c) > 0x7fff_ffff_ffff_ffff
                || so_far(rows, k, c) < -0x8000_0000_0000_0000),
        no_negative_values(rows, c) && so_far(rows, rows.len() as int, c) <= 0x7fff_ffff_ffff_ffff
            ==> !total_overflows(rows, c),
{
    if total_overflows(rows, c) {
        let k = choose|k: int|
            0 <= k <= rows.len() && !(i64::MIN <= #[trigger] so_far(rows, k, c) <= i64::MAX);
        assert(so_far(rows, k, c) > 0x7fff_ffff_ffff_ffff || so_far(rows, k, c)
            < -0x8000_0000_0000_0000);
        if no_negative_values(rows, c) {
            lemma_so_far_grows(rows, k, rows.len() as int, c);
        }
    }
}

proof fn lemma_matching_is_exact(ws: Seq<NoteWitness>, m: int, id: i64, height: i64)
    requires
        0 <= m <= ws.len(),
    ensures
        forall|w: int|
            #![trigger matching(ws, m, id, height).contains(w)]
            matching(ws, m, id, height).contains(w) <==> 0 <= w < m && ws[w].note == id
                && ws[w].block == height,
        forall|a: int, b: int|
            #![trigger matching(ws, m, id, height)[a], matching(ws, m, id, height)[b]]
            0 <= a < b < matching(ws, m, id, height).len() ==> matching(ws, m, id, height)[a]
                < matching(ws, m, id, height)[b],
    decreases m,
{
    if m > 0 {
        lemma_matching_is_exact(ws, m - 1, id, height);
        let shorter = matching(ws, m - 1, id, height);
        let longer = matching(ws, m, id, height);
        let found = ws[m - 1].note == id && ws[m - 1].block == height;
        assert forall|w: int|
            #![trigger longer.contains(w)]
            longer.contains(w) <==> 0 <= w < m && ws[w].note == id && ws[w].block == height by {
            if longer.contains(w) {
                let i = longer.index_of(w);
                if i < shorter.len() {
                    assert(shorter[i] == w);
                    assert(shorter.contains(w));
                }
            }
            if shorter.contains(w) {
                let i = shorter.index_of(w);
                assert(longer[i] == w);
            }
            if w == m - 1 && found {
                assert(longer[longer.len() - 1] == w);
            }
            assert(0 <= w < m - 1 && ws[w].note == id && ws[w].block == height
                <==> shorter.contains(w));
        }
        assert forall|a: int, b: int|
            #![trigger longer[a], longer[b]]
            0 <= a < b < longer.len() implies longer[a] < longer[b] by {
            assert(shorter[a] == longer[a]);
            assert(shorter.contains(shorter[a]));
            if b < shorter.len() {
                assert(shorter[b] == longer[b]);
            }
        }
    }
}

proof fn lemma_joined_is_exact(
    rows: Seq<ReceivedNote>,
    picked: Seq<int>,
    ws: Seq<NoteWitness>,
    height: i64,
)
    requires
        forall|a: int, b: int|
            #![trigger picked[a], picked[b]]
            0 <= a < b < picked.len() ==> picked[a] < picked[b],
    ensures
        forall|k: int, w: int|
            #![trigger joined(rows, picked, ws, height).contains((k, w))]
            joined(rows, picked, ws, height).contains((k, w)) <==> picked.contains(k) && 0 <= w
                < ws.len() && ws[w].note == rows[k].id_note && ws[w].block == height,
        forall|i: int, j: int|
            #![trigger joined(rows, picked, ws, height)[i], joined(rows, picked, ws, height)[j]]
            0 <= i < j < joined(rows, picked, ws, height).len() ==> {
                let (k, w) = joined(rows, picked, ws, height)[i];
                let (l, v) = joined(rows, picked, ws, height)[j];
                k < l || (k == l && w < v)
            },
    decreases picked.len(),
{
    let longer = joined(rows, picked, ws, height);
    if picked.len() > 0 {
        let front = picked.drop_last();
        let last = picked.last();
        assert forall|a: int, b: int|
            #![trigger front[a], front[b]]
            0 <= a < b < front.len() implies front[a] < front[b] by {
            assert(front[a] == picked[a] && front[b] == picked[b]);
        }
        lemma_joined_is_exact(rows, front, ws, height);
        lemma_matching_is_exact(ws, ws.len() as int, rows[last].id_note, height);
        let shorter = joined(rows, front, ws, height);
        let found = matching(ws, ws.len() as int, rows[last].id_note, height);
        let added = pair_with(last, found);
        assert(longer == shorter + added);
        assert(picked[picked.len() - 1] == last);
        assert forall|k: int|
            #![trigger picked.contains(k)]
            picked.contains(k) == (front.contains(k) || k == last) by {
            if picked.contains(k) {
                let i = picked.index_of(k);
                if i < front.len() {
                    assert(front[i] == k);
                }
            }
            if front.contains(k) {
                let i = front.index_of(k);
                assert(picked[i] == k);
            }
        }
        assert forall|k: int| #[trigger] front.contains(k) implies k < last by {
            let i = front.index_of(k);
            assert(picked[i] == k);
        }
        assert forall|k: int, w: int|
            #![trigger longer.contains((k, w))]
            longer.contains((k, w)) <==> picked.contains(k) && 0 <= w < ws.len() && ws[w].note
                == rows[k].id_note && ws[w].block == height by {
            if longer.contains((k, w)) {
                let i = longer.index_of((k, w));
                if i < shorter.len() {
                    assert(shorter[i] == (k, w));
                    assert(shorter.contains((k, w)));
                } else {
                    assert(added[i - shorter.len()] == (k, w));
                    assert(found[i - shorter.len()] == w);
                    assert(found.contains(w));
                }
            }
            if picked.contains(k) && 0 <= w < ws.len() && ws[w].note == rows[k].id_note
                && ws[w].block == height {
                if k == last {
                    assert(found.contains(w));
                    let i = found.index_of(w);
                    assert(added[i] == (k, w));
                    assert(longer[shorter.len() + i] == (k, w));
                } else {
                    assert(shorter.contains((k, w)));
                    let i = shorter.index_of((k, w));
                    assert(longer[i] == (k, w));
                }
            }
        }
        assert forall|i: int, j: int|
            #![trigger longer[i], longer[j]]
            0 <= i < j < longer.len() implies {
            let (k, w) = longer[i];
            let (l, v) = longer[j];
            k < l || (k == l && w < v)
        } by {
            if i < shorter.len() {
                assert(shorter[i] == longer[i]);
                assert(shorter.contains((shorter[i].0, shorter[i].1)));
                if j < shorter.len() {
                    assert(shorter[j] == longer[j]);
                } else {
                    assert(added[j - shorter.len()] == longer[j]);
                }
            } else {
                assert(longer[i] == (last, found[i - shorter.len()]));
                assert(longer[j] == (last, found[j - shorter.len()]));
            }
        }
    }
}

/// What funds a payment, told by the rows alone: each selected note with each witness that
/// names the note and the anchor's block, and nothing else; oldest note first, each pair once.
pub proof fn notes_meet_their_own_witnesses(
    rows: Seq<ReceivedNote>,
    ws: Seq<NoteWitness>,
    c: Criteria,
)
    ensures
        forall|k: int, w: int|
            #![trigger funding(rows, ws, c).contains((k, w))]
            funding(rows, ws, c).contains((k, w)) <==> selection(
                rows,
                rows.len() as int,
                c,
            ).contains(k) && 0 <= w < ws.len() && ws[w].note == rows[k].id_note && ws[w].block
                == c.anchor_height,
        forall|i: int, j: int|
            #![trigger funding(rows, ws, c)[i], funding(rows, ws, c)[j]]
            0 <= i < j < funding(rows, ws, c).len() ==> {
                let (k, w) = funding(rows, ws, c)[i];
                let (l, v) = funding(rows, ws, c)[j];
                k < l || (k == l && w < v)
            },
{
    lemma_selection_members(rows, rows.len() as int, c);
    lemma_joined_is_exact(rows, selection(rows, rows.len() as int, c), ws, c.anchor_height);
}

/// Positions, and pairs of them, stand for the numbers they are.
pub proof fn positions_are_numbers(v: Seq<usize>, pairs: Seq<(usize, usize)>)
    ensures
        positions(v).len() == v.len(),
        forall|i: int| #![trigger v[i]] 0 <= i < v.len() ==> positions(v)[i] == v[i],
        position_pairs(pairs).len() == pairs.len(),
        forall|i: int|
            #![trigger pairs[i]]
            0 <= i < pairs.len() ==> position_pairs(pairs)[i].0 == pairs[i].0 && position_pairs(
                pairs,
            )[i].1 == pairs[i].1,
{
}

/// An identifier is taken exactly where some row has it. In a table whose rows ascend, a new
/// row comes behind all rows with lower identifiers and before all with higher ones.
pub proof fn rows_are_kept_in_order(rows: Seq<ReceivedNote>, id: i64)
    ensures
        has_id(rows, id) <==> exists|i: int|
            0 <= i < rows.len() && (#[trigger] rows[i]).id_note == id,
        ids_ascend(rows) <==> forall|i: int, j: int|
            #![trigger rows[i], rows[j]]
            0 <= i < j < rows.len() ==> rows[i].id_note < rows[j].id_note,
        0 <= insertion_point(rows, id) <= rows.len(),
        ids_ascend(rows) ==> forall|i: int|
            0 <= i < rows.len() ==> (#[trigger] rows[i].id_note < id <==> i < insertion_point(
                rows,
                id,
            )),
    decreases rows.len(),
{
    if rows.len() > 0 {
        let front = rows.drop_last();
        rows_are_kept_in_order(front, id);
        if ids_ascend(rows) {
            assert forall|i: int, j: int|
                #![trigger front[i], front[j]]
                0 <= i < j < front.len() implies front[i].id_note < front[j].id_note by {
                assert(front[i] == rows[i] && front[j] == rows[j]);
            }
            assert forall|i: int| 0 <= i < rows.len() implies (#[trigger] rows[i].id_note < id
                <==> i < insertion_point(rows, id)) by {
                if i < front.len() {
                    assert(front[i].id_note < id <==> i < insertion_point(front, id));
                    assert(rows[i].id_note < rows[rows.len() - 1].id_note);
                }
            }
        }
    }
}

} // verus!
