//! The parts that payments are made of.

use rusqlite::{types::ToSql, Connection, NO_PARAMS};
use sapling_crypto::value::NoteValue;
use sapling_crypto::zip32::{ExtendedFullViewingKey, ExtendedSpendingKey};
use sapling_crypto::{CommitmentTree, IncrementalWitness, Node, Rseed};
use zcash_primitives::merkle_tree::{read_incremental_witness, write_incremental_witness};
use zcash_primitives::transaction::builder::Error as Failure;
use zcash_protocol::consensus::Network;
use zcash_transact::amount::{target_value, to_unsigned};
use zcash_transact::balance::confirm_balance;
use zcash_transact::decode::{decode_note, read_diversifier};
use zcash_transact::error::{BuilderError, Error};
use zcash_transact::heights::get_target_and_anchor_heights;
use zcash_transact::notes::{
    find_funding, is_eligible, select_notes, Criteria, NoteTable, NoteWitness, ReceivedNote,
};
use zcash_transact::persist::{mark_spent, Statement};
use zcash_transact::transact::{create_to_address, transaction_built, Payment, RecipientAddress};
use zcash_transact::witness::{front_of, parts_fit, Parts, WITNESS_LIMIT};

fn note(id_note: i64, value: i64) -> ReceivedNote {
    ReceivedNote {
        id_note,
        account: 0,
        spent: None,
        block: Some(100),
        diversifier: vec![],
        value,
        rcm: vec![],
        nf: vec![],
    }
}

fn table(rows: Vec<ReceivedNote>) -> NoteTable {
    let mut table = NoteTable::new();
    for row in rows {
        assert!(table.insert(row));
    }
    table
}

fn criteria(target_value: i64) -> Criteria {
    Criteria { account: 0, anchor_height: 100, target_value }
}

#[test]
fn table_keeps_the_order_of_identifiers() {
    let mut t = table(vec![note(5, 1), note(2, 2), note(9, 3), note(3, 4)]);
    assert!(!t.insert(note(5, 7)));
    assert!(!t.insert(note(2, 7)));
    assert_eq!(t.len(), 4);
    let rows: Vec<(i64, i64)> = (0..4).map(|i| (t.get(i).id_note, t.get(i).value)).collect();
    assert_eq!(rows, vec![(2, 2), (3, 4), (5, 1), (9, 3)]);
}

#[test]
fn only_eligible_notes_are_selected() {
    let c = criteria(1000);
    let mut other_account = note(2, 10);
    other_account.account = 1;
    let mut spent = note(3, 10);
    spent.spent = Some(7);
    let mut unmined = note(4, 10);
    unmined.block = None;
    let mut late = note(5, 10);
    late.block = Some(101);
    let mut early = note(6, 10);
    early.block = Some(-1);
    assert!(is_eligible(&note(1, 10), &c));
    assert!(!is_eligible(&other_account, &c));
    assert!(!is_eligible(&spent, &c));
    assert!(!is_eligible(&unmined, &c));
    assert!(!is_eligible(&late, &c));
    assert!(is_eligible(&early, &c));
    let t = table(vec![note(1, 10), other_account, spent, unmined, late, early]);
    assert_eq!(select_notes(&t, &c).unwrap(), vec![0, 5]);
}

#[test]
fn oldest_notes_are_selected_until_the_target() {
    let t = table(vec![note(1, 30), note(2, 20), note(3, 50), note(4, 5)]);
    assert_eq!(select_notes(&t, &criteria(29)).unwrap(), vec![0]);
    assert_eq!(select_notes(&t, &criteria(30)).unwrap(), vec![0]);
    assert_eq!(select_notes(&t, &criteria(31)).unwrap(), vec![0, 1]);
    assert_eq!(select_notes(&t, &criteria(51)).unwrap(), vec![0, 1, 2]);
    assert_eq!(select_notes(&t, &criteria(105)).unwrap(), vec![0, 1, 2, 3]);
    // Where all together fall short, all are selected.
    assert_eq!(select_notes(&t, &criteria(106)).unwrap(), vec![0, 1, 2, 3]);
    // A target that nothing is needed for still takes the oldest.
    assert_eq!(select_notes(&t, &criteria(0)).unwrap(), vec![0]);
}

#[test]
fn negative_values_bend_the_running_total() {
    // Totals: 5, 10, 1, 4.
    let t = table(vec![note(1, 5), note(2, 5), note(3, -9), note(4, 3)]);
    assert_eq!(select_notes(&t, &criteria(8)).unwrap(), vec![0, 1, 2, 3]);
    assert_eq!(select_notes(&t, &criteria(4)).unwrap(), vec![0, 2]);
}

#[test]
fn totals_beyond_64_bits_are_an_error() {
    let t = table(vec![note(1, i64::max_value()), note(2, 1)]);
    assert!(matches!(select_notes(&t, &criteria(1)), Err(Error::IntegerOverflow)));
    let t = table(vec![note(1, i64::min_value()), note(2, -1)]);
    assert!(matches!(
        find_funding(&t, &vec![], &criteria(1)),
        Err(Error::IntegerOverflow)
    ));
}

#[test]
fn selected_notes_meet_their_witnesses_at_the_anchor() {
    let t = table(vec![note(1, 10), note(2, 10), note(3, 10)]);
    let witness = |note: i64, block: i64| NoteWitness { note, block, witness: vec![] };
    let ws = vec![
        witness(3, 100),
        witness(1, 99),
        witness(2, 100),
        witness(1, 100),
        witness(2, 100),
    ];
    assert_eq!(find_funding(&t, &ws, &criteria(15)).unwrap(), vec![(0, 3), (1, 2), (1, 4)]);
    assert_eq!(find_funding(&t, &vec![], &criteria(15)).unwrap(), vec![]);
}

/// The selection, written in SQL.
const SELECTION: &str = "
    WITH selected AS (
        WITH eligible AS (
            SELECT id_note, diversifier, value, rcm,
                SUM(value) OVER
                    (PARTITION BY account, spent ORDER BY id_note) AS so_far
            FROM received_notes
            INNER JOIN transactions ON transactions.id_tx = received_notes.tx
            WHERE account = ? AND spent IS NULL AND transactions.block <= ?
        )
        SELECT * FROM eligible WHERE so_far < ?
        UNION
        SELECT * FROM (SELECT * FROM eligible WHERE so_far >= ? LIMIT 1)
    ), witnesses AS (
        SELECT id_witness, note, witness FROM sapling_witnesses
        WHERE block = ?
    )
    SELECT selected.id_note, witnesses.id_witness
    FROM selected
    INNER JOIN witnesses ON selected.id_note = witnesses.note
    ORDER BY selected.id_note, witnesses.id_witness";

#[test]
fn selection_agrees_with_sql() {
    let db = Connection::open_in_memory().unwrap();
    db.execute_batch(
        "CREATE TABLE transactions (id_tx INTEGER PRIMARY KEY, block INTEGER);
        CREATE TABLE received_notes (
            id_note INTEGER PRIMARY KEY, tx INTEGER, account INTEGER, diversifier BLOB,
            value INTEGER, rcm BLOB, spent INTEGER);
        CREATE TABLE sapling_witnesses (
            id_witness INTEGER PRIMARY KEY, note INTEGER, block INTEGER, witness BLOB);",
    )
    .unwrap();
    let mut seed: u64 = 1;
    let mut next = |below: u64| {
        seed = seed.wrapping_mul(6364136223846793005).wrapping_add(1442695040888963407);
        (seed >> 33) % below
    };
    for round in 0..300 {
        db.execute_batch(
            "DELETE FROM transactions; DELETE FROM received_notes;
            DELETE FROM sapling_witnesses;",
        )
        .unwrap();
        let mut rows = vec![];
        let mut ws = vec![];
        for k in 0..next(12) {
            let mut row = note(k as i64 * 2 + 1, next(40) as i64);
            if round % 3 == 0 {
                row.value -= 15;
            }
            row.account = next(4) as i64 / 3;
            row.spent = if next(4) == 0 { Some(1) } else { None };
            row.block = if next(6) == 0 { None } else { Some(95 + next(7) as i64) };
            db.execute(
                "INSERT INTO transactions (id_tx, block) VALUES (?, ?)",
                &[&row.id_note as &dyn ToSql, &row.block],
            )
            .unwrap();
            db.execute(
                "INSERT INTO received_notes (id_note, tx, account, diversifier, value, rcm, spent)
                VALUES (?, ?, ?, x'', ?, x'', ?)",
                &[
                    &row.id_note as &dyn ToSql,
                    &row.id_note,
                    &row.account,
                    &row.value,
                    &row.spent,
                ],
            )
            .unwrap();
            for _ in 0..next(3) {
                let w = NoteWitness {
                    note: row.id_note,
                    block: 99 + next(3) as i64,
                    witness: vec![],
                };
                db.execute(
                    "INSERT INTO sapling_witnesses (id_witness, note, block, witness)
                    VALUES (?, ?, ?, x'')",
                    &[ws.len() as i64, w.note, w.block],
                )
                .unwrap();
                ws.push(w);
            }
            rows.push(row);
        }
        let t = table(rows);
        let c = criteria(next(120) as i64 - 5);
        let mut stmt = db.prepare(SELECTION).unwrap();
        let expected: Vec<(i64, i64)> = stmt
            .query_map(
                &[c.account, c.anchor_height, c.target_value, c.target_value, c.anchor_height],
                |row| Ok((row.get(0)?, row.get(1)?)),
            )
            .unwrap()
            .map(|row| row.unwrap())
            .collect();
        let found: Vec<(i64, i64)> = find_funding(&t, &ws, &c)
            .unwrap()
            .into_iter()
            .map(|(n, w)| (t.get(n).id_note, w as i64))
            .collect();
        assert_eq!(found, expected);
    }
    let count: i64 =
        db.query_row("SELECT COUNT(*) FROM transactions", NO_PARAMS, |row| row.get(0)).unwrap();
    assert!(count < 12);
}

#[test]
fn heights_follow_the_scanned_blocks() {
    assert!(matches!(get_target_and_anchor_heights(None), Err(Error::ScanRequired)));
    assert_eq!(get_target_and_anchor_heights(Some((1, 1))).unwrap(), (2, 1));
    assert_eq!(get_target_and_anchor_heights(Some((0, 3))).unwrap(), (4, 0));
    assert_eq!(get_target_and_anchor_heights(Some((2000, 2009))).unwrap(), (2010, 2000));
    assert_eq!(get_target_and_anchor_heights(Some((2000, 2010))).unwrap(), (2011, 2001));
    assert_eq!(get_target_and_anchor_heights(Some((1, 1000))).unwrap(), (1001, 991));
}

#[test]
fn amounts_are_exact() {
    assert_eq!(target_value(1), 10_001);
    assert_eq!(target_value(-10_000), 0);
    assert_eq!(target_value(2_099_999_999_990_000), 2_100_000_000_000_000);
    assert_eq!(to_unsigned(5), 5);
    assert_eq!(to_unsigned(-1), u64::max_value());
    assert_eq!(to_unsigned(i64::min_value()), 1 << 63);
}

#[test]
fn balances_are_confirmed() {
    assert!(matches!(confirm_balance(&vec![], 0), Some(Ok(()))));
    assert!(matches!(confirm_balance(&vec![3, 4], 7), Some(Ok(()))));
    assert!(matches!(
        confirm_balance(&vec![3, 4], 8),
        Some(Err(Error::InsufficientBalance(7, 8)))
    ));
    assert!(matches!(
        confirm_balance(&vec![3], -1),
        Some(Err(Error::InsufficientBalance(3, u64::MAX)))
    ));
    assert!(confirm_balance(&vec![u64::max_value(), 1], 1).is_none());
}

#[test]
fn errors_have_messages() {
    let text = |e: Error| e.message();
    assert_eq!(text(Error::CorruptedData("x")), Some("Data DB is corrupted: x".to_string()));
    assert_eq!(
        text(Error::InsufficientBalance(0, u64::max_value())),
        Some("Insufficient balance (have 0, need 18446744073709551615 including fee)".to_string())
    );
    assert_eq!(text(Error::IntegerOverflow), Some("integer overflow".to_string()));
    assert_eq!(
        text(Error::InvalidExtSK(1020)),
        Some("Incorrect ExtendedSpendingKey for account 1020".to_string())
    );
    assert_eq!(text(Error::InvalidNote), Some("Invalid note".to_string()));
    assert_eq!(text(Error::ScanRequired), Some("Must scan blocks first".to_string()));
    assert_eq!(
        text(Error::Builder(BuilderError::AnchorMismatch)),
        Some("Anchor mismatch (anchors for all spends must be equal)".to_string())
    );
    assert_eq!(
        text(Error::Builder(BuilderError::InvalidAmount)),
        Some("Invalid amount".to_string())
    );
    assert_eq!(
        text(Error::Builder(BuilderError::InvalidWitness)),
        Some("Invalid note witness".to_string())
    );
    assert_eq!(
        text(Error::Builder(BuilderError::Failed(Failure::SaplingBuilderNotAvailable))),
        None
    );
    assert_eq!(text(Error::Io(std::io::Error::from(std::io::ErrorKind::Other))), None);
}

#[test]
fn diversifiers_have_eleven_bytes() {
    let bytes: Vec<u8> = (1..12).collect();
    assert_eq!(read_diversifier(&bytes).unwrap(), [1, 2, 3, 4, 5, 6, 7, 8, 9, 10, 11]);
    assert!(matches!(
        read_diversifier(&vec![0; 10]),
        Err(Error::CorruptedData("Invalid diversifier length"))
    ));
    assert!(matches!(read_diversifier(&vec![0; 12]), Err(Error::CorruptedData(_))));
}

fn witness_bytes(witness: &IncrementalWitness) -> Vec<u8> {
    let mut bytes = vec![];
    write_incremental_witness(witness, &mut bytes).unwrap();
    bytes
}

fn master(seed: &[u8]) -> ExtendedSpendingKey {
    ExtendedSpendingKey::master(seed).unwrap()
}

#[allow(deprecated)]
fn viewing_key(extsk: &ExtendedSpendingKey) -> ExtendedFullViewingKey {
    extsk.to_extended_full_viewing_key()
}

#[test]
fn rows_are_decoded() {
    let extfvk = viewing_key(&master(&[]));
    let to = extfvk.default_address().1;
    let rcm = jubjub::Fr::from(77);
    let mut tree = CommitmentTree::empty();
    let expected = to.create_note(NoteValue::from_raw(1234), Rseed::BeforeZip212(rcm));
    tree.append(Node::from_cmu(&expected.cmu())).unwrap();
    let witness = IncrementalWitness::from_tree(tree).unwrap();
    let mut row = note(1, 1234);
    row.diversifier = to.diversifier().0.to_vec();
    row.rcm = rcm.to_bytes().to_vec();
    let w = NoteWitness { note: 1, block: 100, witness: witness_bytes(&witness) };
    let selected = decode_note(&extfvk, &row, &w).unwrap().unwrap();
    assert_eq!(selected.value, 1234);
    assert_eq!(witness_bytes(&selected.witness), w.witness);
    assert!(selected.note == expected);
    assert_eq!(selected.note.recipient(), to);

    // The modulus itself is no scalar; one less is.
    let mut modulus = [
        0xb7, 0x2c, 0xf7, 0xd6, 0x5e, 0x0e, 0x97, 0xd0, 0x82, 0x10, 0xc8, 0xcc, 0x93, 0x20, 0x68,
        0xa6, 0x00, 0x3b, 0x34, 0x01, 0x01, 0x3b, 0x67, 0x06, 0xa9, 0xaf, 0x33, 0x65, 0xea, 0xb4,
        0x7d, 0x0eu8,
    ];
    row.rcm = modulus.to_vec();
    assert!(matches!(decode_note(&extfvk, &row, &w), Some(Err(Error::InvalidNote))));
    modulus[0] -= 1;
    row.rcm = modulus.to_vec();
    assert!(decode_note(&extfvk, &row, &w).unwrap().is_ok());
    row.rcm.push(0xff);
    assert!(decode_note(&extfvk, &row, &w).unwrap().is_ok());
    row.rcm.truncate(31);
    assert!(matches!(decode_note(&extfvk, &row, &w), Some(Err(Error::Io(_)))));
}

/// The parts of a witness.
fn parts_of(witness: &IncrementalWitness) -> Parts {
    let tree = witness.tree();
    let mut slots = vec![tree.left().is_some(), tree.right().is_some()];
    slots.extend(tree.parents().iter().map(|node| node.is_some()));
    Parts { slots, filled: witness.filled().len(), cursor: witness.cursor().is_some() }
}

#[test]
fn parts_of_real_witnesses_fit() {
    let mut tree = CommitmentTree::empty();
    let mut witnesses: Vec<IncrementalWitness> = vec![];
    for i in 0..24u8 {
        let mut repr = [0u8; 32];
        repr[0] = i;
        let node = Node::from_bytes(repr).unwrap();
        for witness in witnesses.iter_mut() {
            witness.append(node).unwrap();
        }
        tree.append(node).unwrap();
        witnesses.push(IncrementalWitness::from_tree(tree.clone()).unwrap());
        for witness in witnesses.iter() {
            assert!(parts_fit(&parts_of(witness)));
            assert!(witness.path().is_some());
        }
    }
}

/// A serialised tree with these nodes present.
fn tree_bytes(left: bool, right: bool, parents: &[bool]) -> Vec<u8> {
    let mut bytes = vec![];
    let slot = |present: bool, bytes: &mut Vec<u8>| {
        bytes.push(present as u8);
        if present {
            bytes.extend(vec![1u8; 32]);
        }
    };
    slot(left, &mut bytes);
    slot(right, &mut bytes);
    bytes.push(parents.len() as u8);
    for present in parents {
        slot(*present, &mut bytes);
    }
    bytes
}

fn witness_with(tree: Vec<u8>, filled: u8, cursor: Option<Vec<u8>>) -> IncrementalWitness {
    let mut bytes = tree;
    bytes.push(filled);
    bytes.extend(vec![1u8; 32 * filled as usize]);
    match cursor {
        None => bytes.push(0),
        Some(cursor) => {
            bytes.push(1);
            bytes.extend(cursor);
        }
    }
    assert!(bytes.len() <= 7167);
    read_incremental_witness(&bytes[..]).unwrap()
}

#[test]
fn fitting_witnesses_have_paths() {
    let leaf = tree_bytes(true, false, &[]);
    let cases: Vec<(IncrementalWitness, bool)> = vec![
        (witness_with(leaf.clone(), 0, None), true),
        (witness_with(tree_bytes(false, false, &[]), 1, None), false),
        (witness_with(leaf.clone(), 1, Some(leaf.clone())), true),
        (witness_with(tree_bytes(true, true, &[]), 0, Some(leaf.clone())), true),
        (witness_with(leaf.clone(), 200, None), true),
        (witness_with(tree_bytes(true, false, &[true; 31]), 0, None), true),
        (witness_with(tree_bytes(true, true, &[true; 31]), 0, Some(leaf.clone())), true),
        (witness_with(tree_bytes(true, true, &[]), 32, Some(leaf.clone())), true),
        (
            witness_with(
                tree_bytes(true, true, &[]),
                0,
                Some(tree_bytes(true, true, &[true; 31])),
            ),
            true,
        ),
        (witness_with(tree_bytes(false, true, &[false; 31]), 2, None), false),
    ];
    for (witness, some) in cases {
        assert!(parts_fit(&parts_of(&witness)));
        assert_eq!(witness.path().is_some(), some);
    }
}

#[test]
fn broken_witnesses_do_not_fit() {
    let leaf = tree_bytes(true, false, &[]);
    // A subtree in the place of a leaf.
    assert!(!parts_fit(&parts_of(&witness_with(leaf.clone(), 0, Some(leaf.clone())))));
    // A subtree above the root.
    let full = tree_bytes(true, true, &[]);
    assert!(!parts_fit(&parts_of(&witness_with(full.clone(), 33, Some(leaf.clone())))));
    assert!(!parts_fit(&parts_of(&witness_with(full, 180, Some(leaf)))));
    assert!(!parts_fit(&Parts { slots: vec![true; 33], filled: usize::max_value(), cursor: true }));
}

#[test]
fn longest_witness_is_within_the_limit() {
    let tree = tree_bytes(true, true, &[true; 31]);
    let bytes = witness_bytes(&witness_with(tree.clone(), 32, Some(tree)));
    assert!(2 * bytes.len() < WITNESS_LIMIT);
    let mut stored = bytes.clone();
    assert_eq!(front_of(&stored), &bytes[..]);
    stored.resize(7167, 9);
    assert_eq!(front_of(&stored), &stored[..]);
    stored.push(9);
    assert_eq!(front_of(&stored).len(), 7167);
    assert_eq!(front_of(&stored), &stored[..7167]);
}

#[test]
fn keys_are_written_for_their_network() {
    let extsk = master(&[]);
    let to = RecipientAddress::Shielded(extsk.default_address().1);
    let test = create_to_address(Network::TestNetwork, 0, &extsk, &to, 1, None).encoded_key();
    let main = create_to_address(Network::MainNetwork, 0, &extsk, &to, 1, None).encoded_key();
    assert!(test.starts_with("zxviewtestsapling1"));
    assert!(main.starts_with("zxviews1"));
}

#[test]
fn nullifiers_are_marked() {
    let statements = mark_spent(&vec![[1; 32], [2; 32]], 9);
    assert_eq!(statements.len(), 2);
    assert!(matches!(&statements[0], Statement::MarkSpent { nf, spent: 9 } if *nf == [1; 32]));
    assert!(matches!(&statements[1], Statement::MarkSpent { nf, spent: 9 } if *nf == [2; 32]));
}

#[test]
fn failed_build_is_reported() {
    let extsk = master(&[]);
    let to = RecipientAddress::Shielded(extsk.default_address().1);
    let payment = Payment {
        network: Network::TestNetwork,
        account: 0,
        extsk: &extsk,
        to: &to,
        value: 1,
        memo: None,
    };
    assert!(matches!(
        transaction_built(payment, Err(BuilderError::InvalidAmount)),
        Some(Err(Error::Builder(BuilderError::InvalidAmount)))
    ));
}
