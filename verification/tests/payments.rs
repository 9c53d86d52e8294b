//! Payments out of a wallet kept in an SQLite database.

use rusqlite::{types::ToSql, Connection, NO_PARAMS};
use sapling_crypto::builder::Error as SaplingError;
use sapling_crypto::circuit::{Output, OutputParameters, Spend, SpendParameters};
use sapling_crypto::keys::EphemeralSecretKey;
use sapling_crypto::note_encryption::try_sapling_output_recovery;
use sapling_crypto::prover::{OutputProver, SpendProver};
use sapling_crypto::value::{NoteValue, ValueCommitTrapdoor};
use sapling_crypto::zip32::{
    DiversifiableFullViewingKey, ExtendedFullViewingKey, ExtendedSpendingKey,
};
use sapling_crypto::{
    CommitmentTree, Diversifier, IncrementalWitness, MerklePath, Node, PaymentAddress,
    ProofGenerationKey, Rseed,
};
use zcash_client_backend::encoding::{
    encode_extended_full_viewing_key, encode_payment_address, encode_transparent_address_p,
};
use zcash_primitives::merkle_tree::write_incremental_witness;
use zcash_primitives::transaction::builder::Error as Failure;
use zcash_primitives::transaction::components::sapling::zip212_enforcement;
use zcash_primitives::transaction::Transaction;
use zcash_protocol::consensus::{BlockHeight, BranchId, Network};
use zcash_transact::error::{BuilderError, Error};
use zcash_transact::heights::get_target_and_anchor_heights;
use zcash_transact::notes::{NoteTable, NoteWitness, ReceivedNote};
use zcash_transact::persist::Statement;
use zcash_transact::transact::{create_to_address, RecipientAddress};
use zcash_transparent::address::TransparentAddress;

const SAPLING_ACTIVATION_HEIGHT: u32 = 280_000;

const SCHEMA: &str = "
    CREATE TABLE accounts (account INTEGER PRIMARY KEY, extfvk TEXT NOT NULL);
    CREATE TABLE blocks (height INTEGER PRIMARY KEY);
    CREATE TABLE transactions (
        id_tx INTEGER PRIMARY KEY, txid BLOB NOT NULL UNIQUE, created TEXT, block INTEGER,
        expiry_height INTEGER, raw BLOB);
    CREATE TABLE received_notes (
        id_note INTEGER PRIMARY KEY, tx INTEGER NOT NULL, account INTEGER NOT NULL,
        diversifier BLOB NOT NULL, value INTEGER NOT NULL, rcm BLOB NOT NULL,
        nf BLOB NOT NULL UNIQUE, spent INTEGER);
    CREATE TABLE sapling_witnesses (
        id_witness INTEGER PRIMARY KEY, note INTEGER NOT NULL, block INTEGER NOT NULL,
        witness BLOB NOT NULL, CONSTRAINT witness_height UNIQUE (note, block));
    CREATE TABLE sent_notes (
        id_note INTEGER PRIMARY KEY, tx INTEGER NOT NULL, output_index INTEGER NOT NULL,
        from_account INTEGER NOT NULL, address TEXT NOT NULL, value INTEGER NOT NULL, memo BLOB);
";

/// A prover whose proofs are empty.
struct EmptyProver;

/// A prover that refuses every spend.
struct RefusingProver;

fn test_prover() -> EmptyProver {
    EmptyProver
}

impl SpendProver for EmptyProver {
    type Proof = [u8; 192];

    fn prepare_circuit(
        proof_generation_key: ProofGenerationKey,
        diversifier: Diversifier,
        rseed: Rseed,
        value: NoteValue,
        alpha: jubjub::Fr,
        rcv: ValueCommitTrapdoor,
        anchor: bls12_381::Scalar,
        merkle_path: MerklePath,
    ) -> Option<Spend> {
        <SpendParameters as SpendProver>::prepare_circuit(
            proof_generation_key,
            diversifier,
            rseed,
            value,
            alpha,
            rcv,
            anchor,
            merkle_path,
        )
    }

    fn create_proof<R: rand_core::Rng>(&self, _circuit: Spend, _rng: &mut R) -> [u8; 192] {
        [0u8; 192]
    }

    fn encode_proof(proof: [u8; 192]) -> [u8; 192] {
        proof
    }
}

impl SpendProver for RefusingProver {
    type Proof = [u8; 192];

    fn prepare_circuit(
        _proof_generation_key: ProofGenerationKey,
        _diversifier: Diversifier,
        _rseed: Rseed,
        _value: NoteValue,
        _alpha: jubjub::Fr,
        _rcv: ValueCommitTrapdoor,
        _anchor: bls12_381::Scalar,
        _merkle_path: MerklePath,
    ) -> Option<Spend> {
        None
    }

    fn create_proof<R: rand_core::Rng>(&self, _circuit: Spend, _rng: &mut R) -> [u8; 192] {
        [0u8; 192]
    }

    fn encode_proof(proof: [u8; 192]) -> [u8; 192] {
        proof
    }
}

impl OutputProver for EmptyProver {
    type Proof = [u8; 192];

    fn prepare_circuit(
        esk: &EphemeralSecretKey,
        payment_address: PaymentAddress,
        rcm: jubjub::Fr,
        value: NoteValue,
        rcv: ValueCommitTrapdoor,
    ) -> Output {
        <OutputParameters as OutputProver>::prepare_circuit(esk, payment_address, rcm, value, rcv)
    }

    fn create_proof<R: rand_core::Rng>(&self, _circuit: Output, _rng: &mut R) -> [u8; 192] {
        [0u8; 192]
    }

    fn encode_proof(proof: [u8; 192]) -> [u8; 192] {
        proof
    }
}

fn master(seed: &[u8]) -> ExtendedSpendingKey {
    ExtendedSpendingKey::master(seed).unwrap()
}

#[allow(deprecated)]
fn viewing_key(extsk: &ExtendedSpendingKey) -> ExtendedFullViewingKey {
    extsk.to_extended_full_viewing_key()
}

fn encode_key(extfvk: &ExtendedFullViewingKey) -> String {
    encode_extended_full_viewing_key("zxviewtestsapling", extfvk)
}

fn serialise(witness: &IncrementalWitness) -> Vec<u8> {
    let mut bytes = vec![];
    write_incremental_witness(witness, &mut bytes).unwrap();
    bytes
}

/// A wallet, and the chain as it sees it.
struct Wallet {
    db: Connection,
    accounts: Vec<String>,
    tree: CommitmentTree,
    followed: Vec<(i64, IncrementalWitness)>,
    mined: u64,
}

impl Wallet {
    fn new(extfvks: &[ExtendedFullViewingKey]) -> Wallet {
        let db = Connection::open_in_memory().unwrap();
        db.execute_batch(SCHEMA).unwrap();
        let accounts: Vec<String> = extfvks.iter().map(encode_key).collect();
        for (account, extfvk) in accounts.iter().enumerate() {
            db.execute(
                "INSERT INTO accounts (account, extfvk) VALUES (?, ?)",
                &[&(account as i64) as &dyn ToSql, extfvk],
            )
            .unwrap();
        }
        Wallet { db, accounts, tree: CommitmentTree::empty(), followed: vec![], mined: 0 }
    }

    fn insert_block(&self, height: u32) {
        self.db.execute("INSERT INTO blocks (height) VALUES (?)", &[height]).unwrap();
    }

    /// Mines and scans a block that pays `value` to the owner of the key.
    fn mine(&mut self, height: u32, extfvk: &ExtendedFullViewingKey, value: u64) {
        self.insert_block(height);
        self.mined += 1;
        let rcm = jubjub::Fr::from(self.mined);
        let to = extfvk.default_address().1;
        let note = to.create_note(NoteValue::from_raw(value), Rseed::BeforeZip212(rcm));
        let node = Node::from_cmu(&note.cmu());
        for (_, witness) in self.followed.iter_mut() {
            witness.append(node).unwrap();
        }
        self.tree.append(node).unwrap();
        let encoded = encode_key(extfvk);
        if let Some(account) = self.accounts.iter().position(|a| *a == encoded) {
            let witness = IncrementalWitness::from_tree(self.tree.clone()).unwrap();
            let dfvk = DiversifiableFullViewingKey::from(extfvk);
            let nf = note.nf(dfvk.fvk().vk.nk(), u64::from(witness.witnessed_position()));
            self.db
                .execute(
                    "INSERT INTO transactions (txid, block) VALUES (?, ?)",
                    &[&self.mined.to_le_bytes().to_vec() as &dyn ToSql, &height],
                )
                .unwrap();
            let tx = self.db.last_insert_rowid();
            self.db
                .execute(
                    "INSERT INTO received_notes (tx, account, diversifier, value, rcm, nf)
                    VALUES (?, ?, ?, ?, ?, ?)",
                    &[
                        &tx as &dyn ToSql,
                        &(account as i64),
                        &to.diversifier().0.to_vec(),
                        &(value as i64),
                        &rcm.to_bytes().to_vec(),
                        &nf.0.to_vec(),
                    ],
                )
                .unwrap();
            self.followed.push((self.db.last_insert_rowid(), witness));
        }
        for (note, witness) in self.followed.iter() {
            self.db
                .execute(
                    "INSERT INTO sapling_witnesses (note, block, witness) VALUES (?, ?, ?)",
                    &[note as &dyn ToSql, &height, &serialise(witness)],
                )
                .unwrap();
        }
        // Notes locked by a transaction that has expired are released.
        self.db
            .execute(
                "UPDATE received_notes SET spent = NULL WHERE EXISTS (
                    SELECT id_tx FROM transactions
                    WHERE id_tx = received_notes.spent AND block IS NULL AND expiry_height < ?)",
                &[height],
            )
            .unwrap();
    }

    fn scanned(&self) -> Option<(u32, u32)> {
        self.db
            .query_row("SELECT MIN(height), MAX(height) FROM blocks", NO_PARAMS, |row| {
                let min: Option<u32> = row.get(0)?;
                let max: Option<u32> = row.get(1)?;
                Ok(min.and_then(|min| max.map(|max| (min, max))))
            })
            .unwrap()
    }

    fn get_balance(&self, account: i64) -> i64 {
        self.db
            .query_row(
                "SELECT SUM(value) FROM received_notes
                INNER JOIN transactions ON transactions.id_tx = received_notes.tx
                WHERE account = ? AND spent IS NULL AND transactions.block IS NOT NULL",
                &[account],
                |row| row.get(0),
            )
            .map(|sum: Option<i64>| sum.unwrap_or(0))
            .unwrap()
    }

    fn get_verified_balance(&self, account: i64) -> i64 {
        let (_, anchor_height) = get_target_and_anchor_heights(self.scanned()).unwrap();
        self.db
            .query_row(
                "SELECT SUM(value) FROM received_notes
                INNER JOIN transactions ON transactions.id_tx = received_notes.tx
                WHERE account = ? AND spent IS NULL AND transactions.block <= ?",
                &[account, i64::from(anchor_height)],
                |row| row.get(0),
            )
            .map(|sum: Option<i64>| sum.unwrap_or(0))
            .unwrap()
    }

    fn notes(&self) -> NoteTable {
        let mut table = NoteTable::new();
        let mut stmt = self
            .db
            .prepare(
                "SELECT id_note, account, spent, transactions.block, diversifier, value, rcm, nf
                FROM received_notes
                INNER JOIN transactions ON transactions.id_tx = received_notes.tx",
            )
            .unwrap();
        let rows = stmt
            .query_map(NO_PARAMS, |row| {
                Ok(ReceivedNote {
                    id_note: row.get(0)?,
                    account: row.get(1)?,
                    spent: row.get(2)?,
                    block: row.get(3)?,
                    diversifier: row.get(4)?,
                    value: row.get(5)?,
                    rcm: row.get(6)?,
                    nf: row.get(7)?,
                })
            })
            .unwrap();
        for row in rows {
            assert!(table.insert(row.unwrap()));
        }
        table
    }

    fn witnesses(&self) -> Vec<NoteWitness> {
        let mut stmt =
            self.db.prepare("SELECT note, block, witness FROM sapling_witnesses").unwrap();
        let rows = stmt
            .query_map(NO_PARAMS, |row| {
                Ok(NoteWitness { note: row.get(0)?, block: row.get(1)?, witness: row.get(2)? })
            })
            .unwrap();
        rows.map(|row| row.unwrap()).collect()
    }

    fn run(&self, statement: &Statement) {
        match statement {
            Statement::Begin => self.db.execute("BEGIN IMMEDIATE", NO_PARAMS).unwrap(),
            Statement::InsertTransaction(row) => self
                .db
                .execute(
                    "INSERT INTO transactions (txid, created, expiry_height, raw)
                    VALUES (?, ?, ?, ?)",
                    &[
                        &row.txid.to_vec() as &dyn ToSql,
                        &time::get_time(),
                        &row.expiry_height,
                        &row.raw,
                    ],
                )
                .unwrap(),
            Statement::MarkSpent { nf, spent } => self
                .db
                .execute(
                    "UPDATE received_notes SET spent = ? WHERE nf = ?",
                    &[spent as &dyn ToSql, &nf.to_vec()],
                )
                .unwrap(),
            Statement::InsertSentNote(row) => self
                .db
                .execute(
                    "INSERT INTO sent_notes (tx, output_index, from_account, address, value, memo)
                    VALUES (?, ?, ?, ?, ?, ?)",
                    &[
                        &row.tx as &dyn ToSql,
                        &row.output_index,
                        &row.from_account,
                        &row.address,
                        &row.value,
                        &row.memo.map(|bytes| bytes.to_vec()),
                    ],
                )
                .unwrap(),
            Statement::Commit => self.db.execute("COMMIT", NO_PARAMS).unwrap(),
        };
    }

    /// Runs a payment to its end; `Err(None)` where it meets impossible data.
    fn pay<S: SpendProver>(
        &self,
        prover: S,
        (account, extsk): (u32, &ExtendedSpendingKey),
        to: &RecipientAddress,
        value: i64,
        memo: Option<[u8; 512]>,
    ) -> Result<i64, Option<Error>> {
        let state = create_to_address(Network::TestNetwork, account, extsk, to, value, memo);
        let found = self
            .db
            .prepare("SELECT * FROM accounts WHERE account = ? AND extfvk = ?")
            .unwrap()
            .exists(&[&state.account() as &dyn ToSql, &state.encoded_key()])
            .unwrap();
        let state = state.account_found(found).map_err(Some)?;
        let state = state.blocks_scanned(self.scanned()).ok_or(None)?.map_err(Some)?;
        let state =
            state.notes_found(&self.notes(), &self.witnesses()).ok_or(None)?.map_err(Some)?;
        let state = state.add_spends().ok_or(None)?.map_err(Some)?;
        let state = state.add_output().map_err(Some)?;
        let state = state.build(&prover, &EmptyProver).ok_or(None)?.map_err(Some)?;
        for statement in state.opening().map_err(Some)? {
            self.run(&statement);
        }
        let (statements, id_tx) = state.closing(self.db.last_insert_rowid());
        for statement in statements {
            self.run(&statement);
        }
        Ok(id_tx)
    }

    fn refused(
        &self,
        key: (u32, &ExtendedSpendingKey),
        to: &RecipientAddress,
        value: i64,
    ) -> Error {
        match self.pay(test_prover(), key, to, value, None) {
            Ok(_) => panic!("Should have failed"),
            Err(e) => e.unwrap(),
        }
    }

    fn locked(&self) -> Vec<i64> {
        let mut stmt = self
            .db
            .prepare("SELECT id_note FROM received_notes WHERE spent IS NOT NULL ORDER BY id_note")
            .unwrap();
        let rows = stmt.query_map(NO_PARAMS, |row| row.get(0)).unwrap();
        rows.map(|row| row.unwrap()).collect()
    }

    fn stored(&self, id_tx: i64) -> Transaction {
        let height = BlockHeight::from(self.scanned().unwrap().1 + 1);
        let branch = BranchId::for_height(&Network::TestNetwork, height);
        let raw: Vec<u8> = self
            .db
            .query_row("SELECT raw FROM transactions WHERE id_tx = ?", &[id_tx], |row| row.get(0))
            .unwrap();
        Transaction::read(&raw[..], branch).unwrap()
    }
}

fn shielded(extsk: &ExtendedSpendingKey) -> RecipientAddress {
    RecipientAddress::Shielded(extsk.default_address().1)
}

/// A wallet with one account and one note of 50000 in the first block.
fn funded() -> (Wallet, ExtendedSpendingKey) {
    let extsk = master(&[]);
    let extfvk = viewing_key(&extsk);
    let mut wallet = Wallet::new(&[extfvk.clone()]);
    wallet.mine(SAPLING_ACTIVATION_HEIGHT, &extfvk, 50000);
    (wallet, extsk)
}

#[test]
fn create_to_address_fails_on_incorrect_extsk() {
    // Add two accounts to the wallet
    let extsk0 = master(&[]);
    let extsk1 = master(&[0]);
    let extfvks =
        [viewing_key(&extsk0), viewing_key(&extsk1)];
    let wallet = Wallet::new(&extfvks);
    let to = shielded(&extsk0);

    // Invalid extsk for the given account should cause an error
    assert_eq!(
        wallet.refused((0, &extsk1), &to, 1).message().unwrap(),
        "Incorrect ExtendedSpendingKey for account 0"
    );
    assert_eq!(
        wallet.refused((1, &extsk0), &to, 1).message().unwrap(),
        "Incorrect ExtendedSpendingKey for account 1"
    );
}

#[test]
fn create_to_address_fails_with_no_blocks() {
    // Add an account to the wallet
    let extsk = master(&[]);
    let wallet = Wallet::new(&[viewing_key(&extsk)]);
    let to = shielded(&extsk);

    // We cannot do anything if we aren't synchronised
    assert_eq!(wallet.refused((0, &extsk), &to, 1).message().unwrap(), "Must scan blocks first");
}

#[test]
fn create_to_address_fails_on_insufficient_balance() {
    // Add an account to the wallet
    let extsk = master(&[]);
    let wallet = Wallet::new(&[viewing_key(&extsk)]);
    wallet.insert_block(1);
    let to = shielded(&extsk);

    // Account balance should be zero
    assert_eq!(wallet.get_balance(0), 0);

    // We cannot spend anything
    assert_eq!(
        wallet.refused((0, &extsk), &to, 1).message().unwrap(),
        "Insufficient balance (have 0, need 10001 including fee)"
    );
}

#[test]
fn create_to_address_fails_on_unverified_notes() {
    // Add an account to the wallet
    let extsk = master(&[]);
    let extfvk = viewing_key(&extsk);
    let mut wallet = Wallet::new(&[extfvk.clone()]);

    // Add funds to the wallet in a single note
    let value = 50000;
    wallet.mine(SAPLING_ACTIVATION_HEIGHT, &extfvk, value);

    // Verified balance matches total balance
    assert_eq!(wallet.get_balance(0), value as i64);
    assert_eq!(wallet.get_verified_balance(0), value as i64);

    // Add more funds to the wallet in a second note
    wallet.mine(SAPLING_ACTIVATION_HEIGHT + 1, &extfvk, value);

    // Verified balance does not include the second note
    assert_eq!(wallet.get_balance(0), (value + value) as i64);
    assert_eq!(wallet.get_verified_balance(0), value as i64);

    // Spend fails because there are insufficient verified notes
    let extsk2 = master(&[]);
    let to = shielded(&extsk2);
    assert_eq!(
        wallet.refused((0, &extsk), &to, 70000).message().unwrap(),
        "Insufficient balance (have 50000, need 80000 including fee)"
    );

    // Mine blocks SAPLING_ACTIVATION_HEIGHT + 2 to 9 until just before the second
    // note is verified
    for i in 2..10 {
        wallet.mine(SAPLING_ACTIVATION_HEIGHT + i, &extfvk, value);
    }

    // Second spend still fails
    assert_eq!(
        wallet.refused((0, &extsk), &to, 70000).message().unwrap(),
        "Insufficient balance (have 50000, need 80000 including fee)"
    );

    // Mine block 11 so that the second note becomes verified
    wallet.mine(SAPLING_ACTIVATION_HEIGHT + 10, &extfvk, value);

    // Second spend should now succeed
    wallet.pay(test_prover(), (0, &extsk), &to, 70000, None).unwrap();
    assert_eq!(wallet.locked(), vec![1, 2]);
}

#[test]
fn create_to_address_fails_on_locked_notes() {
    // Add an account to the wallet
    let extsk = master(&[]);
    let extfvk = viewing_key(&extsk);
    let mut wallet = Wallet::new(&[extfvk.clone()]);

    // Add funds to the wallet in a single note
    let value = 50000;
    wallet.mine(SAPLING_ACTIVATION_HEIGHT, &extfvk, value);
    assert_eq!(wallet.get_balance(0), value as i64);

    // Send some of the funds to another address
    let extsk2 = master(&[]);
    let to = shielded(&extsk2);
    wallet.pay(test_prover(), (0, &extsk), &to, 15000, None).unwrap();

    // A second spend fails because there are no usable notes
    assert_eq!(
        wallet.refused((0, &extsk), &to, 2000).message().unwrap(),
        "Insufficient balance (have 0, need 12000 including fee)"
    );

    // Mine blocks SAPLING_ACTIVATION_HEIGHT + 1 to 21 (that don't send us funds)
    // until just before the first transaction expires
    for i in 1..22 {
        wallet.mine(
            SAPLING_ACTIVATION_HEIGHT + i,
            &viewing_key(&master(&[i as u8])),
            value,
        );
    }

    // Second spend still fails
    assert_eq!(
        wallet.refused((0, &extsk), &to, 2000).message().unwrap(),
        "Insufficient balance (have 0, need 12000 including fee)"
    );

    // Mine block SAPLING_ACTIVATION_HEIGHT + 22 so that the first transaction expires
    wallet.mine(
        SAPLING_ACTIVATION_HEIGHT + 22,
        &viewing_key(&master(&[22])),
        value,
    );

    // Second spend should now succeed
    wallet.pay(test_prover(), (0, &extsk), &to, 2000, None).unwrap();
}

/// What the payer can recover of an output.
fn recover(
    tx: &Transaction,
    index: usize,
    height: u32,
    extfvk: &ExtendedFullViewingKey,
) -> Option<(PaymentAddress, u64, [u8; 512])> {
    let outputs = tx.sapling_bundle().unwrap().shielded_outputs();
    let ovk = DiversifiableFullViewingKey::from(extfvk).fvk().ovk;
    let rules = zip212_enforcement(&Network::TestNetwork, BlockHeight::from(height));
    try_sapling_output_recovery(&ovk, &outputs[index], rules)
        .map(|(note, to, memo)| (to, note.value().inner(), memo))
}

fn empty_memo() -> [u8; 512] {
    let mut memo = [0u8; 512];
    memo[0] = 0xf6;
    memo
}

#[test]
fn shielded_payment_is_stored() {
    let (mut wallet, extsk) = funded();
    let extfvk = viewing_key(&extsk);
    wallet.mine(SAPLING_ACTIVATION_HEIGHT + 1, &extfvk, 30000);
    for i in 2..11 {
        wallet.mine(SAPLING_ACTIVATION_HEIGHT + i, &extfvk, 1);
    }
    let other = master(&[7]);
    let address = other.default_address().1;
    let mut memo = [0u8; 512];
    memo[..5].copy_from_slice(b"hello");
    let id_tx = wallet
        .pay(test_prover(), (0, &extsk), &shielded(&other), 65000, Some(memo))
        .unwrap();

    // Both older notes are spent, and no other.
    assert_eq!(wallet.locked(), vec![1, 2]);
    let mut expected: Vec<Vec<u8>> = {
        let mut stmt =
            wallet.db.prepare("SELECT nf FROM received_notes WHERE spent = ?").unwrap();
        let rows = stmt.query_map(&[id_tx], |row| row.get(0)).unwrap();
        rows.map(|row| row.unwrap()).collect()
    };
    let tx = wallet.stored(id_tx);
    let bundle = tx.sapling_bundle().unwrap();
    let mut revealed: Vec<Vec<u8>> =
        bundle.shielded_spends().iter().map(|spend| spend.nullifier().0.to_vec()).collect();
    expected.sort();
    revealed.sort();
    assert_eq!(revealed, expected);

    // The target is the block after the newest, and the fee is what the balance leaves.
    let height = SAPLING_ACTIVATION_HEIGHT + 11;
    assert_eq!(u32::from(tx.expiry_height()), height + 20);
    assert_eq!(i64::from(tx.sapling_value_balance()), 10000);
    assert!(tx.transparent_bundle().is_none());
    assert_eq!(bundle.shielded_outputs().len(), 2);
    let (txid, expiry): (Vec<u8>, u32) = wallet
        .db
        .query_row("SELECT txid, expiry_height FROM transactions WHERE id_tx = ?", &[id_tx], |row| {
            Ok((row.get(0)?, row.get(1)?))
        })
        .unwrap();
    assert_eq!(&txid[..], &tx.txid().as_ref()[..]);
    assert_eq!(expiry, height + 20);

    // The sent note names the output that holds the payment, which the payer can recover.
    let (output_index, from_account, to, value, stored_memo): (i64, u32, String, i64, Vec<u8>) =
        wallet
            .db
            .query_row(
                "SELECT output_index, from_account, address, value, memo FROM sent_notes
                WHERE tx = ?",
                &[id_tx],
                |row| Ok((row.get(0)?, row.get(1)?, row.get(2)?, row.get(3)?, row.get(4)?)),
            )
            .unwrap();
    assert_eq!((from_account, value), (0, 65000));
    assert_eq!(to, encode_payment_address("ztestsapling", &address));
    assert_eq!(stored_memo, memo.to_vec());
    let paid = recover(&tx, output_index as usize, height, &extfvk);
    assert_eq!(paid, Some((address, 65000, memo)));

    // The rest comes back to the payer.
    let change = recover(&tx, 1 - output_index as usize, height, &extfvk);
    assert_eq!(
        change,
        Some((extsk.default_address().1, 80000 - 65000 - 10000, empty_memo()))
    );
}

#[test]
fn exact_payment_leaves_no_change() {
    let (wallet, extsk) = funded();
    let to = shielded(&master(&[7]));
    let id_tx = wallet.pay(test_prover(), (0, &extsk), &to, 40000, None).unwrap();
    let tx = wallet.stored(id_tx);
    assert_eq!(i64::from(tx.sapling_value_balance()), 10000);
    let output_index: i64 = wallet
        .db
        .query_row("SELECT output_index FROM sent_notes WHERE tx = ?", &[id_tx], |row| row.get(0))
        .unwrap();
    let extfvk = viewing_key(&extsk);
    let height = SAPLING_ACTIVATION_HEIGHT + 1;
    assert_eq!(
        recover(&tx, output_index as usize, height, &extfvk),
        Some((master(&[7]).default_address().1, 40000, empty_memo()))
    );
    // The other output only pads the transaction.
    assert_eq!(recover(&tx, 1 - output_index as usize, height, &extfvk), None);

    // To a transparent address there is then no shielded output to record.
    let (wallet, extsk) = funded();
    let to = RecipientAddress::Transparent(TransparentAddress::PublicKeyHash([3; 20]));
    assert!(matches!(wallet.pay(test_prover(), (0, &extsk), &to, 40000, None), Err(None)));
    wallet.pay(test_prover(), (0, &extsk), &to, 39999, None).unwrap();
}

#[test]
fn transparent_payment_is_stored() {
    let (wallet, extsk) = funded();
    let recipient = TransparentAddress::PublicKeyHash([3; 20]);
    let to = RecipientAddress::Transparent(recipient);
    let id_tx = wallet.pay(test_prover(), (0, &extsk), &to, 15000, None).unwrap();
    let tx = wallet.stored(id_tx);
    let outputs = &tx.transparent_bundle().unwrap().vout;
    assert_eq!(outputs.len(), 1);
    assert_eq!(u64::from(outputs[0].value()), 15000);
    assert_eq!(outputs[0].recipient_address(), Some(recipient));
    assert_eq!(i64::from(tx.sapling_value_balance()), 25000);
    let (address, output_index, memo): (String, i64, Option<Vec<u8>>) = wallet
        .db
        .query_row(
            "SELECT address, output_index, memo FROM sent_notes WHERE tx = ?",
            &[id_tx],
            |row| Ok((row.get(0)?, row.get(1)?, row.get(2)?)),
        )
        .unwrap();
    assert_eq!(address, encode_transparent_address_p(&Network::TestNetwork, &recipient));
    assert_eq!(memo, None);
    // The first shielded output is the change.
    assert_eq!(
        recover(&tx, output_index as usize, SAPLING_ACTIVATION_HEIGHT + 1, &viewing_key(&extsk)),
        Some((extsk.default_address().1, 25000, empty_memo()))
    );
    assert_eq!(wallet.locked(), vec![1]);

    let recipient = TransparentAddress::ScriptHash([4; 20]);
    let (wallet, extsk) = funded();
    let to = RecipientAddress::Transparent(recipient);
    let id_tx = wallet.pay(test_prover(), (0, &extsk), &to, 0, None).unwrap();
    let tx = wallet.stored(id_tx);
    let outputs = &tx.transparent_bundle().unwrap().vout;
    assert_eq!(outputs[0].recipient_address(), Some(recipient));
}

#[test]
fn payments_stay_within_their_account() {
    let extsk0 = master(&[]);
    let extsk1 = master(&[0]);
    let extfvk0 = viewing_key(&extsk0);
    let extfvk1 = viewing_key(&extsk1);
    let mut wallet = Wallet::new(&[extfvk0.clone(), extfvk1.clone()]);
    wallet.mine(SAPLING_ACTIVATION_HEIGHT, &extfvk0, 50000);
    for i in 1..11 {
        wallet.mine(SAPLING_ACTIVATION_HEIGHT + i, &extfvk1, 20000);
    }
    let to = shielded(&extsk0);
    assert_eq!(
        wallet.refused((1, &extsk1), &to, 10001).message().unwrap(),
        "Insufficient balance (have 20000, need 20001 including fee)"
    );
    wallet.pay(test_prover(), (1, &extsk1), &to, 10000, None).unwrap();
    assert_eq!(wallet.locked(), vec![2]);
}

#[test]
fn two_payments_never_share_a_note() {
    let (mut wallet, extsk) = funded();
    let extfvk = viewing_key(&extsk);
    for i in 1..12 {
        wallet.mine(SAPLING_ACTIVATION_HEIGHT + i, &extfvk, 20000);
    }
    let to = shielded(&extsk);
    let first = wallet.pay(test_prover(), (0, &extsk), &to, 40000, None).unwrap();
    assert_eq!(wallet.locked(), vec![1]);
    let second = wallet.pay(test_prover(), (0, &extsk), &to, 10000, None).unwrap();
    assert_eq!(wallet.locked(), vec![1, 2]);
    let spent: Vec<(i64, Option<i64>)> = {
        let table = wallet.notes();
        (0..table.len()).map(|i| (table.get(i).id_note, table.get(i).spent)).collect()
    };
    assert_eq!(spent[0], (1, Some(first)));
    assert_eq!(spent[1], (2, Some(second)));
    assert_eq!(spent[2], (3, None));
    let revealed = |id_tx: i64| -> Vec<[u8; 32]> {
        let tx = wallet.stored(id_tx);
        tx.sapling_bundle().unwrap().shielded_spends().iter().map(|s| s.nullifier().0).collect()
    };
    assert_ne!(first, second);
    assert!(revealed(first).iter().all(|nf| !revealed(second).contains(nf)));
}

#[test]
fn bytes_behind_a_witness_are_ignored() {
    for extra in [1, 7167, 7168, 20000] {
        let (wallet, extsk) = funded();
        let mut bytes = wallet.witnesses().remove(0).witness;
        bytes.extend(vec![0xffu8; extra]);
        wallet
            .db
            .execute("UPDATE sapling_witnesses SET witness = ?", &[&bytes as &dyn ToSql])
            .unwrap();
        wallet.pay(test_prover(), (0, &extsk), &shielded(&extsk), 40000, None).unwrap();
        assert_eq!(wallet.locked(), vec![1]);
    }
}

#[test]
fn change_returns_to_the_oldest_note() {
    // The oldest note was received at another address of the account than the default one.
    let (wallet, extsk) = funded();
    let extfvk = viewing_key(&extsk);
    let dfvk = DiversifiableFullViewingKey::from(&extfvk);
    let own = (1u8..)
        .filter_map(|i| dfvk.fvk().vk.to_payment_address(Diversifier([i; 11])))
        .find(|own| *own != extsk.default_address().1)
        .unwrap();
    let rcm = jubjub::Fr::from(99);
    let note = own.create_note(NoteValue::from_raw(50000), Rseed::BeforeZip212(rcm));
    let mut tree = CommitmentTree::empty();
    tree.append(Node::from_cmu(&note.cmu())).unwrap();
    let witness = IncrementalWitness::from_tree(tree).unwrap();
    wallet
        .db
        .execute(
            "UPDATE received_notes SET diversifier = ?, rcm = ?, nf = ?",
            &[
                &own.diversifier().0.to_vec() as &dyn ToSql,
                &rcm.to_bytes().to_vec(),
                &note.nf(dfvk.fvk().vk.nk(), 0).0.to_vec(),
            ],
        )
        .unwrap();
    wallet
        .db
        .execute("UPDATE sapling_witnesses SET witness = ?", &[&serialise(&witness) as &dyn ToSql])
        .unwrap();
    let to = shielded(&master(&[7]));
    let id_tx = wallet.pay(test_prover(), (0, &extsk), &to, 15000, None).unwrap();
    assert_eq!(wallet.locked(), vec![1]);
    let tx = wallet.stored(id_tx);
    let height = SAPLING_ACTIVATION_HEIGHT + 1;
    let recovered: Vec<_> =
        (0..2).map(|i| recover(&tx, i, height, &extfvk).unwrap()).collect();
    assert!(recovered.contains(&(own, 25000, empty_memo())));
}

#[test]
fn rows_not_asked_for_can_be_left_out() {
    let extsk0 = master(&[]);
    let extsk1 = master(&[0]);
    let mut wallet = Wallet::new(&[viewing_key(&extsk0), viewing_key(&extsk1)]);
    for i in 0..12 {
        let extsk = if i % 2 == 0 { &extsk1 } else { &extsk0 };
        wallet.mine(SAPLING_ACTIVATION_HEIGHT + i, &viewing_key(extsk), 20000);
    }
    wallet.db.execute_batch("UPDATE received_notes SET spent = 1 WHERE id_note = 1").unwrap();
    let to = shielded(&extsk0);
    let state = create_to_address(Network::TestNetwork, 1, &extsk1, &to, 15000, None);
    let state = state.account_found(true).unwrap();
    let state = state.blocks_scanned(wallet.scanned()).unwrap().unwrap();
    let all = wallet.notes();
    let mut asked = vec![];
    let mut fewer = NoteTable::new();
    for i in 0..all.len() {
        let row = all.get(i);
        if state.asks_for(row.account, row.spent, row.block) {
            asked.push(row.id_note);
            assert!(fewer.insert(ReceivedNote {
                id_note: row.id_note,
                account: row.account,
                spent: row.spent,
                block: row.block,
                diversifier: row.diversifier.clone(),
                value: row.value,
                rcm: row.rcm.clone(),
                nf: row.nf.clone(),
            }));
        }
    }
    // The first note of the account is spent, and the anchor is the third block.
    assert_eq!(asked, vec![3]);
    match state.notes_found(&fewer, &wallet.witnesses()) {
        Some(Err(e)) => assert_eq!(
            e.message().unwrap(),
            "Insufficient balance (have 20000, need 25000 including fee)"
        ),
        _ => panic!("Should have failed"),
    }
    assert_eq!(
        wallet.refused((1, &extsk1), &to, 15000).message().unwrap(),
        "Insufficient balance (have 20000, need 25000 including fee)"
    );
}

#[test]
fn refused_payment_changes_nothing() {
    let (wallet, extsk) = funded();
    let to = shielded(&extsk);
    wallet.refused((0, &extsk), &to, 40001);
    assert_eq!(wallet.locked(), Vec::<i64>::new());
    let transactions: i64 = wallet
        .db
        .query_row("SELECT COUNT(*) FROM transactions", NO_PARAMS, |row| row.get(0))
        .unwrap();
    assert_eq!(transactions, 1);
    wallet.pay(test_prover(), (0, &extsk), &to, 40000, None).unwrap();
}

#[test]
fn negative_values_are_refused() {
    let (wallet, extsk) = funded();
    assert!(matches!(
        wallet.refused((0, &extsk), &shielded(&extsk), -1),
        Error::Builder(BuilderError::InvalidAmount)
    ));
    let to = RecipientAddress::Transparent(TransparentAddress::ScriptHash([1; 20]));
    assert!(matches!(
        wallet.refused((0, &extsk), &to, -1),
        Error::Builder(BuilderError::InvalidAmount)
    ));
    // Below the fee the needed value wraps around, and nothing can cover it.
    assert_eq!(
        wallet.refused((0, &extsk), &to, -10001).message().unwrap(),
        "Insufficient balance (have 50000, need 18446744073709551615 including fee)"
    );
}

#[test]
fn failing_prover_is_reported() {
    let (wallet, extsk) = funded();
    let to = shielded(&extsk);
    assert!(matches!(
        wallet.pay(RefusingProver, (0, &extsk), &to, 1, None),
        Err(Some(Error::Builder(BuilderError::Failed(Failure::SaplingBuild(
            SaplingError::SpendProof
        )))))
    ));
    assert_eq!(wallet.locked(), Vec::<i64>::new());
}

#[test]
fn chain_without_shielded_transactions_is_reported() {
    let extsk = master(&[]);
    let extfvk = viewing_key(&extsk);
    let mut wallet = Wallet::new(&[extfvk.clone()]);
    wallet.mine(10, &extfvk, 50000);
    assert!(matches!(
        wallet.refused((0, &extsk), &shielded(&extsk), 1),
        Error::Builder(BuilderError::Failed(Failure::TargetIncompatible(_, _, _)))
    ));
}

#[test]
fn oversized_notes_are_refused() {
    let extsk = master(&[]);
    let extfvk = viewing_key(&extsk);
    let to = shielded(&extsk);
    let mut wallet = Wallet::new(&[extfvk.clone()]);
    wallet.mine(SAPLING_ACTIVATION_HEIGHT, &extfvk, 2_100_000_000_000_001);
    assert!(matches!(
        wallet.refused((0, &extsk), &to, 1),
        Error::Builder(BuilderError::InvalidAmount)
    ));

    // Two valid notes that together exceed the money supply.
    let mut wallet = Wallet::new(&[extfvk.clone()]);
    for i in 0..11 {
        wallet.mine(SAPLING_ACTIVATION_HEIGHT + i, &extfvk, 2_000_000_000_000_000);
    }
    assert!(matches!(
        wallet.pay(test_prover(), (0, &extsk), &to, 2_050_000_000_000_000, None),
        Err(None)
    ));
    // The value and the fee exceed it.
    assert!(matches!(
        wallet.pay(test_prover(), (0, &extsk), &to, 2_099_999_999_990_001, None),
        Err(None)
    ));
}

#[test]
fn overflowing_totals_are_reported() {
    let (wallet, extsk) = funded();
    wallet
        .db
        .execute("UPDATE received_notes SET value = ?", &[i64::max_value()])
        .unwrap();
    wallet
        .db
        .execute_batch(
            "INSERT INTO received_notes (tx, account, diversifier, value, rcm, nf)
            VALUES (1, 0, x'', 1, x'', x'')",
        )
        .unwrap();
    assert_eq!(
        wallet.refused((0, &extsk), &shielded(&extsk), 1).message().unwrap(),
        "integer overflow"
    );
}

#[test]
fn corrupted_rows_are_reported() {
    let (wallet, extsk) = funded();
    let to = shielded(&extsk);

    wallet.db.execute_batch("UPDATE received_notes SET rcm = x'00'").unwrap();
    match wallet.refused((0, &extsk), &to, 1) {
        Error::Io(e) => assert_eq!(e.kind(), std::io::ErrorKind::UnexpectedEof),
        e => panic!("unexpected {:?}", e),
    }

    wallet.db.execute("UPDATE received_notes SET rcm = ?", &[vec![0xffu8; 32]]).unwrap();
    assert_eq!(wallet.refused((0, &extsk), &to, 1).message().unwrap(), "Invalid note");

    // Bytes behind the scalar are not read.
    wallet.db.execute("UPDATE received_notes SET rcm = ?", &[vec![1u8; 40]]).unwrap();
    assert!(wallet.notes().get(0).rcm.len() == 40);

    wallet.db.execute_batch("UPDATE received_notes SET diversifier = x'00112233'").unwrap();
    assert_eq!(
        wallet.refused((0, &extsk), &to, 1).message().unwrap(),
        "Data DB is corrupted: Invalid diversifier length"
    );

    let dfvk = extsk.to_diversifiable_full_viewing_key();
    let bad = (0..=255u8)
        .find(|i| dfvk.fvk().vk.to_payment_address(Diversifier([*i; 11])).is_none())
        .unwrap();
    wallet
        .db
        .execute("UPDATE received_notes SET diversifier = ?", &[vec![bad; 11]])
        .unwrap();
    assert!(matches!(wallet.pay(test_prover(), (0, &extsk), &to, 1, None), Err(None)));
}

#[test]
fn corrupted_witnesses_are_reported() {
    let (mut wallet, extsk) = funded();
    let extfvk = viewing_key(&extsk);
    let to = shielded(&extsk);
    let set = |wallet: &Wallet, note: i64, bytes: Vec<u8>| {
        wallet
            .db
            .execute(
                "UPDATE sapling_witnesses SET witness = ? WHERE note = ?",
                &[&bytes as &dyn ToSql, &note],
            )
            .unwrap();
    };

    // Not a witness at all.
    set(&wallet, 1, vec![2]);
    assert!(matches!(wallet.refused((0, &extsk), &to, 1), Error::Io(_)));

    // A witness of the empty tree.
    set(&wallet, 1, vec![0; 5]);
    assert!(matches!(wallet.refused((0, &extsk), &to, 1), Error::Io(_)));

    // A witness without a leaf, to which something was appended, leads nowhere.
    let mut bytes = vec![0u8, 0, 0, 1];
    bytes.extend(vec![1u8; 32]);
    bytes.push(0);
    set(&wallet, 1, bytes);
    assert_eq!(
        wallet.refused((0, &extsk), &to, 1).message().unwrap(),
        "Invalid note witness"
    );

    // A subtree that is being filled at the bottom of the tree has no depth.
    let mut bytes = vec![1u8];
    bytes.extend(vec![1u8; 32]);
    bytes.extend(vec![0u8, 0, 0, 1, 0, 0, 0]);
    set(&wallet, 1, bytes);
    assert!(matches!(wallet.pay(test_prover(), (0, &extsk), &to, 1, None), Err(None)));

    // More subtrees than any tree has.
    let mut bytes = vec![0u8, 0, 0, 253, 0, 2];
    bytes.extend(vec![1u8; 32 * 512 + 1]);
    set(&wallet, 1, bytes);
    assert!(matches!(wallet.refused((0, &extsk), &to, 1), Error::Io(_)));
    set(&wallet, 1, vec![0; 7168]);
    assert!(matches!(wallet.refused((0, &extsk), &to, 1), Error::Io(_)));

    // Without a witness at the anchor the note drops out.
    wallet.db.execute_batch("DELETE FROM sapling_witnesses").unwrap();
    assert_eq!(
        wallet.refused((0, &extsk), &to, 1).message().unwrap(),
        "Insufficient balance (have 0, need 10001 including fee)"
    );

    // Notes anchored in different trees cannot be spent together.
    let (mut other, _) = funded();
    for i in 1..11 {
        wallet.mine(SAPLING_ACTIVATION_HEIGHT + i, &extfvk, 50000);
        other.mine(SAPLING_ACTIVATION_HEIGHT + i, &extfvk, 50001);
    }
    wallet.pay(test_prover(), (0, &extsk), &to, 80000, None).unwrap();
    assert_eq!(wallet.locked(), vec![1, 2]);
    wallet.db.execute_batch("UPDATE received_notes SET spent = NULL").unwrap();
    let foreign = other.witnesses().into_iter().filter(|w| w.note == 2).last().unwrap();
    set(&wallet, 2, foreign.witness);
    assert_eq!(
        wallet.refused((0, &extsk), &to, 80000).message().unwrap(),
        "Anchor mismatch (anchors for all spends must be equal)"
    );
}

#[test]
fn chain_at_its_end_is_refused() {
    let (mut wallet, extsk) = funded();
    let to = shielded(&extsk);
    wallet.db.execute_batch("DELETE FROM blocks").unwrap();
    let extfvk = viewing_key(&extsk);
    wallet.mine(u32::max_value() - 21, &extfvk, 50000);
    let id_tx = wallet.pay(test_prover(), (0, &extsk), &to, 10000, None).unwrap();
    assert_eq!(u32::from(wallet.stored(id_tx).expiry_height()), u32::max_value());
    wallet.db.execute_batch("UPDATE received_notes SET spent = NULL").unwrap();
    wallet.db.execute_batch("UPDATE blocks SET height = height + 1").unwrap();
    wallet.db.execute_batch("UPDATE sapling_witnesses SET block = block + 1").unwrap();
    assert!(matches!(wallet.pay(test_prover(), (0, &extsk), &to, 10000, None), Err(None)));
    wallet.insert_block(u32::max_value());
    assert!(matches!(wallet.pay(test_prover(), (0, &extsk), &to, 10000, None), Err(None)));
}

#[test]
fn statements_come_in_order() {
    let (wallet, extsk) = funded();
    let to = shielded(&extsk);
    let state = create_to_address(Network::TestNetwork, 0, &extsk, &to, 15000, None);
    let state = state.account_found(true).unwrap();
    let state = state.blocks_scanned(wallet.scanned()).unwrap().unwrap();
    assert_eq!(state.anchor_height(), SAPLING_ACTIVATION_HEIGHT);
    let state = state.notes_found(&wallet.notes(), &wallet.witnesses()).unwrap().unwrap();
    // The one note can also be added by itself.
    assert_eq!(state.remaining_notes(), 1);
    let state = state.add_spend().unwrap().unwrap();
    assert_eq!(state.remaining_notes(), 0);
    let state = state.add_output().unwrap();
    let state = state.build(&test_prover(), &test_prover()).unwrap().unwrap();
    let opening = state.opening().unwrap();
    assert_eq!(opening.len(), 2);
    assert!(matches!(opening[0], Statement::Begin));
    assert!(matches!(&opening[1], Statement::InsertTransaction(row)
        if row.expiry_height == SAPLING_ACTIVATION_HEIGHT + 21));
    let (closing, id_tx) = state.closing(42);
    assert_eq!(id_tx, 42);
    assert_eq!(closing.len(), 3);
    let nf = wallet.notes().get(0).nf.clone();
    assert!(matches!(&closing[0], Statement::MarkSpent { nf: marked, spent: 42 }
        if marked[..] == nf[..]));
    assert!(matches!(&closing[1], Statement::InsertSentNote(row)
        if row.tx == 42 && row.from_account == 0 && row.address.starts_with("ztestsapling1")
            && row.value == 15000 && row.memo.is_none() && row.output_index < 2));
    assert!(matches!(closing[2], Statement::Commit));
}
