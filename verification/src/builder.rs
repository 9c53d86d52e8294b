//! Assembling a transaction with the builder of `zcash_primitives`.

use crate::amount::{in_money_range, MAX_MONEY};
use crate::error::BuilderError;
use crate::keys::note_value;
use crate::witness::path_root;
use incrementalmerkletree::MerklePath;
use rand::rngs::SysRng;
use rand_core::UnwrapErr;
use sapling_crypto::builder::SaplingMetadata;
use sapling_crypto::prover::{OutputProver, SpendProver};
use sapling_crypto::zip32::{
    DiversifiableFullViewingKey, ExtendedFullViewingKey, ExtendedSpendingKey,
};
use sapling_crypto::{Anchor, Node, Note, PaymentAddress};
use std::convert::Infallible;
use vstd::prelude::*;
use zcash_primitives::transaction::builder::{BuildConfig, Builder, BundlePadding};
use zcash_primitives::transaction::fees::fixed::FeeRule;
use zcash_primitives::transaction::Transaction;
use zcash_protocol::consensus::Network;
use zcash_protocol::memo::MemoBytes;
use zcash_protocol::value::Zatoshis;
use zcash_transparent::address::TransparentAddress;
use zcash_transparent::builder::TransparentSigningSet;

verus! {

/// `zcash_primitives::transaction::builder::Builder`, carried through unread.
#[verifier::external_type_specification]
#[verifier::external_body]
#[verifier::reject_recursive_types(P)]
#[verifier::reject_recursive_types(U)]
pub struct ExBuilder<P, U>(Builder<P, U>);

/// `zcash_primitives::transaction::Transaction`, carried through unread.
#[verifier::external_type_specification]
#[verifier::external_body]
pub struct ExTransaction(Transaction);

/// `sapling_crypto::builder::SaplingMetadata`, carried through unread.
#[verifier::external_type_specification]
#[verifier::external_body]
pub struct ExSaplingMetadata(SaplingMetadata);

/// The number of blocks after its target height at which a transaction expires.
pub const EXPIRY_DELTA: u32 = 20;

/// A note being spent.
pub struct SpendView {
    pub extsk: ExtendedSpendingKey,
    pub note: Note,
    pub path: MerklePath<Node, 32>,
}

/// A shielded output; the outgoing viewing key is that of `extfvk`.
pub struct OutputView {
    pub extfvk: ExtendedFullViewingKey,
    pub to: PaymentAddress,
    pub value: i64,
    pub memo: Option<Seq<u8>>,
}

/// What a builder has been given.
#[verifier::ext_equal]
pub struct BuilderView {
    pub network: Network,
    pub target_height: u32,
    /// The root of the commitment tree that the spends are anchored in.
    pub anchor: Seq<u8>,
    pub spends: Seq<SpendView>,
    pub outputs: Seq<OutputView>,
    pub transparent_outputs: Seq<(TransparentAddress, i64)>,
}

/// The total value of the notes being spent.
pub open spec fn spent_value(spends: Seq<SpendView>) -> int
    decreases spends.len(),
{
    if spends.len() == 0 {
        0
    } else {
        spent_value(spends.drop_last()) + note_value(spends.last().note)
    }
}

/// Each note is spent under the key `extsk`.
pub open spec fn spent_under(spends: Seq<SpendView>, extsk: ExtendedSpendingKey) -> bool {
    forall|i: int| 0 <= i < spends.len() ==> (#[trigger] spends[i]).extsk == extsk
}

/// The total value of the shielded outputs.
pub open spec fn output_value(outputs: Seq<OutputView>) -> int
    decreases outputs.len(),
{
    if outputs.len() == 0 {
        0
    } else {
        output_value(outputs.drop_last()) + outputs.last().value
    }
}

/// The total value of the transparent outputs.
pub open spec fn transparent_value(outputs: Seq<(TransparentAddress, i64)>) -> int
    decreases outputs.len(),
{
    if outputs.len() == 0 {
        0
    } else {
        transparent_value(outputs.drop_last()) + outputs.last().1
    }
}

/// What the shielded spends hold beyond the shielded outputs.
pub open spec fn value_balance(b: BuilderView) -> int {
    spent_value(b.spends) - output_value(b.outputs)
}

/// What the spends hold beyond all outputs: the fee that the transaction leaves.
pub open spec fn fee(b: BuilderView) -> int {
    value_balance(b) - transparent_value(b.transparent_outputs)
}

/// What the builder has been given so far.
pub uninterp spec fn contents(b: Builder<Network, ()>) -> BuilderView;

/// Calls `Builder::new` for a transaction to be mined at `height`, with the root that the
/// path of `note` leads to as the anchor, and `Builder::with_expiry_height`, so that the
/// transaction expires `EXPIRY_DELTA` blocks later. The builder made is empty.
#[verifier::external_body]
pub(crate) fn new_builder(
    network: Network,
    height: u32,
    expiry_height: u32,
    note: &Note,
    path: &MerklePath<Node, 32>,
) -> (b: Builder<Network, ()>)
    requires
        expiry_height == height + EXPIRY_DELTA,
    ensures
        contents(b) == (BuilderView {
            network,
            target_height: height,
            anchor: path_root(*note, *path),
            spends: Seq::empty(),
            outputs: Seq::empty(),
            transparent_outputs: Seq::empty(),
        }),
{
    let config = BuildConfig::Standard {
        sapling_anchor: Some(Anchor::from(path.root(Node::from_cmu(&note.cmu())))),
        orchard_anchor: None,
        ironwood_anchor: None,
        orchard_padding: BundlePadding::DEFAULT,
        ironwood_padding: BundlePadding::DEFAULT,
    };
    Builder::new(network, height.into(), config).with_expiry_height(expiry_height.into())
}

/// Calls `Builder::add_sapling_spend` with the full viewing key of `extsk`. It refuses a note
/// of some value whose path leads to another root than the anchor, and otherwise adds the
/// spend.
#[verifier::external_body]
pub(crate) fn add_sapling_spend(
    b: &mut Builder<Network, ()>,
    extsk: &ExtendedSpendingKey,
    note: Note,
    path: MerklePath<Node, 32>,
) -> (added: bool)
    requires
        in_money_range(value_balance(contents(*old(b))) + note_value(note)),
    ensures
        added == (note_value(note) == 0 || path_root(note, path) == contents(*old(b)).anchor),
        added ==> contents(*final(b)) == (BuilderView {
            spends: contents(*old(b)).spends.push(SpendView { extsk: *extsk, note, path }),
            ..contents(*old(b))
        }),
{
    let dfvk = extsk.to_diversifiable_full_viewing_key();
    b.add_sapling_spend::<Infallible>(dfvk.fvk().clone(), note, path).is_ok()
}

/// Calls `Builder::add_sapling_output` with the outgoing viewing key of `extfvk`, and the
/// empty memo where there is none. It adds the output where the value balance stays in
/// range.
#[verifier::external_body]
pub(crate) fn add_sapling_output(
    b: &mut Builder<Network, ()>,
    extfvk: &ExtendedFullViewingKey,
    to: &PaymentAddress,
    value: i64,
    memo: Option<[u8; 512]>,
)
    requires
        0 <= value <= MAX_MONEY,
        in_money_range(value_balance(contents(*old(b))) - value),
    ensures
        contents(*final(b)) == (BuilderView {
            outputs: contents(*old(b)).outputs.push(
                OutputView {
                    extfvk: *extfvk,
                    to: *to,
                    value,
                    memo: match memo {
                        Some(bytes) => Some(bytes@),
                        None => None,
                    },
                },
            ),
            ..contents(*old(b))
        }),
{
    let ovk = DiversifiableFullViewingKey::from(extfvk).fvk().ovk;
    let value = Zatoshis::from_nonnegative_i64(value).unwrap();
    let memo = memo.map_or_else(MemoBytes::empty, |m| MemoBytes::from_bytes(&m).unwrap());
    b.add_sapling_output::<Infallible>(Some(ovk), *to, value, memo).unwrap()
}

/// Calls `Builder::add_transparent_output`, which adds the output.
#[verifier::external_body]
pub(crate) fn add_transparent_output(
    b: &mut Builder<Network, ()>,
    to: &TransparentAddress,
    value: i64,
)
    requires
        0 <= value <= MAX_MONEY,
    ensures
        contents(*final(b)) == (BuilderView {
            transparent_outputs: contents(*old(b)).transparent_outputs.push((*to, value)),
            ..contents(*old(b))
        }),
{
    b.add_transparent_output(to, Zatoshis::from_nonnegative_i64(value).unwrap()).unwrap()
}

/// The nullifier that `Note::nf` computes for a note at the end of a path, under the
/// viewing key of `extsk`.
pub uninterp spec fn spend_nullifier(
    extsk: ExtendedSpendingKey,
    note: Note,
    path: MerklePath<Node, 32>,
) -> Seq<u8>;

/// The nullifiers that the spends reveal.
pub open spec fn spend_nullifiers(spends: Seq<SpendView>) -> Seq<Seq<u8>> {
    spends.map_values(|s: SpendView| spend_nullifier(s.extsk, s.note, s.path))
}

/// The nullifiers of the transaction's shielded spends, in the transaction's order.
pub uninterp spec fn tx_nullifiers(tx: Transaction) -> Seq<Seq<u8>>;

/// The height that `TransactionData::expiry_height` gives.
pub uninterp spec fn tx_expiry(tx: Transaction) -> u32;

/// The bytes that `Transaction::write` writes, where it succeeds.
pub uninterp spec fn tx_bytes(tx: Transaction) -> Option<Seq<u8>>;

/// The identifier that `Transaction::txid` gives.
pub uninterp spec fn tx_id(tx: Transaction) -> Seq<u8>;

/// The recipients and values of the transaction's transparent outputs, in order.
pub uninterp spec fn tx_transparent_outputs(tx: Transaction) -> Seq<(TransparentAddress, i64)>;

/// The balance that `TransactionData::sapling_value_balance` gives: what the transaction's
/// shielded spends hold beyond its shielded outputs.
pub uninterp spec fn tx_value_balance(tx: Transaction) -> i64;

/// The number of shielded outputs of the transaction.
pub uninterp spec fn tx_output_count(tx: Transaction) -> nat;

/// The recipient, value and memo that `try_sapling_output_recovery` recovers from the
/// transaction's shielded output at `index`, with the outgoing viewing key of `extfvk`, under
/// the rules in force on `network` at `height`.
pub uninterp spec fn recovered_output(
    tx: Transaction,
    index: usize,
    network: Network,
    height: u32,
    extfvk: ExtendedFullViewingKey,
) -> Option<(PaymentAddress, u64, Seq<u8>)>;

/// The position that `SaplingMetadata::output_index` gives for the `n`-th shielded output
/// added.
pub uninterp spec fn output_position(metadata: SaplingMetadata, n: usize) -> Option<usize>;

/// The memo that stands for there being none: a marker byte, then zeros.
pub open spec fn empty_memo() -> Seq<u8> {
    Seq::new(512, |i: int| if i == 0 { 0xf6u8 } else { 0u8 })
}

/// What the payer can recover of an output.
pub open spec fn recoverable_part(output: OutputView) -> (PaymentAddress, u64, Seq<u8>) {
    (
        output.to,
        output.value as u64,
        match output.memo {
            Some(bytes) => bytes,
            None => empty_memo(),
        },
    )
}

/// Calls `Builder::build` with the key `extsk`, random numbers of the system and a fixed fee.
/// It has the provers make the proofs, shuffles spends and outputs, pads the shielded
/// outputs to two, and signs. It refuses a fee other than what the spends hold beyond the
/// outputs, and spends of notes that the key is not for; neither may be handed to it.
///
/// Whether it succeeds is then up to the provers and to the rules in force at the target
/// height, and left open, as are the order of spends and outputs and the contents of the
/// proofs. Where it succeeds, the transaction has the shielded balance and the transparent
/// outputs given, reveals the nullifiers of the notes given, and expires `EXPIRY_DELTA`
/// blocks after the target height; each output added stands where the metadata says, and can
/// be recovered with the viewing key that it was added under; and the transaction can be
/// serialised.
#[verifier::external_body]
pub(crate) fn build_transaction<S: SpendProver, O: OutputProver>(
    b: Builder<Network, ()>,
    extsk: &ExtendedSpendingKey,
    fixed_fee: u64,
    spend_prover: &S,
    output_prover: &O,
) -> (r: Result<(Transaction, SaplingMetadata), BuilderError>)
    requires
        fixed_fee <= MAX_MONEY,
        fee(contents(b)) == fixed_fee,
        contents(b).spends.len() > 0,
        spent_under(contents(b).spends, *extsk),
        in_money_range(value_balance(contents(b))),
    ensures
        match r {
            Ok((tx, metadata)) => {
                &&& tx_nullifiers(tx).to_multiset() == contents(b).spends.map_values(
                    |s: SpendView| spend_nullifier(s.extsk, s.note, s.path),
                ).to_multiset()
                &&& tx_expiry(tx) == contents(b).target_height + EXPIRY_DELTA
                &&& tx_bytes(tx) is Some
                &&& tx_transparent_outputs(tx) == contents(b).transparent_outputs
                &&& tx_value_balance(tx) == value_balance(contents(b))
                &&& tx_output_count(tx) == if contents(b).outputs.len() < 2 {
                    2
                } else {
                    contents(b).outputs.len()
                }
                &&& forall|n: usize|
                    #![trigger output_position(metadata, n)]
                    output_position(metadata, n) is Some == (n < contents(b).outputs.len())
                &&& forall|n: usize|
                    #![trigger output_position(metadata, n)]
                    n < contents(b).outputs.len() ==> {
                        &&& output_position(metadata, n)->0 < tx_output_count(tx)
                        &&& recovered_output(
                            tx,
                            output_position(metadata, n)->0,
                            contents(b).network,
                            contents(b).target_height,
                            contents(b).outputs[n as int].extfvk,
                        ) == Some(recoverable_part(contents(b).outputs[n as int]))
                    }
            },
            Err(e) => e is Failed,
        },
{
    let fee_rule = FeeRule::non_standard(Zatoshis::from_u64(fixed_fee).unwrap());
    let (set, keys, rng) = (TransparentSigningSet::new(), [extsk.clone()], UnwrapErr(SysRng));
    match b.build(&set, &keys, &[], rng, spend_prover, output_prover, &fee_rule) {
        Ok(built) => Ok((built.transaction().clone(), built.sapling_meta().clone())),
        Err(e) => Err(BuilderError::Failed(e)),
    }
}

/// The bytes of each nullifier.
pub open spec fn byte_views(nullifiers: Seq<[u8; 32]>) -> Seq<Seq<u8>> {
    nullifiers.map_values(|n: [u8; 32]| n@)
}

/// Reads the nullifiers of the shielded spends of a transaction.
#[verifier::external_body]
pub(crate) fn transaction_nullifiers(tx: &Transaction) -> (nullifiers: Vec<[u8; 32]>)
    ensures
        byte_views(nullifiers@) == tx_nullifiers(*tx),
{
    let spends = tx.sapling_bundle().map_or(&[][..], |bundle| bundle.shielded_spends());
    spends.iter().map(|spend| spend.nullifier().0).collect()
}

/// Calls `TransactionData::expiry_height`, which hands out the height stored with the
/// transaction.
#[verifier::external_body]
pub(crate) fn transaction_expiry(tx: &Transaction) -> (height: u32)
    ensures
        height == tx_expiry(*tx),
{
    u32::from(tx.expiry_height())
}

/// Calls `Transaction::txid`, which hands out the identifier stored with the transaction.
#[verifier::external_body]
pub(crate) fn transaction_id(tx: &Transaction) -> (txid: [u8; 32])
    ensures
        txid@ == tx_id(*tx),
{
    *tx.txid().as_ref()
}

/// Calls `Transaction::write` on a buffer, where what is written, and whether writing
/// succeeds, depends on the transaction alone. Which error reports a failure is left open.
#[verifier::external_body]
pub(crate) fn transaction_bytes(tx: &Transaction) -> (r: Result<Vec<u8>, std::io::Error>)
    ensures
        match r {
            Ok(bytes) => tx_bytes(*tx) == Some(bytes@),
            Err(_) => tx_bytes(*tx) is None,
        },
{
    let mut bytes = vec![];
    tx.write(&mut bytes).map(|_| bytes)
}

/// Calls `SaplingMetadata::output_index`, which looks up the position recorded for the
/// `n`-th shielded output added.
#[verifier::external_body]
pub(crate) fn output_index(metadata: &SaplingMetadata, n: usize) -> (index: Option<usize>)
    ensures
        index == output_position(*metadata, n),
{
    metadata.output_index(n)
}

} // verus!
