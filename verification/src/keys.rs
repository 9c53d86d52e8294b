//! Keys, addresses and notes of the Sapling protocol, and what `sapling_crypto` and
//! `zcash_client_backend` compute of them.

use ff::PrimeField;
use sapling_crypto::value::NoteValue;
use sapling_crypto::zip32::{
    DiversifiableFullViewingKey, ExtendedFullViewingKey, ExtendedSpendingKey,
};
use sapling_crypto::{Diversifier, Note, PaymentAddress, Rseed};
use vstd::prelude::*;
use zcash_client_backend::encoding::{
    encode_extended_full_viewing_key, encode_payment_address_p, encode_transparent_address_p,
};
use zcash_keys::constants::hrp_sapling_extended_full_viewing_key;
use zcash_protocol::consensus::{Network, Parameters};
use zcash_transparent::address::TransparentAddress;

verus! {

/// `zcash_protocol::consensus::Network`, carried through unread.
#[verifier::external_type_specification]
#[verifier::external_body]
pub struct ExNetwork(Network);

/// `sapling_crypto::zip32::ExtendedSpendingKey`, carried through unread.
#[verifier::external_type_specification]
#[verifier::external_body]
pub struct ExExtendedSpendingKey(ExtendedSpendingKey);

/// `sapling_crypto::zip32::ExtendedFullViewingKey`, carried through unread.
#[verifier::external_type_specification]
#[verifier::external_body]
pub struct ExExtendedFullViewingKey(ExtendedFullViewingKey);

/// `sapling_crypto::PaymentAddress`, carried through unread.
#[verifier::external_type_specification]
#[verifier::external_body]
pub struct ExPaymentAddress(PaymentAddress);

/// `zcash_transparent::address::TransparentAddress`, carried through unread.
#[verifier::external_type_specification]
#[verifier::external_body]
pub struct ExTransparentAddress(TransparentAddress);

/// `sapling_crypto::Note`, carried through unread.
#[verifier::external_type_specification]
#[verifier::external_body]
pub struct ExNote(Note);

/// The viewing key that `ExtendedSpendingKey::to_extended_full_viewing_key` derives.
pub uninterp spec fn full_viewing_key(extsk: ExtendedSpendingKey) -> ExtendedFullViewingKey;

/// Calls `ExtendedSpendingKey::to_extended_full_viewing_key`, which computes the viewing key
/// from the fields of the spending key alone.
#[allow(deprecated)]
#[verifier::external_body]
pub(crate) fn viewing_key(extsk: &ExtendedSpendingKey) -> (extfvk: ExtendedFullViewingKey)
    ensures
        extfvk == full_viewing_key(*extsk),
{
    extsk.to_extended_full_viewing_key()
}

/// The text that `encode_extended_full_viewing_key` gives for a viewing key on a network.
pub uninterp spec fn encoded_key(network: Network, extfvk: ExtendedFullViewingKey) -> Seq<char>;

/// Calls `encode_extended_full_viewing_key` with the prefix of the network; the text depends
/// on the two alone.
#[verifier::external_body]
pub(crate) fn encode_key(network: Network, extfvk: &ExtendedFullViewingKey) -> (text: String)
    ensures
        text@ == encoded_key(network, *extfvk),
{
    let prefix = hrp_sapling_extended_full_viewing_key(network.network_type());
    encode_extended_full_viewing_key(prefix, extfvk)
}

/// The text that `encode_payment_address_p` gives for a shielded address on a network.
pub uninterp spec fn encoded_shielded(network: Network, to: PaymentAddress) -> Seq<char>;

/// Calls `encode_payment_address_p`, whose result depends on its arguments alone.
#[verifier::external_body]
pub(crate) fn encode_shielded(network: Network, to: &PaymentAddress) -> (text: String)
    ensures
        text@ == encoded_shielded(network, *to),
{
    encode_payment_address_p(&network, to)
}

/// The text that `encode_transparent_address_p` gives for a transparent address on a network.
pub uninterp spec fn encoded_transparent(network: Network, to: TransparentAddress) -> Seq<char>;

/// Calls `encode_transparent_address_p`, whose result depends on its arguments alone.
#[verifier::external_body]
pub(crate) fn encode_transparent(network: Network, to: &TransparentAddress) -> (text: String)
    ensures
        text@ == encoded_transparent(network, *to),
{
    encode_transparent_address_p(&network, to)
}

/// The address that `ViewingKey::to_payment_address` finds for a viewing key and a
/// diversifier; none where the diversifier does not hash to the curve, or the address's
/// key would be the identity.
pub uninterp spec fn diversified_address(
    extfvk: ExtendedFullViewingKey,
    diversifier: Seq<u8>,
) -> Option<PaymentAddress>;

/// Calls `ViewingKey::to_payment_address`, whose result depends on the two keys and the
/// diversifier alone.
#[verifier::external_body]
pub(crate) fn payment_address(
    extfvk: &ExtendedFullViewingKey,
    diversifier: [u8; 11],
) -> (address: Option<PaymentAddress>)
    ensures
        address == diversified_address(*extfvk, diversifier@),
{
    let dfvk = DiversifiableFullViewingKey::from(extfvk);
    dfvk.fvk().vk.to_payment_address(Diversifier(diversifier))
}

/// The integer whose little-endian bytes are `bytes`.
pub open spec fn le_integer(bytes: Seq<u8>) -> nat
    decreases bytes.len(),
{
    if bytes.len() == 0 {
        0
    } else {
        bytes[0] as nat + 256 * le_integer(bytes.skip(1))
    }
}

/// The order of the prime-order subgroup of Jubjub.
pub open spec fn scalar_modulus() -> nat {
    0x0e7db4ea6533afa906673b0101343b00a6682093ccc81082d0970e5ed6f72cb7nat
}

/// `repr` is the canonical representation of a Jubjub scalar.
pub open spec fn canonical_scalar(repr: Seq<u8>) -> bool {
    repr.len() == 32 && le_integer(repr) < scalar_modulus()
}

/// Calls `jubjub::Fr::from_repr`, which takes 32 bytes as a little-endian integer and
/// rejects those that are not below the modulus.
#[verifier::external_body]
pub(crate) fn is_canonical_scalar(repr: &[u8; 32]) -> (canonical: bool)
    ensures
        canonical == canonical_scalar(repr@),
{
    jubjub::Fr::from_repr(*repr).is_some().into()
}

/// The note that `PaymentAddress::create_note` makes for an address, a value and the
/// commitment randomness `rcm`.
pub uninterp spec fn created_note(address: PaymentAddress, value: u64, rcm: Seq<u8>) -> Note;

/// The value of a note.
pub uninterp spec fn note_value(note: Note) -> u64;

/// The address that a note was sent to.
pub uninterp spec fn note_recipient(note: Note) -> PaymentAddress;

/// Calls `PaymentAddress::create_note`, whose result depends on its arguments alone; the
/// note made has the value and the recipient given.
#[verifier::external_body]
pub(crate) fn create_note(address: &PaymentAddress, value: u64, rcm: [u8; 32]) -> (note: Note)
    requires
        canonical_scalar(rcm@),
    ensures
        note == created_note(*address, value, rcm@),
        note_value(note) == value,
        note_recipient(note) == *address,
{
    let rcm = jubjub::Fr::from_repr(rcm).unwrap();
    address.create_note(NoteValue::from_raw(value), Rseed::BeforeZip212(rcm))
}

/// Calls `Note::recipient`, which hands out the address stored with the note.
#[verifier::external_body]
pub(crate) fn recipient(note: &Note) -> (address: PaymentAddress)
    ensures
        address == note_recipient(*note),
{
    note.recipient()
}

/// `std::io::Error::kind` gives `UnexpectedEof` for this error.
pub uninterp spec fn unexpected_eof(error: std::io::Error) -> bool;

/// Calls `std::io::Read::read_exact` on a slice, which fills the buffer with the first
/// bytes, and fails with an error of kind `UnexpectedEof` where there are too few.
#[verifier::external_body]
pub(crate) fn read_32(bytes: &Vec<u8>) -> (r: Result<[u8; 32], std::io::Error>)
    ensures
        r is Ok == (bytes@.len() >= 32),
        r matches Ok(buffer) ==> buffer@ == bytes@.take(32),
        r matches Err(e) ==> unexpected_eof(e),
{
    let mut buffer = [0u8; 32];
    std::io::Read::read_exact(&mut &bytes[..], &mut buffer).map(|_| buffer)
}

} // verus!
