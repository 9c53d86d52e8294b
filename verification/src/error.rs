//! Errors of the wallet's spending flow.

use std::convert::Infallible;
use vstd::prelude::*;
use zcash_primitives::transaction::builder::Error as Failure;

verus! {

/// `std::io::Error`, carried through unread.
#[verifier::external_type_specification]
#[verifier::external_body]
pub struct ExIoError(std::io::Error);

/// `zcash_primitives::transaction::builder::Error`, carried through unread.
#[verifier::external_type_specification]
#[verifier::external_body]
#[verifier::reject_recursive_types(FE)]
pub struct ExFailure<FE>(Failure<FE>);

/// Reasons for which a transaction cannot be assembled.
#[derive(Debug)]
pub enum BuilderError {
    /// The notes being spent are not all anchored in the same commitment tree.
    AnchorMismatch,
    /// An amount is negative or exceeds the money supply.
    InvalidAmount,
    /// A note's witness does not lead to a leaf of the commitment tree.
    InvalidWitness,
    /// The builder could not complete the transaction.
    Failed(Failure<Infallible>),
}

/// Reasons for which a payment is refused.
#[derive(Debug)]
pub enum Error {
    /// The wallet's database holds something that cannot be there.
    CorruptedData(&'static str),
    /// The notes at hand do not cover the payment: the value selected, and the value
    /// needed including the fee.
    InsufficientBalance(u64, u64),
    /// A running total of note values left the range of a 64-bit signed integer.
    IntegerOverflow,
    /// The spending key is not the key of this account.
    InvalidExtSK(u32),
    /// A stored note does not describe a valid note.
    InvalidNote,
    /// No blocks have been scanned yet.
    ScanRequired,
    /// The transaction could not be assembled.
    Builder(BuilderError),
    /// Stored or serialised bytes could not be read or written.
    Io(std::io::Error),
}

/// The decimal digit `d` as a character.
pub open spec fn digit(d: nat) -> char {
    (48 + d) as char
}

/// The decimal representation of `n`, without leading zeros.
pub open spec fn decimal(n: nat) -> Seq<char>
    decreases n,
{
    if n < 10 {
        seq![digit(n)]
    } else {
        decimal(n / 10).push(digit(n % 10))
    }
}

/// The text that reports `error` to the user. Errors that another layer raised
/// (`BuilderError::Failed`, `Io`) speak for themselves and have none here.
pub open spec fn error_text(error: Error) -> Option<Seq<char>> {
    match error {
        Error::CorruptedData(reason) => Some("Data DB is corrupted: "@ + reason@),
        Error::InsufficientBalance(have, need) => Some(
            "Insufficient balance (have "@ + decimal(have as nat) + ", need "@ + decimal(
                need as nat,
            ) + " including fee)"@,
        ),
        Error::IntegerOverflow => Some("integer overflow"@),
        Error::InvalidExtSK(account) => Some(
            "Incorrect ExtendedSpendingKey for account "@ + decimal(account as nat),
        ),
        Error::InvalidNote => Some("Invalid note"@),
        Error::ScanRequired => Some("Must scan blocks first"@),
        Error::Builder(BuilderError::AnchorMismatch) => Some(
            "Anchor mismatch (anchors for all spends must be equal)"@,
        ),
        Error::Builder(BuilderError::InvalidAmount) => Some("Invalid amount"@),
        Error::Builder(BuilderError::InvalidWitness) => Some("Invalid note witness"@),
        Error::Builder(BuilderError::Failed(_)) | Error::Io(_) => None,
    }
}

/// The string that holds the one digit `d`.
fn digit_str(d: u64) -> (s: &'static str)
    requires
        d < 10,
    ensures
        s@ == seq![digit(d as nat)],
{
    proof {
        reveal_strlit("0");
        reveal_strlit("1");
        reveal_strlit("2");
        reveal_strlit("3");
        reveal_strlit("4");
        reveal_strlit("5");
        reveal_strlit("6");
        reveal_strlit("7");
        reveal_strlit("8");
        reveal_strlit("9");
    }
    match d {
        0 => "0",
        1 => "1",
        2 => "2",
        3 => "3",
        4 => "4",
        5 => "5",
        6 => "6",
        7 => "7",
        8 => "8",
        _ => "9",
    }
}

/// Appends the decimal representation of `n` to `text`.
fn append_decimal(text: &mut String, n: u64)
    ensures
        final(text)@ == old(text)@ + decimal(n as nat),
    decreases n,
{
    if n < 10 {
        text.append(digit_str(n));
    } else {
        append_decimal(text, n / 10);
        text.append(digit_str(n % 10));
        assert(text@ =~= old(text)@ + decimal(n as nat));
    }
}

impl Error {
    /// The text that reports this error to the user, where it is this library's to give.
    pub fn message(&self) -> (text: Option<String>)
        ensures
            text is Some == error_text(*self) is Some,
            text matches Some(t) ==> t@ == error_text(*self)->0,
    {
        match self {
            Error::CorruptedData(reason) => {
                let mut text = "Data DB is corrupted: ".to_owned();
                text.append(reason);
                Some(text)
            },
            Error::InsufficientBalance(have, need) => {
                let mut text = "Insufficient balance (have ".to_owned();
                append_decimal(&mut text, *have);
                text.append(", need ");
                append_decimal(&mut text, *need);
                text.append(" including fee)");
                Some(text)
            },
            Error::IntegerOverflow => Some("integer overflow".to_owned()),
            Error::InvalidExtSK(account) => {
                let mut text = "Incorrect ExtendedSpendingKey for account ".to_owned();
                append_decimal(&mut text, *account as u64);
                Some(text)
            },
            Error::InvalidNote => Some("Invalid note".to_owned()),
            Error::ScanRequired => Some("Must scan blocks first".to_owned()),
            Error::Builder(BuilderError::AnchorMismatch) => Some(
                "Anchor mismatch (anchors for all spends must be equal)".to_owned(),
            ),
            Error::Builder(BuilderError::InvalidAmount) => Some("Invalid amount".to_owned()),
            Error::Builder(BuilderError::InvalidWitness) => Some(
                "Invalid note witness".to_owned(),
            ),
            Error::Builder(BuilderError::Failed(_)) | Error::Io(_) => None,
        }
    }
}

} // verus!
