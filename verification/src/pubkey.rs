//! Account addresses.
use std::str::FromStr;
use vstd::prelude::*;

use crate::error::Error;
use crate::text::same_bytes;

verus! {

/// The base58 text of an address.
pub uninterp spec fn address_text(bytes: Seq<u8>) -> Seq<char>;

/// The address that a text stands for, or what is wrong with the text.
pub uninterp spec fn address_of_text(text: Seq<char>) -> Result<Seq<u8>, Seq<char>>;

/// The program address for some seeds: the first one off the curve, if any bump seed gives one.
pub uninterp spec fn program_address(seeds: Seq<Seq<u8>>, program: Seq<u8>) -> Option<Seq<u8>>;

/// Calls `ToString` of `solana_pubkey::Pubkey`, which writes the address in base58. The text is
/// only named, with the fact that reading it back gives the address.
#[verifier::external_body]
fn write_address(bytes: &[u8; 32]) -> (text: String)
    ensures
        text@ == address_text(bytes@),
        address_of_text(text@) is Ok,
        address_of_text(text@)->Ok_0 == bytes@,
{
    solana_pubkey::Pubkey::new_from_array(*bytes).to_string()
}

/// Calls `FromStr` of `solana_pubkey::Pubkey`, which reads 32 bytes of base58. What it gives for a
/// text, and the message of its error, is only named.
#[verifier::external_body]
fn read_address(text: &str) -> (bytes: Result<[u8; 32], String>)
    ensures
        match bytes {
            Ok(b) => address_of_text(text@) == Ok::<Seq<u8>, Seq<char>>(b@),
            Err(e) => address_of_text(text@) == Err::<Seq<u8>, Seq<char>>(e@),
        },
{
    match solana_pubkey::Pubkey::from_str(text) {
        Ok(key) => Ok(key.to_bytes()),
        Err(error) => Err(error.to_string()),
    }
}

/// Calls `Pubkey::try_find_program_address` of `solana_pubkey` with three seeds and leaves out the
/// bump seed. The address, or that there is none, is only named.
#[verifier::external_body]
fn try_find_program_address(
    first: &[u8; 32],
    second: &[u8; 32],
    third: &[u8; 32],
    program: &[u8; 32],
) -> (address: Option<[u8; 32]>)
    ensures
        match address {
            Some(a) => program_address(seq![first@, second@, third@], program@) == Some(a@),
            None => program_address(seq![first@, second@, third@], program@) is None,
        },
{
    solana_pubkey::Pubkey::try_find_program_address(
        &[first, second, third],
        &solana_pubkey::Pubkey::new_from_array(*program),
    )
    .map(|found| found.0.to_bytes())
}

/// A 32-byte account address.
#[derive(Clone, Copy, Debug, PartialEq, Eq)]
pub struct Pubkey {
    pub bytes: [u8; 32],
}

impl View for Pubkey {
    type V = Seq<u8>;

    open spec fn view(&self) -> Seq<u8> {
        self.bytes@
    }
}

impl Pubkey {
    /// The address with these bytes.
    pub fn new_from_array(bytes: [u8; 32]) -> (key: Self)
        ensures
            key@ == bytes@,
    {
        Pubkey { bytes }
    }

    /// The bytes of the address.
    pub fn as_array(&self) -> (bytes: &[u8; 32])
        ensures
            bytes@ == self@,
    {
        &self.bytes
    }

    /// The bytes of the address, copied.
    pub fn to_bytes(&self) -> (bytes: [u8; 32])
        ensures
            bytes@ == self@,
    {
        self.bytes
    }

    /// Tells whether two addresses are the same.
    pub fn same(&self, other: &Pubkey) -> (yes: bool)
        ensures
            yes == (self@ == other@),
    {
        same_bytes(&self.bytes, &other.bytes)
    }

    /// The address in base58.
    pub fn text(&self) -> (text: String)
        ensures
            text@ == address_text(self@),
            address_of_text(text@) is Ok,
        address_of_text(text@)->Ok_0 == self@,
    {
        write_address(&self.bytes)
    }

    /// Reads an address in base58.
    pub fn parse(text: &str) -> (key: Result<Pubkey, Error>)
        ensures
            match address_of_text(text@) {
                Ok(bytes) => key matches Ok(k) && k@ == bytes,
                Err(message) => key matches Err(Error::Outside(e)) && e@ == message,
            },
    {
        match read_address(text) {
            Ok(bytes) => Ok(Pubkey { bytes }),
            Err(message) => Err(Error::Outside(message)),
        }
    }

    /// The program address for three seeds.
    pub fn find_program_address(
        first: &Pubkey,
        second: &Pubkey,
        third: &Pubkey,
        program: &Pubkey,
    ) -> (address: Result<Pubkey, Error>)
        ensures
            match program_address(seq![first@, second@, third@], program@) {
                Some(bytes) => address matches Ok(a) && a@ == bytes,
                None => address == Err::<Pubkey, Error>(Error::NoProgramAddress),
            },
    {
        match try_find_program_address(&first.bytes, &second.bytes, &third.bytes, &program.bytes) {
            Some(bytes) => Ok(Pubkey { bytes }),
            None => Err(Error::NoProgramAddress),
        }
    }
}

} // verus!
