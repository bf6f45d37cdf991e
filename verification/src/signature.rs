//! Transaction signatures and account addresses.
//!
//! A signature is 64 bytes; its text form is base58. Decoding is left to
//! `solana_sdk`, so the contracts here speak of the decoder's result by name.

use vstd::prelude::*;

verus! {

/// What `solana_sdk`'s `Signature::from_str` makes of a text: the 64 bytes
/// it decodes to, or nothing where it rejects the text.
pub uninterp spec fn decoded_signature(text: Seq<char>) -> Option<Seq<u8>>;

/// Whether `solana_sdk`'s `Pubkey::from_str` accepts a text as an address.
pub uninterp spec fn address_accepted(text: Seq<char>) -> bool;

/// The identifier of one transaction on the ledger.
///
/// Two signatures are the same exactly when their bytes are.
#[derive(Clone, Copy, Debug)]
pub struct Signature {
    bytes: [u8; 64],
}

impl View for Signature {
    type V = Seq<u8>;

    closed spec fn view(&self) -> Seq<u8> {
        self.bytes@
    }
}

/// Calls `Signature::from_str` and hands out the decoded bytes. The call
/// depends on the text alone and returns an error for whatever it cannot
/// decode to exactly 64 bytes.
#[verifier::external_body]
fn decode_signature(text: &str) -> (bytes: Option<[u8; 64]>)
    ensures
        match bytes {
            Some(b) => decoded_signature(text@) == Some(b@),
            None => decoded_signature(text@) is None,
        },
{
    match text.parse::<solana_sdk::signature::Signature>() {
        Ok(signature) => Some(signature.into()),
        Err(_) => None,
    }
}

/// Calls `Pubkey::from_str` and says whether it accepted the text. The call
/// depends on the text alone.
#[verifier::external_body]
pub(crate) fn decode_address(text: &str) -> (accepted: bool)
    ensures
        accepted == address_accepted(text@),
{
    text.parse::<solana_sdk::pubkey::Pubkey>().is_ok()
}

impl Signature {
    /// The signature with the given bytes.
    pub fn from_bytes(bytes: [u8; 64]) -> (signature: Signature)
        ensures
            signature@ == bytes@,
    {
        Signature { bytes }
    }

    /// The bytes of the signature.
    pub fn to_bytes(&self) -> (bytes: [u8; 64])
        ensures
            bytes@ == self@,
    {
        self.bytes
    }

    /// Decodes the base58 text of a signature. `None` exactly for the texts
    /// that the decoder rejects.
    pub fn parse(text: &str) -> (signature: Option<Signature>)
        ensures
            match signature {
                Some(s) => decoded_signature(text@) == Some(s@),
                None => decoded_signature(text@) is None,
            },
    {
        match decode_signature(text) {
            Some(bytes) => Some(Signature { bytes }),
            None => None,
        }
    }

    /// Whether two signatures have the same bytes.
    pub fn same_as(&self, other: &Signature) -> (same: bool)
        ensures
            same == (self@ == other@),
    {
        let mut i: usize = 0;
        while i < 64
            invariant
                i <= 64,
                forall|j: int| 0 <= j < i ==> self.bytes@[j] == other.bytes@[j],
            decreases 64 - i,
        {
            if self.bytes[i] != other.bytes[i] {
                return false;
            }
            i += 1;
        }
        assert(self.bytes@ =~= other.bytes@);
        true
    }
}

} // verus!
