//! Signatures of file digests, and the care of the key pair.
//!
//! The root signs the digest of each file it announces. The signature is
//! made with the private key of the peer, outside this library; here it is
//! put into the text form in which it travels in a `FileHeader`. The
//! library also decides what is done when the stored key pair is not whole.

use vstd::prelude::*;

verus! {

/// The standard base64 text, with padding, of `data`.
pub uninterp spec fn base64_text(data: Seq<u8>) -> Seq<char>;

/// Whether the base64 text of `len` bytes has a length that `usize` holds.
pub open spec fn base64_fits(len: nat) -> bool {
    len / 3 * 4 + 4 <= usize::MAX
}

/// `base64::encode`: the standard base64 text, with padding, of `data`.
/// It panics where the length of the text overflows `usize`; such data is
/// left out.
#[verifier::external_body]
fn base64_encode(data: &[u8]) -> (res: String)
    requires
        base64_fits(data@.len()),
    ensures
        res@ == base64_text(data@),
{
    base64::encode(data)
}

/// The text in which a signature travels; `None` for a signature so long
/// that its text could not be held.
pub fn certificate(signature: &[u8]) -> (res: Option<String>)
    ensures
        res is Some <==> base64_fits(signature@.len()),
        res matches Some(cert) ==> cert@ == base64_text(signature@),
{
    let len = signature.len();
    if len / 3 <= (usize::MAX - 4) / 4 {
        Some(base64_encode(signature))
    } else {
        None
    }
}

/// What is to be done about the stored key pair before it is used.
#[derive(Clone, Copy, Debug, PartialEq, Eq, Structural)]
pub enum KeyRecovery {
    /// Both keys are there: use them.
    Keep,
    /// The public key is missing or unreadable: derive it from the
    /// private key and store it again.
    RestorePublic,
    /// The private key is missing or unreadable: remove what is stored,
    /// make a new pair and store it.
    Regenerate,
}

impl KeyRecovery {
    /// What is to be done, given which of the stored keys could be read.
    pub open spec fn spec_decide(private_readable: bool, public_readable: bool) -> KeyRecovery {
        if !private_readable {
            KeyRecovery::Regenerate
        } else if !public_readable {
            KeyRecovery::RestorePublic
        } else {
            KeyRecovery::Keep
        }
    }

    /// What is to be done, given which of the stored keys could be read.
    /// Without the private key nothing that is stored is of use; without
    /// the public key alone, the private key is kept.
    pub fn decide(private_readable: bool, public_readable: bool) -> (res: KeyRecovery)
        ensures
            res == Self::spec_decide(private_readable, public_readable),
            res == KeyRecovery::Keep <==> private_readable && public_readable,
    {
        if !private_readable {
            KeyRecovery::Regenerate
        } else if !public_readable {
            KeyRecovery::RestorePublic
        } else {
            KeyRecovery::Keep
        }
    }

    /// Whether the private key that is stored stays in use.
    pub fn keeps_private(&self) -> (res: bool)
        ensures
            res == (*self != KeyRecovery::Regenerate),
    {
        match self {
            KeyRecovery::Regenerate => false,
            _ => true,
        }
    }
}

} // verus!
