//! Node identifiers at the boundary: a 128-bit number and its sixteen bytes,
//! the most significant first, as a UUID is written.

use vstd::prelude::*;

verus! {

/// What the `uuid` crate reports when it cannot read an identifier.
#[verifier::external_type_specification]
#[verifier::external_body]
pub struct ExUuidError(uuid::Error);

/// Why bytes could not be read as an identifier.
#[derive(Clone, Copy, Debug, PartialEq, Eq)]
pub enum IdError {
    /// There were not sixteen bytes.
    WrongLength,
}

impl IdError {
    /// The error in words.
    pub fn message(&self) -> (text: &'static str)
        ensures
            text@ == "Expected 16 bytes."@,
    {
        "Expected 16 bytes."
    }
}

/// The number that the bytes spell, the most significant byte first.
pub open spec fn be_number(bytes: Seq<u8>) -> nat
    decreases bytes.len(),
{
    if bytes.len() == 0 {
        0
    } else {
        be_number(bytes.drop_last()) * 256 + bytes.last() as nat
    }
}

/// Two byte strings of one length that spell the same number are the same.
pub proof fn lemma_be_number_injective(a: Seq<u8>, b: Seq<u8>)
    requires
        a.len() == b.len(),
        be_number(a) == be_number(b),
    ensures
        a == b,
    decreases a.len(),
{
    if a.len() == 0 {
        assert(a =~= b);
    } else {
        let high_a = be_number(a.drop_last());
        let high_b = be_number(b.drop_last());
        assert(high_a * 256 + a.last() as nat == high_b * 256 + b.last() as nat);
        assert(high_a == high_b && a.last() == b.last()) by (nonlinear_arith)
            requires
                high_a * 256 + a.last() as nat == high_b * 256 + b.last() as nat,
                a.last() < 256,
                b.last() < 256,
        ;
        lemma_be_number_injective(a.drop_last(), b.drop_last());
        assert(a =~= a.drop_last().push(a.last()));
        assert(b =~= b.drop_last().push(b.last()));
    }
}

/// Reads an identifier from its sixteen bytes. Any other number of bytes is
/// refused.
pub fn id_from_bytes(bytes: &[u8]) -> (outcome: Result<u128, IdError>)
    ensures
        match outcome {
            Ok(id) => bytes@.len() == 16 && id == be_number(bytes@),
            Err(error) => bytes@.len() != 16 && error == IdError::WrongLength,
        },
{
    if bytes.len() != 16 {
        return Err(IdError::WrongLength);
    }
    match uuid_from_slice(bytes) {
        Ok(id) => Ok(id),
        Err(_) => Err(IdError::WrongLength),
    }
}

/// Writes an identifier as its sixteen bytes.
pub fn id_to_bytes(id: u128) -> (bytes: [u8; 16])
    ensures
        be_number(bytes@) == id,
{
    uuid_to_bytes(id)
}

/// `uuid::Uuid::from_slice`, and `Uuid::as_u128` on what it gives: the call
/// succeeds exactly on sixteen bytes, and the number is the one that they
/// spell, the most significant byte first.
#[verifier::external_body]
fn uuid_from_slice(bytes: &[u8]) -> (outcome: Result<u128, uuid::Error>)
    ensures
        outcome is Ok <==> bytes@.len() == 16,
        outcome is Ok ==> outcome.unwrap() == be_number(bytes@),
{
    let id = uuid::Uuid::from_slice(bytes)?;
    Ok(id.as_u128())
}

/// `uuid::Uuid::from_u128`, and `Uuid::into_bytes` on what it gives: the
/// sixteen bytes that spell the number, the most significant byte first.
#[verifier::external_body]
fn uuid_to_bytes(id: u128) -> (bytes: [u8; 16])
    ensures
        be_number(bytes@) == id,
{
    uuid::Uuid::from_u128(id).into_bytes()
}

} // verus!
