//! Durable database identity.

use crate::bytes::same_bytes;
use vstd::prelude::*;

verus! {

/// [`uuid::Uuid::is_nil`] holds of the UUID of which all bytes are zero, and of no other.
#[verifier::external_body]
fn uuid_is_nil(bytes: [u8; 16]) -> (out: bool)
    ensures
        out == (forall|i: int| 0 <= i < 16 ==> bytes@[i] == 0),
{
    uuid::Uuid::from_bytes(bytes).is_nil()
}

/// [`uuid::Uuid::get_version_num`] is the upper half of the seventh byte.
#[verifier::external_body]
fn uuid_version_num(bytes: [u8; 16]) -> (out: usize)
    ensures
        out == bytes@[6] / 16,
{
    uuid::Uuid::from_bytes(bytes).get_version_num()
}

/// [`uuid::Uuid::new_v4`] makes a UUID with version number 4 and the variant of RFC 9562. The
/// other bits are random. It panics where the operating system has no random numbers to give.
#[verifier::external_body]
fn uuid_new_v4() -> (out: [u8; 16])
    ensures
        out@[6] / 16 == 4,
        out@[8] / 64 == 2,
{
    *uuid::Uuid::new_v4().as_bytes()
}

/// The bytes are those of a UUID that identifies a database: not nil, and of version 4.
pub open spec fn identity_ok(bytes: Seq<u8>) -> bool {
    &&& exists|i: int| 0 <= i < 16 && bytes[i] != 0
    &&& bytes[6] / 16 == 4
}

/// Identity shared by everything that belongs to one database.
#[derive(Debug, Clone, Copy, PartialEq, Eq, Hash)]
pub struct DatabaseUuid {
    /// The bytes in the order in which they are written.
    pub bytes: [u8; 16],
}

/// The identity in the 16 bytes from `from` on.
pub open spec fn identity_at(data: Seq<u8>, from: int) -> DatabaseUuid {
    DatabaseUuid {
        bytes: [
            data[from],
            data[from + 1],
            data[from + 2],
            data[from + 3],
            data[from + 4],
            data[from + 5],
            data[from + 6],
            data[from + 7],
            data[from + 8],
            data[from + 9],
            data[from + 10],
            data[from + 11],
            data[from + 12],
            data[from + 13],
            data[from + 14],
            data[from + 15],
        ],
    }
}

impl View for DatabaseUuid {
    type V = Seq<u8>;

    open spec fn view(&self) -> Seq<u8> {
        self.bytes@
    }
}

impl DatabaseUuid {
    /// Creates a random identity.
    pub fn generate() -> (out: DatabaseUuid)
        ensures
            out@.len() == 16,
            identity_ok(out@),
            out@[8] / 64 == 2,
    {
        let bytes = uuid_new_v4();
        assert(bytes@[6] != 0);
        DatabaseUuid { bytes }
    }

    /// Creates an identity from its bytes.
    pub fn from_bytes(bytes: [u8; 16]) -> (out: DatabaseUuid)
        ensures
            out@ == bytes@,
    {
        DatabaseUuid { bytes }
    }

    /// Creates an identity from the 16 bytes from `from` on.
    pub fn from_slice(data: &[u8], from: usize) -> (out: DatabaseUuid)
        requires
            from + 16 <= data@.len(),
        ensures
            out == identity_at(data@, from as int),
            out@ == data@.subrange(from as int, from + 16),
    {
        let bytes: [u8; 16] = [
            data[from],
            data[from + 1],
            data[from + 2],
            data[from + 3],
            data[from + 4],
            data[from + 5],
            data[from + 6],
            data[from + 7],
            data[from + 8],
            data[from + 9],
            data[from + 10],
            data[from + 11],
            data[from + 12],
            data[from + 13],
            data[from + 14],
            data[from + 15],
        ];
        assert(bytes@ =~= data@.subrange(from as int, from + 16));
        DatabaseUuid { bytes }
    }

    /// Returns the bytes.
    pub fn as_bytes(&self) -> (out: &[u8; 16])
        ensures
            out@ == self@,
    {
        &self.bytes
    }

    /// Returns whether this is the same identity.
    pub fn same(&self, other: &DatabaseUuid) -> (out: bool)
        ensures
            out == (self@ == other@),
    {
        same_bytes(self.bytes.as_slice(), other.bytes.as_slice())
    }

    /// Returns whether the identity is one that a database can have.
    pub fn is_valid(&self) -> (out: bool)
        ensures
            out == identity_ok(self@),
    {
        !uuid_is_nil(self.bytes) && uuid_version_num(self.bytes) == 4
    }
}

} // verus!
