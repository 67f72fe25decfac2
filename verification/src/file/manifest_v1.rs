//! The manifest of a database directory without snapshots, format version 1.
//!
//! A manifest is 48 bytes of fields followed by the first 16 bytes of their BLAKE3 hash.

use crate::bytes::same_bytes;
use crate::digest;
use crate::digest::short_digest;
use crate::file::identity;
use crate::file::identity::DatabaseUuid;
use crate::file::manifest::{ManifestError, MANIFEST_MAGIC, STATE_MACHINE_SEMANTICS_VERSION};
use crate::layout;
use crate::layout::{get_field, get_four, is_zero, put_zeros, starts_with};
use crate::record;
use crate::record::RecordLimits;
use crate::wire::model;
use crate::wire::writer::put_le;
use vstd::prelude::*;
use vstd::slice::*;

verus! {

/// Manifest format version without snapshot budgets.
pub const MANIFEST_VERSION: u8 = 1;

/// Serialized width of a manifest without snapshot budgets.
pub const MANIFEST_LEN: usize = 64;

/// The model of a [`Manifest`].
#[verifier::ext_equal]
pub struct ManifestView {
    /// Identity of the database.
    pub uuid: Seq<u8>,
    /// Maximum record length.
    pub max_record_len: u32,
}

impl ManifestView {
    /// The manifest can be that of a database.
    pub open spec fn valid(self) -> bool {
        &&& self.uuid.len() == 16
        &&& identity::identity_ok(self.uuid)
        &&& record::limit_ok(self.max_record_len)
    }
}

/// What a database directory without snapshots was created with.
#[derive(Debug, Clone, Copy, PartialEq, Eq)]
pub struct Manifest {
    /// Identity of the database.
    pub database_uuid: DatabaseUuid,
    /// Record budgets.
    pub record_limits: RecordLimits,
}

impl View for Manifest {
    type V = ManifestView;

    open spec fn view(&self) -> ManifestView {
        ManifestView { uuid: self.database_uuid@, max_record_len: self.record_limits@ }
    }
}

/// The fields of a manifest.
pub open spec fn manifest_fields(manifest: ManifestView) -> Seq<u8> {
    seq![0x50u8, 0x44, 0x42, 0x4d, 1, 0] + model::le(64, 2) + manifest.uuid + model::le(
        manifest.max_record_len as nat,
        4,
    ) + model::le(1, 4) + layout::zeros(16)
}

/// The complete encoding of a manifest.
pub open spec fn manifest_enc(manifest: ManifestView) -> Seq<u8> {
    manifest_fields(manifest) + digest::short_hash(manifest_fields(manifest))
}

/// The manifest encoded in a file with the given content.
pub open spec fn manifest_dec(bytes: Seq<u8>) -> Result<ManifestView, ManifestError> {
    let uuid = bytes.subrange(8, 24);
    let max_record_len = layout::field(bytes, 24, 28) as u32;
    let semantics = layout::field(bytes, 28, 32) as u32;
    if bytes.len() != 64 {
        Err(ManifestError::InvalidLength(bytes.len() as u64))
    } else if bytes.subrange(0, 4) != MANIFEST_MAGIC@ {
        Err(ManifestError::InvalidMagic(layout::first_four(bytes)))
    } else if bytes[4] != 1 {
        Err(ManifestError::UnsupportedVersion(bytes[4]))
    } else if layout::field(bytes, 6, 8) != 64 {
        Err(ManifestError::InvalidHeaderLength(layout::field(bytes, 6, 8) as u16))
    } else if bytes[5] != 0 || !layout::all_zero(bytes.subrange(32, 48)) {
        Err(ManifestError::NonZeroReserved)
    } else if bytes.subrange(48, 64) != digest::short_hash(bytes.take(48)) {
        Err(ManifestError::ChecksumMismatch)
    } else if !identity::identity_ok(uuid) {
        Err(ManifestError::InvalidDatabaseUuid)
    } else if semantics != 1 {
        Err(ManifestError::UnsupportedSemanticsVersion(semantics))
    } else if !record::limit_ok(max_record_len) {
        Err(ManifestError::InvalidRecordLimit(max_record_len))
    } else {
        Ok(ManifestView { uuid, max_record_len })
    }
}

pub proof fn lemma_manifest_layout(manifest: ManifestView)
    requires
        manifest.uuid.len() == 16,
    ensures
        ({
            let fields = manifest_fields(manifest);
            &&& fields.len() == 48
            &&& fields.subrange(0, 6) == seq![0x50u8, 0x44, 0x42, 0x4d, 1, 0]
            &&& fields.subrange(6, 8) == model::le(64, 2)
            &&& fields.subrange(8, 24) == manifest.uuid
            &&& fields.subrange(24, 28) == model::le(manifest.max_record_len as nat, 4)
            &&& fields.subrange(28, 32) == model::le(1, 4)
            &&& fields.subrange(32, 48) == layout::zeros(16)
        }),
{
    broadcast use model::lemma_le_len;

    let fields = manifest_fields(manifest);
    assert(fields.subrange(0, 6) =~= seq![0x50u8, 0x44, 0x42, 0x4d, 1, 0]);
    assert(fields.subrange(6, 8) =~= model::le(64, 2));
    assert(fields.subrange(8, 24) =~= manifest.uuid);
    assert(fields.subrange(24, 28) =~= model::le(manifest.max_record_len as nat, 4));
    assert(fields.subrange(28, 32) =~= model::le(1, 4));
    assert(fields.subrange(32, 48) =~= layout::zeros(16));
}

/// A manifest that can be that of a database is read back as it was written.
pub proof fn law_manifest_round_trip(manifest: ManifestView)
    requires
        manifest.valid(),
    ensures
        manifest_dec(manifest_enc(manifest)) == Ok::<ManifestView, ManifestError>(manifest),
{
    let fields = manifest_fields(manifest);
    let bytes = manifest_enc(manifest);
    lemma_manifest_layout(manifest);
    model::lemma_spans();
    assert(bytes.take(48) =~= fields);
    assert(bytes.subrange(48, 64) =~= digest::short_hash(fields));
    assert(bytes.subrange(0, 4) =~= MANIFEST_MAGIC@) by {
        assert forall|i: int| 0 <= i < 6 implies bytes[i] == fields.subrange(0, 6)[i] by {}
    }
    assert(bytes[4] == fields.subrange(0, 6)[4]);
    assert(bytes[5] == fields.subrange(0, 6)[5]);
    assert(bytes.subrange(6, 8) =~= fields.subrange(6, 8));
    assert(bytes.subrange(8, 24) =~= fields.subrange(8, 24));
    assert(bytes.subrange(24, 28) =~= fields.subrange(24, 28));
    assert(bytes.subrange(28, 32) =~= fields.subrange(28, 32));
    assert(bytes.subrange(32, 48) =~= fields.subrange(32, 48));
    model::lemma_un_le_of_le(64, 2);
    model::lemma_un_le_of_le(manifest.max_record_len as nat, 4);
    model::lemma_un_le_of_le(1, 4);
}

/// Only the encoding of a manifest that can be that of a database is accepted.
pub proof fn law_manifest_is_canonical(bytes: Seq<u8>)
    ensures
        manifest_dec(bytes) matches Ok(manifest) ==> manifest.valid() && manifest_enc(manifest)
            == bytes,
{
    if let Ok(manifest) = manifest_dec(bytes) {
        let fields = manifest_fields(manifest);
        lemma_manifest_layout(manifest);
        model::lemma_spans();
        model::lemma_le_of_un_le(bytes.subrange(6, 8));
        model::lemma_le_of_un_le(bytes.subrange(24, 28));
        model::lemma_le_of_un_le(bytes.subrange(28, 32));
        layout::lemma_all_zero(bytes.subrange(32, 48));
        assert(bytes.subrange(0, 6) =~= fields.subrange(0, 6)) by {
            assert forall|i: int| 0 <= i < 4 implies bytes[i] == MANIFEST_MAGIC@[i] by {
                assert(bytes.subrange(0, 4)[i] == MANIFEST_MAGIC@[i]);
            }
        }
        assert(bytes.take(48) =~= bytes.subrange(0, 6) + bytes.subrange(6, 8) + bytes.subrange(
            8,
            24,
        ) + bytes.subrange(24, 28) + bytes.subrange(28, 32) + bytes.subrange(32, 48));
        assert(bytes.take(48) =~= fields);
        assert(bytes =~= bytes.take(48) + bytes.subrange(48, 64));
    }
}

/// Encodes a manifest.
pub fn manifest_bytes(manifest: Manifest) -> (out: Vec<u8>)
    ensures
        out@ == manifest_enc(manifest@),
        out@.len() == MANIFEST_LEN,
{
    let mut bytes: Vec<u8> = Vec::new();
    bytes.push(MANIFEST_MAGIC[0]);
    bytes.push(MANIFEST_MAGIC[1]);
    bytes.push(MANIFEST_MAGIC[2]);
    bytes.push(MANIFEST_MAGIC[3]);
    bytes.push(MANIFEST_VERSION);
    bytes.push(0);
    assert(bytes@ =~= seq![0x50u8, 0x44, 0x42, 0x4d, 1, 0]);
    put_le(&mut bytes, MANIFEST_LEN as u128, 2);
    bytes.extend_from_slice(manifest.database_uuid.as_bytes().as_slice());
    put_le(&mut bytes, manifest.record_limits.max_record_len() as u128, 4);
    put_le(&mut bytes, STATE_MACHINE_SEMANTICS_VERSION as u128, 4);
    put_zeros(&mut bytes, 16);
    assert(bytes@ =~= manifest_fields(manifest@));
    proof {
        lemma_manifest_layout(manifest@);
    }
    let mut checksum = short_digest(bytes.as_slice());
    bytes.append(&mut checksum);
    bytes
}

/// The model of a decoded manifest.
pub open spec fn manifest_view(out: Result<Manifest, ManifestError>) -> Result<
    ManifestView,
    ManifestError,
> {
    match out {
        Ok(manifest) => Ok(manifest@),
        Err(error) => Err(error),
    }
}

/// Decodes and validates the content of a manifest file.
pub fn parse_manifest(bytes: &[u8]) -> (out: Result<Manifest, ManifestError>)
    ensures
        manifest_view(out) == manifest_dec(bytes@),
{
    proof {
        model::lemma_spans();
    }
    if bytes.len() != MANIFEST_LEN {
        return Err(ManifestError::InvalidLength(bytes.len() as u64));
    }
    if !starts_with(bytes, MANIFEST_MAGIC) {
        return Err(ManifestError::InvalidMagic(get_four(bytes)));
    }
    if bytes[4] != MANIFEST_VERSION {
        return Err(ManifestError::UnsupportedVersion(bytes[4]));
    }
    let header_len = get_field(bytes, 6, 8) as u16;
    if header_len as usize != MANIFEST_LEN {
        return Err(ManifestError::InvalidHeaderLength(header_len));
    }
    if bytes[5] != 0 || !is_zero(bytes, 32, 48) {
        return Err(ManifestError::NonZeroReserved);
    }
    let fields = slice_subrange(bytes, 0, 48);
    assert(fields@ =~= bytes@.take(48));
    let checksum = short_digest(fields);
    if !same_bytes(slice_subrange(bytes, 48, 64), checksum.as_slice()) {
        return Err(ManifestError::ChecksumMismatch);
    }
    let database_uuid = DatabaseUuid::from_slice(bytes, 8);
    if !database_uuid.is_valid() {
        return Err(ManifestError::InvalidDatabaseUuid);
    }
    let semantics = get_field(bytes, 28, 32) as u32;
    if semantics != STATE_MACHINE_SEMANTICS_VERSION {
        return Err(ManifestError::UnsupportedSemanticsVersion(semantics));
    }
    let max_record_len = get_field(bytes, 24, 28) as u32;
    match RecordLimits::new(max_record_len) {
        Ok(record_limits) => Ok(Manifest { database_uuid, record_limits }),
        Err(_) => Err(ManifestError::InvalidRecordLimit(max_record_len)),
    }
}

} // verus!
