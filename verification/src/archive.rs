//! What an open response reports about the archive: its type, header
//! version, flag bitmask and compression state.

use vstd::prelude::*;

verus! {

/// The detected archive type.
#[derive(Clone, Copy, Debug, PartialEq, Eq, Structural)]
pub enum PackType {
    Boot,
    Release,
    Patch,
    Mod,
    Movie,
    Other(u32),
}

/// The detected header version.
#[derive(Clone, Copy, Debug, PartialEq, Eq, Structural)]
pub enum PackVersion {
    V0,
    V3,
    V4,
    V5,
}

/// The compression state of the archive's data.
#[derive(Clone, Copy, Debug, PartialEq, Eq, Structural)]
pub enum CompressionState {
    Enabled,
    Partial,
    Disabled,
}

/// The header's flag bitmask, as four independent bits. Any subset may be
/// set at the same time.
#[derive(Clone, Copy, Debug, PartialEq, Eq, Structural)]
pub struct ArchiveFlags {
    pub encrypted_data: bool,
    pub index_has_timestamps: bool,
    pub encrypted_index: bool,
    pub extended_header: bool,
}

impl ArchiveFlags {
    /// Flags with no bit set.
    pub fn none() -> (f: ArchiveFlags)
        ensures
            !f.encrypted_data,
            !f.index_has_timestamps,
            !f.encrypted_index,
            !f.extended_header,
    {
        ArchiveFlags {
            encrypted_data: false,
            index_has_timestamps: false,
            encrypted_index: false,
            extended_header: false,
        }
    }
}

/// The payload of a successful open response. It replaces the session's
/// archive data wholesale; no field is ever mutated in place.
#[derive(Clone, Copy, Debug, PartialEq, Eq, Structural)]
pub struct ArchiveInfo {
    pub pack_type: PackType,
    pub version: PackVersion,
    pub flags: ArchiveFlags,
    pub compression: CompressionState,
}

/// Whether the front end should present the archive as compressed: a
/// partially compressed archive counts as not compressed.
pub fn compression_is_on(state: CompressionState) -> (b: bool)
    ensures
        b == (state == CompressionState::Enabled),
{
    match state {
        CompressionState::Enabled => true,
        CompressionState::Partial => false,
        CompressionState::Disabled => false,
    }
}

} // verus!
