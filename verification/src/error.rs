use vstd::prelude::*;

verus! {

/// Why a PE file or one of its icon groups could not be read.
///
/// Each variant stands for one way the input can be malformed; offsets are
/// file offsets, computed without overflow.
#[derive(Debug, Clone, Copy, PartialEq, Eq, Structural)]
pub enum IcoError {
    /// A little-endian `u16` was read past the end of its buffer.
    U16OutOfBounds { offset: u64 },
    /// A little-endian `u32` was read past the end of its buffer.
    U32OutOfBounds { offset: u64 },
    /// The file is shorter than a DOS header or does not start with `MZ`.
    MissingMzHeader,
    /// `e_lfanew` does not point at a `PE\0\0` signature.
    MissingPeSignature,
    /// The optional header magic is neither PE32 (`0x10b`) nor PE32+ (`0x20b`).
    UnknownOptionalMagic { magic: u16 },
    /// No section covers the relative virtual address.
    RvaNotInSection { rva: u32 },
    /// A resource name entry is a leaf where a language directory was expected.
    NotASubdirectory,
    /// A language directory has no entries.
    NoLanguageEntry,
    /// A resource data entry points past the end of the file.
    ResourceDataOutOfBounds,
    /// The resource tree has no `RT_ICON` type.
    NoIconResources,
    /// The resource tree has no `RT_GROUP_ICON` type.
    NoGroupIconResources,
    /// The requested group index is not below the number of groups.
    GroupIndexOutOfRange { index: usize, count: usize },
    /// No icon group carries the requested resource id.
    NoGroupWithId { id: u32 },
    /// A `GRPICONDIRENTRY` runs past the end of the group data.
    GroupEntryOutOfBounds,
    /// A group refers to an `RT_ICON` id that the file does not hold.
    IconNotFound { id: u32 },
}

} // verus!
