//! The named byte blobs an archive holds, and the codec's failure kinds.

use vstd::prelude::*;

verus! {

/// A named byte blob to be stored in, or recovered from, an archive.
#[derive(Debug)]
pub struct Entry {
    pub name: String,
    pub data: Vec<u8>,
}

/// The mathematical value of an [`Entry`]: its name as a sequence of
/// characters and its contents as a sequence of bytes.
#[verifier::ext_equal]
pub struct EntryModel {
    pub name: Seq<char>,
    pub data: Seq<u8>,
}

impl View for Entry {
    type V = EntryModel;

    open spec fn view(&self) -> EntryModel {
        EntryModel { name: self.name@, data: self.data@ }
    }
}

/// The sequence of models of a sequence of entries.
pub open spec fn models_of(entries: Seq<Entry>) -> Seq<EntryModel> {
    entries.map_values(|e: Entry| e@)
}

/// Why an encode or decode call failed.  Every failure is terminal for
/// the call that raised it: there are no partial results.
#[derive(Clone, Copy, Debug, PartialEq, Eq)]
pub enum ZipError {
    /// An entry name is longer than 65 535 bytes, the widest value the
    /// 16-bit filename-length field can carry.
    FilenameTooLong,
    /// The deflate stage reported an error.  The in-memory deflate
    /// codec has no failure path, so the encoder never raises this;
    /// the variant completes the failure taxonomy.
    CompressionFailure,
    /// A size, offset or entry count exceeds its field in the record
    /// layout; without ZIP64 such an archive cannot be written.
    ArchiveTooLarge,
    /// The stream holds no local file header — and, for the
    /// multi-entry decoder, no end-of-central-directory record either.
    NotAnArchive,
    /// A local header has general-purpose flag bit 3 set: its size and
    /// checksum fields are unreliable, so the entry is refused.
    UnsupportedFeature,
    /// A header's declared sizes or offsets read past the end of the
    /// buffer, or a deflate payload does not decode.
    CorruptArchive,
    /// A header's compression method is neither 0 (store) nor 8
    /// (deflate).
    UnsupportedMethod,
    /// An entry name is not valid UTF-8.
    InvalidEncoding,
}

} // verus!
