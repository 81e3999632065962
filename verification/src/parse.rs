//! The decoder's mathematical model: a byte-by-byte scan for local
//! file headers that recovers the entries of a stream, or says exactly
//! why the stream is refused.  The executable decoder is proved to
//! return precisely what these functions say.

use vstd::prelude::*;

use crate::bytes::{le16_at, le32_at};
use crate::entry::{EntryModel, ZipError};
use crate::layout::{eocd_sig, local_sig};
use crate::trusted::inflate_of;

verus! {

/// A local file header signature stands at `p` in `a`.
pub open spec fn sig_at(a: Seq<u8>, p: int) -> bool {
    a.subrange(p, p + 4) == local_sig()
}

/// The payload bytes of a header at `p`, put back to their
/// uncompressed form: unchanged for method 0, decoded for method 8,
/// nothing for any other method or an undecodable DEFLATE stream.
pub open spec fn restored(method: u16, payload: Seq<u8>) -> Option<Seq<u8>> {
    if method == 0 {
        Some(payload)
    } else if method == 8 {
        inflate_of(payload)
    } else {
        None
    }
}

/// Parses the stream from `pos` on.  Bytes that are no local header
/// signature are skipped; at each signature the fixed header is read,
/// and the entry is taken or the whole parse refused:
/// `UnsupportedFeature` when general-purpose flag bit 3 is set,
/// `CorruptArchive` when a declared length reads past the end of the
/// buffer or a DEFLATE payload does not decode, `InvalidEncoding` when
/// the filename is not valid UTF-8, `UnsupportedMethod` when the
/// method is neither 0 nor 8.  The scan ends, with the entries found
/// so far, as soon as fewer than 30 bytes remain.
pub open spec fn parse_from(a: Seq<u8>, pos: int) -> Result<Seq<EntryModel>, ZipError>
    decreases a.len() - pos,
{
    if pos + 30 > a.len() {
        Ok(Seq::empty())
    } else if !sig_at(a, pos) {
        parse_from(a, pos + 1)
    } else {
        let flags = le16_at(a, pos + 6);
        let method = le16_at(a, pos + 8);
        let comp = le32_at(a, pos + 18) as int;
        let nlen = le16_at(a, pos + 26) as int;
        let elen = le16_at(a, pos + 28) as int;
        if flags & 0x0008 != 0 {
            Err(ZipError::UnsupportedFeature)
        } else if pos + 30 + nlen + elen > a.len() {
            Err(ZipError::CorruptArchive)
        } else {
            let name_b = a.subrange(pos + 30, pos + 30 + nlen);
            if !vstd::utf8::valid_utf8(name_b) {
                Err(ZipError::InvalidEncoding)
            } else {
                let dstart = pos + 30 + nlen + elen;
                if dstart + comp > a.len() {
                    Err(ZipError::CorruptArchive)
                } else if method != 0 && method != 8 {
                    Err(ZipError::UnsupportedMethod)
                } else {
                    match restored(method, a.subrange(dstart, dstart + comp)) {
                        None => Err(ZipError::CorruptArchive),
                        Some(data) => match parse_from(a, dstart + comp) {
                            Ok(rest) => Ok(
                                seq![
                                    EntryModel {
                                        name: vstd::utf8::decode_utf8(name_b),
                                        data: data,
                                    },
                                ] + rest,
                            ),
                            Err(e) => Err(e),
                        },
                    }
                }
            }
        }
    }
}

/// The position of the first local header signature at or after `pos`
/// that still has 30 bytes of room, if any.
pub open spec fn find_sig(a: Seq<u8>, pos: int) -> Option<int>
    decreases a.len() - pos,
{
    if pos + 30 > a.len() {
        None
    } else if sig_at(a, pos) {
        Some(pos)
    } else {
        find_sig(a, pos + 1)
    }
}

/// An end-of-central-directory record — 22 bytes beginning with its
/// signature — fits somewhere in the stream.
pub open spec fn has_eocd(a: Seq<u8>) -> bool {
    exists|p: int| 0 <= p && p + 22 <= a.len() && #[trigger] a.subrange(p, p + 4) == eocd_sig()
}

/// What recovering all entries of a stream yields.  A stream that
/// holds neither a local file header nor an end-of-central-directory
/// record is no archive at all and is refused as `NotAnArchive`.  The
/// bare trailer — an empty archive — yields the empty sequence, and
/// every stream with a local header is read by [`parse_from`].
pub open spec fn spec_unpack(a: Seq<u8>) -> Result<Seq<EntryModel>, ZipError> {
    if find_sig(a, 0) is None && !has_eocd(a) {
        Err(ZipError::NotAnArchive)
    } else {
        parse_from(a, 0)
    }
}

/// What recovering the sole entry's payload from a single-entry
/// archive yields: the payload of the first local header found,
/// uncompressed; or the exact failure.  The filename is never read, and
/// nothing after the payload is looked at.
pub open spec fn spec_decompress(a: Seq<u8>) -> Result<Seq<u8>, ZipError> {
    match find_sig(a, 0) {
        None => Err(ZipError::NotAnArchive),
        Some(pos) => {
            let flags = le16_at(a, pos + 6);
            let method = le16_at(a, pos + 8);
            let comp = le32_at(a, pos + 18) as int;
            let nlen = le16_at(a, pos + 26) as int;
            let elen = le16_at(a, pos + 28) as int;
            if flags & 0x0008 != 0 {
                Err(ZipError::UnsupportedFeature)
            } else {
                let dstart = pos + 30 + nlen + elen;
                if dstart + comp > a.len() {
                    Err(ZipError::CorruptArchive)
                } else if method != 0 && method != 8 {
                    Err(ZipError::UnsupportedMethod)
                } else {
                    match restored(method, a.subrange(dstart, dstart + comp)) {
                        None => Err(ZipError::CorruptArchive),
                        Some(data) => Ok(data),
                    }
                }
            }
        },
    }
}

} // verus!
