//! The decoder: walks a byte stream local-header-by-local-header and
//! recovers the named blobs.  The central directory is never consulted;
//! the scan ends when fewer than 30 bytes remain, which stops it at or
//! before the central directory.

use vstd::prelude::*;

use crate::bytes::{copy_range, read_le16, read_le32};
use crate::entry::{models_of, Entry, EntryModel, ZipError};
use crate::parse::{find_sig, has_eocd, parse_from, sig_at, spec_decompress, spec_unpack};
use crate::trusted::{inflate, utf8_to_string};

verus! {

/// Whether the four bytes at `pos` are the local header signature.
fn sig_here(archive: &Vec<u8>, pos: usize) -> (r: bool)
    requires
        pos + 4 <= archive@.len(),
    ensures
        r == sig_at(archive@, pos as int),
{
    let _n: usize = archive.len();
    let r = archive[pos] == 0x50 && archive[pos + 1] == 0x4b && archive[pos + 2] == 0x03
        && archive[pos + 3] == 0x04;
    proof {
        let s = archive@.subrange(pos as int, pos as int + 4);
        assert(s[0] == archive@[pos as int]);
        assert(s[1] == archive@[pos as int + 1]);
        assert(s[2] == archive@[pos as int + 2]);
        assert(s[3] == archive@[pos as int + 3]);
        if r {
            assert(s =~= crate::layout::local_sig());
        }
        if sig_at(archive@, pos as int) {
            assert(s == crate::layout::local_sig());
        }
    }
    r
}

/// Whether the four bytes at `pos` are the end-of-central-directory
/// signature.
fn eocd_sig_here(archive: &Vec<u8>, pos: usize) -> (r: bool)
    requires
        pos + 4 <= archive@.len(),
    ensures
        r == (archive@.subrange(pos as int, pos as int + 4) == crate::layout::eocd_sig()),
{
    let _n: usize = archive.len();
    let r = archive[pos] == 0x50 && archive[pos + 1] == 0x4b && archive[pos + 2] == 0x05
        && archive[pos + 3] == 0x06;
    proof {
        let s = archive@.subrange(pos as int, pos as int + 4);
        assert(s[0] == archive@[pos as int]);
        assert(s[1] == archive@[pos as int + 1]);
        assert(s[2] == archive@[pos as int + 2]);
        assert(s[3] == archive@[pos as int + 3]);
        if r {
            assert(s =~= crate::layout::eocd_sig());
        }
        if s == crate::layout::eocd_sig() {
            assert(s[0] == 0x50u8 && s[1] == 0x4bu8 && s[2] == 0x05u8 && s[3] == 0x06u8);
        }
    }
    r
}

/// Scans the stream for a complete end-of-central-directory record.
fn any_eocd(archive: &Vec<u8>) -> (r: bool)
    ensures
        r == has_eocd(archive@),
{
    let n: usize = archive.len();
    let mut p: usize = 0;
    let mut found: bool = false;
    while !found && p < n && n - p >= 22
        invariant
            n == archive@.len(),
            p <= n,
            !found ==> (forall|q: int|
                0 <= q < p && q + 22 <= n ==> #[trigger] archive@.subrange(q, q + 4)
                    != crate::layout::eocd_sig()),
            found ==> has_eocd(archive@),
        decreases n - p + (if found {
            0int
        } else {
            1int
        }),
    {
        if eocd_sig_here(archive, p) {
            found = true;
        } else {
            p = p + 1;
        }
    }
    proof {
        if !found {
            assert(!has_eocd(archive@)) by {
                assert forall|q: int| !(0 <= q && q + 22 <= archive@.len() && #[trigger] archive@
                    .subrange(q, q + 4) == crate::layout::eocd_sig()) by {
                    if 0 <= q && q + 22 <= n {
                        assert(q < p);
                    }
                }
            }
        }
    }
    found
}

/// Recovers the entries of an archive byte stream, in the order their
/// local headers stand in it.  Returns exactly what [`spec_unpack`]
/// says of the stream: the entry list on success, on any flaw the
/// error the parse assigns to it — never a partial result — and
/// `NotAnArchive` for a stream that holds neither a local header nor
/// an end-of-central-directory record.  The bare trailer, an empty
/// archive, yields the empty list.
pub fn unpack(archive: &Vec<u8>) -> (r: Result<Vec<Entry>, ZipError>)
    ensures
        r matches Ok(es) ==> spec_unpack(archive@) == Ok::<Seq<EntryModel>, ZipError>(
            models_of(es@),
        ),
        r matches Err(e) ==> spec_unpack(archive@) == Err::<Seq<EntryModel>, ZipError>(e),
{
    let n: usize = archive.len();
    let mut pos: usize = 0;
    let mut acc: Vec<Entry> = Vec::new();
    while pos < n && n - pos >= 30
        invariant
            n == archive@.len(),
            pos <= n,
            (parse_from(archive@, pos as int) matches Ok(rest) ==> parse_from(archive@, 0)
                == Ok::<Seq<EntryModel>, ZipError>(models_of(acc@) + rest)),
            (parse_from(archive@, pos as int) matches Err(e) ==> parse_from(archive@, 0)
                == Err::<Seq<EntryModel>, ZipError>(e)),
            acc@.len() == 0 ==> find_sig(archive@, 0) == find_sig(archive@, pos as int),
            acc@.len() > 0 ==> find_sig(archive@, 0) is Some,
        decreases n - pos,
    {
        if !sig_here(archive, pos) {
            proof {
                assert(parse_from(archive@, pos as int) == parse_from(archive@, pos as int + 1));
                assert(find_sig(archive@, pos as int) == find_sig(archive@, pos as int + 1));
            }
            pos = pos + 1;
        } else {
            proof {
                assert(find_sig(archive@, pos as int) == Some(pos as int));
                assert(find_sig(archive@, 0) is Some);
            }
            let flags = read_le16(archive, pos + 6);
            let method = read_le16(archive, pos + 8);
            let comp = read_le32(archive, pos + 18) as usize;
            let nlen = read_le16(archive, pos + 26) as usize;
            let elen = read_le16(archive, pos + 28) as usize;
            if flags & 0x0008 != 0 {
                return Err(ZipError::UnsupportedFeature);
            }
            let rem: usize = n - pos - 30;
            if nlen + elen > rem {
                return Err(ZipError::CorruptArchive);
            }
            let name_b = copy_range(archive, pos + 30, pos + 30 + nlen);
            let name = match utf8_to_string(&name_b) {
                Some(s) => s,
                None => {
                    return Err(ZipError::InvalidEncoding);
                },
            };
            let dstart: usize = pos + 30 + nlen + elen;
            if comp > n - dstart {
                return Err(ZipError::CorruptArchive);
            }
            let dend: usize = dstart + comp;
            if method != 0 && method != 8 {
                return Err(ZipError::UnsupportedMethod);
            }
            let payload = copy_range(archive, dstart, dend);
            let data = if method == 0 {
                payload
            } else {
                match inflate(&payload) {
                    Ok(v) => v,
                    Err(_) => {
                        return Err(ZipError::CorruptArchive);
                    },
                }
            };
            let ghost em = EntryModel {
                name: vstd::utf8::decode_utf8(
                    archive@.subrange(pos as int + 30, pos as int + 30 + nlen as int),
                ),
                data: crate::parse::restored(
                    method,
                    archive@.subrange(dstart as int, dend as int),
                )->Some_0,
            };
            let ghost old_acc = acc@;
            let entry = Entry { name, data };
            proof {
                assert(entry@ == em);
            }
            acc.push(entry);
            proof {
                assert(models_of(acc@) =~= models_of(old_acc) + seq![em]);
                if parse_from(archive@, dend as int) is Ok {
                    let rest2 = parse_from(archive@, dend as int)->Ok_0;
                    assert(parse_from(archive@, pos as int) == Ok::<Seq<EntryModel>, ZipError>(
                        seq![em] + rest2,
                    ));
                    assert(models_of(old_acc) + (seq![em] + rest2) =~= models_of(acc@) + rest2);
                }
            }
            pos = dend;
        }
    }
    proof {
        assert(parse_from(archive@, pos as int) == Ok::<Seq<EntryModel>, ZipError>(Seq::empty()));
        assert(models_of(acc@) + Seq::<EntryModel>::empty() =~= models_of(acc@));
    }
    if acc.len() == 0 {
        proof {
            assert(find_sig(archive@, pos as int) is None);
        }
        if !any_eocd(archive) {
            return Err(ZipError::NotAnArchive);
        }
    }
    Ok(acc)
}

/// Recovers the raw bytes of a single-entry archive: the payload of
/// the first local header in the stream, put back to its uncompressed
/// form.  Returns exactly what [`spec_decompress`] says of the stream;
/// in particular `NotAnArchive` when the stream holds no local header.
pub fn decompress(archive: &Vec<u8>) -> (r: Result<Vec<u8>, ZipError>)
    ensures
        r matches Ok(v) ==> spec_decompress(archive@) == Ok::<Seq<u8>, ZipError>(v@),
        r matches Err(e) ==> spec_decompress(archive@) == Err::<Seq<u8>, ZipError>(e),
{
    let n: usize = archive.len();
    let mut pos: usize = 0;
    let mut found: bool = false;
    while !found && pos < n && n - pos >= 30
        invariant
            n == archive@.len(),
            pos <= n,
            !found ==> find_sig(archive@, 0) == find_sig(archive@, pos as int),
            found ==> find_sig(archive@, 0) == Some(pos as int) && pos + 30 <= n,
        decreases n - pos + (if found {
            0int
        } else {
            1int
        }),
    {
        if sig_here(archive, pos) {
            found = true;
        } else {
            proof {
                assert(find_sig(archive@, pos as int) == find_sig(archive@, pos as int + 1));
            }
            pos = pos + 1;
        }
    }
    if !found {
        proof {
            assert(find_sig(archive@, pos as int) is None);
        }
        return Err(ZipError::NotAnArchive);
    }
    let flags = read_le16(archive, pos + 6);
    let method = read_le16(archive, pos + 8);
    let comp = read_le32(archive, pos + 18) as usize;
    let nlen = read_le16(archive, pos + 26) as usize;
    let elen = read_le16(archive, pos + 28) as usize;
    if flags & 0x0008 != 0 {
        return Err(ZipError::UnsupportedFeature);
    }
    let rem: usize = n - pos - 30;
    if nlen + elen > rem {
        return Err(ZipError::CorruptArchive);
    }
    let dstart: usize = pos + 30 + nlen + elen;
    if comp > n - dstart {
        return Err(ZipError::CorruptArchive);
    }
    let dend: usize = dstart + comp;
    if method != 0 && method != 8 {
        return Err(ZipError::UnsupportedMethod);
    }
    let payload = copy_range(archive, dstart, dend);
    if method == 0 {
        Ok(payload)
    } else {
        match inflate(&payload) {
            Ok(v) => Ok(v),
            Err(_) => Err(ZipError::CorruptArchive),
        }
    }
}

} // verus!
