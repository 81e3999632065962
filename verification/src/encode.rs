//! The encoder: one linear pass over the entries emits every local
//! section, then the central directory, then the trailer.  Its output
//! is pinned byte for byte by [`archive_bytes`] over the records the
//! entries determine.

use vstd::prelude::*;

use vstd::slice::slice_to_vec;
use vstd::utf8::encode_utf8;

use crate::entry::{models_of, Entry, EntryModel, ZipError};
use crate::layout::{
    archive_bytes, cd_chunk, cd_prefix, lemma_locals_prefix_mono, local_chunk, locals_prefix,
    write_cd, write_eocd, write_local, Rec,
};
use crate::trusted::{crc32, crc32_of, deflate, deflate_of, inflate_of};

verus! {

/// The deflate level a caller's option selects: the given level clamped
/// to at most 9, or 6 when none is given.
pub open spec fn spec_level(level: Option<u32>) -> u32 {
    match level {
        Some(l) => if l > 9 {
            9
        } else {
            l
        },
        None => 6,
    }
}

/// The record an entry determines: name bytes, payload (raw for store,
/// the DEFLATE stream at `lvl` otherwise), CRC-32 of the raw data, raw
/// length, and the method.
pub open spec fn rec_of(e: EntryModel, deflate_used: bool, lvl: u32) -> Rec {
    Rec {
        name: encode_utf8(e.name),
        payload: if deflate_used {
            deflate_of(e.data, lvl)
        } else {
            e.data
        },
        crc: crc32_of(e.data),
        raw_len: e.data.len() as u32,
        method: if deflate_used {
            8
        } else {
            0
        },
    }
}

/// The records of a whole entry sequence.
pub open spec fn recs_of(es: Seq<EntryModel>, deflate_used: bool, lvl: u32) -> Seq<Rec> {
    es.map_values(|e: EntryModel| rec_of(e, deflate_used, lvl))
}

/// Every entry name fits the 16-bit filename-length field.
pub open spec fn names_ok(es: Seq<EntryModel>) -> bool {
    forall|i: int| 0 <= i < es.len() ==> (#[trigger] encode_utf8(es[i].name)).len() <= 0xffff
}

/// Every size, offset and count of the archive fits its field: without
/// ZIP64 an archive beyond these bounds cannot be written.
pub open spec fn sizes_ok(es: Seq<EntryModel>, deflate_used: bool, lvl: u32) -> bool {
    let rs = recs_of(es, deflate_used, lvl);
    &&& es.len() <= 0xffff
    &&& (forall|i: int| 0 <= i < es.len() ==> (#[trigger] es[i].data).len() <= 0xffff_ffff)
    &&& (forall|i: int| 0 <= i < rs.len() ==> (#[trigger] rs[i].payload).len() <= 0xffff_ffff)
    &&& locals_prefix(rs, rs.len() as int).len() <= 0xffff_ffff
    &&& cd_prefix(rs, rs.len() as int).len() <= 0xffff_ffff
}

/// The record a single anonymous buffer determines when wrapped as a
/// one-file archive: level 0 selects store, any other level deflate.
pub open spec fn single_rec(data: Seq<u8>, name: Seq<char>, lvl: u32) -> Rec {
    Rec {
        name: encode_utf8(name),
        payload: if lvl == 0 {
            data
        } else {
            deflate_of(data, lvl)
        },
        crc: crc32_of(data),
        raw_len: data.len() as u32,
        method: if lvl == 0 {
            0
        } else {
            8
        },
    }
}

/// The entry name a caller's option selects: the given one, or the
/// default.
pub open spec fn chosen_name(filename: Option<String>) -> Seq<char> {
    match filename {
        Some(s) => s@,
        None => "data.bin"@,
    }
}

/// A one-entry archive's sizes fit their 32-bit fields.
pub open spec fn single_fits(data: Seq<u8>, rec: Rec) -> bool {
    &&& data.len() <= 0xffff_ffff
    &&& rec.payload.len() <= 0xffff_ffff
    &&& 30 + rec.name.len() + rec.payload.len() <= 0xffff_ffff
}

/// Per-entry bookkeeping between the local-section pass and the
/// central-directory pass.
struct CdInfo {
    crc: u32,
    csize: u32,
    rlen: u32,
    off: u32,
}

/// Packs the entries into one archive byte stream.
///
/// On success the stream is exactly [`archive_bytes`] of the records
/// the entries determine: method 0 with the raw bytes as payload when
/// `compress_inside` is false, method 8 with the DEFLATE stream at the
/// clamped level otherwise, and in both cases the CRC-32 of the raw
/// bytes, so the checksum field does not depend on the method.
///
/// Success is owed exactly on the inputs whose names and sizes fit:
/// `FilenameTooLong` comes exactly when some name is longer than
/// 65 535 bytes, `ArchiveTooLarge` exactly when the names fit but a
/// size, offset or count exceeds its field, and nothing else can come
/// back.
#[verifier::rlimit(60)]
pub fn pack(entries: &Vec<Entry>, compress_inside: bool, level: Option<u32>) -> (r: Result<
    Vec<u8>,
    ZipError,
>)
    ensures
        ({
            let es = models_of(entries@);
            let lvl = spec_level(level);
            let rs = recs_of(es, compress_inside, lvl);
            &&& (r is Ok <==> names_ok(es) && sizes_ok(es, compress_inside, lvl))
            &&& ((r == Err::<Vec<u8>, ZipError>(ZipError::FilenameTooLong)) <==> !names_ok(es))
            &&& ((r == Err::<Vec<u8>, ZipError>(ZipError::ArchiveTooLarge)) <==> (names_ok(es)
                && !sizes_ok(es, compress_inside, lvl)))
            &&& (r matches Ok(out) ==> out@ == archive_bytes(rs))
            &&& (r matches Ok(out) ==> (compress_inside ==> (forall|i: int|
                0 <= i < es.len() ==> inflate_of(#[trigger] deflate_of(es[i].data, lvl)) == Some(
                    es[i].data,
                ))))
        }),
{
    let ghost es = models_of(entries@);
    let lvl: u32 = match level {
        Some(l) => if l > 9 {
            9
        } else {
            l
        },
        None => 6,
    };
    proof {
        assert(lvl == spec_level(level));
    }
    let ghost rs = recs_of(es, compress_inside, lvl);
    let method: u16 = if compress_inside {
        8
    } else {
        0
    };
    let m: usize = entries.len();

    let mut names: Vec<Vec<u8>> = Vec::new();
    let mut i: usize = 0;
    while i < m
        invariant
            m == entries@.len(),
            es == models_of(entries@),
            i <= m,
            names@.len() == i,
            forall|j: int|
                0 <= j < i ==> (#[trigger] names@[j])@ == encode_utf8(es[j].name)
                    && names@[j]@.len() <= 0xffff,
        decreases m - i,
    {
        proof {
            assert(es[i as int] == entries@[i as int]@);
        }
        let nb: Vec<u8> = slice_to_vec(entries[i].name.as_str().as_bytes());
        if nb.len() > 0xffff {
            proof {
                assert(encode_utf8(es[i as int].name).len() > 0xffff);
            }
            return Err(ZipError::FilenameTooLong);
        }
        names.push(nb);
        i = i + 1;
    }
    proof {
        assert(es.len() == m);
        assert forall|j: int| 0 <= j < es.len() implies (#[trigger] encode_utf8(
            es[j].name,
        )).len() <= 0xffff by {
            assert(names@[j]@ == encode_utf8(es[j].name));
        }
        assert(names_ok(es));
    }

    if m > 0xffff {
        proof {
            assert(!sizes_ok(es, compress_inside, spec_level(level)));
        }
        return Err(ZipError::ArchiveTooLarge);
    }

    let mut out: Vec<u8> = Vec::new();
    let mut cds: Vec<CdInfo> = Vec::new();
    let mut i: usize = 0;
    while i < m
        invariant
            m == entries@.len(),
            m <= 0xffff,
            es == models_of(entries@),
            es.len() == m,
            rs == recs_of(es, compress_inside, lvl),
            rs.len() == m,
            lvl == spec_level(level),
            lvl <= 9,
            method == (if compress_inside {
                8u16
            } else {
                0u16
            }),
            i <= m,
            names@.len() == m,
            forall|j: int|
                0 <= j < m ==> (#[trigger] names@[j])@ == encode_utf8(es[j].name)
                    && names@[j]@.len() <= 0xffff,
            names_ok(es),
            out@ == locals_prefix(rs, i as int),
            cds@.len() == i,
            forall|j: int|
                0 <= j < i ==> (#[trigger] cds@[j]).crc == rs[j].crc && cds@[j].csize
                    == rs[j].payload.len() as u32 && cds@[j].rlen == rs[j].raw_len && cds@[j].off
                    == locals_prefix(rs, j).len() as u32,
            forall|j: int|
                0 <= j < i ==> (#[trigger] es[j].data).len() <= 0xffff_ffff && rs[j].payload.len()
                    <= 0xffff_ffff,
            compress_inside ==> (forall|j: int|
                0 <= j < i ==> inflate_of(#[trigger] deflate_of(es[j].data, lvl)) == Some(
                    es[j].data,
                )),
        decreases m - i,
    {
        proof {
            assert(es[i as int] == entries@[i as int]@);
            assert(rs[i as int] == rec_of(es[i as int], compress_inside, lvl));
        }
        let data_len: usize = entries[i].data.len();
        if data_len > 0xffff_ffff {
            proof {
                assert(es[i as int].data.len() > 0xffff_ffff);
            }
            return Err(ZipError::ArchiveTooLarge);
        }
        let crc: u32 = crc32(&entries[i].data);
        let payload: Vec<u8> = if compress_inside {
            deflate(&entries[i].data, lvl)
        } else {
            slice_to_vec(entries[i].data.as_slice())
        };
        proof {
            assert(payload@ == rs[i as int].payload);
        }
        if payload.len() > 0xffff_ffff {
            proof {
                assert(rs[i as int].payload.len() > 0xffff_ffff);
            }
            return Err(ZipError::ArchiveTooLarge);
        }
        if out.len() > 0xffff_ffff {
            proof {
                assert(rs.len() == m);
                lemma_locals_prefix_mono(rs, i as int, rs.len() as int);
                assert(locals_prefix(rs, rs.len() as int).len() > 0xffff_ffff);
            }
            return Err(ZipError::ArchiveTooLarge);
        }
        let off: u32 = out.len() as u32;
        write_local(&mut out, method, crc, data_len as u32, &names[i], &payload);
        proof {
            let r = rs[i as int];
            assert(r.method == method);
            assert(r.crc == crc);
            assert(r.payload == payload@);
            assert(r.raw_len == data_len as u32);
            assert(r.name == names@[i as int]@);
            assert(local_chunk(r) == crate::layout::lh_fixed(
                method,
                crc,
                payload@.len() as u32,
                data_len as u32,
                names@[i as int]@.len() as u16,
            ) + names@[i as int]@ + payload@);
            assert(locals_prefix(rs, i as int + 1) == locals_prefix(rs, i as int) + local_chunk(
                r,
            ));
            assert(out@ =~= locals_prefix(rs, i as int + 1));
        }
        cds.push(CdInfo { crc, csize: payload.len() as u32, rlen: data_len as u32, off });
        i = i + 1;
    }

    if out.len() > 0xffff_ffff {
        proof {
            assert(rs.len() == m);
            assert(locals_prefix(rs, rs.len() as int).len() > 0xffff_ffff);
        }
        return Err(ZipError::ArchiveTooLarge);
    }
    let cd_off: u32 = out.len() as u32;
    let cd_start: usize = out.len();
    proof {
        assert(rs.len() == m);
        assert(locals_prefix(rs, rs.len() as int).len() <= 0xffff_ffff);
    }

    let mut i: usize = 0;
    while i < m
        invariant
            m == entries@.len(),
            m <= 0xffff,
            es == models_of(entries@),
            es.len() == m,
            rs == recs_of(es, compress_inside, lvl),
            rs.len() == m,
            lvl == spec_level(level),
            names_ok(es),
            method == (if compress_inside {
                8u16
            } else {
                0u16
            }),
            i <= m,
            names@.len() == m,
            cds@.len() == m,
            forall|j: int|
                0 <= j < m ==> (#[trigger] es[j].data).len() <= 0xffff_ffff && rs[j].payload.len()
                    <= 0xffff_ffff,
            compress_inside ==> (forall|j: int|
                0 <= j < m ==> inflate_of(#[trigger] deflate_of(es[j].data, lvl)) == Some(
                    es[j].data,
                )),
            forall|j: int|
                0 <= j < m ==> (#[trigger] names@[j])@ == encode_utf8(es[j].name)
                    && names@[j]@.len() <= 0xffff,
            forall|j: int|
                0 <= j < m ==> (#[trigger] cds@[j]).crc == rs[j].crc && cds@[j].csize
                    == rs[j].payload.len() as u32 && cds@[j].rlen == rs[j].raw_len && cds@[j].off
                    == locals_prefix(rs, j).len() as u32,
            out@ == locals_prefix(rs, m as int) + cd_prefix(rs, i as int),
        decreases m - i,
    {
        proof {
            assert(es[i as int] == entries@[i as int]@);
            assert(rs[i as int] == rec_of(es[i as int], compress_inside, lvl));
        }
        write_cd(&mut out, method, cds[i].crc, cds[i].csize, cds[i].rlen, &names[i], cds[i].off);
        proof {
            let r = rs[i as int];
            let off_g: u32 = locals_prefix(rs, i as int).len() as u32;
            assert(r.method == method);
            assert(r.name == names@[i as int]@);
            assert(cds@[i as int].off == off_g);
            assert(crate::layout::cd_chunk(r, off_g) == crate::layout::cd_fixed(
                method,
                cds@[i as int].crc,
                cds@[i as int].csize,
                cds@[i as int].rlen,
                names@[i as int]@.len() as u16,
                cds@[i as int].off,
            ) + names@[i as int]@);
            assert(cd_prefix(rs, i as int + 1) == cd_prefix(rs, i as int) + crate::layout::cd_chunk(
                r,
                off_g,
            ));
            assert(out@ =~= locals_prefix(rs, m as int) + cd_prefix(rs, i as int + 1));
        }
        i = i + 1;
    }

    let cd_size_us: usize = out.len() - cd_start;
    proof {
        assert(cd_size_us == cd_prefix(rs, rs.len() as int).len());
    }
    if cd_size_us > 0xffff_ffff {
        return Err(ZipError::ArchiveTooLarge);
    }
    write_eocd(&mut out, m as u16, cd_size_us as u32, cd_off);
    proof {
        assert(m as u16 == rs.len() as u16);
        assert(cd_size_us as u32 == cd_prefix(rs, rs.len() as int).len() as u32);
        assert(cd_off == locals_prefix(rs, rs.len() as int).len() as u32);
        assert(out@ =~= archive_bytes(rs));
        assert(sizes_ok(es, compress_inside, lvl));
    }
    Ok(out)
}

/// Wraps one anonymous byte buffer as a single-entry archive, under
/// the given filename or the default.  Level 0 forces store; any other
/// level (clamped to 9, 6 when absent) selects deflate.
///
/// On success the stream is exactly [`archive_bytes`] of the one
/// record the buffer determines, and success is owed exactly when the
/// name and the sizes fit: `FilenameTooLong` comes exactly when the
/// name is longer than 65 535 bytes, `ArchiveTooLarge` exactly when
/// the name fits but a size exceeds its field, and nothing else can
/// come back.
#[verifier::rlimit(60)]
pub fn compress(data: &Vec<u8>, filename: Option<String>, level: Option<u32>) -> (r: Result<
    Vec<u8>,
    ZipError,
>)
    ensures
        ({
            let nm = chosen_name(filename);
            let lvl = spec_level(level);
            let rec = single_rec(data@, nm, lvl);
            &&& (r is Ok <==> encode_utf8(nm).len() <= 0xffff && single_fits(data@, rec))
            &&& ((r == Err::<Vec<u8>, ZipError>(ZipError::FilenameTooLong)) <==> encode_utf8(
                nm,
            ).len() > 0xffff)
            &&& ((r == Err::<Vec<u8>, ZipError>(ZipError::ArchiveTooLarge)) <==> (encode_utf8(
                nm,
            ).len() <= 0xffff && !single_fits(data@, rec)))
            &&& (r matches Ok(out) ==> out@ == archive_bytes(seq![rec]))
            &&& (r matches Ok(out) ==> (lvl != 0 ==> inflate_of(deflate_of(data@, lvl)) == Some(
                data@,
            )))
        }),
{
    let lvl: u32 = match level {
        Some(l) => if l > 9 {
            9
        } else {
            l
        },
        None => 6,
    };
    let name_s: String = match filename {
        Some(s) => s,
        None => "data.bin".to_owned(),
    };
    proof {
        assert(lvl == spec_level(level));
        assert(name_s@ == chosen_name(filename));
    }
    let nb: Vec<u8> = slice_to_vec(name_s.as_str().as_bytes());
    if nb.len() > 0xffff {
        return Err(ZipError::FilenameTooLong);
    }
    let dlen: usize = data.len();
    if dlen > 0xffff_ffff {
        return Err(ZipError::ArchiveTooLarge);
    }
    let crc: u32 = crc32(data);
    let store: bool = lvl == 0;
    let method: u16 = if store {
        0
    } else {
        8
    };
    let payload: Vec<u8> = if store {
        slice_to_vec(data.as_slice())
    } else {
        deflate(data, lvl)
    };
    if payload.len() > 0xffff_ffff - 30 - nb.len() {
        return Err(ZipError::ArchiveTooLarge);
    }
    let mut out: Vec<u8> = Vec::new();
    write_local(&mut out, method, crc, dlen as u32, &nb, &payload);
    let cd_off: u32 = out.len() as u32;
    let cd_start: usize = out.len();
    write_cd(&mut out, method, crc, payload.len() as u32, dlen as u32, &nb, 0);
    let cd_size: usize = out.len() - cd_start;
    write_eocd(&mut out, 1, cd_size as u32, cd_off);
    proof {
        let rec = single_rec(data@, chosen_name(filename), lvl);
        let rs = seq![rec];
        assert(rec.method == method);
        assert(rec.name == nb@);
        assert(rec.payload == payload@);
        assert(rec.crc == crc);
        assert(rec.raw_len == dlen as u32);
        assert(locals_prefix(rs, 0) =~= Seq::<u8>::empty());
        assert(locals_prefix(rs, 1) == locals_prefix(rs, 0) + local_chunk(rec));
        assert(locals_prefix(rs, 1) =~= local_chunk(rec));
        assert(cd_prefix(rs, 0) =~= Seq::<u8>::empty());
        assert(cd_prefix(rs, 1) == cd_prefix(rs, 0) + cd_chunk(
            rec,
            locals_prefix(rs, 0).len() as u32,
        ));
        assert(cd_prefix(rs, 1) =~= cd_chunk(rec, 0));
        assert(cd_off == locals_prefix(rs, 1).len() as u32);
        assert(cd_size == cd_prefix(rs, 1).len());
        assert(out@ =~= archive_bytes(rs));
        assert(single_fits(data@, rec));
    }
    Ok(out)
}

} // verus!
