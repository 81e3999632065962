//! The record layout: the exact bytes of local file headers, central
//! directory entries and the end-of-central-directory record, and the
//! byte stream of a whole archive built from them.

use vstd::prelude::*;

use crate::bytes::{le16, le32, push_bytes, push_le16, push_le32};

verus! {

/// The signature that begins a local file header.
pub open spec fn local_sig() -> Seq<u8> {
    seq![0x50u8, 0x4bu8, 0x03u8, 0x04u8]
}

/// The signature that begins a central directory entry.
pub open spec fn cd_sig() -> Seq<u8> {
    seq![0x50u8, 0x4bu8, 0x01u8, 0x02u8]
}

/// The signature that begins the end-of-central-directory record.
pub open spec fn eocd_sig() -> Seq<u8> {
    seq![0x50u8, 0x4bu8, 0x05u8, 0x06u8]
}

/// One encoded entry, as it stands in the stream: the filename bytes,
/// the payload bytes actually written (raw for method 0, a DEFLATE
/// stream for method 8), the CRC-32 of the uncompressed data, the
/// uncompressed length, and the method.
#[verifier::ext_equal]
pub struct Rec {
    pub name: Seq<u8>,
    pub payload: Seq<u8>,
    pub crc: u32,
    pub raw_len: u32,
    pub method: u16,
}

/// A record's fields fit the 16- and 32-bit fields that carry them.
pub open spec fn wf_rec(r: Rec) -> bool {
    &&& r.name.len() <= 0xffff
    &&& r.payload.len() <= 0xffff_ffff
}

/// The 30 fixed bytes of a local file header: signature,
/// version-needed 20, flags 0, method, time 0, date 0, crc,
/// compressed size, uncompressed size, filename length, extra length 0.
pub open spec fn lh_fixed(method: u16, crc: u32, csize: u32, rlen: u32, nlen: u16) -> Seq<u8> {
    local_sig() + le16(20) + le16(0) + le16(method) + le16(0) + le16(0) + le32(crc) + le32(csize)
        + le32(rlen) + le16(nlen) + le16(0)
}

/// A whole local section: fixed header, filename bytes, payload bytes.
pub open spec fn local_chunk(r: Rec) -> Seq<u8> {
    lh_fixed(r.method, r.crc, r.payload.len() as u32, r.raw_len, r.name.len() as u16) + r.name
        + r.payload
}

/// The byte length of a local section.
pub open spec fn chunk_len(r: Rec) -> int {
    30 + r.name.len() as int + r.payload.len() as int
}

/// The 46 fixed bytes of a central directory entry: signature,
/// version-made-by 20, version-needed 20, flags 0, method, time 0,
/// date 0, crc, compressed size, uncompressed size, filename length,
/// extra length 0, comment length 0, disk-number-start 0, internal
/// attributes 0, external attributes 0, local header offset.
pub open spec fn cd_fixed(method: u16, crc: u32, csize: u32, rlen: u32, nlen: u16, off: u32) -> Seq<
    u8,
> {
    cd_sig() + le16(20) + le16(20) + le16(0) + le16(method) + le16(0) + le16(0) + le32(crc)
        + le32(csize) + le32(rlen) + le16(nlen) + le16(0) + le16(0) + le16(0) + le16(0) + le32(0)
        + le32(off)
}

/// A whole central directory entry for `r`, whose local header stands
/// at `off`.
pub open spec fn cd_chunk(r: Rec, off: u32) -> Seq<u8> {
    cd_fixed(r.method, r.crc, r.payload.len() as u32, r.raw_len, r.name.len() as u16, off) + r.name
}

/// The 22 bytes of the end-of-central-directory record: signature,
/// disk number 0, central-directory disk 0, entries on this disk,
/// total entries, central directory size, central directory offset,
/// comment length 0.
pub open spec fn eocd_bytes(count: u16, cd_size: u32, cd_off: u32) -> Seq<u8> {
    eocd_sig() + le16(0) + le16(0) + le16(count) + le16(count) + le32(cd_size) + le32(cd_off)
        + le16(0)
}

/// The concatenation of the first `n` local sections.
pub open spec fn locals_prefix(rs: Seq<Rec>, n: int) -> Seq<u8>
    decreases n,
{
    if n <= 0 {
        Seq::empty()
    } else {
        locals_prefix(rs, n - 1) + local_chunk(rs[n - 1])
    }
}

/// The concatenation of the first `n` central directory entries, each
/// carrying the offset at which its local header was written.
pub open spec fn cd_prefix(rs: Seq<Rec>, n: int) -> Seq<u8>
    decreases n,
{
    if n <= 0 {
        Seq::empty()
    } else {
        cd_prefix(rs, n - 1) + cd_chunk(rs[n - 1], locals_prefix(rs, n - 1).len() as u32)
    }
}

/// The whole archive: every local section, then the central directory,
/// then the end-of-central-directory record.
pub open spec fn archive_bytes(rs: Seq<Rec>) -> Seq<u8> {
    let locals = locals_prefix(rs, rs.len() as int);
    let cd = cd_prefix(rs, rs.len() as int);
    locals + cd + eocd_bytes(rs.len() as u16, cd.len() as u32, locals.len() as u32)
}

/// Every field of every record fits its place in the layout: names fit
/// the 16-bit length field, payloads and both directory spans fit
/// 32-bit fields, and the entry count fits 16 bits.
pub open spec fn wf_recs(rs: Seq<Rec>) -> bool {
    &&& forall|i: int| 0 <= i < rs.len() ==> wf_rec(#[trigger] rs[i])
    &&& rs.len() <= 0xffff
    &&& locals_prefix(rs, rs.len() as int).len() <= 0xffff_ffff
    &&& cd_prefix(rs, rs.len() as int).len() <= 0xffff_ffff
}

/// Prefixes of the local sections only grow.
pub proof fn lemma_locals_prefix_mono(rs: Seq<Rec>, i: int, j: int)
    requires
        i <= j,
    ensures
        locals_prefix(rs, i).len() <= locals_prefix(rs, j).len(),
    decreases j - i,
{
    if i < j {
        lemma_locals_prefix_mono(rs, i, j - 1);
    }
}

/// Appends a local file header, the filename, and the payload.
pub fn write_local(
    out: &mut Vec<u8>,
    method: u16,
    crc: u32,
    raw_len: u32,
    name_b: &Vec<u8>,
    payload: &Vec<u8>,
)
    requires
        name_b@.len() <= 0xffff,
        payload@.len() <= 0xffff_ffff,
    ensures
        final(out)@ == old(out)@ + lh_fixed(
            method,
            crc,
            payload@.len() as u32,
            raw_len,
            name_b@.len() as u16,
        ) + name_b@ + payload@,
{
    out.push(0x50);
    out.push(0x4b);
    out.push(0x03);
    out.push(0x04);
    push_le16(out, 20);
    push_le16(out, 0);
    push_le16(out, method);
    push_le16(out, 0);
    push_le16(out, 0);
    push_le32(out, crc);
    push_le32(out, payload.len() as u32);
    push_le32(out, raw_len);
    push_le16(out, name_b.len() as u16);
    push_le16(out, 0);
    push_bytes(out, name_b);
    push_bytes(out, payload);
    proof {
        assert(out@ =~= old(out)@ + lh_fixed(
            method,
            crc,
            payload@.len() as u32,
            raw_len,
            name_b@.len() as u16,
        ) + name_b@ + payload@);
    }
}

/// Appends a central directory entry and its filename.
pub fn write_cd(
    out: &mut Vec<u8>,
    method: u16,
    crc: u32,
    csize: u32,
    raw_len: u32,
    name_b: &Vec<u8>,
    off: u32,
)
    requires
        name_b@.len() <= 0xffff,
    ensures
        final(out)@ == old(out)@ + cd_fixed(
            method,
            crc,
            csize,
            raw_len,
            name_b@.len() as u16,
            off,
        ) + name_b@,
{
    out.push(0x50);
    out.push(0x4b);
    out.push(0x01);
    out.push(0x02);
    push_le16(out, 20);
    push_le16(out, 20);
    push_le16(out, 0);
    push_le16(out, method);
    push_le16(out, 0);
    push_le16(out, 0);
    push_le32(out, crc);
    push_le32(out, csize);
    push_le32(out, raw_len);
    push_le16(out, name_b.len() as u16);
    push_le16(out, 0);
    push_le16(out, 0);
    push_le16(out, 0);
    push_le16(out, 0);
    push_le32(out, 0);
    push_le32(out, off);
    push_bytes(out, name_b);
    proof {
        assert(out@ =~= old(out)@ + cd_fixed(
            method,
            crc,
            csize,
            raw_len,
            name_b@.len() as u16,
            off,
        ) + name_b@);
    }
}

/// Appends the end-of-central-directory record.
pub fn write_eocd(out: &mut Vec<u8>, count: u16, cd_size: u32, cd_off: u32)
    ensures
        final(out)@ == old(out)@ + eocd_bytes(count, cd_size, cd_off),
{
    out.push(0x50);
    out.push(0x4b);
    out.push(0x05);
    out.push(0x06);
    push_le16(out, 0);
    push_le16(out, 0);
    push_le16(out, count);
    push_le16(out, count);
    push_le32(out, cd_size);
    push_le32(out, cd_off);
    push_le16(out, 0);
    proof {
        assert(out@ =~= old(out)@ + eocd_bytes(count, cd_size, cd_off));
    }
}

} // verus!
