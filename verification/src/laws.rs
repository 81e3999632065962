//! The laws the codec obeys, proved once and for all: an archive the
//! encoder builds parses back to exactly the entries it was built
//! from; the checksum field does not depend on the method; the method
//! and size fields are what the options dictate; the empty archive is
//! the bare trailer; a data-descriptor header or a truncated payload is
//! refused outright.

use vstd::prelude::*;

use vstd::assert_seqs_equal;
use vstd::utf8::{decode_utf8, encode_utf8, valid_utf8};

use crate::bytes::{le16_at, le32_at};
use crate::encode::{names_ok, rec_of, recs_of, single_rec, sizes_ok};
use crate::entry::{EntryModel, ZipError};
use crate::layout::{
    archive_bytes, cd_prefix, chunk_len, eocd_bytes, eocd_sig, lemma_locals_prefix_mono, lh_fixed,
    local_chunk, local_sig, locals_prefix, wf_rec, wf_recs, Rec,
};
use crate::parse::{find_sig, has_eocd, parse_from, restored, sig_at, spec_decompress, spec_unpack};
use crate::trusted::{crc32_of, deflate_of, inflate_of};

verus! {

/// A record the decoder can take: well-formed fields, a UTF-8 name,
/// and a payload its method can put back.
pub open spec fn rec_ok(r: Rec) -> bool {
    &&& wf_rec(r)
    &&& valid_utf8(r.name)
    &&& (r.method == 0 || (r.method == 8 && inflate_of(r.payload) is Some))
}

/// The entry a record parses back to.
pub open spec fn rec_model(r: Rec) -> EntryModel {
    EntryModel { name: decode_utf8(r.name), data: restored(r.method, r.payload)->Some_0 }
}

/// The entries a record sequence parses back to.
pub open spec fn rec_models(rs: Seq<Rec>) -> Seq<EntryModel> {
    rs.map_values(|r: Rec| rec_model(r))
}

/// No stray local-header signature stands in the archive's tail (the
/// central directory and trailer).  The byte-by-byte scan then stops
/// exactly there.  A name or checksum field that happens to contain
/// the four signature bytes breaks this.
pub open spec fn tail_clean(rs: Seq<Rec>) -> bool {
    let a = archive_bytes(rs);
    let start = locals_prefix(rs, rs.len() as int).len() as int;
    forall|p: int| start <= p && p + 30 <= a.len() ==> !sig_at(a, p)
}

/// A scan over a region without a signature finds nothing more.
proof fn lemma_parse_no_sig(a: Seq<u8>, pos: int)
    requires
        0 <= pos,
        forall|p: int| pos <= p && p + 30 <= a.len() ==> !sig_at(a, p),
    ensures
        parse_from(a, pos) == Ok::<Seq<EntryModel>, ZipError>(Seq::empty()),
    decreases a.len() - pos,
{
    if pos + 30 <= a.len() {
        lemma_parse_no_sig(a, pos + 1);
    }
}

/// Inside any longer prefix of the local sections, the bytes of the
/// `i`-th section stand at its offset.
proof fn lemma_locals_embed(rs: Seq<Rec>, i: int, j: int)
    requires
        0 <= i < j <= rs.len(),
    ensures
        locals_prefix(rs, i).len() + chunk_len(rs[i]) <= locals_prefix(rs, j).len(),
        forall|k: int|
            0 <= k < chunk_len(rs[i]) ==> locals_prefix(rs, j)[locals_prefix(rs, i).len() + k]
                == local_chunk(rs[i])[k],
    decreases j - i,
{
    assert(local_chunk(rs[i]).len() == chunk_len(rs[i]));
    if j == i + 1 {
        assert(locals_prefix(rs, j) == locals_prefix(rs, i) + local_chunk(rs[i]));
    } else {
        lemma_locals_embed(rs, i, j - 1);
        assert(locals_prefix(rs, j) == locals_prefix(rs, j - 1) + local_chunk(rs[j - 1]));
    }
}

/// The `i`-th local section stands in the whole archive at its offset.
proof fn lemma_archive_embed(rs: Seq<Rec>, i: int)
    requires
        0 <= i < rs.len(),
    ensures
        archive_bytes(rs).len() == locals_prefix(rs, rs.len() as int).len() + cd_prefix(
            rs,
            rs.len() as int,
        ).len() + 22,
        locals_prefix(rs, i).len() + chunk_len(rs[i]) <= locals_prefix(rs, rs.len() as int).len(),
        archive_bytes(rs).subrange(
            locals_prefix(rs, i).len() as int,
            locals_prefix(rs, i).len() + chunk_len(rs[i]),
        ) == local_chunk(rs[i]),
{
    let a = archive_bytes(rs);
    let n = rs.len() as int;
    let locals = locals_prefix(rs, n);
    let off = locals_prefix(rs, i).len() as int;
    assert(eocd_bytes(rs.len() as u16, cd_prefix(rs, n).len() as u32, locals.len() as u32).len()
        == 22);
    lemma_locals_embed(rs, i, n);
    assert forall|k: int| 0 <= k < chunk_len(rs[i]) implies a[off + k] == local_chunk(rs[i])[k] by {
        assert(a[off + k] == locals[off + k]);
    }
    assert(a.subrange(off, off + chunk_len(rs[i])) =~= local_chunk(rs[i]));
}

/// Every built archive ends in an end-of-central-directory record, so
/// one is present in it.
proof fn lemma_archive_has_eocd(rs: Seq<Rec>)
    ensures
        has_eocd(archive_bytes(rs)),
{
    let a = archive_bytes(rs);
    let n = rs.len() as int;
    let locals = locals_prefix(rs, n);
    let cd = cd_prefix(rs, n);
    let e = eocd_bytes(rs.len() as u16, cd.len() as u32, locals.len() as u32);
    assert(e.len() == 22);
    let p = locals.len() + cd.len() as int;
    assert_seqs_equal!(a.subrange(p, p + 4) == eocd_sig(), k => {
        assert(a.subrange(p, p + 4)[k] == a[p + k]);
        assert(a[p + k] == e[k]);
        assert(e[k] == eocd_sig()[k]);
    });
    assert(0 <= p && p + 22 <= a.len() && a.subrange(p, p + 4) == eocd_sig());
}

/// Reading the fields of a local header embedded in a stream gives
/// back what the layout wrote into it.
#[verifier::rlimit(100)]
proof fn lemma_header_fields(a: Seq<u8>, pos: int, r: Rec)
    requires
        wf_rec(r),
        0 <= pos,
        pos + 30 + r.name.len() <= a.len(),
        a.subrange(pos, pos + 30 + r.name.len()) == lh_fixed(
            r.method,
            r.crc,
            r.payload.len() as u32,
            r.raw_len,
            r.name.len() as u16,
        ) + r.name,
    ensures
        sig_at(a, pos),
        le16_at(a, pos + 6) == 0,
        le16_at(a, pos + 8) == r.method,
        le32_at(a, pos + 18) == r.payload.len() as u32,
        le16_at(a, pos + 26) == r.name.len() as u16,
        le16_at(a, pos + 28) == 0,
        a.subrange(pos + 30, pos + 30 + r.name.len()) == r.name,
{
    let cs = r.payload.len() as u32;
    let nl = r.name.len() as u16;
    let fx = lh_fixed(r.method, r.crc, cs, r.raw_len, nl);
    let h = fx + r.name;
    assert(fx.len() == 30);
    assert forall|k: int| 0 <= k < 30 + r.name.len() implies a[pos + k] == #[trigger] h[k] by {
        assert(a.subrange(pos, pos + 30 + r.name.len())[k] == a[pos + k]);
    }
    assert(a[pos + 0] == h[0] && a[pos + 1] == h[1] && a[pos + 2] == h[2] && a[pos + 3] == h[3]);
    assert(h[0] == 0x50u8 && h[1] == 0x4bu8 && h[2] == 0x03u8 && h[3] == 0x04u8);
    assert(a.subrange(pos, pos + 4) =~= local_sig());
    assert(a[pos + 6] == h[6] && a[pos + 7] == h[7]);
    assert(h[6] == (0u16 & 0xff) as u8 && h[7] == ((0u16 >> 8) & 0xff) as u8);
    crate::bytes::lemma_le16_at_bytes(a, pos + 6, 0);
    assert(a[pos + 8] == h[8] && a[pos + 9] == h[9]);
    assert(h[8] == (r.method & 0xff) as u8 && h[9] == ((r.method >> 8) & 0xff) as u8);
    crate::bytes::lemma_le16_at_bytes(a, pos + 8, r.method);
    assert(a[pos + 18] == h[18] && a[pos + 19] == h[19] && a[pos + 20] == h[20] && a[pos + 21]
        == h[21]);
    assert(h[18] == (cs & 0xff) as u8 && h[19] == ((cs >> 8) & 0xff) as u8 && h[20] == ((cs >> 16)
        & 0xff) as u8 && h[21] == ((cs >> 24) & 0xff) as u8);
    crate::bytes::lemma_le32_at_bytes(a, pos + 18, cs);
    assert(a[pos + 26] == h[26] && a[pos + 27] == h[27]);
    assert(h[26] == (nl & 0xff) as u8 && h[27] == ((nl >> 8) & 0xff) as u8);
    crate::bytes::lemma_le16_at_bytes(a, pos + 26, nl);
    assert(a[pos + 28] == h[28] && a[pos + 29] == h[29]);
    assert(h[28] == (0u16 & 0xff) as u8 && h[29] == ((0u16 >> 8) & 0xff) as u8);
    crate::bytes::lemma_le16_at_bytes(a, pos + 28, 0);
    let nstart = pos + 30;
    assert_seqs_equal!(a.subrange(nstart, nstart + r.name.len() as int) == r.name, k => {
        assert(a[pos + (30 + k)] == h[30 + k]);
        assert(h[30 + k] == r.name[k]);
        assert(a.subrange(nstart, nstart + r.name.len() as int)[k] == a[nstart + k]);
    });
}

/// From the offset of the `i`-th record on, the scan recovers exactly
/// the remaining records' entries.
#[verifier::rlimit(100)]
proof fn lemma_parse_archive_from(rs: Seq<Rec>, i: int)
    requires
        wf_recs(rs),
        tail_clean(rs),
        forall|j: int| 0 <= j < rs.len() ==> rec_ok(#[trigger] rs[j]),
        0 <= i <= rs.len(),
    ensures
        parse_from(archive_bytes(rs), locals_prefix(rs, i).len() as int) == Ok::<
            Seq<EntryModel>,
            ZipError,
        >(rec_models(rs).skip(i)),
    decreases rs.len() - i,
{
    let a = archive_bytes(rs);
    let n = rs.len() as int;
    let off = locals_prefix(rs, i).len() as int;
    if i == n {
        assert(forall|p: int| off <= p && p + 30 <= a.len() ==> !sig_at(a, p));
        lemma_parse_no_sig(a, off);
        assert(rec_models(rs).skip(i) =~= Seq::<EntryModel>::empty());
    } else {
        let r = rs[i];
        let clen = chunk_len(r);
        lemma_archive_embed(rs, i);
        let chunk = a.subrange(off, off + clen);
        assert(chunk == local_chunk(r));
        let ghost hdr = lh_fixed(
            r.method,
            r.crc,
            r.payload.len() as u32,
            r.raw_len,
            r.name.len() as u16,
        ) + r.name;
        assert(a.subrange(off, off + 30 + r.name.len()) =~= hdr) by {
            assert(local_chunk(r) == hdr + r.payload);
            assert forall|k: int| 0 <= k < 30 + r.name.len() implies #[trigger] a[off + k]
                == hdr[k] by {
                assert(a[off + k] == chunk[k]);
            }
        }
        lemma_header_fields(a, off, r);
        assert((0u16 & 0x0008u16) == 0u16) by (bit_vector);
        let nlen = r.name.len() as int;
        let dstart = off + 30 + nlen;
        assert(le32_at(a, off + 18) as int == r.payload.len() as int);
        assert(le16_at(a, off + 26) as int == nlen);
        assert(lh_fixed(r.method, r.crc, r.payload.len() as u32, r.raw_len, r.name.len() as u16)
            .len() == 30);
        assert_seqs_equal!(a.subrange(dstart, dstart + r.payload.len() as int) == r.payload, k => {
            assert(a[off + (30 + nlen + k)] == chunk[30 + nlen + k]);
            assert(local_chunk(r)[30 + nlen + k] == r.payload[k]);
            assert(a.subrange(dstart, dstart + r.payload.len() as int)[k] == a[dstart + k]);
        });
        assert(restored(r.method, r.payload) is Some);
        assert(locals_prefix(rs, i + 1) == locals_prefix(rs, i) + local_chunk(r));
        assert(dstart + r.payload.len() == locals_prefix(rs, i + 1).len());
        lemma_parse_archive_from(rs, i + 1);
        assert(parse_from(a, off) == Ok::<Seq<EntryModel>, ZipError>(
            seq![rec_model(r)] + rec_models(rs).skip(i + 1),
        ));
        assert(seq![rec_model(r)] + rec_models(rs).skip(i + 1) =~= rec_models(rs).skip(i));
    }
}

/// Round trip over the record layout: an archive built from records
/// whose fields fit, whose names are valid UTF-8, whose payloads their
/// methods put back, and whose tail holds no stray signature, parses
/// back to exactly those records' entries.
pub proof fn lemma_archive_round_trip(rs: Seq<Rec>)
    ensures
        (wf_recs(rs) && tail_clean(rs) && (forall|j: int|
            0 <= j < rs.len() ==> rec_ok(#[trigger] rs[j]))) ==> parse_from(archive_bytes(rs), 0)
            == Ok::<Seq<EntryModel>, ZipError>(rec_models(rs)),
{
    if wf_recs(rs) && tail_clean(rs) && (forall|j: int|
        0 <= j < rs.len() ==> rec_ok(#[trigger] rs[j])) {
        lemma_parse_archive_from(rs, 0);
        assert(locals_prefix(rs, 0).len() == 0);
        assert(rec_models(rs).skip(0) =~= rec_models(rs));
    }
}

/// Round trip at the entry level: unpacking what `pack` built from
/// entries whose names and sizes fit gives back exactly those entries,
/// provided the tail holds no stray signature and (for deflate) the
/// codec inverts itself on each payload — which `pack` itself
/// establishes about its own output.
pub proof fn lemma_pack_round_trip(es: Seq<EntryModel>, deflate_used: bool, lvl: u32)
    ensures
        ({
            let rs = recs_of(es, deflate_used, lvl);
            (names_ok(es) && sizes_ok(es, deflate_used, lvl) && tail_clean(rs) && (deflate_used
                ==> (forall|i: int|
                0 <= i < es.len() ==> inflate_of(#[trigger] deflate_of(es[i].data, lvl)) == Some(
                    es[i].data,
                )))) ==> (parse_from(archive_bytes(rs), 0) == Ok::<Seq<EntryModel>, ZipError>(es)
                && spec_unpack(archive_bytes(rs)) == Ok::<Seq<EntryModel>, ZipError>(es))
        }),
{
    broadcast use vstd::utf8::encode_utf8_valid_utf8;
    broadcast use vstd::utf8::encode_utf8_decode_utf8;

    let rs = recs_of(es, deflate_used, lvl);
    if names_ok(es) && sizes_ok(es, deflate_used, lvl) && tail_clean(rs) && (deflate_used ==> (
    forall|i: int|
        0 <= i < es.len() ==> inflate_of(#[trigger] deflate_of(es[i].data, lvl)) == Some(
            es[i].data,
        ))) {
        assert forall|j: int| 0 <= j < rs.len() implies rec_ok(#[trigger] rs[j]) by {
            assert(rs[j] == rec_of(es[j], deflate_used, lvl));
            assert(encode_utf8(es[j].name).len() <= 0xffff);
        }
        assert(wf_recs(rs)) by {
            assert forall|j: int| 0 <= j < rs.len() implies wf_rec(#[trigger] rs[j]) by {
                assert(rs[j] == rec_of(es[j], deflate_used, lvl));
                assert(encode_utf8(es[j].name).len() <= 0xffff);
            }
        }
        lemma_archive_round_trip(rs);
        lemma_archive_has_eocd(rs);
        assert forall|j: int| 0 <= j < rs.len() implies rec_models(rs)[j] == es[j] by {
            assert(rs[j] == rec_of(es[j], deflate_used, lvl));
            assert(decode_utf8(encode_utf8(es[j].name)) == es[j].name);
            assert(rec_model(rs[j]) =~= es[j]);
        }
        assert(rec_models(rs) =~= es);
    }
}

/// Single-entry round trip: recovering the sole payload of an archive
/// built from one record yields the record's uncompressed data.  No
/// tail condition is needed: the payload is recovered without looking
/// past it.
#[verifier::rlimit(100)]
pub proof fn lemma_single_round_trip(rec: Rec)
    ensures
        (wf_rec(rec) && restored(rec.method, rec.payload) is Some) ==> spec_decompress(
            archive_bytes(seq![rec]),
        ) == Ok::<Seq<u8>, ZipError>(restored(rec.method, rec.payload)->Some_0),
{
    if wf_rec(rec) && restored(rec.method, rec.payload) is Some {
        let rs = seq![rec];
        let a = archive_bytes(rs);
        assert(locals_prefix(rs, 0).len() == 0);
        lemma_archive_embed(rs, 0);
        let clen = chunk_len(rec);
        let chunk = a.subrange(0, clen);
        assert(chunk == local_chunk(rec));
        let nlen = rec.name.len() as int;
        let fx = lh_fixed(rec.method, rec.crc, rec.payload.len() as u32, rec.raw_len,
            rec.name.len() as u16);
        assert(fx.len() == 30);
        assert_seqs_equal!(a.subrange(0, 30 + nlen) == fx + rec.name, k => {
            assert(a.subrange(0, 30 + nlen)[k] == a[0 + k]);
            assert(a[0 + k] == chunk[k]);
        });
        lemma_header_fields(a, 0, rec);
        assert((0u16 & 0x0008u16) == 0u16) by (bit_vector);
        assert(find_sig(a, 0) == Some(0int));
        let dstart = 0 + 30 + nlen + 0;
        assert(le32_at(a, 18) as int == rec.payload.len() as int);
        assert(le16_at(a, 26) as int == nlen);
        assert_seqs_equal!(a.subrange(dstart, dstart + rec.payload.len() as int) == rec.payload,
            k => {
            assert(a.subrange(dstart, dstart + rec.payload.len() as int)[k] == a[dstart + k]);
            assert(a[0 + (30 + nlen + k)] == chunk[30 + nlen + k]);
            assert(local_chunk(rec)[30 + nlen + k] == rec.payload[k]);
        });
        assert(spec_decompress(a) == Ok::<Seq<u8>, ZipError>(
            restored(rec.method, rec.payload)->Some_0,
        ));
    }
}

/// The single-entry variant is the multi-entry encoder specialized to
/// exactly one entry: the record the one-buffer encoder determines is
/// the record `pack` determines for the one-entry list (store at
/// level 0, deflate otherwise), so both calls build the same archive
/// bytes.
pub proof fn lemma_single_matches_pack(e: EntryModel, lvl: u32)
    ensures
        single_rec(e.data, e.name, lvl) == rec_of(e, lvl != 0, lvl),
        archive_bytes(seq![single_rec(e.data, e.name, lvl)]) == archive_bytes(
            recs_of(seq![e], lvl != 0, lvl),
        ),
{
    assert(single_rec(e.data, e.name, lvl) =~= rec_of(e, lvl != 0, lvl));
    assert(recs_of(seq![e], lvl != 0, lvl) =~= seq![single_rec(e.data, e.name, lvl)]);
}

/// The checksum field is the CRC-32 of the raw bytes whatever the
/// method and level: identical data always yields an identical field.
pub proof fn lemma_crc_independent_of_method(e: EntryModel, lvl_a: u32, lvl_b: u32)
    ensures
        rec_of(e, false, lvl_a).crc == crc32_of(e.data),
        rec_of(e, true, lvl_b).crc == crc32_of(e.data),
{
}

/// Method fidelity: without compression every record carries method 0
/// and its compressed size equals its uncompressed size; with
/// compression every record carries method 8.
pub proof fn lemma_method_fidelity(e: EntryModel, lvl: u32)
    ensures
        rec_of(e, false, lvl).method == 0,
        rec_of(e, false, lvl).payload == e.data,
        rec_of(e, false, lvl).payload.len() as u32 == rec_of(e, false, lvl).raw_len,
        rec_of(e, true, lvl).method == 8,
        rec_of(e, true, lvl).payload == deflate_of(e.data, lvl),
{
}

/// The empty archive is the bare 22-byte trailer with zero counts,
/// and unpacking it yields the empty entry sequence — the trailer's
/// presence is what keeps it an archive.
pub proof fn lemma_empty_archive(deflate_used: bool, lvl: u32)
    ensures
        ({
            let rs = recs_of(Seq::<EntryModel>::empty(), deflate_used, lvl);
            &&& rs.len() == 0
            &&& archive_bytes(rs) == eocd_bytes(0, 0, 0)
            &&& archive_bytes(rs).len() == 22
            &&& spec_unpack(archive_bytes(rs)) == Ok::<Seq<EntryModel>, ZipError>(Seq::empty())
        }),
{
    let rs = recs_of(Seq::<EntryModel>::empty(), deflate_used, lvl);
    assert(rs.len() == 0);
    assert(locals_prefix(rs, 0) =~= Seq::<u8>::empty());
    assert(cd_prefix(rs, 0) =~= Seq::<u8>::empty());
    assert(eocd_bytes(0, 0, 0).len() == 22);
    assert(archive_bytes(rs) =~= eocd_bytes(0, 0, 0));
    lemma_archive_has_eocd(rs);
    assert(parse_from(archive_bytes(rs), 0) == Ok::<Seq<EntryModel>, ZipError>(Seq::empty()));
}

/// Walking a stream cut anywhere inside the `j`-th entry's payload
/// span — header and name intact, at least one declared payload byte
/// missing — the scan fails on that header with `CorruptArchive`.
#[verifier::rlimit(100)]
proof fn lemma_parse_truncated_from(rs: Seq<Rec>, i: int, j: int, c: int)
    requires
        wf_recs(rs),
        forall|k: int| 0 <= k < rs.len() ==> rec_ok(#[trigger] rs[k]),
        0 <= i <= j < rs.len(),
        locals_prefix(rs, j).len() + 30 + rs[j].name.len() <= c,
        c < locals_prefix(rs, j + 1).len(),
    ensures
        parse_from(archive_bytes(rs).subrange(0, c), locals_prefix(rs, i).len() as int) == Err::<
            Seq<EntryModel>,
            ZipError,
        >(ZipError::CorruptArchive),
    decreases j - i,
{
    let a = archive_bytes(rs);
    let n = rs.len() as int;
    lemma_archive_embed(rs, j);
    lemma_locals_prefix_mono(rs, j + 1, n);
    let t = a.subrange(0, c);
    let off = locals_prefix(rs, i).len() as int;
    let r = rs[i];
    let clen = chunk_len(r);
    let nlen = r.name.len() as int;
    lemma_archive_embed(rs, i);
    let chunk = a.subrange(off, off + clen);
    assert(chunk == local_chunk(r));
    assert(locals_prefix(rs, i + 1) == locals_prefix(rs, i) + local_chunk(r));
    assert(off + clen == locals_prefix(rs, i + 1).len());
    assert(lh_fixed(r.method, r.crc, r.payload.len() as u32, r.raw_len, r.name.len() as u16).len()
        == 30);
    if i < j {
        lemma_locals_prefix_mono(rs, i + 1, j);
        assert(off + clen <= c);
    }
    assert(off + 30 + nlen <= c);
    assert_seqs_equal!(t.subrange(off, off + 30 + nlen) == lh_fixed(r.method, r.crc,
        r.payload.len() as u32, r.raw_len, r.name.len() as u16) + r.name, k => {
        assert(t.subrange(off, off + 30 + nlen)[k] == t[off + k]);
        assert(t[off + k] == a[off + k]);
        assert(a[off + k] == chunk[k]);
    });
    lemma_header_fields(t, off, r);
    assert((0u16 & 0x0008u16) == 0u16) by (bit_vector);
    assert(le32_at(t, off + 18) as int == r.payload.len() as int);
    assert(le16_at(t, off + 26) as int == nlen);
    if i == j {
        assert(off + 30 + nlen + 0 + r.payload.len() > t.len());
        assert(parse_from(t, off) == Err::<Seq<EntryModel>, ZipError>(ZipError::CorruptArchive));
    } else {
        let dstart = off + 30 + nlen;
        assert_seqs_equal!(t.subrange(dstart, dstart + r.payload.len() as int) == r.payload, k => {
            assert(t.subrange(dstart, dstart + r.payload.len() as int)[k] == t[dstart + k]);
            assert(t[off + (30 + nlen + k)] == a[off + (30 + nlen + k)]);
            assert(a[off + (30 + nlen + k)] == chunk[30 + nlen + k]);
            assert(local_chunk(r)[30 + nlen + k] == r.payload[k]);
        });
        assert(restored(r.method, r.payload) is Some);
        assert(dstart + r.payload.len() == locals_prefix(rs, i + 1).len());
        lemma_parse_truncated_from(rs, i + 1, j, c);
        assert(parse_from(t, off) == Err::<Seq<EntryModel>, ZipError>(ZipError::CorruptArchive));
    }
}

/// Corruption boundary: cut a well-formed archive anywhere inside any
/// entry's payload span — that entry's header and name intact, at
/// least one declared payload byte missing — and the whole parse
/// fails with `CorruptArchive`: never a truncated entry, never a
/// partial entry list.
pub proof fn lemma_truncated_payload_rejected(rs: Seq<Rec>, j: int, c: int)
    ensures
        (wf_recs(rs) && (forall|k: int| 0 <= k < rs.len() ==> rec_ok(#[trigger] rs[k])) && 0 <= j
            < rs.len() && locals_prefix(rs, j).len() + 30 + rs[j].name.len() <= c && c
            < locals_prefix(rs, j + 1).len()) ==> parse_from(archive_bytes(rs).subrange(0, c), 0)
            == Err::<Seq<EntryModel>, ZipError>(ZipError::CorruptArchive),
{
    if wf_recs(rs) && (forall|k: int| 0 <= k < rs.len() ==> rec_ok(#[trigger] rs[k])) && 0 <= j
        < rs.len() && locals_prefix(rs, j).len() + 30 + rs[j].name.len() <= c && c < locals_prefix(
        rs,
        j + 1,
    ).len() {
        lemma_parse_truncated_from(rs, 0, j, c);
        assert(locals_prefix(rs, 0).len() == 0);
    }
}

/// A local header whose general-purpose flag bit 3 is set is refused
/// outright with `UnsupportedFeature`, wherever the scan meets it:
/// from any cursor position, the first header the scan finds decides.
/// The parse resumes after each entry with just such a scan, and an
/// error discards everything already decoded, so an offending header
/// anywhere in the chain fails the whole parse with no partial result.
pub proof fn lemma_data_descriptor_rejected(a: Seq<u8>, pos: int)
    ensures
        (0 <= pos && (find_sig(a, pos) matches Some(p) && le16_at(a, p + 6) & 0x0008 != 0))
            ==> parse_from(a, pos) == Err::<Seq<EntryModel>, ZipError>(
            ZipError::UnsupportedFeature,
        ),
    decreases a.len() - pos,
{
    if 0 <= pos && find_sig(a, pos) is Some {
        if pos + 30 <= a.len() && !sig_at(a, pos) {
            assert(find_sig(a, pos) == find_sig(a, pos + 1));
            assert(parse_from(a, pos) == parse_from(a, pos + 1));
            lemma_data_descriptor_rejected(a, pos + 1);
        }
    }
}

} // verus!
