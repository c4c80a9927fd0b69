//! The byte-level grammar of a GMA stream, in both directions: what a given
//! archive encodes to, and what a given byte sequence parses to. These spec
//! functions are the reference that the executable encoder and decoder are
//! proved against.

use vstd::prelude::*;

use crate::bytes::enc_u32;
use crate::bytes::enc_u64;
use crate::bytes::index_of_nul;
use crate::bytes::le_i64;
use crate::bytes::le_u32;
use crate::bytes::lemma_index_of_nul_props;
use crate::bytes::zero_free;
use crate::strings::lossy_decode;
use crate::ArchiveModel;
use crate::EntryModel;
use vstd::utf8::encode_utf8;

verus! {

/// The four magic bytes "GMAD".
pub open spec fn magic() -> Seq<u8> {
    seq![0x47u8, 0x4du8, 0x41u8, 0x44u8]
}

/// A null-terminated string field: the bytes followed by a zero byte.
pub open spec fn cstr(b: Seq<u8>) -> Seq<u8> {
    b.push(0u8)
}

/// A text field can stand on the wire only when its UTF-8 bytes contain no
/// zero byte, which would cut the field short.
pub open spec fn text_ok(s: Seq<char>) -> bool {
    zero_free(encode_utf8(s))
}

/// Every string field of the archive can stand on the wire.
pub open spec fn texts_ok(a: ArchiveModel) -> bool {
    &&& text_ok(a.name)
    &&& text_ok(a.description)
    &&& text_ok(a.author)
    &&& forall|i: int| 0 <= i < a.entries.len() ==> text_ok(#[trigger] a.entries[i].name)
}

/// The fixed-width fields can carry the archive: every declared size fits the
/// signed 64-bit size field and the 1-based indices fit the 32-bit index
/// field.
pub open spec fn sizes_ok(a: ArchiveModel) -> bool {
    &&& a.entries.len() <= u32::MAX
    &&& forall|i: int| 0 <= i < a.entries.len() ==> (#[trigger] a.entries[i]).content.len()
        <= i64::MAX
}

/// The archive can be written to the wire at all.
pub open spec fn encodable(a: ArchiveModel) -> bool {
    texts_ok(a) && sizes_ok(a)
}

/// Everything before the metadata records: magic, version, owner identifier,
/// timestamp, required-content flag, the three addon strings, and the unused
/// addon-version field (always 1 on encode).
pub open spec fn spec_header(a: ArchiveModel, ts: u64) -> Seq<u8> {
    magic() + seq![3u8] + enc_u64(a.steam_id64 as u64) + enc_u64(ts) + seq![0u8] + cstr(
        encode_utf8(a.name),
    ) + cstr(encode_utf8(a.description)) + cstr(encode_utf8(a.author)) + enc_u32(1u32)
}

/// One metadata record: 1-based index, name, declared size, and the unused
/// checksum field (always 0 on encode).
pub open spec fn meta_record(e: EntryModel, idx: u32) -> Seq<u8> {
    enc_u32(idx) + cstr(encode_utf8(e.name)) + enc_u64(e.content.len() as u64) + enc_u32(0u32)
}

/// The metadata records of the entries from position `k` on, with their
/// 1-based indices.
pub open spec fn spec_meta(es: Seq<EntryModel>, k: int) -> Seq<u8>
    decreases es.len() - k,
{
    if k < 0 || k >= es.len() {
        Seq::empty()
    } else {
        meta_record(es[k], (k + 1) as u32) + spec_meta(es, k + 1)
    }
}

/// The raw contents of the entries from position `k` on, concatenated in
/// order.
pub open spec fn spec_contents(es: Seq<EntryModel>, k: int) -> Seq<u8>
    decreases es.len() - k,
{
    if k < 0 || k >= es.len() {
        Seq::empty()
    } else {
        es[k].content + spec_contents(es, k + 1)
    }
}

/// The whole stream that `a` encodes to with timestamp `ts`: header, all
/// metadata records, the zero index that ends them, all contents, and the
/// trailing zero marker.
pub open spec fn spec_encode(a: ArchiveModel, ts: u64) -> Seq<u8> {
    spec_header(a, ts) + spec_meta(a.entries, 0) + enc_u32(0u32) + spec_contents(a.entries, 0)
        + enc_u32(0u32)
}

/// Why a parse fails: the stream ran out, the magic or version was wrong, a
/// string had no terminator, a declared size was negative, or the trailing
/// marker was not zero.
pub ghost enum ParseErr {
    Eof,
    BadMagic(Seq<u8>),
    BadVersion(i8),
    NoNull,
    BadSize(i64),
    BadTrailer(u32),
}

/// What parsing the header yields: the stored owner identifier, the three
/// addon strings, and the position just past the addon-version field.
#[verifier::ext_equal]
pub ghost struct HeaderModel {
    pub steam_id64: i64,
    pub name: Seq<char>,
    pub description: Seq<char>,
    pub author: Seq<char>,
    pub end: int,
}

/// One pending metadata record: a name and a non-negative declared size.
#[verifier::ext_equal]
pub ghost struct MetaModel {
    pub name: Seq<char>,
    pub size: i64,
}

/// Parse everything before the metadata records. The fixed-width fields other
/// than magic and version are consumed but only the owner identifier is kept.
pub open spec fn parse_header(s: Seq<u8>) -> Result<HeaderModel, ParseErr> {
    if s.len() < 4 {
        Err(ParseErr::Eof)
    } else if s.subrange(0, 4) != magic() {
        Err(ParseErr::BadMagic(s.subrange(0, 4)))
    } else if s.len() < 5 {
        Err(ParseErr::Eof)
    } else if s[4] as i8 != 3i8 {
        Err(ParseErr::BadVersion(s[4] as i8))
    } else if s.len() < 22 {
        Err(ParseErr::Eof)
    } else {
        let j1 = index_of_nul(s, 22);
        if j1 >= s.len() {
            Err(ParseErr::NoNull)
        } else {
            let j2 = index_of_nul(s, j1 + 1);
            if j2 >= s.len() {
                Err(ParseErr::NoNull)
            } else {
                let j3 = index_of_nul(s, j2 + 1);
                if j3 >= s.len() {
                    Err(ParseErr::NoNull)
                } else if j3 + 5 > s.len() {
                    Err(ParseErr::Eof)
                } else {
                    Ok(
                        HeaderModel {
                            steam_id64: le_i64(s.subrange(5, 13)),
                            name: lossy_decode(s.subrange(22, j1)),
                            description: lossy_decode(s.subrange(j1 + 1, j2)),
                            author: lossy_decode(s.subrange(j2 + 1, j3)),
                            end: j3 + 5,
                        },
                    )
                }
            }
        }
    }
}

/// Parse metadata records from `pos` until a zero index, appending to `acc`.
/// Yields the records and the position just past the zero index.
pub open spec fn parse_meta(s: Seq<u8>, pos: int, acc: Seq<MetaModel>) -> Result<
    (Seq<MetaModel>, int),
    ParseErr,
>
    decreases s.len() - pos,
    via parse_meta_decreases
{
    if pos < 0 || pos + 4 > s.len() {
        Err(ParseErr::Eof)
    } else if le_u32(s.subrange(pos, pos + 4)) == 0 {
        Ok((acc, pos + 4))
    } else {
        let j = index_of_nul(s, pos + 4);
        if j >= s.len() {
            Err(ParseErr::NoNull)
        } else if j + 9 > s.len() {
            Err(ParseErr::Eof)
        } else {
            let size = le_i64(s.subrange(j + 1, j + 9));
            if size < 0 {
                Err(ParseErr::BadSize(size))
            } else if j + 13 > s.len() {
                Err(ParseErr::Eof)
            } else {
                parse_meta(
                    s,
                    j + 13,
                    acc.push(MetaModel { name: lossy_decode(s.subrange(pos + 4, j)), size }),
                )
            }
        }
    }
}

#[via_fn]
proof fn parse_meta_decreases(s: Seq<u8>, pos: int, acc: Seq<MetaModel>) {
    if !(pos < 0 || pos + 4 > s.len()) {
        if le_u32(s.subrange(pos, pos + 4)) != 0 {
            lemma_index_of_nul_props(s, pos + 4);
        }
    }
}

/// Read the contents of the pending records from `metas[k]` on, each exactly
/// its declared size, appending the finished entries to `acc`. Yields the
/// entries and the position just past the last content byte.
pub open spec fn parse_contents(
    s: Seq<u8>,
    pos: int,
    metas: Seq<MetaModel>,
    k: int,
    acc: Seq<EntryModel>,
) -> Result<(Seq<EntryModel>, int), ParseErr>
    decreases metas.len() - k,
{
    if k < 0 || k >= metas.len() {
        Ok((acc, pos))
    } else {
        let sz = metas[k].size as int;
        if pos < 0 || pos + sz > s.len() {
            Err(ParseErr::Eof)
        } else {
            parse_contents(
                s,
                pos + sz,
                metas,
                k + 1,
                acc.push(EntryModel { name: metas[k].name, content: s.subrange(pos, pos + sz) }),
            )
        }
    }
}

/// What the whole stream parses to: the archive and the position just past
/// the trailing marker, or the first failure. Bytes after the trailing marker
/// are not examined.
pub open spec fn spec_parse(s: Seq<u8>) -> Result<(ArchiveModel, int), ParseErr> {
    match parse_header(s) {
        Err(e) => Err(e),
        Ok(h) => match parse_meta(s, h.end, Seq::empty()) {
            Err(e) => Err(e),
            Ok((metas, p1)) => match parse_contents(s, p1, metas, 0, Seq::empty()) {
                Err(e) => Err(e),
                Ok((entries, p2)) => {
                    if p2 + 4 > s.len() {
                        Err(ParseErr::Eof)
                    } else {
                        let t = le_u32(s.subrange(p2, p2 + 4));
                        if t != 0 {
                            Err(ParseErr::BadTrailer(t))
                        } else {
                            Ok(
                                (
                                    ArchiveModel {
                                        name: h.name,
                                        description: h.description,
                                        author: h.author,
                                        steam_id64: h.steam_id64,
                                        entries,
                                    },
                                    p2 + 4,
                                ),
                            )
                        }
                    }
                },
            },
        },
    }
}

/// The error value that the decoder returns for each way a parse can fail.
pub open spec fn err_matches(e: crate::GmaError, k: ParseErr) -> bool {
    match k {
        ParseErr::Eof => e is Io,
        ParseErr::BadMagic(b) => e matches crate::GmaError::InvalidHeader(h) && h@ == b,
        ParseErr::BadVersion(v) => e matches crate::GmaError::InvalidVersion(x) && x == v,
        ParseErr::NoNull => e is MissingNullTerminator,
        ParseErr::BadSize(z) => e matches crate::GmaError::SizeOutOfRange(x) && x == z,
        ParseErr::BadTrailer(v) => e matches crate::GmaError::TrailingMarkerMismatch(x) && x == v,
    }
}

} // verus!
