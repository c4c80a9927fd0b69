//! The laws of the codec, stated over the grammar of [`crate::format`] and
//! proved for all inputs.

use vstd::prelude::*;
use vstd::utf8::encode_utf8;
use vstd::utf8::encode_utf8_decode_utf8;
use vstd::utf8::encode_utf8_valid_utf8;

use crate::bytes::enc_u32;
use crate::bytes::enc_u64;
use crate::bytes::index_of_nul;
use crate::bytes::le_i64;
use crate::bytes::lemma_index_of_nul_at;
use crate::bytes::lemma_index_of_nul_props;
use crate::bytes::lemma_le_enc_i64;
use crate::bytes::lemma_le_enc_u32;
use crate::bytes::le_u32;
use crate::format::cstr;
use crate::format::encodable;
use crate::format::magic;
use crate::format::meta_record;
use crate::format::parse_contents;
use crate::format::parse_header;
use crate::format::parse_meta;
use crate::format::spec_contents;
use crate::format::spec_encode;
use crate::format::spec_header;
use crate::format::spec_meta;
use crate::format::spec_parse;
use crate::format::text_ok;
use crate::format::HeaderModel;
use crate::format::MetaModel;
use crate::format::ParseErr;
use crate::strings::lossy_decode;
use crate::ArchiveModel;
use crate::EntryModel;

verus! {

/// A stream beginning with any four bytes other than the magic marker parses
/// to `InvalidHeader`, carrying those four bytes.
pub proof fn lemma_header_rejection(s: Seq<u8>)
    requires
        s.len() >= 4,
        s.subrange(0, 4) != magic(),
    ensures
        spec_parse(s) == Err::<(ArchiveModel, int), ParseErr>(ParseErr::BadMagic(s.subrange(0, 4))),
{
}

/// A stream with the right magic marker but a version byte other than 3
/// parses to `InvalidVersion`, carrying that byte.
pub proof fn lemma_version_rejection(s: Seq<u8>)
    requires
        s.len() >= 5,
        s.subrange(0, 4) == magic(),
        s[4] != 3,
    ensures
        spec_parse(s) == Err::<(ArchiveModel, int), ParseErr>(ParseErr::BadVersion(s[4] as i8)),
{
    let b = s[4];
    assert(b as i8 != 3i8) by (bit_vector)
        requires
            b != 3u8,
    ;
}

/// A stream that is whole through the fixed-width header fields but has no
/// zero byte afterwards parses to `MissingNullTerminator`: the first string
/// field runs off the stream.
pub proof fn lemma_missing_null_terminator(s: Seq<u8>)
    requires
        s.len() >= 22,
        s.subrange(0, 4) == magic(),
        s[4] == 3,
        forall|i: int| 22 <= i < s.len() ==> s[i] != 0,
    ensures
        spec_parse(s) == Err::<(ArchiveModel, int), ParseErr>(ParseErr::NoNull),
{
    lemma_index_of_nul_props(s, 22);
    if index_of_nul(s, 22) < s.len() {
        assert(s[index_of_nul(s, 22)] == 0);
    }
}

/// A metadata record whose declared size is negative aborts the parse with
/// `SizeOutOfRange`, carrying that size, before any content bytes are read.
pub proof fn lemma_negative_size(s: Seq<u8>, pos: int, acc: Seq<MetaModel>)
    requires
        0 <= pos,
        pos + 4 <= s.len(),
        le_u32(s.subrange(pos, pos + 4)) != 0,
        index_of_nul(s, pos + 4) < s.len(),
        index_of_nul(s, pos + 4) + 9 <= s.len(),
        le_i64(s.subrange(index_of_nul(s, pos + 4) + 1, index_of_nul(s, pos + 4) + 9)) < 0,
    ensures
        parse_meta(s, pos, acc) == Err::<(Seq<MetaModel>, int), ParseErr>(
            ParseErr::BadSize(
                le_i64(s.subrange(index_of_nul(s, pos + 4) + 1, index_of_nul(s, pos + 4) + 9)),
            ),
        ),
{
}

/// Lossy decoding undoes UTF-8 encoding: the wire bytes of a text field read
/// back as exactly that text.
proof fn lemma_text_round(sc: Seq<char>)
    ensures
        lossy_decode(encode_utf8(sc)) == sc,
{
    encode_utf8_valid_utf8(sc);
    encode_utf8_decode_utf8(sc);
}

/// A stream that begins with the encoded header of `a` parses back to the
/// header fields of `a`, ending just past the addon-version field.
proof fn lemma_parse_header_of_encode(a: ArchiveModel, ts: u64, s: Seq<u8>)
    requires
        text_ok(a.name),
        text_ok(a.description),
        text_ok(a.author),
        spec_header(a, ts).len() <= s.len(),
        s.subrange(0, spec_header(a, ts).len() as int) == spec_header(a, ts),
    ensures
        parse_header(s) == Ok::<HeaderModel, ParseErr>(
            HeaderModel {
                steam_id64: a.steam_id64,
                name: a.name,
                description: a.description,
                author: a.author,
                end: spec_header(a, ts).len() as int,
            },
        ),
{
    let h = spec_header(a, ts);
    let hlen = h.len() as int;
    let b1 = encode_utf8(a.name);
    let b2 = encode_utf8(a.description);
    let b3 = encode_utf8(a.author);
    let n1 = b1.len() as int;
    let n2 = b2.len() as int;
    let n3 = b3.len() as int;
    assert(hlen == 29 + n1 + n2 + n3);
    assert forall|i: int| 0 <= i < hlen implies s[i] == h[i] by {
        assert(s.subrange(0, hlen)[i] == s[i]);
    }
    assert(s.subrange(0, 4) =~= magic());
    assert(s[4] == 3u8);
    assert(s.subrange(5, 13) =~= enc_u64(a.steam_id64 as u64));
    lemma_le_enc_i64(a.steam_id64);
    // addon name
    assert(s.subrange(22, 22 + n1) =~= b1);
    assert(s[22 + n1] == cstr(b1)[n1]);
    lemma_index_of_nul_at(s, 22, n1);
    let j1 = index_of_nul(s, 22);
    assert(j1 == 22 + n1);
    lemma_text_round(a.name);
    // addon description
    assert(s.subrange(j1 + 1, j1 + 1 + n2) =~= b2);
    assert(s[j1 + 1 + n2] == cstr(b2)[n2]);
    lemma_index_of_nul_at(s, j1 + 1, n2);
    let j2 = index_of_nul(s, j1 + 1);
    assert(j2 == 23 + n1 + n2);
    lemma_text_round(a.description);
    // addon author
    assert(s.subrange(j2 + 1, j2 + 1 + n3) =~= b3);
    assert(s[j2 + 1 + n3] == cstr(b3)[n3]);
    lemma_index_of_nul_at(s, j2 + 1, n3);
    let j3 = index_of_nul(s, j2 + 1);
    assert(j3 == 24 + n1 + n2 + n3);
    lemma_text_round(a.author);
    assert(j3 + 5 == hlen);
    assert(lossy_decode(s.subrange(22, j1)) == a.name);
    assert(lossy_decode(s.subrange(j1 + 1, j2)) == a.description);
    assert(lossy_decode(s.subrange(j2 + 1, j3)) == a.author);
}

/// The pending metadata records that the entries encode to: each name with
/// the size of its own contents.
spec fn metas_of(es: Seq<EntryModel>) -> Seq<MetaModel> {
    es.map_values(|e: EntryModel| MetaModel { name: e.name, size: e.content.len() as i64 })
}

/// A stream that carries the metadata records of the entries from `k` on,
/// followed by the zero index, parses back to exactly those records.
proof fn lemma_parse_meta_of_encode(s: Seq<u8>, pos: int, es: Seq<EntryModel>, k: int, acc: Seq<
    MetaModel,
>)
    requires
        0 <= k <= es.len(),
        es.len() <= u32::MAX,
        forall|j: int| k <= j < es.len() ==> text_ok(#[trigger] es[j].name),
        forall|j: int| k <= j < es.len() ==> (#[trigger] es[j]).content.len() <= i64::MAX,
        0 <= pos,
        pos + spec_meta(es, k).len() + 4 <= s.len(),
        s.subrange(pos, pos + spec_meta(es, k).len() + 4) == spec_meta(es, k) + enc_u32(0u32),
    ensures
        parse_meta(s, pos, acc) == Ok::<(Seq<MetaModel>, int), ParseErr>(
            (acc + metas_of(es).skip(k), pos + spec_meta(es, k).len() + 4),
        ),
    decreases es.len() - k,
{
    let m = spec_meta(es, k);
    let w = pos + m.len() + 4;
    assert forall|i: int| pos <= i < w implies s[i] == (m + enc_u32(0u32))[i - pos] by {
        assert(s.subrange(pos, w)[i - pos] == s[i]);
    }
    if k == es.len() {
        assert(m =~= Seq::<u8>::empty());
        assert(s.subrange(pos, pos + 4) =~= enc_u32(0u32));
        lemma_le_enc_u32(0);
        assert(acc + metas_of(es).skip(k) =~= acc);
    } else {
        let e = es[k];
        let idx = (k + 1) as u32;
        let rec = meta_record(e, idx);
        let nb = encode_utf8(e.name);
        let nn = nb.len() as int;
        assert(rec.len() == 4 + nn + 1 + 8 + 4);
        assert(m == rec + spec_meta(es, k + 1));
        // the index field
        assert(s.subrange(pos, pos + 4) =~= enc_u32(idx));
        lemma_le_enc_u32(idx);
        assert(idx != 0);
        // the name field
        assert(s.subrange(pos + 4, pos + 4 + nn) =~= nb);
        assert(s[pos + 4 + nn] == cstr(nb)[nn]);
        lemma_index_of_nul_at(s, pos + 4, nn);
        let j = index_of_nul(s, pos + 4);
        assert(j == pos + 4 + nn);
        lemma_text_round(e.name);
        assert(lossy_decode(s.subrange(pos + 4, j)) == e.name);
        // the size field
        let clen = e.content.len() as i64;
        assert(s.subrange(j + 1, j + 9) =~= enc_u64(e.content.len() as u64));
        assert(enc_u64(e.content.len() as u64) == enc_u64(clen as u64));
        lemma_le_enc_i64(clen);
        assert(le_i64(s.subrange(j + 1, j + 9)) == clen);
        assert(clen >= 0);
        // the checksum field and the rest
        let pos2 = j + 13;
        assert(pos2 == pos + rec.len());
        let acc2 = acc.push(MetaModel { name: e.name, size: clen });
        assert(s.subrange(pos2, pos2 + spec_meta(es, k + 1).len() + 4) =~= spec_meta(es, k + 1)
            + enc_u32(0u32));
        lemma_parse_meta_of_encode(s, pos2, es, k + 1, acc2);
        assert(acc2 + metas_of(es).skip(k + 1) =~= acc + metas_of(es).skip(k));
        assert(parse_meta(s, pos, acc) == parse_meta(s, pos2, acc2));
    }
}

/// A stream that carries the concatenated contents of the entries from `k`
/// on parses back, against their own metadata records, to exactly those
/// entries.
proof fn lemma_parse_contents_of_encode(
    s: Seq<u8>,
    pos: int,
    es: Seq<EntryModel>,
    k: int,
    acc: Seq<EntryModel>,
)
    requires
        0 <= k <= es.len(),
        forall|j: int| 0 <= j < es.len() ==> (#[trigger] es[j]).content.len() <= i64::MAX,
        0 <= pos,
        pos + spec_contents(es, k).len() <= s.len(),
        s.subrange(pos, pos + spec_contents(es, k).len()) == spec_contents(es, k),
    ensures
        parse_contents(s, pos, metas_of(es), k, acc) == Ok::<(Seq<EntryModel>, int), ParseErr>(
            (acc + es.skip(k), pos + spec_contents(es, k).len()),
        ),
    decreases es.len() - k,
{
    let c = spec_contents(es, k);
    assert forall|i: int| pos <= i < pos + c.len() implies s[i] == c[i - pos] by {
        assert(s.subrange(pos, pos + c.len())[i - pos] == s[i]);
    }
    if k == es.len() {
        assert(c =~= Seq::<u8>::empty());
        assert(acc + es.skip(k) =~= acc);
    } else {
        let e = es[k];
        let clen = e.content.len() as int;
        assert(metas_of(es)[k].size as int == clen);
        assert(c == e.content + spec_contents(es, k + 1));
        assert(s.subrange(pos, pos + clen) =~= e.content);
        let entry = EntryModel { name: metas_of(es)[k].name, content: s.subrange(pos, pos + clen) };
        assert(entry =~= e);
        let pos2 = pos + clen;
        assert(s.subrange(pos2, pos2 + spec_contents(es, k + 1).len()) =~= spec_contents(
            es,
            k + 1,
        ));
        lemma_parse_contents_of_encode(s, pos2, es, k + 1, acc.push(entry));
        assert(acc.push(entry) + es.skip(k + 1) =~= acc + es.skip(k));
        assert(parse_contents(s, pos, metas_of(es), k, acc) == parse_contents(
            s,
            pos2,
            metas_of(es),
            k + 1,
            acc.push(entry),
        ));
    }
}

/// Round-trip: every archive that can stand on the wire parses back, from its
/// own encoding with any timestamp, to exactly itself — the same name,
/// description, author, owner identifier, and entries, in order — with the
/// whole stream consumed.
pub proof fn lemma_round_trip(a: ArchiveModel, ts: u64)
    requires
        encodable(a),
    ensures
        spec_parse(spec_encode(a, ts)) == Ok::<(ArchiveModel, int), ParseErr>(
            (a, spec_encode(a, ts).len() as int),
        ),
{
    let t = spec_encode(a, ts);
    let h = spec_header(a, ts);
    let m = spec_meta(a.entries, 0);
    let z = enc_u32(0u32);
    let c = spec_contents(a.entries, 0);
    let hlen = h.len() as int;
    let p1 = hlen + m.len() + 4;
    let p2 = p1 + c.len();
    assert(t.len() == hlen + m.len() + 4 + c.len() + 4);
    // header
    assert(t.subrange(0, hlen) =~= h);
    lemma_parse_header_of_encode(a, ts, t);
    // metadata records
    assert(t.subrange(hlen, p1) =~= m + z);
    lemma_parse_meta_of_encode(t, hlen, a.entries, 0, Seq::empty());
    assert(Seq::<MetaModel>::empty() + metas_of(a.entries).skip(0) =~= metas_of(a.entries));
    assert(parse_meta(t, hlen, Seq::empty()) == Ok::<(Seq<MetaModel>, int), ParseErr>(
        (metas_of(a.entries), p1),
    ));
    // contents
    assert(t.subrange(p1, p2) =~= c);
    lemma_parse_contents_of_encode(t, p1, a.entries, 0, Seq::empty());
    assert(Seq::<EntryModel>::empty() + a.entries.skip(0) =~= a.entries);
    assert(parse_contents(t, p1, metas_of(a.entries), 0, Seq::empty()) == Ok::<
        (Seq<EntryModel>, int),
        ParseErr,
    >((a.entries, p2)));
    // trailing marker
    assert(t.subrange(p2, p2 + 4) =~= z);
    lemma_le_enc_u32(0);
    let out = spec_parse(t)->Ok_0;
    assert(out.0 =~= a);
    assert(out.1 == t.len());
}

/// Replacing the trailing marker of a valid encoding with any nonzero value
/// makes the stream parse to `TrailingMarkerMismatch`, carrying that value.
pub proof fn lemma_trailing_marker(a: ArchiveModel, ts: u64, v: u32)
    requires
        encodable(a),
        v != 0,
    ensures
        spec_parse(
            spec_encode(a, ts).subrange(0, spec_encode(a, ts).len() - 4) + enc_u32(v),
        ) == Err::<(ArchiveModel, int), ParseErr>(ParseErr::BadTrailer(v)),
{
    let t = spec_encode(a, ts);
    let s = t.subrange(0, t.len() - 4) + enc_u32(v);
    let h = spec_header(a, ts);
    let m = spec_meta(a.entries, 0);
    let z = enc_u32(0u32);
    let c = spec_contents(a.entries, 0);
    let hlen = h.len() as int;
    let p1 = hlen + m.len() + 4;
    let p2 = p1 + c.len();
    assert(t.len() == p2 + 4);
    assert(s.len() == t.len());
    assert forall|i: int| 0 <= i < p2 implies s[i] == t[i] by {
        assert(s[i] == t.subrange(0, t.len() - 4)[i]);
    }
    // the stream agrees with the valid encoding everywhere before the marker
    assert(s.subrange(0, hlen) =~= h);
    lemma_parse_header_of_encode(a, ts, s);
    assert(t.subrange(hlen, p1) =~= m + z);
    assert(s.subrange(hlen, p1) =~= m + z);
    lemma_parse_meta_of_encode(s, hlen, a.entries, 0, Seq::empty());
    assert(Seq::<MetaModel>::empty() + metas_of(a.entries).skip(0) =~= metas_of(a.entries));
    assert(t.subrange(p1, p2) =~= c);
    assert(s.subrange(p1, p2) =~= c);
    lemma_parse_contents_of_encode(s, p1, a.entries, 0, Seq::empty());
    // and ends with the corrupted marker
    assert(s.subrange(p2, p2 + 4) =~= enc_u32(v));
    lemma_le_enc_u32(v);
}

/// An archive with no entries encodes to a stream whose metadata loop is the
/// zero terminator alone — header, zero index, zero trailing marker — and
/// parses back to itself, with no entries.
pub proof fn lemma_empty_archive(a: ArchiveModel, ts: u64)
    requires
        a.entries.len() == 0,
        encodable(a),
    ensures
        spec_encode(a, ts) == spec_header(a, ts) + enc_u32(0u32) + enc_u32(0u32),
        spec_parse(spec_encode(a, ts)) == Ok::<(ArchiveModel, int), ParseErr>(
            (a, spec_encode(a, ts).len() as int),
        ),
{
    assert(spec_meta(a.entries, 0) =~= Seq::<u8>::empty());
    assert(spec_contents(a.entries, 0) =~= Seq::<u8>::empty());
    assert(spec_encode(a, ts) =~= spec_header(a, ts) + enc_u32(0u32) + enc_u32(0u32));
    lemma_round_trip(a, ts);
}

/// A stream cut short inside the encoded header of `a` parses to an
/// end-of-stream failure, or to `MissingNullTerminator` when the cut falls
/// inside a string field.
proof fn lemma_parse_header_truncated(a: ArchiveModel, ts: u64, s: Seq<u8>)
    requires
        text_ok(a.name),
        text_ok(a.description),
        text_ok(a.author),
        s.len() < spec_header(a, ts).len(),
        forall|i: int| 0 <= i < s.len() ==> s[i] == spec_header(a, ts)[i],
    ensures
        parse_header(s) == Err::<HeaderModel, ParseErr>(ParseErr::Eof) || parse_header(s)
            == Err::<HeaderModel, ParseErr>(ParseErr::NoNull),
{
    let h = spec_header(a, ts);
    let n = s.len() as int;
    let b1 = encode_utf8(a.name);
    let b2 = encode_utf8(a.description);
    let b3 = encode_utf8(a.author);
    let n1 = b1.len() as int;
    let n2 = b2.len() as int;
    let n3 = b3.len() as int;
    let j1 = 22 + n1;
    let j2 = j1 + 1 + n2;
    let j3 = j2 + 1 + n3;
    assert(h.len() == j3 + 5);
    if n >= 4 {
        assert(s.subrange(0, 4) =~= magic());
    }
    if n >= 5 {
        assert(s[4] == 3u8);
    }
    if n >= 22 {
        if n <= j1 {
            // the cut falls inside the addon name
            assert forall|i: int| 22 <= i < n implies s[i] != 0 by {
                assert(s[i] == h[i]);
                assert(h[i] == b1[i - 22]);
            }
            lemma_index_of_nul_props(s, 22);
            if index_of_nul(s, 22) < n {
                assert(s[index_of_nul(s, 22)] == 0);
            }
        } else {
            assert(s.subrange(22, j1) =~= b1);
            assert(s[j1] == cstr(b1)[n1]);
            lemma_index_of_nul_at(s, 22, n1);
            if n <= j2 {
                // the cut falls inside the addon description
                assert forall|i: int| j1 + 1 <= i < n implies s[i] != 0 by {
                    assert(s[i] == h[i]);
                    assert(h[i] == b2[i - (j1 + 1)]);
                }
                lemma_index_of_nul_props(s, j1 + 1);
                if index_of_nul(s, j1 + 1) < n {
                    assert(s[index_of_nul(s, j1 + 1)] == 0);
                }
            } else {
                assert(s.subrange(j1 + 1, j1 + 1 + n2) =~= b2);
                assert(s[j1 + 1 + n2] == cstr(b2)[n2]);
                lemma_index_of_nul_at(s, j1 + 1, n2);
                if n <= j3 {
                    // the cut falls inside the addon author
                    assert forall|i: int| j2 + 1 <= i < n implies s[i] != 0 by {
                        assert(s[i] == h[i]);
                        assert(h[i] == b3[i - (j2 + 1)]);
                    }
                    lemma_index_of_nul_props(s, j2 + 1);
                    if index_of_nul(s, j2 + 1) < n {
                        assert(s[index_of_nul(s, j2 + 1)] == 0);
                    }
                } else {
                    // the cut falls inside the addon-version field
                    assert(s.subrange(j2 + 1, j2 + 1 + n3) =~= b3);
                    assert(s[j2 + 1 + n3] == cstr(b3)[n3]);
                    lemma_index_of_nul_at(s, j2 + 1, n3);
                    assert(j3 + 5 > n);
                }
            }
        }
    }
}

/// A stream cut short inside the metadata records of the entries from `k` on
/// (terminator included) parses to an end-of-stream failure, or to
/// `MissingNullTerminator` when the cut falls inside an entry name.
proof fn lemma_parse_meta_truncated(s: Seq<u8>, pos: int, es: Seq<EntryModel>, k: int, acc: Seq<
    MetaModel,
>)
    requires
        0 <= k <= es.len(),
        es.len() <= u32::MAX,
        forall|j: int| k <= j < es.len() ==> text_ok(#[trigger] es[j].name),
        forall|j: int| k <= j < es.len() ==> (#[trigger] es[j]).content.len() <= i64::MAX,
        0 <= pos <= s.len(),
        s.len() < pos + spec_meta(es, k).len() + 4,
        forall|i: int| pos <= i < s.len() ==> s[i] == (spec_meta(es, k) + enc_u32(0u32))[i - pos],
    ensures
        parse_meta(s, pos, acc) == Err::<(Seq<MetaModel>, int), ParseErr>(ParseErr::Eof)
            || parse_meta(s, pos, acc) == Err::<(Seq<MetaModel>, int), ParseErr>(ParseErr::NoNull),
    decreases es.len() - k,
{
    let n = s.len() as int;
    let m = spec_meta(es, k);
    if k == es.len() {
        assert(m =~= Seq::<u8>::empty());
        assert(pos + 4 > n);
    } else {
        let e = es[k];
        let idx = (k + 1) as u32;
        let rec = meta_record(e, idx);
        let nb = encode_utf8(e.name);
        let nn = nb.len() as int;
        assert(m == rec + spec_meta(es, k + 1));
        if pos + 4 <= n {
            assert(s.subrange(pos, pos + 4) =~= enc_u32(idx));
            lemma_le_enc_u32(idx);
            assert(idx != 0);
            if n <= pos + 4 + nn {
                // the cut falls inside the entry name
                assert forall|i: int| pos + 4 <= i < n implies s[i] != 0 by {
                    assert(s[i] == (m + enc_u32(0u32))[i - pos]);
                    assert((m + enc_u32(0u32))[i - pos] == nb[i - (pos + 4)]);
                }
                lemma_index_of_nul_props(s, pos + 4);
                if index_of_nul(s, pos + 4) < n {
                    assert(s[index_of_nul(s, pos + 4)] == 0);
                }
            } else {
                assert(s.subrange(pos + 4, pos + 4 + nn) =~= nb);
                assert(s[pos + 4 + nn] == cstr(nb)[nn]);
                lemma_index_of_nul_at(s, pos + 4, nn);
                let j = pos + 4 + nn;
                if j + 9 <= n {
                    let clen = e.content.len() as i64;
                    assert(s.subrange(j + 1, j + 9) =~= enc_u64(e.content.len() as u64));
                    lemma_le_enc_i64(clen);
                    assert(le_i64(s.subrange(j + 1, j + 9)) == clen);
                    if j + 13 <= n {
                        let pos2 = j + 13;
                        assert(pos2 == pos + rec.len());
                        assert(m + enc_u32(0u32) =~= rec + (spec_meta(es, k + 1) + enc_u32(0u32)));
                        assert forall|i: int| pos2 <= i < n implies s[i] == (spec_meta(es, k + 1)
                            + enc_u32(0u32))[i - pos2] by {
                            assert(s[i] == (m + enc_u32(0u32))[i - pos]);
                        }
                        let acc2 = acc.push(MetaModel { name: e.name, size: clen });
                        lemma_text_round(e.name);
                        lemma_parse_meta_truncated(s, pos2, es, k + 1, acc2);
                    }
                }
            }
        }
    }
}

/// A stream cut short inside the concatenated contents of the entries from
/// `k` on parses, against their own metadata records, to an end-of-stream
/// failure: some entry's declared size runs past the cut.
proof fn lemma_parse_contents_truncated(
    s: Seq<u8>,
    pos: int,
    es: Seq<EntryModel>,
    k: int,
    acc: Seq<EntryModel>,
)
    requires
        0 <= k <= es.len(),
        forall|j: int| 0 <= j < es.len() ==> (#[trigger] es[j]).content.len() <= i64::MAX,
        0 <= pos <= s.len(),
        s.len() < pos + spec_contents(es, k).len(),
    ensures
        parse_contents(s, pos, metas_of(es), k, acc) == Err::<(Seq<EntryModel>, int), ParseErr>(
            ParseErr::Eof,
        ),
    decreases es.len() - k,
{
    if k < es.len() {
        let sz = es[k].content.len() as int;
        assert(metas_of(es)[k].size as int == sz);
        if pos + sz <= s.len() {
            let entry = EntryModel { name: metas_of(es)[k].name, content: s.subrange(pos, pos + sz) };
            lemma_parse_contents_truncated(s, pos + sz, es, k + 1, acc.push(entry));
        }
    }
}

/// Truncation: a valid encoding cut short at any point after (or within) the
/// header never parses as an archive. The parse reports the end of the
/// stream, or the lost terminator of the string field the cut fell into —
/// never a partial or empty result.
pub proof fn lemma_truncation(a: ArchiveModel, ts: u64, n: int)
    requires
        encodable(a),
        0 <= n < spec_encode(a, ts).len(),
    ensures
        spec_parse(spec_encode(a, ts).subrange(0, n)) == Err::<(ArchiveModel, int), ParseErr>(
            ParseErr::Eof,
        ) || spec_parse(spec_encode(a, ts).subrange(0, n)) == Err::<(ArchiveModel, int), ParseErr>(
            ParseErr::NoNull,
        ),
{
    let t = spec_encode(a, ts);
    let p = t.subrange(0, n);
    let h = spec_header(a, ts);
    let m = spec_meta(a.entries, 0);
    let z = enc_u32(0u32);
    let c = spec_contents(a.entries, 0);
    let hlen = h.len() as int;
    let p1 = hlen + m.len() + 4;
    let p2 = p1 + c.len();
    assert(t.len() == p2 + 4);
    assert(t =~= h + ((m + z) + (c + z)));
    assert forall|i: int| 0 <= i < n implies p[i] == t[i] by {}
    if n < hlen {
        assert forall|i: int| 0 <= i < n implies p[i] == h[i] by {
            assert(t[i] == h[i]);
        }
        lemma_parse_header_truncated(a, ts, p);
    } else {
        assert(p.subrange(0, hlen) =~= h);
        lemma_parse_header_of_encode(a, ts, p);
        if n < p1 {
            assert forall|i: int| hlen <= i < n implies p[i] == (m + z)[i - hlen] by {
                assert(t[i] == ((m + z) + (c + z))[i - hlen]);
            }
            lemma_parse_meta_truncated(p, hlen, a.entries, 0, Seq::empty());
        } else {
            assert(p.subrange(hlen, p1) =~= m + z);
            lemma_parse_meta_of_encode(p, hlen, a.entries, 0, Seq::empty());
            assert(Seq::<MetaModel>::empty() + metas_of(a.entries).skip(0) =~= metas_of(a.entries));
            if n < p2 {
                lemma_parse_contents_truncated(p, p1, a.entries, 0, Seq::empty());
            } else {
                assert(p.subrange(p1, p2) =~= c);
                lemma_parse_contents_of_encode(p, p1, a.entries, 0, Seq::empty());
                assert(Seq::<EntryModel>::empty() + a.entries.skip(0) =~= a.entries);
                assert(p2 + 4 > n);
            }
        }
    }
}

} // verus!
