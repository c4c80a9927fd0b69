//! The decoder: one forward pass over a byte slice, proved to agree with
//! [`spec_parse`] on every input.

use vstd::prelude::*;

use crate::bytes::index_of_nul;
use crate::bytes::le_i64;
use crate::bytes::le_u32;
use crate::bytes::le_u64;
use crate::format::magic;
use crate::format::err_matches;
use crate::format::parse_contents;
use crate::format::parse_header;
use crate::format::parse_meta;
use crate::format::spec_parse;
use crate::format::HeaderModel;
use crate::format::MetaModel;
use crate::format::ParseErr;
use crate::strings::lossy_decode;
use crate::strings::utf8_lossy;
use crate::Archive;
use crate::EntryModel;
use crate::GMAFile;
use crate::GmaError;
use crate::entries_view;

verus! {

/// Read one byte as a signed integer, advancing `pos` past it.
pub fn read_i8(s: &[u8], pos: &mut usize) -> (r: Result<i8, GmaError>)
    requires
        *old(pos) <= s@.len(),
    ensures
        match r {
            Ok(v) => *old(pos) + 1 <= s@.len() && v == s@[*old(pos) as int] as i8 && *final(pos)
                == *old(pos) + 1,
            Err(e) => e is Io && *old(pos) + 1 > s@.len() && *final(pos) == *old(pos),
        },
{
    if *pos < s.len() {
        let b = s[*pos];
        *pos = *pos + 1;
        Ok(#[verifier::truncate] (b as i8))
    } else {
        Err(GmaError::Io)
    }
}

/// Read a little-endian u32, advancing `pos` past it.
pub fn read_u32(s: &[u8], pos: &mut usize) -> (r: Result<u32, GmaError>)
    requires
        *old(pos) <= s@.len(),
    ensures
        match r {
            Ok(v) => *old(pos) + 4 <= s@.len() && v == le_u32(
                s@.subrange(*old(pos) as int, *old(pos) + 4),
            ) && *final(pos) == *old(pos) + 4,
            Err(e) => e is Io && *old(pos) + 4 > s@.len() && *final(pos) == *old(pos),
        },
{
    if s.len() - *pos >= 4 {
        let b0 = s[*pos];
        let b1 = s[*pos + 1];
        let b2 = s[*pos + 2];
        let b3 = s[*pos + 3];
        let v = (b0 as u32) | ((b1 as u32) << 8) | ((b2 as u32) << 16) | ((b3 as u32) << 24);
        proof {
            let sub = s@.subrange(*old(pos) as int, *old(pos) + 4);
            assert(sub[0] == b0 && sub[1] == b1 && sub[2] == b2 && sub[3] == b3);
        }
        *pos = *pos + 4;
        Ok(v)
    } else {
        Err(GmaError::Io)
    }
}

/// Read a little-endian two's-complement i64, advancing `pos` past it.
pub fn read_i64(s: &[u8], pos: &mut usize) -> (r: Result<i64, GmaError>)
    requires
        *old(pos) <= s@.len(),
    ensures
        match r {
            Ok(v) => *old(pos) + 8 <= s@.len() && v == le_i64(
                s@.subrange(*old(pos) as int, *old(pos) + 8),
            ) && *final(pos) == *old(pos) + 8,
            Err(e) => e is Io && *old(pos) + 8 > s@.len() && *final(pos) == *old(pos),
        },
{
    if s.len() - *pos >= 8 {
        let b0 = s[*pos];
        let b1 = s[*pos + 1];
        let b2 = s[*pos + 2];
        let b3 = s[*pos + 3];
        let b4 = s[*pos + 4];
        let b5 = s[*pos + 5];
        let b6 = s[*pos + 6];
        let b7 = s[*pos + 7];
        let v = (b0 as u64) | ((b1 as u64) << 8) | ((b2 as u64) << 16) | ((b3 as u64) << 24) | ((
        b4 as u64) << 32) | ((b5 as u64) << 40) | ((b6 as u64) << 48) | ((b7 as u64) << 56);
        proof {
            let sub = s@.subrange(*old(pos) as int, *old(pos) + 8);
            assert(sub[0] == b0 && sub[1] == b1 && sub[2] == b2 && sub[3] == b3 && sub[4] == b4
                && sub[5] == b5 && sub[6] == b6 && sub[7] == b7);
            assert(le_u64(sub) == v);
        }
        *pos = *pos + 8;
        Ok(#[verifier::truncate] (v as i64))
    } else {
        Err(GmaError::Io)
    }
}

/// Consume `n` bytes without keeping them, advancing `pos` past them.
fn discard_exact(s: &[u8], pos: &mut usize, n: usize) -> (r: Result<(), GmaError>)
    requires
        *old(pos) <= s@.len(),
    ensures
        match r {
            Ok(_) => *old(pos) + n <= s@.len() && *final(pos) == *old(pos) + n,
            Err(e) => e is Io && *old(pos) + n > s@.len() && *final(pos) == *old(pos),
        },
{
    if s.len() - *pos >= n {
        *pos = *pos + n;
        Ok(())
    } else {
        Err(GmaError::Io)
    }
}

/// Read a null-terminated string: scan to the first zero byte, decode the
/// bytes before it (lossily), and advance `pos` past the terminator.
#[verifier::loop_isolation(false)]
pub fn read_c_string(s: &[u8], pos: &mut usize) -> (r: Result<String, GmaError>)
    requires
        *old(pos) <= s@.len(),
    ensures
        match r {
            Ok(t) => {
                let j = index_of_nul(s@, *old(pos) as int);
                *old(pos) <= j < s@.len() && t@ == lossy_decode(s@.subrange(*old(pos) as int, j))
                    && *final(pos) == j + 1
            },
            Err(e) => e is MissingNullTerminator && index_of_nul(s@, *old(pos) as int) == s@.len()
                && *final(pos) == *old(pos),
        },
{
    let ghost pos0 = *pos as int;
    let mut i = *pos;
    while i < s.len() && s[i] != 0
        invariant
            pos0 <= i as int <= s@.len(),
            index_of_nul(s@, pos0) == index_of_nul(s@, i as int),
        decreases s@.len() - i,
    {
        proof {
            assert(index_of_nul(s@, i as int) == index_of_nul(s@, i + 1));
        }
        i = i + 1;
    }
    if i == s.len() {
        return Err(GmaError::MissingNullTerminator);
    }
    proof {
        assert(index_of_nul(s@, pos0) == i as int);
    }
    let mut v: Vec<u8> = Vec::new();
    let mut k = *pos;
    while k < i
        invariant
            pos0 <= k as int <= i as int,
            i < s@.len(),
            v@ == s@.subrange(pos0, k as int),
        decreases i - k,
    {
        v.push(s[k]);
        k = k + 1;
        proof {
            assert(v@ =~= s@.subrange(pos0, k as int));
        }
    }
    let t = utf8_lossy(v.as_slice());
    *pos = i + 1;
    Ok(t)
}

/// One pending metadata record, before its contents are read.
struct MetaEntry {
    name: String,
    size: i64,
}

/// The models of a sequence of pending records, in order.
spec fn metas_view(v: Seq<MetaEntry>) -> Seq<MetaModel> {
    v.map_values(|m: MetaEntry| MetaModel { name: m.name@, size: m.size })
}

/// Decode a whole GMA stream. Returns the archive exactly when the stream
/// follows the grammar, and the error that [`spec_parse`] assigns otherwise.
#[verifier::loop_isolation(false)]
pub fn read(bytes: &[u8]) -> (r: Result<Archive, GmaError>)
    ensures
        match spec_parse(bytes@) {
            Ok((m, end)) => r matches Ok(a) && a@ == m && a.wf(),
            Err(k) => r matches Err(e) && err_matches(e, k),
        },
{
    let mut pos: usize = 0;
    if bytes.len() < 4 {
        return Err(GmaError::Io);
    }
    let b0 = bytes[0];
    let b1 = bytes[1];
    let b2 = bytes[2];
    let b3 = bytes[3];
    proof {
        let sub = bytes@.subrange(0, 4);
        assert(sub[0] == b0 && sub[1] == b1 && sub[2] == b2 && sub[3] == b3);
    }
    if !(b0 == 0x47 && b1 == 0x4d && b2 == 0x41 && b3 == 0x44) {
        let hdr = [b0, b1, b2, b3];
        proof {
            assert(bytes@.subrange(0, 4) != magic());
            assert(hdr@ =~= bytes@.subrange(0, 4));
        }
        return Err(GmaError::InvalidHeader(hdr));
    }
    proof {
        assert(bytes@.subrange(0, 4) =~= magic());
    }
    pos = 4;
    let ver = match read_i8(bytes, &mut pos) {
        Ok(v) => v,
        Err(e) => { return Err(e); },
    };
    if ver != 3 {
        return Err(GmaError::InvalidVersion(ver));
    }
    let steam_id64 = match read_i64(bytes, &mut pos) {
        Ok(v) => v,
        Err(e) => { return Err(e); },
    };
    // Timestamp: consumed, ignored.
    match discard_exact(bytes, &mut pos, 8) {
        Ok(_) => {},
        Err(e) => { return Err(e); },
    }
    // Required-content flag: consumed, ignored.
    match discard_exact(bytes, &mut pos, 1) {
        Ok(_) => {},
        Err(e) => { return Err(e); },
    }
    let addon_name = match read_c_string(bytes, &mut pos) {
        Ok(t) => t,
        Err(e) => { return Err(e); },
    };
    let addon_description = match read_c_string(bytes, &mut pos) {
        Ok(t) => t,
        Err(e) => { return Err(e); },
    };
    let addon_author = match read_c_string(bytes, &mut pos) {
        Ok(t) => t,
        Err(e) => { return Err(e); },
    };
    // Addon version: consumed, ignored.
    match discard_exact(bytes, &mut pos, 4) {
        Ok(_) => {},
        Err(e) => { return Err(e); },
    }
    let ghost hdr_model = HeaderModel {
        steam_id64,
        name: addon_name@,
        description: addon_description@,
        author: addon_author@,
        end: pos as int,
    };
    proof {
        assert(parse_header(bytes@) == Ok::<HeaderModel, ParseErr>(hdr_model));
    }
    let ghost hend = pos as int;

    // Metadata records, until the zero index.
    let mut metas: Vec<MetaEntry> = Vec::new();
    let mut done = false;
    proof {
        assert(metas_view(metas@) =~= Seq::<MetaModel>::empty());
    }
    while !done
        invariant
            pos <= bytes@.len(),
            !done ==> parse_meta(bytes@, hend, Seq::empty()) == parse_meta(
                bytes@,
                pos as int,
                metas_view(metas@),
            ),
            forall|j: int| 0 <= j < metas@.len() ==> (#[trigger] metas@[j]).size >= 0,
            done ==> parse_meta(bytes@, hend, Seq::empty()) == Ok::<(Seq<MetaModel>, int), ParseErr>(
                (metas_view(metas@), pos as int),
            ),
        decreases (if done { 0int } else { 1int }), bytes@.len() - pos,
    {
        let ghost prev_pos = pos as int;
        let ghost prev_acc = metas_view(metas@);
        let idx = match read_u32(bytes, &mut pos) {
            Ok(v) => v,
            Err(e) => { return Err(e); },
        };
        if idx == 0 {
            done = true;
        } else {
            let name = match read_c_string(bytes, &mut pos) {
                Ok(t) => t,
                Err(e) => { return Err(e); },
            };
            let size = match read_i64(bytes, &mut pos) {
                Ok(v) => v,
                Err(e) => { return Err(e); },
            };
            if size < 0 {
                return Err(GmaError::SizeOutOfRange(size));
            }
            // Checksum: consumed, ignored.
            match discard_exact(bytes, &mut pos, 4) {
                Ok(_) => {},
                Err(e) => { return Err(e); },
            }
            let ghost nm = name@;
            metas.push(MetaEntry { name, size });
            proof {
                crate::bytes::lemma_index_of_nul_props(bytes@, prev_pos + 4);
                assert(metas_view(metas@) =~= prev_acc.push(MetaModel { name: nm, size }));
                assert(parse_meta(bytes@, prev_pos, prev_acc) == parse_meta(
                    bytes@,
                    pos as int,
                    metas_view(metas@),
                ));
            }
        }
    }
    let ghost pmetas = metas_view(metas@);
    let ghost cstart = pos as int;

    // Contents, in metadata order, each exactly its declared size.
    let mut entries: Vec<GMAFile> = Vec::new();
    let mut k: usize = 0;
    proof {
        assert(entries_view(entries@) =~= Seq::<EntryModel>::empty());
    }
    while k < metas.len()
        invariant
            k <= metas@.len(),
            pos <= bytes@.len(),
            parse_contents(bytes@, cstart, pmetas, 0, Seq::empty()) == parse_contents(
                bytes@,
                pos as int,
                pmetas,
                k as int,
                entries_view(entries@),
            ),
            forall|j: int| 0 <= j < entries@.len() ==> (#[trigger] entries@[j]).wf(),
        decreases metas@.len() - k,
    {
        let ghost prev_pos = pos as int;
        let ghost prev_acc = entries_view(entries@);
        let size = metas[k].size;
        let remaining = bytes.len() - pos;
        if (size as u64) > (remaining as u64) {
            return Err(GmaError::Io);
        }
        let size_us = size as usize;
        let mut content: Vec<u8> = Vec::new();
        let mut t: usize = 0;
        while t < size_us
            invariant
                t <= size_us,
                content@ == bytes@.subrange(prev_pos, prev_pos + t),
            decreases size_us - t,
        {
            content.push(bytes[pos + t]);
            t = t + 1;
            proof {
                assert(content@ =~= bytes@.subrange(prev_pos, prev_pos + t));
            }
        }
        let name = metas[k].name.as_str().to_owned();
        let ghost nm = name@;
        let ghost cv = content@;
        entries.push(GMAFile { name, content, size });
        pos = pos + size_us;
        proof {
            assert(entries_view(entries@) =~= prev_acc.push(EntryModel { name: nm, content: cv }));
            assert(parse_contents(bytes@, prev_pos, pmetas, k as int, prev_acc) == parse_contents(
                bytes@,
                pos as int,
                pmetas,
                k + 1,
                entries_view(entries@),
            ));
        }
        k = k + 1;
    }
    proof {
        assert(parse_contents(bytes@, cstart, pmetas, 0, Seq::empty())
            == Ok::<(Seq<EntryModel>, int), ParseErr>((entries_view(entries@), pos as int)));
    }

    // Trailing marker: must be zero.
    let trailing = match read_u32(bytes, &mut pos) {
        Ok(v) => v,
        Err(e) => { return Err(e); },
    };
    if trailing != 0 {
        return Err(GmaError::TrailingMarkerMismatch(trailing));
    }
    let a = Archive { addon_name, addon_description, addon_author, steam_id64, entries };
    proof {
        let m = spec_parse(bytes@)->Ok_0.0;
        assert(a@ =~= m);
    }
    Ok(a)
}

} // verus!
