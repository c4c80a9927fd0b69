//! The encoder: a builder that accumulates entries and addon metadata, and
//! writes them out as one stream, proved to produce exactly [`spec_encode`].

use vstd::prelude::*;
use vstd::string::StrSliceExecFns;
use vstd::utf8::encode_utf8;

use crate::bytes::enc_u32;
use crate::bytes::enc_u64;
use crate::bytes::lemma_byte_masks_u32;
use crate::bytes::lemma_byte_masks_u64;
use crate::bytes::zero_free;
use crate::format::cstr;
use crate::format::encodable;
use crate::format::meta_record;
use crate::format::spec_contents;
use crate::format::spec_encode;
use crate::format::spec_header;
use crate::format::spec_meta;
use crate::format::text_ok;
use crate::ArchiveModel;
use crate::EntryModel;
use crate::GmaError;

verus! {

/// One pending entry of a builder: a name and its raw contents. The declared
/// size is derived from the contents at encode time.
struct PendingEntry {
    name: String,
    content: Vec<u8>,
}

impl View for PendingEntry {
    type V = EntryModel;

    closed spec fn view(&self) -> EntryModel {
        EntryModel { name: self.name@, content: self.content@ }
    }
}

/// Builder for writing GMA archives: collects the addon metadata and the
/// entries, then serializes them with [`Builder::write_to`].
pub struct Builder {
    name: String,
    steam_id64: i64,
    author: String,
    description: String,
    entries: Vec<PendingEntry>,
}

impl View for Builder {
    type V = ArchiveModel;

    closed spec fn view(&self) -> ArchiveModel {
        ArchiveModel {
            name: self.name@,
            description: self.description@,
            author: self.author@,
            steam_id64: self.steam_id64,
            entries: self.entries@.map_values(|e: PendingEntry| e@),
        }
    }
}

/// True when the UTF-8 bytes of `s` contain a zero byte, which the wire
/// format cannot carry inside a string field.
fn str_has_zero(s: &str) -> (r: bool)
    ensures
        r == !zero_free(encode_utf8(s@)),
{
    let b = s.as_bytes();
    let mut i: usize = 0;
    let mut found = false;
    while i < b.len()
        invariant
            i <= b@.len(),
            b@ == encode_utf8(s@),
            found == !zero_free(b@.subrange(0, i as int)),
        decreases b@.len() - i,
    {
        let ghost prev = b@.subrange(0, i as int);
        if b[i] == 0 {
            found = true;
        }
        i = i + 1;
        proof {
            let cur = b@.subrange(0, i as int);
            assert(prev =~= cur.subrange(0, i - 1));
            assert(cur[i - 1] == b@[i - 1]);
            assert(!zero_free(cur) <==> (!zero_free(prev) || b@[i - 1] == 0)) by {
                if !zero_free(prev) {
                    let w = choose|w: int| 0 <= w < prev.len() && prev[w] == 0;
                    assert(cur[w] == 0);
                }
                if b@[i - 1] == 0 {
                    assert(cur[i - 1] == 0);
                }
                if !zero_free(cur) {
                    let w = choose|w: int| 0 <= w < cur.len() && cur[w] == 0;
                    if w < i - 1 {
                        assert(prev[w] == 0);
                    }
                }
            }
        }
    }
    proof {
        assert(b@.subrange(0, b@.len() as int) =~= b@);
    }
    found
}

/// Append the four little-endian bytes of `x`.
fn push_u32(v: &mut Vec<u8>, x: u32)
    ensures
        final(v)@ == old(v)@ + enc_u32(x),
{
    proof {
        lemma_byte_masks_u32(x);
    }
    v.push((x & 0xff) as u8);
    v.push(((x >> 8) & 0xff) as u8);
    v.push(((x >> 16) & 0xff) as u8);
    v.push(((x >> 24) & 0xff) as u8);
    proof {
        assert(v@ =~= old(v)@ + enc_u32(x));
    }
}

/// Append the eight little-endian bytes of `x`.
fn push_u64(v: &mut Vec<u8>, x: u64)
    ensures
        final(v)@ == old(v)@ + enc_u64(x),
{
    proof {
        lemma_byte_masks_u64(x);
    }
    v.push((x & 0xff) as u8);
    v.push(((x >> 8) & 0xff) as u8);
    v.push(((x >> 16) & 0xff) as u8);
    v.push(((x >> 24) & 0xff) as u8);
    v.push(((x >> 32) & 0xff) as u8);
    v.push(((x >> 40) & 0xff) as u8);
    v.push(((x >> 48) & 0xff) as u8);
    v.push(((x >> 56) & 0xff) as u8);
    proof {
        assert(v@ =~= old(v)@ + enc_u64(x));
    }
}

/// Write a null-terminated string field: the UTF-8 bytes of `s`, then a zero
/// byte. A string whose bytes contain a zero is rejected before anything is
/// written, since it could not be read back whole.
pub fn write_cstring(out: &mut Vec<u8>, s: &str) -> (r: Result<(), GmaError>)
    ensures
        match r {
            Ok(_) => zero_free(encode_utf8(s@)) && final(out)@ == old(out)@ + cstr(
                encode_utf8(s@),
            ),
            Err(e) => e is InvalidInput && !zero_free(encode_utf8(s@)) && final(out)@ == old(
                out,
            )@,
        },
{
    if str_has_zero(s) {
        return Err(GmaError::InvalidInput);
    }
    let b = s.as_bytes();
    out.extend_from_slice(b);
    out.push(0);
    proof {
        assert(out@ =~= old(out)@ + cstr(encode_utf8(s@)));
    }
    Ok(())
}

impl Builder {
    /// A fresh builder with the given addon name and owner identifier, an
    /// empty description, the placeholder author, and no entries.
    pub fn new(name: String, steam_id64: i64) -> (r: Builder)
        ensures
            r@.name == name@,
            r@.description == Seq::<char>::empty(),
            r@.author == "unknown"@,
            r@.steam_id64 == steam_id64,
            r@.entries == Seq::<EntryModel>::empty(),
    {
        let b = Builder {
            name,
            steam_id64,
            author: "unknown".to_owned(),
            description: String::new(),
            entries: Vec::new(),
        };
        proof {
            assert(b@.entries =~= Seq::<EntryModel>::empty());
        }
        b
    }

    /// Replace the addon description.
    pub fn set_description(&mut self, description: String)
        ensures
            final(self)@ == (ArchiveModel { description: description@, ..old(self)@ }),
    {
        self.description = description;
    }

    /// Replace the addon author.
    pub fn set_author(&mut self, author: String)
        ensures
            final(self)@ == (ArchiveModel { author: author@, ..old(self)@ }),
    {
        self.author = author;
    }

    /// Append one entry with raw contents. Order is preserved: entries are
    /// serialized in the order they were added.
    pub fn file_from_bytes(&mut self, name: String, bytes: Vec<u8>)
        ensures
            final(self)@ == (ArchiveModel {
                entries: old(self)@.entries.push(EntryModel { name: name@, content: bytes@ }),
                ..old(self)@
            }),
    {
        let ghost nm = name@;
        let ghost cv = bytes@;
        self.entries.push(PendingEntry { name, content: bytes });
        proof {
            assert(self@.entries =~= old(self)@.entries.push(EntryModel { name: nm, content: cv }));
        }
    }

    /// Append one entry whose contents are the UTF-8 bytes of a string.
    pub fn file_from_string(&mut self, name: String, content: String)
        ensures
            final(self)@ == (ArchiveModel {
                entries: old(self)@.entries.push(
                    EntryModel { name: name@, content: encode_utf8(content@) },
                ),
                ..old(self)@
            }),
    {
        let bytes = content.as_str().as_bytes_vec();
        self.file_from_bytes(name, bytes);
    }

    /// Serialize the archive with the given timestamp, appending the stream
    /// to `out`. Fails, writing nothing, exactly when the archive cannot
    /// stand on the wire: a string field with a zero byte in its UTF-8 form,
    /// contents too large for the signed 64-bit size field, or more entries
    /// than the 32-bit index field can number.
    #[verifier::loop_isolation(false)]
    pub fn encode_with_timestamp(&self, ts: u64, out: &mut Vec<u8>) -> (r: Result<(), GmaError>)
        ensures
            match r {
                Ok(_) => encodable(self@) && final(out)@ == old(out)@ + spec_encode(self@, ts),
                Err(e) => e is InvalidInput && !encodable(self@) && final(out)@ == old(out)@,
            },
    {
        // Validate everything before the first byte is written.
        if str_has_zero(self.name.as_str()) {
            return Err(GmaError::InvalidInput);
        }
        if str_has_zero(self.description.as_str()) {
            return Err(GmaError::InvalidInput);
        }
        if str_has_zero(self.author.as_str()) {
            return Err(GmaError::InvalidInput);
        }
        if (self.entries.len() as u64) > (u32::MAX as u64) {
            return Err(GmaError::InvalidInput);
        }
        let ghost es = self@.entries;
        let n = self.entries.len();
        let mut k: usize = 0;
        while k < n
            invariant
                k <= n,
                forall|j: int| 0 <= j < k ==> text_ok(#[trigger] es[j].name),
                forall|j: int| 0 <= j < k ==> (#[trigger] es[j]).content.len() <= i64::MAX,
            decreases n - k,
        {
            proof {
                assert(es[k as int] == self.entries@[k as int]@);
            }
            if str_has_zero(self.entries[k].name.as_str()) {
                proof {
                    assert(!text_ok(es[k as int].name));
                }
                return Err(GmaError::InvalidInput);
            }
            if (self.entries[k].content.len() as u64) > (i64::MAX as u64) {
                proof {
                    assert(es[k as int].content.len() > i64::MAX);
                }
                return Err(GmaError::InvalidInput);
            }
            k = k + 1;
        }
        assert(encodable(self@));

        // Emit the stream into a fresh buffer.
        let mut v: Vec<u8> = Vec::new();
        v.push(0x47);
        v.push(0x4d);
        v.push(0x41);
        v.push(0x44);
        v.push(3);
        push_u64(&mut v, #[verifier::truncate] (self.steam_id64 as u64));
        push_u64(&mut v, ts);
        v.push(0);
        match write_cstring(&mut v, self.name.as_str()) {
            Ok(_) => {},
            Err(e) => { return Err(e); },
        }
        match write_cstring(&mut v, self.description.as_str()) {
            Ok(_) => {},
            Err(e) => { return Err(e); },
        }
        match write_cstring(&mut v, self.author.as_str()) {
            Ok(_) => {},
            Err(e) => { return Err(e); },
        }
        push_u32(&mut v, 1);
        proof {
            assert(v@ =~= spec_header(self@, ts));
        }
        let ghost vh = v@;

        // Metadata records, 1-based indices in append order.
        let mut k: usize = 0;
        while k < n
            invariant
                k <= n,
                v@ + spec_meta(es, k as int) == vh + spec_meta(es, 0),
            decreases n - k,
        {
            let ghost vprev = v@;
            let idx = k as u32 + 1;
            push_u32(&mut v, idx);
            match write_cstring(&mut v, self.entries[k].name.as_str()) {
                Ok(_) => {},
                Err(e) => { return Err(e); },
            }
            push_u64(&mut v, self.entries[k].content.len() as u64);
            push_u32(&mut v, 0);
            proof {
                assert(v@ =~= vprev + meta_record(es[k as int], (k + 1) as u32));
                assert(v@ + spec_meta(es, k + 1) =~= vprev + spec_meta(es, k as int));
            }
            k = k + 1;
        }
        push_u32(&mut v, 0);
        proof {
            assert(spec_meta(es, n as int) =~= Seq::<u8>::empty());
            assert(v@ =~= vh + spec_meta(es, 0) + enc_u32(0u32));
        }
        let ghost vm = v@;

        // Contents, concatenated in the same order.
        let mut k: usize = 0;
        while k < n
            invariant
                k <= n,
                v@ + spec_contents(es, k as int) == vm + spec_contents(es, 0),
            decreases n - k,
        {
            let ghost vprev = v@;
            v.extend_from_slice(self.entries[k].content.as_slice());
            proof {
                assert(v@ + spec_contents(es, k + 1) =~= vprev + spec_contents(es, k as int));
            }
            k = k + 1;
        }
        push_u32(&mut v, 0);
        proof {
            assert(spec_contents(es, n as int) =~= Seq::<u8>::empty());
            assert(v@ =~= spec_encode(self@, ts));
        }
        out.append(&mut v);
        proof {
            assert(out@ =~= old(out)@ + spec_encode(self@, ts));
        }
        Ok(())
    }

    /// Serialize the archive, appending the stream to `out`, with the current
    /// wall-clock time as the embedded timestamp (so two encodes of one
    /// builder differ only in that field). Fails, writing nothing, exactly
    /// when the archive cannot stand on the wire.
    pub fn write_to(&self, out: &mut Vec<u8>) -> (r: Result<(), GmaError>)
        ensures
            match r {
                Ok(_) => encodable(self@) && exists|ts: u64|
                    final(out)@ == old(out)@ + spec_encode(self@, ts),
                Err(e) => e is InvalidInput && !encodable(self@) && final(out)@ == old(out)@,
            },
    {
        let ts = unix_timestamp();
        let r = self.encode_with_timestamp(ts, out);
        proof {
            if r is Ok {
                assert(out@ == old(out)@ + spec_encode(self@, ts));
            }
        }
        r
    }
}

/// Relies on std::time::SystemTime::now for the wall-clock time, reduced to
/// whole seconds since the Unix epoch; nothing is assumed of the value, and a
/// clock before the epoch yields zero rather than a panic.
#[verifier::external_body]
fn unix_timestamp() -> u64 {
    std::time::SystemTime::now()
        .duration_since(std::time::SystemTime::UNIX_EPOCH)
        .map(|d| d.as_secs())
        .unwrap_or(0)
}

} // verus!
