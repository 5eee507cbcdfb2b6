//! The clip bank, an IFF form of type `WLAB`.
//!
//! ```text
//! FORM <size> "WLAB"
//!   HEAD <4>  version 1
//!   BIDX <n>  per clip: payload offset, payload size, channels, sample rate
//!             and frame count, then the clip name without terminator
//!   BBIN <m>  per clip: the raw Ogg Vorbis payload
//! ```
//!
//! Numbers are 32-bit, high byte first. Chunks are padded to an even length.
//! The payload offset counts from the start of the file to the first payload
//! byte.
use vstd::prelude::*;
use vstd::slice::slice_subrange;
use vstd::utf8::decode_utf8;
use vstd::utf8::encode_utf8;
use vstd::utf8::valid_utf8;

use crate::bytes::be32;
use crate::bytes::be32_at;
use crate::bytes::lemma_be32;
use crate::seqs::flat;
use crate::seqs::lemma_total_prefix;
use crate::seqs::lemma_total_take;
use crate::seqs::total;

verus! {

/// One clip to pack into the bank.
#[derive(Debug)]
pub struct BankClip {
    /// Clip name, e.g. `module_ANDD02.wlabank/i1`.
    pub clip_name: String,
    pub channels: u32,
    pub sample_rate: u32,
    pub frame_count: u64,
    /// Raw Ogg Vorbis bytes.
    pub ogg: Vec<u8>,
}

/// The contents of a [`BankClip`].
#[verifier::ext_equal]
pub struct BankClipView {
    pub clip_name: Seq<char>,
    pub channels: u32,
    pub sample_rate: u32,
    pub frame_count: u64,
    pub ogg: Seq<u8>,
}

impl View for BankClip {
    type V = BankClipView;

    open spec fn view(&self) -> BankClipView {
        BankClipView {
            clip_name: self.clip_name@,
            channels: self.channels,
            sample_rate: self.sample_rate,
            frame_count: self.frame_count,
            ogg: self.ogg@,
        }
    }
}

/// One clip that was read from a bank.
#[derive(Debug)]
pub struct ParsedClip {
    pub clip_name: String,
    pub channels: u32,
    pub sample_rate: u32,
    pub frame_count: u64,
    /// Raw Ogg bytes; none where the entry points past the end of the file.
    pub ogg: Option<Vec<u8>>,
}

/// The contents of a [`ParsedClip`].
#[verifier::ext_equal]
pub struct ParsedClipView {
    pub clip_name: Seq<char>,
    pub channels: u32,
    pub sample_rate: u32,
    pub frame_count: u64,
    pub ogg: Option<Seq<u8>>,
}

impl View for ParsedClip {
    type V = ParsedClipView;

    open spec fn view(&self) -> ParsedClipView {
        ParsedClipView {
            clip_name: self.clip_name@,
            channels: self.channels,
            sample_rate: self.sample_rate,
            frame_count: self.frame_count,
            ogg: match self.ogg {
                Some(v) => Some(v@),
                None => None,
            },
        }
    }
}

broadcast use crate::bytes::lemma_be32_len;

// The format.

/// The bytes "FORM".
pub open spec fn form_id() -> Seq<u8> {
    seq![70, 79, 82, 77]
}

/// The bytes "WLAB".
pub open spec fn bank_id() -> Seq<u8> {
    seq![87, 76, 65, 66]
}

/// The bytes "HEAD".
pub open spec fn head_id() -> Seq<u8> {
    seq![72, 69, 65, 68]
}

/// The bytes "BIDX".
pub open spec fn index_id() -> Seq<u8> {
    seq![66, 73, 68, 88]
}

/// The bytes "BBIN".
pub open spec fn data_id() -> Seq<u8> {
    seq![66, 66, 73, 78]
}

/// A chunk: its id and what it holds.
pub struct Chunk {
    pub id: Seq<u8>,
    pub payload: Seq<u8>,
}

/// The bytes of a chunk: id, size, payload, and padding to an even length.
pub open spec fn chunk_bytes() -> spec_fn(Chunk) -> Seq<u8> {
    |c: Chunk|
        c.id + be32(c.payload.len() as int) + c.payload + (if c.payload.len() % 2 == 0 {
            Seq::<u8>::empty()
        } else {
            seq![0u8]
        })
}

/// How many bytes a chunk with `n` bytes of payload takes.
pub open spec fn chunk_len(n: nat) -> nat {
    8 + n + n % 2
}

/// How many bytes the index entry of a clip takes.
pub open spec fn index_len() -> spec_fn(BankClipView) -> nat {
    |c: BankClipView| chunk_len(20 + encode_utf8(c.clip_name).len())
}

/// How many bytes the payload chunk of a clip takes.
pub open spec fn data_len() -> spec_fn(BankClipView) -> nat {
    |c: BankClipView| chunk_len(c.ogg.len())
}

/// How many bytes the bank takes.
pub open spec fn bank_len(clips: Seq<BankClipView>) -> nat {
    24 + total(clips, index_len()) + total(clips, data_len())
}

/// Where the payload of the `i`-th clip begins in the file.
pub open spec fn payload_offset(clips: Seq<BankClipView>, i: int) -> nat {
    24 + total(clips, index_len()) + total(clips.take(i), data_len()) + 8
}

/// The index entry of the `i`-th clip.
pub open spec fn index_chunk(clips: Seq<BankClipView>, i: int) -> Chunk {
    let c = clips[i];
    Chunk {
        id: index_id(),
        payload: be32(payload_offset(clips, i) as int) + be32(c.ogg.len() as int) + be32(
            c.channels as int,
        ) + be32(c.sample_rate as int) + be32(
            c.frame_count as int % 0x1_0000_0000,
        ) + encode_utf8(c.clip_name),
    }
}

/// The payload chunk of the `i`-th clip.
pub open spec fn data_chunk(clips: Seq<BankClipView>, i: int) -> Chunk {
    Chunk { id: data_id(), payload: clips[i].ogg }
}

/// All chunks of a bank: the head, the index entries, the payloads.
pub open spec fn bank_chunks(clips: Seq<BankClipView>) -> Seq<Chunk> {
    seq![Chunk { id: head_id(), payload: be32(1) }] + Seq::new(
        clips.len(),
        |i: int| index_chunk(clips, i),
    ) + Seq::new(clips.len(), |i: int| data_chunk(clips, i))
}

/// The bytes of a bank.
pub open spec fn bank_bytes(clips: Seq<BankClipView>) -> Seq<u8> {
    form_id() + be32(bank_len(clips) - 8) + bank_id() + flat(bank_chunks(clips), chunk_bytes())
}

// Reading.

/// `data` begins as a bank does.
pub open spec fn is_bank(data: Seq<u8>) -> bool {
    data.len() >= 12 && data.subrange(0, 4) == form_id() && data.subrange(8, 12) == bank_id()
}

/// The payloads of the index entries from `off` on. An entry shorter than its
/// five numbers is passed over, and a chunk that is cut off is taken as far
/// as it goes.
pub open spec fn index_payloads(data: Seq<u8>, off: int) -> Seq<Seq<u8>>
    decreases
            (if off <= data.len() {
                data.len() - off + 1
            } else {
                0
            }),
{
    if off < 0 || off + 8 > data.len() {
        Seq::empty()
    } else {
        let size = be32_at(data, off + 4);
        let end = if off + 8 + size <= data.len() {
            off + 8 + size
        } else {
            data.len() as int
        };
        let payload = data.subrange(off + 8, end);
        let rest = index_payloads(data, off + 8 + size + size % 2);
        if data.subrange(off, off + 4) == index_id() && payload.len() >= 20 {
            seq![payload] + rest
        } else {
            rest
        }
    }
}

/// `String::from_utf8_lossy` of bytes that are not valid UTF-8: a text with
/// replacement characters.
pub uninterp spec fn lossy_text(bytes: Seq<u8>) -> Seq<char>;

/// The text of some bytes: what they encode, or a text with replacement
/// characters where they are not valid UTF-8.
pub open spec fn byte_text(bytes: Seq<u8>) -> Seq<char> {
    if valid_utf8(bytes) {
        decode_utf8(bytes)
    } else {
        lossy_text(bytes)
    }
}

/// The clip that an index entry describes.
pub open spec fn entry_clip(data: Seq<u8>) -> spec_fn(Seq<u8>) -> ParsedClipView {
    |payload: Seq<u8>|
        {
            let start = be32_at(payload, 0);
            let end = start + be32_at(payload, 4);
            ParsedClipView {
                clip_name: byte_text(payload.subrange(20, payload.len() as int)),
                channels: be32_at(payload, 8) as u32,
                sample_rate: be32_at(payload, 12) as u32,
                frame_count: be32_at(payload, 16) as u64,
                ogg: if end <= data.len() {
                    Some(data.subrange(start, end))
                } else {
                    None
                },
            }
        }
}

/// The clips of a bank.
pub open spec fn bank_clips(data: Seq<u8>) -> Seq<ParsedClipView> {
    index_payloads(data, 12).map_values(entry_clip(data))
}

// Bytes.

/// `byteorder::WriteBytesExt::write_u32::<BigEndian>` on a `Vec<u8>`, which
/// never fails: the four bytes of `n` stand at the end, high byte first.
#[verifier::external_body]
fn put_u32(buf: &mut Vec<u8>, n: u32)
    ensures
        final(buf)@ == old(buf)@ + be32(n as int),
{
    byteorder::WriteBytesExt::write_u32::<byteorder::BigEndian>(buf, n).unwrap()
}

/// `String::from_utf8_lossy` with `into_owned`: the text that the bytes
/// encode, where they encode one; else a text with replacement characters,
/// which is only named here.
#[verifier::external_body]
fn lossy(bytes: &[u8]) -> (r: String)
    ensures
        valid_utf8(bytes@) ==> r@ == decode_utf8(bytes@),
        !valid_utf8(bytes@) ==> r@ == lossy_text(bytes@),
{
    String::from_utf8_lossy(bytes).into_owned()
}

fn put_bytes(buf: &mut Vec<u8>, bytes: &[u8])
    ensures
        final(buf)@ == old(buf)@ + bytes@,
{
    let ghost o = buf@;
    buf.extend_from_slice(bytes);
    assert(buf@ =~= o + bytes@);
}

fn put_id(buf: &mut Vec<u8>, a: u8, b: u8, c: u8, d: u8)
    ensures
        final(buf)@ == old(buf)@ + seq![a, b, c, d],
{
    let ghost o = buf@;
    buf.push(a);
    buf.push(b);
    buf.push(c);
    buf.push(d);
    assert(buf@ =~= o + seq![a, b, c, d]);
}

/// The number at `i`, high byte first.
fn read_u32(data: &[u8], i: usize) -> (r: u32)
    requires
        i + 4 <= data@.len(),
    ensures
        r == be32_at(data@, i as int),
{
    data[i] as u32 * 0x100_0000 + data[i + 1] as u32 * 0x1_0000 + data[i + 2] as u32 * 0x100
        + data[i + 3] as u32
}

/// The bytes at `i` are the four given.
fn has_id(data: &[u8], i: usize, a: u8, b: u8, c: u8, d: u8) -> (r: bool)
    requires
        i + 4 <= data@.len(),
    ensures
        r == (data@.subrange(i as int, i + 4) == seq![a, b, c, d]),
{
    let r = data[i] == a && data[i + 1] == b && data[i + 2] == c && data[i + 3] == d;
    proof {
        let s = data@.subrange(i as int, i + 4);
        assert(s[0] == data@[i as int] && s[1] == data@[i + 1] && s[2] == data@[i + 2] && s[3]
            == data@[i + 3]);
        if r {
            assert(s =~= seq![a, b, c, d]);
        }
    }
    r
}

// Writing.

/// The chunk at the end of the buffer: id, size, payload, padding.
fn write_chunk(buf: &mut Vec<u8>, id: (u8, u8, u8, u8), payload: &[u8])
    requires
        payload@.len() <= u32::MAX,
    ensures
        final(buf)@ == old(buf)@ + chunk_bytes()(
            Chunk { id: seq![id.0, id.1, id.2, id.3], payload: payload@ },
        ),
{
    let ghost o = buf@;
    put_id(buf, id.0, id.1, id.2, id.3);
    put_u32(buf, payload.len() as u32);
    put_bytes(buf, payload);
    if payload.len() % 2 != 0 {
        buf.push(0);
    }
    assert(buf@ =~= o + chunk_bytes()(
        Chunk { id: seq![id.0, id.1, id.2, id.3], payload: payload@ },
    ));
}

/// The contents of clips.
pub open spec fn clip_views(s: Seq<BankClip>) -> Seq<BankClipView> {
    s.map_values(|c: BankClip| c@)
}

/// How many bytes the bank of these clips takes.
pub fn encoded_len(clips: &[BankClip]) -> (r: Option<u32>)
    ensures
        match r {
            Some(n) => n == bank_len(clip_views(clips@)),
            None => bank_len(clip_views(clips@)) > u32::MAX,
        },
{
    let ghost v = clip_views(clips@);
    let mut n: u64 = 24;
    let mut i: usize = 0;
    while i < clips.len()
        invariant
            0 <= i <= clips@.len(),
            v == clip_views(clips@),
            n <= u32::MAX,
            n == 24 + total(v.take(i as int), index_len()) + total(v.take(i as int), data_len()),
        decreases clips@.len() - i,
    {
        let c = &clips[i];
        proof {
            assert(v[i as int] == c@);
            lemma_total_take(v, index_len(), i as int);
            lemma_total_take(v, data_len(), i as int);
            lemma_total_prefix(v, index_len(), i + 1);
            lemma_total_prefix(v, data_len(), i + 1);
        }
        let name: usize = c.clip_name.as_str().as_bytes().len();
        let ogg: usize = c.ogg.len();
        if name > 0xffff_ffff || ogg > 0xffff_ffff {
            return None;
        }
        let name_len: u64 = name as u64;
        let ogg_len: u64 = ogg as u64;
        n = n + (28 + name_len + name_len % 2) + (8 + ogg_len + ogg_len % 2);
        if n > 0xffff_ffff {
            return None;
        }
        i += 1;
    }
    assert(v.take(i as int) =~= v);
    Some(n as u32)
}

/// The bytes of a bank that holds `clips`: the index entries in order, then
/// the payloads. A frame count is stored in 32 bits.
pub fn encode(clips: &[BankClip]) -> (r: Vec<u8>)
    requires
        bank_len(clip_views(clips@)) <= u32::MAX,
    ensures
        r@ == bank_bytes(clip_views(clips@)),
{
    let ghost v = clip_views(clips@);
    let ghost n = clips@.len() as int;
    // The size of the index, which comes before the payloads.
    let mut size: u32 = 24;
    let mut i: usize = 0;
    while i < clips.len()
        invariant
            0 <= i <= clips@.len(),
            v == clip_views(clips@),
            bank_len(v) <= u32::MAX,
            size == 24 + total(v.take(i as int), index_len()),
        decreases clips@.len() - i,
    {
        proof {
            assert(v[i as int] == clips@[i as int]@);
            lemma_total_take(v, index_len(), i as int);
            lemma_total_prefix(v, index_len(), i + 1);
        }
        let name: u32 = clips[i].clip_name.as_str().as_bytes().len() as u32;
        size = size + (28 + name + name % 2);
        i += 1;
    }
    assert(v.take(n) =~= v);
    let index_end: u32 = size;
    // Where each payload begins, and the size of the whole.
    let mut offsets: Vec<u32> = Vec::new();
    let mut k: usize = 0;
    while k < clips.len()
        invariant
            0 <= k <= clips@.len(),
            v == clip_views(clips@),
            bank_len(v) <= u32::MAX,
            index_end == 24 + total(v, index_len()),
            size == index_end + total(v.take(k as int), data_len()),
            offsets@.len() == k,
            forall|j: int| 0 <= j < k ==> #[trigger] offsets@[j] == payload_offset(v, j),
        decreases clips@.len() - k,
    {
        proof {
            assert(v[k as int] == clips@[k as int]@);
            lemma_total_take(v, data_len(), k as int);
            lemma_total_prefix(v, data_len(), k + 1);
        }
        let ogg: u32 = clips[k].ogg.len() as u32;
        offsets.push(size + 8);
        size = size + (8 + ogg + ogg % 2);
        k += 1;
    }
    assert(v.take(n) =~= v);
    let mut buf: Vec<u8> = Vec::new();
    put_id(&mut buf, 70, 79, 82, 77);
    put_u32(&mut buf, size - 8);
    put_id(&mut buf, 87, 76, 65, 66);
    let ghost start = form_id() + be32(bank_len(v) - 8) + bank_id();
    assert(buf@ =~= start);
    let ghost chunks = bank_chunks(v);
    let ghost f = chunk_bytes();
    let mut version: Vec<u8> = Vec::new();
    put_u32(&mut version, 1);
    assert(version@ =~= be32(1));
    write_chunk(&mut buf, (72, 69, 65, 68), version.as_slice());
    proof {
        lemma_flat_step(chunks, f, 0);
        assert(chunks.take(0) =~= Seq::empty());
        assert(chunks[0] == Chunk { id: head_id(), payload: be32(1) });
        assert(buf@ =~= start + flat(chunks.take(1), f));
    }
    let mut a: usize = 0;
    while a < clips.len()
        invariant
            0 <= a <= clips@.len(),
            n == clips@.len(),
            v == clip_views(clips@),
            chunks == bank_chunks(v),
            f == chunk_bytes(),
            bank_len(v) <= u32::MAX,
            offsets@.len() == clips@.len(),
            forall|j: int| 0 <= j < n ==> #[trigger] offsets@[j] == payload_offset(v, j),
            buf@ == start + flat(chunks.take(1 + a), f),
        decreases clips@.len() - a,
    {
        let c = &clips[a];
        proof {
            assert(v[a as int] == c@);
            lemma_total_take(v, index_len(), a as int);
            lemma_total_prefix(v, index_len(), a + 1);
            lemma_total_take(v, data_len(), a as int);
            lemma_total_prefix(v, data_len(), a + 1);
        }
        let name = c.clip_name.as_str().as_bytes();
        let mut payload: Vec<u8> = Vec::new();
        put_u32(&mut payload, offsets[a]);
        put_u32(&mut payload, c.ogg.len() as u32);
        put_u32(&mut payload, c.channels);
        put_u32(&mut payload, c.sample_rate);
        put_u32(&mut payload, (c.frame_count % 0x1_0000_0000) as u32);
        put_bytes(&mut payload, name);
        proof {
            assert(payload@ =~= index_chunk(v, a as int).payload);
            lemma_flat_step(chunks, f, 1 + a);
            assert(chunks[1 + a] == index_chunk(v, a as int));
        }
        write_chunk(&mut buf, (66, 73, 68, 88), payload.as_slice());
        assert(buf@ =~= start + flat(chunks.take(2 + a), f));
        a += 1;
    }
    let mut b: usize = 0;
    while b < clips.len()
        invariant
            0 <= b <= clips@.len(),
            n == clips@.len(),
            v == clip_views(clips@),
            chunks == bank_chunks(v),
            f == chunk_bytes(),
            bank_len(v) <= u32::MAX,
            buf@ == start + flat(chunks.take(1 + n + b), f),
        decreases clips@.len() - b,
    {
        proof {
            assert(v[b as int] == clips@[b as int]@);
            lemma_total_take(v, data_len(), b as int);
            lemma_total_prefix(v, data_len(), b + 1);
            lemma_flat_step(chunks, f, 1 + n + b);
            assert(chunks[1 + n + b] == data_chunk(v, b as int));
        }
        write_chunk(&mut buf, (66, 66, 73, 78), clips[b].ogg.as_slice());
        assert(buf@ =~= start + flat(chunks.take(2 + n + b), f));
        b += 1;
    }
    assert(chunks.take(1 + n + n) =~= chunks);
    buf
}

proof fn lemma_flat_step(s: Seq<Chunk>, f: spec_fn(Chunk) -> Seq<u8>, i: int)
    requires
        0 <= i < s.len(),
    ensures
        flat(s.take(i + 1), f) == flat(s.take(i), f) + f(s[i]),
{
    crate::seqs::lemma_flat_take(s, f, i);
}

/// Read the clips of a bank. The error is that `data` is no bank.
pub fn parse(data: &[u8]) -> (r: Result<Vec<ParsedClip>, String>)
    ensures
        match r {
            Ok(clips) => is_bank(data@) && clips@.map_values(|c: ParsedClip| c@) == bank_clips(
                data@,
            ),
            Err(e) => !is_bank(data@) && e@ == "not a WLAB bank"@,
        },
{
    if data.len() < 12 || !has_id(data, 0, 70, 79, 82, 77) || !has_id(data, 8, 87, 76, 65, 66) {
        return Err("not a WLAB bank".to_owned());
    }
    let len: u128 = data.len() as u128;
    let ghost all = index_payloads(data@, 12);
    let mut clips: Vec<ParsedClip> = Vec::new();
    let ghost mut seen: Seq<Seq<u8>> = Seq::empty();
    let mut off: u128 = 12;
    assert(all =~= seen + index_payloads(data@, 12));
    while off + 8 <= len
        invariant
            len == data@.len(),
            len <= usize::MAX,
            off <= 0x2_0000_0000 + len,
            all == index_payloads(data@, 12),
            all == seen + index_payloads(data@, off as int),
            clips@.map_values(|c: ParsedClip| c@) =~= seen.map_values(entry_clip(data@)),
        decreases 0x3_0000_0000 + len - off,
    {
        let at: usize = off as usize;
        let size: u32 = read_u32(data, at + 4);
        let wanted: u128 = off + 8 + size as u128;
        let end: usize = if wanted <= len {
            wanted as usize
        } else {
            data.len()
        };
        let payload = slice_subrange(data, at + 8, end);
        let ghost rest = index_payloads(data@, off + 8 + size + size % 2);
        if has_id(data, at, 66, 73, 68, 88) && payload.len() >= 20 {
            let clip = read_entry(data, payload);
            proof {
                let before = seen;
                seen = seen.push(payload@);
                assert(seen.map_values(entry_clip(data@)) =~= before.map_values(
                    entry_clip(data@),
                ).push(entry_clip(data@)(payload@)));
                assert(all =~= seen + rest);
            }
            let ghost old_clips = clips@;
            clips.push(clip);
            assert(clips@.map_values(|c: ParsedClip| c@) =~= old_clips.map_values(
                |c: ParsedClip| c@,
            ).push(clip@));
        } else {
            assert(all =~= seen + rest);
        }
        off = off + 8 + size as u128 + (size % 2) as u128;
    }
    assert(all =~= seen);
    Ok(clips)
}

/// The clip that an index entry of `data` describes.
fn read_entry(data: &[u8], payload: &[u8]) -> (r: ParsedClip)
    requires
        payload@.len() >= 20,
    ensures
        r@ == entry_clip(data@)(payload@),
{
    let po: u32 = read_u32(payload, 0);
    let ps: u32 = read_u32(payload, 4);
    let ch: u32 = read_u32(payload, 8);
    let sr: u32 = read_u32(payload, 12);
    let fc: u32 = read_u32(payload, 16);
    let name = lossy(slice_subrange(payload, 20, payload.len()));
    let end: u128 = po as u128 + ps as u128;
    let ogg = if end <= data.len() as u128 {
        let mut bytes: Vec<u8> = Vec::new();
        put_bytes(&mut bytes, slice_subrange(data, po as usize, end as usize));
        assert(bytes@ =~= data@.subrange(po as int, end as int));
        Some(bytes)
    } else {
        None
    };
    ParsedClip {
        clip_name: name,
        channels: ch,
        sample_rate: sr,
        frame_count: fc as u64,
        ogg,
    }
}

// What is written can be read.

/// The first part of a concatenation.
pub proof fn lemma_flat_first(s: Seq<Chunk>, f: spec_fn(Chunk) -> Seq<u8>)
    requires
        s.len() > 0,
    ensures
        flat(s, f) == f(s[0]) + flat(s.skip(1), f),
    decreases s.len(),
{
    if s.len() == 1 {
        assert(s.drop_last() =~= Seq::empty());
        assert(s.skip(1) =~= Seq::empty());
        assert(flat(s.drop_last(), f) =~= Seq::empty());
        assert(flat(s, f) =~= f(s[0]) + flat(s.skip(1), f));
    } else {
        lemma_flat_first(s.drop_last(), f);
        assert(s.drop_last().skip(1) =~= s.skip(1).drop_last());
        assert(flat(s, f) =~= f(s[0]) + flat(s.skip(1), f));
    }
}

/// A concatenation around its `k`-th part.
pub proof fn lemma_flat_at(s: Seq<Chunk>, f: spec_fn(Chunk) -> Seq<u8>, k: int)
    requires
        0 <= k < s.len(),
    ensures
        flat(s, f) == flat(s.take(k), f) + f(s[k]) + flat(s.skip(k + 1), f),
    decreases k,
{
    if k == 0 {
        lemma_flat_first(s, f);
        assert(s.take(0) =~= Seq::empty());
        assert(flat(s, f) =~= flat(s.take(k), f) + f(s[k]) + flat(s.skip(k + 1), f));
    } else {
        lemma_flat_first(s, f);
        let t = s.skip(1);
        lemma_flat_at(t, f, k - 1);
        lemma_flat_first(s.take(k), f);
        assert(s.take(k).skip(1) =~= t.take(k - 1));
        assert(t.skip(k) =~= s.skip(k + 1));
        assert(t[k - 1] == s[k]);
        assert(flat(s, f) =~= flat(s.take(k), f) + f(s[k]) + flat(s.skip(k + 1), f));
    }
}

/// The chunks are well-formed: four bytes of id and a size that fits.
pub open spec fn sound_chunks(s: Seq<Chunk>) -> bool {
    forall|i: int|
        0 <= i < s.len() ==> (#[trigger] s[i]).id.len() == 4 && s[i].payload.len() <= u32::MAX
}

pub open spec fn is_index() -> spec_fn(Chunk) -> bool {
    |c: Chunk| c.id == index_id() && c.payload.len() >= 20
}

/// The payloads of the index entries among chunks.
pub open spec fn entry_payloads(s: Seq<Chunk>) -> Seq<Seq<u8>>
    decreases s.len(),
{
    if s.len() == 0 {
        Seq::empty()
    } else if is_index()(s[0]) {
        seq![s[0].payload] + entry_payloads(s.skip(1))
    } else {
        entry_payloads(s.skip(1))
    }
}

/// Walking over chunks finds the index entries among them.
pub proof fn lemma_walk(data: Seq<u8>, pre: Seq<u8>, s: Seq<Chunk>)
    requires
        data == pre + flat(s, chunk_bytes()),
        sound_chunks(s),
    ensures
        index_payloads(data, pre.len() as int) == entry_payloads(s),
    decreases s.len(),
{
    let off = pre.len() as int;
    let f = chunk_bytes();
    if s.len() == 0 {
        assert(flat(s, f) =~= Seq::empty());
    } else {
        lemma_flat_first(s, f);
        let c = s[0];
        let n = c.payload.len() as int;
        let rest = flat(s.skip(1), f);
        let b = f(c);
        lemma_be32(n);
        assert(c.id.len() == 4);
        assert(b.len() == 8 + n + n % 2);
        assert(data =~= pre + b + rest);
        assert forall|i: int| 0 <= i < b.len() implies data[off + i] == #[trigger] b[i] by {}
        assert(data.subrange(off, off + 4) =~= c.id) by {
            assert forall|i: int| 0 <= i < 4 implies data[off + i] == #[trigger] c.id[i] by {
                assert(b[i] == c.id[i]);
            }
        }
        assert(be32_at(data, off + 4) == n) by {
            let q = be32(n);
            assert(b[4] == q[0] && b[5] == q[1] && b[6] == q[2] && b[7] == q[3]);
            assert(data[off + 4] == q[0] && data[off + 5] == q[1] && data[off + 6] == q[2]
                && data[off + 7] == q[3]);
        }
        assert(data.subrange(off + 8, off + 8 + n) =~= c.payload) by {
            assert forall|i: int| 0 <= i < n implies data[off + 8 + i] == #[trigger] c.payload[i] by {
                assert(b[8 + i] == c.payload[i]);
            }
        }
        assert forall|i: int| 0 <= i < s.skip(1).len() implies (
        #[trigger] s.skip(1)[i]).id.len() == 4 && s.skip(1)[i].payload.len() <= u32::MAX by {
            assert(s[i + 1].id.len() == 4);
        }
        lemma_walk(data, pre + b, s.skip(1));
    }
}

/// Chunks that are no index entries hold none.
proof fn lemma_no_entries(s: Seq<Chunk>)
    requires
        forall|i: int| 0 <= i < s.len() ==> !is_index()(#[trigger] s[i]),
    ensures
        entry_payloads(s) == Seq::<Seq<u8>>::empty(),
    decreases s.len(),
{
    if s.len() > 0 {
        assert forall|i: int| 0 <= i < s.skip(1).len() implies !is_index()(
            #[trigger] s.skip(1)[i],
        ) by {
            assert(!is_index()(s[i + 1]));
        }
        lemma_no_entries(s.skip(1));
    }
}

/// The index entries at the front of a list of chunks are found in order.
proof fn lemma_entries_in_front(s: Seq<Chunk>, n: int)
    requires
        0 <= n <= s.len(),
        forall|i: int| 0 <= i < n ==> is_index()(#[trigger] s[i]),
        forall|i: int| n <= i < s.len() ==> !is_index()(#[trigger] s[i]),
    ensures
        entry_payloads(s) == Seq::new(n as nat, |i: int| s[i].payload),
    decreases n,
{
    if n == 0 {
        lemma_no_entries(s);
        assert(entry_payloads(s) =~= Seq::new(n as nat, |i: int| s[i].payload));
    } else {
        let t = s.skip(1);
        assert forall|i: int| 0 <= i < n - 1 implies is_index()(#[trigger] t[i]) by {
            assert(is_index()(s[i + 1]));
        }
        assert forall|i: int| n - 1 <= i < t.len() implies !is_index()(#[trigger] t[i]) by {
            assert(!is_index()(s[i + 1]));
        }
        lemma_entries_in_front(t, n - 1);
        assert(is_index()(s[0]));
        assert(entry_payloads(s) =~= Seq::new(n as nat, |i: int| s[i].payload));
    }
}

/// The length of the bytes of the chunks before the `k`-th payload.
pub proof fn lemma_flat_len(clips: Seq<BankClipView>, k: int)
    requires
        0 <= k <= clips.len(),
    ensures
        flat(bank_chunks(clips).take(1 + clips.len() + k), chunk_bytes()).len() == 12 + total(
            clips,
            index_len(),
        ) + total(clips.take(k), data_len()),
    decreases k,
{
    let s = bank_chunks(clips);
    let f = chunk_bytes();
    let n = clips.len() as int;
    if k == 0 {
        assert(clips.take(0) =~= Seq::empty());
        lemma_index_part_len(clips, n);
        assert(clips.take(n) =~= clips);
    } else {
        lemma_flat_len(clips, k - 1);
        lemma_total_take(clips, data_len(), k - 1);
        lemma_flat_step(s, f, n + k);
        assert(s[n + k] == data_chunk(clips, k - 1));
    }
}

pub proof fn lemma_index_part_len(clips: Seq<BankClipView>, k: int)
    requires
        0 <= k <= clips.len(),
    ensures
        flat(bank_chunks(clips).take(1 + k), chunk_bytes()).len() == 12 + total(
            clips.take(k),
            index_len(),
        ),
    decreases k,
{
    let s = bank_chunks(clips);
    let f = chunk_bytes();
    if k == 0 {
        lemma_flat_step(s, f, 0);
        assert(s.take(0) =~= Seq::empty());
        assert(s[0] == Chunk { id: head_id(), payload: be32(1) });
        assert(clips.take(0) =~= Seq::empty());
    } else {
        lemma_index_part_len(clips, k - 1);
        lemma_total_take(clips, index_len(), k - 1);
        lemma_flat_step(s, f, k);
        assert(s[k] == index_chunk(clips, k - 1));
    }
}

/// The bank takes the length that its clips say.
pub proof fn bank_has_its_length(clips: Seq<BankClipView>)
    requires
        bank_len(clips) <= u32::MAX,
    ensures
        bank_bytes(clips).len() == bank_len(clips),
{
    lemma_flat_len(clips, clips.len() as int);
    let n = clips.len() as int;
    assert(bank_chunks(clips).take(1 + n + n) =~= bank_chunks(clips));
    assert(clips.take(n) =~= clips);
}

/// What reading gives back of a clip: all of it, with the frame count in 32
/// bits.
pub open spec fn read_back(c: BankClipView) -> ParsedClipView {
    ParsedClipView {
        clip_name: c.clip_name,
        channels: c.channels,
        sample_rate: c.sample_rate,
        frame_count: (c.frame_count % 0x1_0000_0000) as u64,
        ogg: Some(c.ogg),
    }
}

/// The payload of the `i`-th clip stands at its offset.
pub proof fn lemma_payload_in_place(clips: Seq<BankClipView>, i: int)
    requires
        bank_len(clips) <= u32::MAX,
        0 <= i < clips.len(),
    ensures
        payload_offset(clips, i) + clips[i].ogg.len() <= bank_bytes(clips).len(),
        bank_bytes(clips).subrange(
            payload_offset(clips, i) as int,
            (payload_offset(clips, i) + clips[i].ogg.len()) as int,
        ) == clips[i].ogg,
{
    let s = bank_chunks(clips);
    let f = chunk_bytes();
    let n = clips.len() as int;
    let k = 1 + n + i;
    lemma_flat_at(s, f, k);
    lemma_flat_len(clips, i);
    assert(s[k] == data_chunk(clips, i));
    let data = bank_bytes(clips);
    let start = form_id() + be32(bank_len(clips) - 8) + bank_id();
    let before = flat(s.take(k), f);
    let b = f(s[k]);
    let after = flat(s.skip(k + 1), f);
    assert(data =~= start + before + b + after);
    let at = start.len() + before.len();
    assert(at + 8 == payload_offset(clips, i));
    let ogg = clips[i].ogg;
    assert forall|j: int| 0 <= j < ogg.len() implies data[at + 8 + j] == #[trigger] ogg[j] by {
        assert(b[8 + j] == ogg[j]);
        assert(data[at + (8 + j)] == b[8 + j]);
    }
    assert(data.subrange((at + 8) as int, (at + 8 + ogg.len()) as int) =~= ogg);
}

/// The index entry of the `i`-th clip describes it.
proof fn lemma_entry_reads_back(clips: Seq<BankClipView>, i: int)
    requires
        bank_len(clips) <= u32::MAX,
        0 <= i < clips.len(),
    ensures
        entry_clip(bank_bytes(clips))(index_chunk(clips, i).payload) == read_back(clips[i]),
{
    let c = clips[i];
    let p = index_chunk(clips, i).payload;
    let name = encode_utf8(c.clip_name);
    vstd::utf8::encode_utf8_valid_utf8(c.clip_name);
    vstd::utf8::encode_utf8_decode_utf8(c.clip_name);
    lemma_payload_in_place(clips, i);
    bank_has_its_length(clips);
    lemma_be32(payload_offset(clips, i) as int);
    lemma_be32(c.ogg.len() as int);
    lemma_be32(c.channels as int);
    lemma_be32(c.sample_rate as int);
    lemma_be32(c.frame_count as int % 0x1_0000_0000);
    let a = be32(payload_offset(clips, i) as int);
    let b = be32(c.ogg.len() as int);
    let d = be32(c.channels as int);
    let e = be32(c.sample_rate as int);
    let g = be32(c.frame_count as int % 0x1_0000_0000);
    assert(p.len() == 20 + name.len());
    assert(p[0] == a[0] && p[1] == a[1] && p[2] == a[2] && p[3] == a[3]);
    assert(p[4] == b[0] && p[5] == b[1] && p[6] == b[2] && p[7] == b[3]);
    assert(p[8] == d[0] && p[9] == d[1] && p[10] == d[2] && p[11] == d[3]);
    assert(p[12] == e[0] && p[13] == e[1] && p[14] == e[2] && p[15] == e[3]);
    assert(p[16] == g[0] && p[17] == g[1] && p[18] == g[2] && p[19] == g[3]);
    assert(p.subrange(20, p.len() as int) =~= name);
}

/// Reading a bank gives back the clips that were written, in order.
pub proof fn bank_reads_back(clips: Seq<BankClipView>)
    requires
        bank_len(clips) <= u32::MAX,
    ensures
        is_bank(bank_bytes(clips)),
        bank_clips(bank_bytes(clips)) == clips.map_values(|c: BankClipView| read_back(c)),
{
    let data = bank_bytes(clips);
    let s = bank_chunks(clips);
    let n = clips.len() as int;
    let start = form_id() + be32(bank_len(clips) - 8) + bank_id();
    assert(data.subrange(0, 4) =~= form_id());
    assert(data.subrange(8, 12) =~= bank_id());
    assert forall|i: int| 0 <= i < s.len() implies (#[trigger] s[i]).id.len() == 4
        && s[i].payload.len() <= u32::MAX by {
        if i == 0 {
            assert(s[0] == Chunk { id: head_id(), payload: be32(1) });
        } else if i < 1 + n {
            assert(s[i] == index_chunk(clips, i - 1));
            lemma_total_take(clips, index_len(), i - 1);
            lemma_total_prefix(clips, index_len(), i);
        } else {
            assert(s[i] == data_chunk(clips, i - 1 - n));
            lemma_total_take(clips, data_len(), i - 1 - n);
            lemma_total_prefix(clips, data_len(), i - n);
        }
    }
    lemma_walk(data, start, s);
    let t = s.skip(1);
    assert(s[0].id == head_id());
    assert(head_id()[0] != index_id()[0]);
    assert(!is_index()(s[0]));
    assert forall|i: int| 0 <= i < n implies is_index()(#[trigger] t[i]) by {
        assert(t[i] == index_chunk(clips, i));
    }
    assert forall|i: int| n <= i < t.len() implies !is_index()(#[trigger] t[i]) by {
        assert(t[i] == data_chunk(clips, i - n));
        assert(data_id()[1] != index_id()[1]);
    }
    lemma_entries_in_front(t, n);
    assert forall|i: int| 0 <= i < n implies #[trigger] bank_clips(data)[i] == read_back(
        clips[i],
    ) by {
        assert(t[i] == index_chunk(clips, i));
        lemma_entry_reads_back(clips, i);
    }
    assert(bank_clips(data) =~= clips.map_values(|c: BankClipView| read_back(c)));
}

} // verus!
