//! Sound as Ogg Vorbis: how samples are laid out for the encoder, and what a
//! stream decodes to.
use vstd::prelude::*;

use crate::asset::vorbis::comment_sound;
use crate::asset::vorbis::is_ident;
use crate::asset::vorbis::le32_at;
use crate::asset::vorbis::setup_sound;
use crate::asset::vorbis::test_comment;
use crate::asset::vorbis::test_ident;
use crate::asset::vorbis::test_setup;
use crate::text::join;

verus! {

/// How many frames are handed to the encoder at a time.
pub const BLOCK: usize = 4096;

/// The blocks of `frames` frames from `pos` on, each by its begin and end.
pub open spec fn blocks_from(pos: int, frames: int) -> Seq<(int, int)>
    decreases frames - pos,
{
    if pos >= frames {
        Seq::empty()
    } else {
        let end = if pos + 4096 < frames {
            pos + 4096
        } else {
            frames
        };
        seq![(pos, end)] + blocks_from(end, frames)
    }
}

/// The blocks in which `frames` frames are encoded.
pub fn blocks(frames: usize) -> (r: Vec<(usize, usize)>)
    ensures
        r@.map_values(|b: (usize, usize)| (b.0 as int, b.1 as int)) == blocks_from(
            0,
            frames as int,
        ),
{
    let ghost f = |b: (usize, usize)| (b.0 as int, b.1 as int);
    let mut out: Vec<(usize, usize)> = Vec::new();
    let mut pos: usize = 0;
    assert(out@.map_values(f) + blocks_from(0, frames as int) =~= blocks_from(0, frames as int));
    while pos < frames
        invariant
            0 <= pos <= frames,
            f == (|b: (usize, usize)| (b.0 as int, b.1 as int)),
            out@.map_values(f) + blocks_from(pos as int, frames as int) =~= blocks_from(
                0,
                frames as int,
            ),
        decreases frames - pos,
    {
        let end: usize = if frames - pos > BLOCK {
            pos + BLOCK
        } else {
            frames
        };
        let ghost before = out@;
        out.push((pos, end));
        assert(out@.map_values(f) =~= before.map_values(f).push((pos as int, end as int)));
        pos = end;
    }
    assert(out@.map_values(f) =~= blocks_from(0, frames as int));
    out
}

/// Channel `c` of the frames from `pos` to `end` of interleaved samples.
pub open spec fn channel_of<T>(s: Seq<T>, channels: int, pos: int, end: int, c: int) -> Seq<T> {
    Seq::new((end - pos) as nat, |f: int| s[(pos + f) * channels + c])
}

/// The frames from `pos` to `end` of interleaved samples, channel by channel.
pub fn planar<T: Copy>(interleaved: &[T], channels: usize, pos: usize, end: usize) -> (r: Vec<
    Vec<T>,
>)
    requires
        channels > 0,
        pos <= end <= interleaved@.len() / channels as nat,
    ensures
        r@.len() == channels,
        forall|c: int|
            0 <= c < channels ==> (#[trigger] r@[c])@ == channel_of(
                interleaved@,
                channels as int,
                pos as int,
                end as int,
                c,
            ),
{
    let mut out: Vec<Vec<T>> = Vec::new();
    let mut c: usize = 0;
    while c < channels
        invariant
            0 <= c <= channels,
            channels > 0,
            pos <= end <= interleaved@.len() / channels as nat,
            out@.len() == c,
            forall|k: int|
                0 <= k < c ==> (#[trigger] out@[k])@ == channel_of(
                    interleaved@,
                    channels as int,
                    pos as int,
                    end as int,
                    k,
                ),
        decreases channels - c,
    {
        let mut one: Vec<T> = Vec::new();
        let mut f: usize = pos;
        while f < end
            invariant
                pos <= f <= end,
                c < channels,
                end <= interleaved@.len() / channels as nat,
                one@ =~= channel_of(
                    interleaved@,
                    channels as int,
                    pos as int,
                    f as int,
                    c as int,
                ),
            decreases end - f,
        {
            proof {
                lemma_sample_in_range(interleaved@.len() as int, channels as int, f as int, c as int);
                assert(interleaved@.len() == interleaved.len());
                assert(0 <= f * channels) by (nonlinear_arith);
            }
            one.push(interleaved[f * channels + c]);
            f += 1;
        }
        out.push(one);
        c += 1;
    }
    out
}

proof fn lemma_sample_in_range(len: int, channels: int, f: int, c: int)
    requires
        0 <= f < len / channels,
        0 <= c < channels,
        0 <= len,
    ensures
        0 <= f * channels + c < len,
{
    let n = len / channels;
    vstd::arithmetic::div_mod::lemma_fundamental_div_mod(len, channels);
    vstd::arithmetic::div_mod::lemma_mod_bound(len, channels);
    assert(f * channels + channels <= channels * n) by (nonlinear_arith)
        requires
            f + 1 <= n,
            channels > 0,
    ;
    assert(0 <= f * channels) by (nonlinear_arith)
        requires
            0 <= f,
            channels > 0,
    ;
}

// Packets.

/// A packet, whether it opens a stream of its own, the number of its stream,
/// and the position that its page tells.
#[derive(Debug)]
pub struct Packet {
    pub data: Vec<u8>,
    pub first: bool,
    pub serial: u32,
    pub position: u64,
}

pub struct PacketView {
    pub data: Seq<u8>,
    pub first: bool,
    pub serial: u32,
    pub position: u64,
}

impl View for Packet {
    type V = PacketView;

    open spec fn view(&self) -> PacketView {
        PacketView {
            data: self.data@,
            first: self.first,
            serial: self.serial,
            position: self.position,
        }
    }
}

/// A reader of packets: an `ogg::PacketReader` over bytes.
#[verifier::external_body]
pub struct PageReader {
    reader: ogg::PacketReader<std::io::Cursor<Vec<u8>>>,
}

/// Where a reader of packets is: over which bytes, how many packets it has
/// given, and whether any were dropped.
pub struct PagePlace {
    pub bytes: Seq<u8>,
    pub given: nat,
    pub dropped: bool,
}

/// The packets that a reader still gives, up to the end of the bytes or what
/// cannot be read.
pub uninterp spec fn packets_left(r: PageReader) -> Seq<PacketView>;

/// Where a reader of packets is.
pub uninterp spec fn page_place(r: PageReader) -> PagePlace;

/// The packets that an `ogg::PacketReader` gives of bytes.
pub uninterp spec fn ogg_packets(bytes: Seq<u8>) -> Seq<PacketView>;

/// The packets that it gives behind the first `given`, when
/// `delete_unread_packets` is called there.
pub uninterp spec fn ogg_packets_after(bytes: Seq<u8>, given: nat) -> Seq<PacketView>;

/// `ogg::PacketReader::new` over bytes: a reader that gives the packets named
/// for them.
#[verifier::external_body]
fn open_pages(bytes: Vec<u8>) -> (r: PageReader)
    ensures
        packets_left(r) == ogg_packets(bytes@),
        page_place(r) == (PagePlace { bytes: bytes@, given: 0, dropped: false }),
{
    PageReader { reader: ogg::PacketReader::new(std::io::Cursor::new(bytes)) }
}

/// `ogg::PacketReader::read_packet`: the next packet, nothing at the end of the
/// bytes or where something cannot be read.
#[verifier::external_body]
fn next_page_packet(r: &mut PageReader) -> (p: Option<Packet>)
    ensures
        ({
            let left = packets_left(*old(r));
            let place = page_place(*old(r));
            match p {
                Some(x) => {
                    &&& left.len() > 0
                    &&& x@ == left[0]
                    &&& packets_left(*final(r)) == left.skip(1)
                    &&& page_place(*final(r)) == (PagePlace { given: place.given + 1, ..place })
                },
                None => left.len() == 0,
            }
        }),
{
    match r.reader.read_packet() {
        Ok(Some(p)) => Some(
            Packet {
                first: p.first_in_stream(),
                serial: p.stream_serial(),
                position: p.absgp_page(),
                data: p.data,
            },
        ),
        Ok(None) => None,
        Err(_) => None,
    }
}

/// `ogg::PacketReader::delete_unread_packets`: what is left of the page that
/// was read last is dropped, and pages that do not follow from each other are
/// taken from then on.
#[verifier::external_body]
fn drop_unread(r: &mut PageReader)
    requires
        !page_place(*old(r)).dropped,
    ensures
        packets_left(*final(r)) == ogg_packets_after(
            page_place(*old(r)).bytes,
            page_place(*old(r)).given,
        ),
        page_place(*final(r)).dropped,
{
    r.reader.delete_unread_packets()
}

/// The views of packets.
pub open spec fn packet_views(p: Seq<Packet>) -> Seq<PacketView> {
    p.map_values(|x: Packet| x@)
}

/// Where the next packet of the stream `serial` is, from `k` on; the number of
/// packets where there is none.
pub open spec fn next_of(p: Seq<PacketView>, serial: u32, k: int) -> int
    decreases p.len() - k,
{
    if k >= p.len() {
        p.len() as int
    } else if p[k].serial == serial {
        k
    } else {
        next_of(p, serial, k + 1)
    }
}

/// Where the second and the third packet of the first stream are.
pub open spec fn header_places(p: Seq<PacketView>) -> (int, int) {
    let second = next_of(p, p[0].serial, 1);
    (second, next_of(p, p[0].serial, second + 1))
}

/// The headers of the first stream: its first three packets, where there are
/// as many.
pub open spec fn header_packets(bytes: Seq<u8>) -> Seq<PacketView> {
    let p = ogg_packets(bytes);
    let (second, third) = header_places(p);
    if p.len() == 0 {
        Seq::empty()
    } else if second >= p.len() {
        seq![p[0]]
    } else if third >= p.len() {
        seq![p[0], p[second]]
    } else {
        seq![p[0], p[second], p[third]]
    }
}

/// The packets behind the headers, as a decoder gets them that drops what else
/// is on the page of the third.
pub open spec fn later_packets(bytes: Seq<u8>) -> Seq<PacketView> {
    ogg_packets_after(bytes, (header_places(ogg_packets(bytes)).1 + 1) as nat)
}

/// The next packet of the stream `serial`.
fn next_header(pages: &mut PageReader, serial: u32) -> (r: Option<Packet>)
    requires
        !page_place(*old(pages)).dropped,
        packets_left(*old(pages)) == ogg_packets(page_place(*old(pages)).bytes).skip(
            page_place(*old(pages)).given as int,
        ),
        page_place(*old(pages)).given <= ogg_packets(page_place(*old(pages)).bytes).len(),
    ensures
        ({
            let place = page_place(*old(pages));
            let all = ogg_packets(place.bytes);
            let k = next_of(all, serial, place.given as int);
            match r {
                Some(p) => {
                    &&& place.given <= k < all.len()
                    &&& p@ == all[k]
                    &&& page_place(*final(pages)) == (PagePlace { given: (k + 1) as nat, ..place })
                    &&& packets_left(*final(pages)) == all.skip(k + 1)
                },
                None => k == all.len(),
            }
        }),
{
    let ghost place = page_place(*pages);
    let ghost all = ogg_packets(place.bytes);
    loop
        invariant
            place == page_place(*old(pages)),
            all == ogg_packets(place.bytes),
            page_place(*pages) == (PagePlace { given: page_place(*pages).given, ..place }),
            place.given <= page_place(*pages).given <= all.len(),
            packets_left(*pages) == all.skip(page_place(*pages).given as int),
            next_of(all, serial, place.given as int) == next_of(
                all,
                serial,
                page_place(*pages).given as int,
            ),
        decreases packets_left(*pages).len(),
    {
        let ghost at = page_place(*pages).given as int;
        match next_page_packet(pages) {
            Some(p) => {
                assert(all.skip(at)[0] == all[at]);
                assert(all.skip(at).skip(1) =~= all.skip(at + 1));
                if p.serial == serial {
                    return Some(p);
                }
            },
            None => {
                return None;
            },
        }
    }
}

/// The headers of the first stream, and the packets behind them.
fn read_pages(bytes: Vec<u8>) -> (r: (Vec<Packet>, Vec<Packet>))
    ensures
        packet_views(r.0@) == header_packets(bytes@),
        r.0@.len() == 3 ==> packet_views(r.1@) == later_packets(bytes@),
{
    let mut pages = open_pages(bytes);
    let ghost all = ogg_packets(bytes@);
    let mut head: Vec<Packet> = Vec::new();
    let none: Vec<Packet> = Vec::new();
    assert(packet_views(head@) =~= Seq::empty());
    let first = match next_page_packet(&mut pages) {
        Some(p) => p,
        None => {
            return (head, none);
        },
    };
    let serial: u32 = first.serial;
    head.push(first);
    assert(packet_views(head@) =~= seq![all[0]]);
    match next_header(&mut pages, serial) {
        Some(p) => {
            head.push(p);
        },
        None => {
            return (head, none);
        },
    }
    assert(packet_views(head@) =~= seq![all[0], all[header_places(all).0]]);
    match next_header(&mut pages, serial) {
        Some(p) => {
            head.push(p);
        },
        None => {
            return (head, none);
        },
    }
    assert(packet_views(head@) =~= header_packets(bytes@));
    drop_unread(&mut pages);
    let ghost behind = packets_left(pages);
    let mut rest: Vec<Packet> = Vec::new();
    assert(packet_views(rest@) + packets_left(pages) =~= behind);
    loop
        invariant
            head@.len() == 3,
            packet_views(head@) == header_packets(bytes@),
            behind == later_packets(bytes@),
            packet_views(rest@) + packets_left(pages) =~= behind,
        decreases packets_left(pages).len(),
    {
        match next_page_packet(&mut pages) {
            Some(p) => {
                let ghost before = rest@;
                rest.push(p);
                assert(packet_views(rest@) =~= packet_views(before).push(p@));
            },
            None => {
                assert(packet_views(rest@) =~= behind);
                return (head, rest);
            },
        }
    }
}

/// Samples of so many channels can be counted up to the position of the packet
/// `k`, and beyond it, where it is there.
pub open spec fn countable(p: Seq<PacketView>, k: int, channels: u8) -> bool {
    k < p.len() ==> p[k].position < 0x8000_0000_0000_0000 && p[k].position * channels
        <= usize::MAX
}

/// A decoder can follow the packet `k` as one that opens a stream, with the two
/// headers and the two packets of sound behind it, as far as they are there.
pub open spec fn opening_sound(p: Seq<PacketView>, k: int) -> bool {
    is_ident(p[k].data) ==> {
        &&& k + 1 < p.len() ==> comment_sound(p[k + 1].data)
        &&& k + 2 < p.len() ==> {
            &&& setup_sound(p[k + 2].data, p[k].data)
            &&& countable(p, k + 3, p[k].data[11])
            &&& countable(p, k + 4, p[k].data[11])
        }
    }
}

/// A decoder can follow the packets from `k` on, the stream `serial` with so
/// many channels being played. The packets of other streams are passed over
/// up to one that opens a stream. The two behind it are then taken as its
/// headers and the next two as its first packets of sound, whatever stream
/// they are of, and it is played from then on.
pub open spec fn rest_sound(p: Seq<PacketView>, k: int, serial: u32, channels: u8) -> bool
    decreases
            if k < p.len() {
                p.len() - k
            } else {
                0
            },
{
    if k >= p.len() {
        true
    } else if p[k].serial == serial {
        countable(p, k, channels) && rest_sound(p, k + 1, serial, channels)
    } else if !p[k].first {
        rest_sound(p, k + 1, serial, channels)
    } else {
        opening_sound(p, k) && (is_ident(p[k].data) && k + 2 < p.len() ==> rest_sound(
            p,
            k + 5,
            p[k + 2].serial,
            p[k].data[11],
        ))
    }
}

/// A decoder can follow a stream with these headers, as far as they are there,
/// and these packets behind them.
pub open spec fn sound_packets(head: Seq<PacketView>, rest: Seq<PacketView>) -> bool {
    head.len() > 0 && is_ident(head[0].data) ==> {
        &&& head.len() > 1 ==> comment_sound(head[1].data)
        &&& head.len() > 2 ==> {
            &&& setup_sound(head[2].data, head[0].data)
            &&& rest_sound(rest, 0, head[2].serial, head[0].data[11])
        }
    }
}

/// A decoder can follow the packets of the bytes.
pub open spec fn followable(bytes: Seq<u8>) -> bool {
    sound_packets(header_packets(bytes), later_packets(bytes))
}

fn test_countable(p: &Vec<Packet>, k: usize, channels: u8) -> (r: bool)
    ensures
        r == countable(packet_views(p@), k as int, channels),
{
    if k >= p.len() {
        return true;
    }
    assert(packet_views(p@)[k as int] == p@[k as int]@);
    let position: u64 = p[k].position;
    proof {
        assert(0 <= position * channels <= 0x8000_0000_0000_0000 * 255 || position
            >= 0x8000_0000_0000_0000) by (nonlinear_arith)
            requires
                0 <= position,
                0 <= channels <= 255,
        ;
    }
    position < 0x8000_0000_0000_0000 && position as u128 * channels as u128 <= usize::MAX as u128
}

fn test_opening(p: &Vec<Packet>, k: usize) -> (r: bool)
    requires
        k < p@.len(),
    ensures
        r == opening_sound(packet_views(p@), k as int),
{
    let ghost v = packet_views(p@);
    assert(v[k as int] == p@[k as int]@);
    if !test_ident(&p[k].data) {
        return true;
    }
    let left: usize = p.len() - k;
    if left > 1 {
        assert(v[k + 1] == p@[k + 1]@);
        if !test_comment(&p[k + 1].data) {
            return false;
        }
    }
    if left > 2 {
        assert(v[k + 2] == p@[k + 2]@);
        let channels: u8 = p[k].data[11];
        if !test_setup(&p[k + 2].data, &p[k].data) {
            return false;
        }
        if left > 3 && !test_countable(p, k + 3, channels) {
            return false;
        }
        if left > 4 && !test_countable(p, k + 4, channels) {
            return false;
        }
    }
    true
}

fn test_rest(p: &Vec<Packet>, first_serial: u32, first_channels: u8) -> (r: bool)
    ensures
        r == rest_sound(packet_views(p@), 0, first_serial, first_channels),
{
    let ghost v = packet_views(p@);
    let mut k: usize = 0;
    let mut serial: u32 = first_serial;
    let mut channels: u8 = first_channels;
    while k < p.len()
        invariant
            k <= p@.len(),
            v == packet_views(p@),
            rest_sound(v, 0, first_serial, first_channels) == rest_sound(
                v,
                k as int,
                serial,
                channels,
            ),
        decreases p@.len() - k,
    {
        assert(v[k as int] == p@[k as int]@);
        if p[k].serial == serial {
            if !test_countable(p, k, channels) {
                return false;
            }
            k += 1;
        } else if !p[k].first {
            k += 1;
        } else {
            if !test_opening(p, k) {
                return false;
            }
            let left: usize = p.len() - k;
            if !test_ident(&p[k].data) || left <= 2 {
                return true;
            }
            assert(v[k + 2] == p@[k + 2]@);
            serial = p[k + 2].serial;
            channels = p[k].data[11];
            if left <= 5 {
                assert(rest_sound(v, k + 5, serial, channels));
                return true;
            }
            k += 5;
        }
    }
    true
}

/// Whether a decoder can follow a stream with these headers and these packets
/// behind them.
pub fn can_follow(head: &Vec<Packet>, rest: &Vec<Packet>) -> (r: bool)
    ensures
        r == sound_packets(packet_views(head@), packet_views(rest@)),
{
    if head.len() == 0 {
        return true;
    }
    assert(packet_views(head@)[0] == head@[0]@);
    if !test_ident(&head[0].data) {
        return true;
    }
    if head.len() > 1 {
        assert(packet_views(head@)[1] == head@[1]@);
        if !test_comment(&head[1].data) {
            return false;
        }
    }
    if head.len() > 2 {
        assert(packet_views(head@)[2] == head@[2]@);
        return test_setup(&head[2].data, &head[0].data) && test_rest(
            rest,
            head[2].serial,
            head[0].data[11],
        );
    }
    true
}

// Decoding.

/// A stream of sound: a `lewton::inside_ogg::OggStreamReader` over bytes.
#[verifier::external_body]
pub struct PacketStream {
    reader: lewton::inside_ogg::OggStreamReader<std::io::Cursor<Vec<u8>>>,
}

#[verifier::external_type_specification]
#[verifier::external_body]
pub struct ExVorbisError(lewton::VorbisError);

/// What a stream gives, but for its samples: the channels and rate of its
/// header, how many samples each packet has, and what is wrong behind the last
/// of them, if anything.
pub struct Outline {
    pub channels: u8,
    pub sample_rate: u32,
    pub lengths: Seq<nat>,
    pub fault: Option<Seq<char>>,
}

/// What a stream still gives.
pub uninterp spec fn outline_left(s: PacketStream) -> Outline;

/// The samples of each packet that this stream still gives. It is a name for
/// what one reader gives: two that read the same bytes, on two machines, may
/// differ in it.
pub uninterp spec fn samples_left(s: PacketStream) -> Seq<Seq<i16>>;

/// The bytes that a stream is read from.
pub uninterp spec fn stream_source(s: PacketStream) -> Seq<u8>;

/// What `lewton::inside_ogg::OggStreamReader::new` finds in bytes, or the text
/// of its error.
pub uninterp spec fn ogg_outline(bytes: Seq<u8>) -> Result<Outline, Seq<char>>;

/// What a `lewton::VorbisError` says of itself.
pub uninterp spec fn vorbis_error_text(e: lewton::VorbisError) -> Seq<char>;

/// What opens as the outline `o` of a stream has the channels and the rate of
/// the first packet, which is a header.
pub open spec fn outline_of(p: Seq<PacketView>, o: Outline) -> bool {
    &&& p.len() > 0
    &&& is_ident(p[0].data)
    &&& o.channels == p[0].data[11]
    &&& o.sample_rate == le32_at(p[0].data, 12)
}

/// `lewton::inside_ogg::OggStreamReader::new` over bytes whose packets can be
/// followed: a stream whose header is the first packet, or an error, of which
/// only the named result is said.
#[verifier::external_body]
fn open_stream(bytes: Vec<u8>) -> (r: Result<PacketStream, lewton::VorbisError>)
    requires
        followable(bytes@),
    ensures
        match r {
            Ok(s) => {
                &&& ogg_outline(bytes@) == Ok::<Outline, Seq<char>>(outline_left(s))
                &&& outline_of(ogg_packets(bytes@), outline_left(s))
                &&& stream_source(s) == bytes@
            },
            Err(e) => ogg_outline(bytes@) == Err::<Outline, Seq<char>>(vorbis_error_text(e)),
        },
{
    lewton::inside_ogg::OggStreamReader::new(std::io::Cursor::new(bytes)).map(
        |reader| PacketStream { reader },
    )
}

/// The fields `audio_channels` and `audio_sample_rate` of a reader's
/// `ident_hdr`.
#[verifier::external_body]
fn header(s: &PacketStream) -> (r: (u8, u32))
    ensures
        r.0 == outline_left(*s).channels,
        r.1 == outline_left(*s).sample_rate,
{
    (s.reader.ident_hdr.audio_channels, s.reader.ident_hdr.audio_sample_rate)
}

/// No other stream is opened behind the headers.
pub open spec fn unchained(bytes: Seq<u8>) -> bool {
    forall|k: int| 0 <= k < later_packets(bytes).len() ==> !(#[trigger] later_packets(bytes)[k]).first
}

/// `OggStreamReader::read_dec_packet_itl` on a stream whose packets can be
/// followed: the samples of the next packet, nothing at the end of the stream,
/// or what is wrong there. A packet has a sample of every channel for each of
/// its frames. How many it has follows from the bytes. Which they are is not
/// said of the bytes, only of the stream: they are computed with sines and
/// cosines, whose last digits may differ from machine to machine. The header
/// stays as it is where no other stream is opened. Nothing is said of the
/// stream behind an error.
#[verifier::external_body]
fn next_packet(s: &mut PacketStream) -> (r: Result<Option<Vec<i16>>, lewton::VorbisError>)
    requires
        followable(stream_source(*old(s))),
    ensures
        r is Ok ==> stream_source(*final(s)) == stream_source(*old(s)),
        ({
            let o = outline_left(*old(s));
            let t = outline_left(*final(s));
            let left = samples_left(*old(s));
            match r {
                Ok(Some(p)) => {
                    &&& o.lengths.len() > 0
                    &&& p@.len() == o.lengths[0]
                    &&& t.lengths == o.lengths.skip(1)
                    &&& t.fault == o.fault
                    &&& left.len() > 0
                    &&& p@ == left[0]
                    &&& samples_left(*final(s)) == left.skip(1)
                    &&& t.channels > 0
                    &&& p@.len() % (t.channels as nat) == 0
                    &&& unchained(stream_source(*old(s))) ==> t.channels == o.channels
                },
                Ok(None) => o.lengths.len() == 0 && left.len() == 0 && o.fault is None,
                Err(e) => o.lengths.len() == 0 && left.len() == 0 && o.fault == Some(
                    vorbis_error_text(e),
                ),
            }
        }),
{
    s.reader.read_dec_packet_itl()
}

/// `lewton::VorbisError::to_string`.
#[verifier::external_body]
fn describe(e: &lewton::VorbisError) -> (r: String)
    ensures
        r@ == vorbis_error_text(*e),
{
    e.to_string()
}

/// Decoded sound.
#[derive(Debug)]
pub struct Decoded {
    /// Interleaved 16-bit samples.
    pub pcm: Vec<i16>,
    pub channels: u32,
    pub sample_rate: u32,
}

/// The samples of packets, one after the other.
pub open spec fn joined(packets: Seq<Seq<i16>>) -> Seq<i16>
    decreases packets.len(),
{
    if packets.len() == 0 {
        Seq::empty()
    } else {
        packets[0] + joined(packets.skip(1))
    }
}

/// The samples of each packet.
pub open spec fn samples(packets: Seq<Vec<i16>>) -> Seq<Seq<i16>> {
    packets.map_values(|p: Vec<i16>| p@)
}

/// What the packets of a stream come to: all their samples, or an error where
/// something was wrong behind the last of them.
pub open spec fn collects_to(
    packets: Seq<Seq<i16>>,
    fault: Option<Seq<char>>,
    channels: u8,
    sample_rate: u32,
    r: Result<Decoded, String>,
) -> bool {
    match fault {
        None => r matches Ok(d) && d.pcm@ == joined(packets) && d.channels == channels
            && d.sample_rate == sample_rate,
        Some(why) => r matches Err(e) && e@ == "lewton decode: "@ + why,
    }
}

/// Put together what the packets of a stream gave, and what was wrong behind
/// the last of them, if anything.
pub fn collected(
    packets: Vec<Vec<i16>>,
    fault: Option<String>,
    channels: u8,
    sample_rate: u32,
) -> (r: Result<Decoded, String>)
    ensures
        collects_to(
            samples(packets@),
            match fault {
                Some(why) => Some(why@),
                None => None,
            },
            channels,
            sample_rate,
            r,
        ),
{
    if let Some(why) = fault {
        return Err(join("lewton decode: ", why.as_str()));
    }
    let ghost all = samples(packets@);
    let mut pcm: Vec<i16> = Vec::new();
    let mut i: usize = 0;
    assert(all.skip(0) =~= all);
    assert(pcm@ + joined(all.skip(0)) =~= joined(all));
    while i < packets.len()
        invariant
            0 <= i <= packets@.len(),
            all == samples(packets@),
            pcm@ + joined(all.skip(i as int)) =~= joined(all),
        decreases packets@.len() - i,
    {
        let ghost before = pcm@;
        extend(&mut pcm, &packets[i]);
        proof {
            assert(all.skip(i as int)[0] == packets@[i as int]@);
            assert(all.skip(i as int).skip(1) =~= all.skip(i + 1));
            assert(pcm@ + joined(all.skip(i + 1)) =~= before + joined(all.skip(i as int)));
        }
        i += 1;
    }
    assert(all.skip(i as int) =~= Seq::empty());
    assert(pcm@ =~= joined(all));
    Ok(Decoded { pcm, channels: channels as u32, sample_rate })
}

fn extend(to: &mut Vec<i16>, with: &Vec<i16>)
    ensures
        final(to)@ == old(to)@ + with@,
{
    let ghost o = to@;
    let mut i: usize = 0;
    assert(to@ =~= o + with@.take(0));
    while i < with.len()
        invariant
            0 <= i <= with@.len(),
            to@ =~= o + with@.take(i as int),
        decreases with@.len() - i,
    {
        to.push(with[i]);
        i += 1;
    }
    assert(with@.take(i as int) =~= with@);
}

/// `s` is a stream of the bytes as it was opened: with this outline, and with
/// as many samples in each packet as that says.
pub open spec fn opened(s: PacketStream, bytes: Seq<u8>, o: Outline) -> bool {
    &&& stream_source(s) == bytes
    &&& outline_left(s) == o
    &&& samples_left(s).len() == o.lengths.len()
    &&& forall|i: int|
        0 <= i < o.lengths.len() ==> (#[trigger] samples_left(s)[i]).len() == o.lengths[i]
}

/// What decoding comes to: the samples of a stream of the bytes, put together,
/// or its error.
pub open spec fn decoded_as(bytes: Seq<u8>, r: Result<Decoded, String>) -> bool {
    match ogg_outline(bytes) {
        Ok(o) => exists|s: PacketStream|
            #[trigger] opened(s, bytes, o) && collects_to(
                samples_left(s),
                o.fault,
                o.channels,
                o.sample_rate,
                r,
            ),
        Err(why) => r matches Err(e) && e@ == "lewton init: "@ + why,
    }
}

/// All packets have whole frames of so many channels.
pub open spec fn whole_frames(packets: Seq<Seq<i16>>, channels: u8) -> bool {
    forall|i: int|
        0 <= i < packets.len() ==> (#[trigger] packets[i]).len() % (channels as nat) == 0
}

proof fn lemma_joined_frames(packets: Seq<Seq<i16>>, channels: u8)
    requires
        channels > 0,
        whole_frames(packets, channels),
    ensures
        joined(packets).len() % (channels as nat) == 0,
    decreases packets.len(),
{
    if packets.len() > 0 {
        let rest = packets.skip(1);
        assert forall|i: int| 0 <= i < rest.len() implies (#[trigger] rest[i]).len() % (
        channels as nat) == 0 by {
            assert(rest[i] == packets[i + 1]);
        }
        lemma_joined_frames(rest, channels);
        vstd::arithmetic::div_mod::lemma_mod_adds(
            packets[0].len() as int,
            joined(rest).len() as int,
            channels as int,
        );
        assert(packets[0].len() % (channels as nat) == 0);
        assert(joined(packets).len() == packets[0].len() + joined(rest).len());
    } else {
        vstd::arithmetic::div_mod::lemma_small_mod(0, channels as nat);
    }
}

/// Decode a stream to interleaved samples. Bytes whose packets no decoder can
/// follow are refused before anything is decoded. Where the bytes are one
/// stream, the samples are whole frames of its channels.
pub fn decode(ogg: Vec<u8>) -> (r: Result<Decoded, String>)
    ensures
        !followable(ogg@) ==> (r matches Err(e) && e@ == "ogg: the headers cannot be followed"@),
        followable(ogg@) ==> {
            &&& decoded_as(ogg@, r)
            &&& ogg_outline(ogg@) matches Ok(o) ==> outline_of(ogg_packets(ogg@), o)
        },
        r matches Ok(d) ==> unchained(ogg@) ==> d.channels > 0 && d.pcm@.len() % (
        d.channels as nat) == 0,
{
    let (head, rest) = read_pages(ogg.clone());
    if !can_follow(&head, &rest) {
        return Err("ogg: the headers cannot be followed".to_owned());
    }
    let mut s = match open_stream(ogg) {
        Ok(s) => s,
        Err(e) => {
            return Err(join("lewton init: ", describe(&e).as_str()));
        },
    };
    let (channels, sample_rate) = header(&s);
    let ghost s0 = s;
    let ghost o = outline_left(s);
    let mut packets: Vec<Vec<i16>> = Vec::new();
    assert(samples(packets@) + samples_left(s) =~= samples_left(s0));
    assert(o.lengths.skip(0) =~= o.lengths);
    loop
        invariant
            followable(ogg@),
            stream_source(s0) == ogg@,
            stream_source(s) == ogg@,
            outline_left(s0) == o,
            ogg_outline(ogg@) == Ok::<Outline, Seq<char>>(o),
            outline_of(ogg_packets(ogg@), o),
            channels == o.channels,
            channels > 0,
            sample_rate == o.sample_rate,
            packets@.len() <= o.lengths.len(),
            outline_left(s).lengths == o.lengths.skip(packets@.len() as int),
            outline_left(s).fault == o.fault,
            unchained(ogg@) ==> outline_left(s).channels == o.channels,
            unchained(ogg@) ==> whole_frames(samples(packets@), channels),
            samples(packets@) + samples_left(s) =~= samples_left(s0),
            forall|i: int|
                0 <= i < packets@.len() ==> (#[trigger] samples(packets@)[i]).len()
                    == o.lengths[i],
        decreases outline_left(s).lengths.len(),
    {
        let ghost n = packets@.len() as int;
        match next_packet(&mut s) {
            Ok(Some(packet)) => {
                let ghost before = packets@;
                packets.push(packet);
                assert(samples(packets@) =~= samples(before).push(packet@));
                assert(o.lengths.skip(n).skip(1) =~= o.lengths.skip(n + 1));
                assert(o.lengths.skip(n)[0] == o.lengths[n]);
            },
            Ok(None) => {
                assert(samples(packets@) =~= samples_left(s0));
                let r = collected(packets, None, channels, sample_rate);
                assert(opened(s0, ogg@, o));
                proof {
                    if unchained(ogg@) {
                        lemma_joined_frames(samples(packets@), channels);
                    }
                }
                return r;
            },
            Err(e) => {
                assert(samples(packets@) =~= samples_left(s0));
                let r = collected(packets, Some(describe(&e)), channels, sample_rate);
                assert(opened(s0, ogg@, o));
                return r;
            },
        }
    }
}

// Laws.

/// The blocks follow each other without gap or overlap, none is empty or
/// longer than it may be, and they end where the frames end.
pub proof fn blocks_cover_all_frames(pos: int, frames: int)
    requires
        0 <= pos <= frames,
    ensures
        ({
            let b = blocks_from(pos, frames);
            &&& b.len() == 0 <==> pos == frames
            &&& b.len() > 0 ==> b[0].0 == pos && b.last().1 == frames
            &&& forall|i: int| 0 <= i < b.len() ==> 0 < (#[trigger] b[i]).1 - b[i].0 <= 4096
            &&& forall|i: int, j: int|
                0 <= i && j == i + 1 && j < b.len() ==> (#[trigger] b[i]).1 == (#[trigger] b[j]).0
        }),
    decreases frames - pos,
{
    if pos < frames {
        let end = if pos + 4096 < frames {
            pos + 4096
        } else {
            frames
        };
        blocks_cover_all_frames(end, frames);
        let rest = blocks_from(end, frames);
        let b = blocks_from(pos, frames);
        assert(b =~= seq![(pos, end)] + rest);
        assert forall|i: int| 0 <= i < b.len() implies 0 < (#[trigger] b[i]).1 - b[i].0 <= 4096 by {
            if i > 0 {
                assert(b[i] == rest[i - 1]);
            }
        }
        assert forall|i: int, j: int| 0 <= i && j == i + 1 && j < b.len() implies (
        #[trigger] b[i]).1 == (#[trigger] b[j]).0 by {
            assert(b[j] == rest[j - 1]);
            if i > 0 {
                assert(b[i] == rest[i - 1]);
            }
        }
    }
}

} // verus!
