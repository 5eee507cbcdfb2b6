//! How samples and packets of sound are put apart and together, and how the
//! headers of a stream are read.
use vstd::prelude::*;

use vstd::arithmetic::power::pow;
use vstd::arithmetic::power2::lemma2_to64;
use vstd::arithmetic::power2::lemma_pow2_strictly_increases;
use vstd::arithmetic::power2::lemma_pow2_unfold;
use vstd::arithmetic::power2::pow2;

use crate::asset::ogg::channel_of;
use crate::asset::ogg::collects_to;
use crate::asset::ogg::countable;
use crate::asset::ogg::header_packets;
use crate::asset::ogg::header_places;
use crate::asset::ogg::joined;
use crate::asset::ogg::next_of;
use crate::asset::ogg::ogg_packets;
use crate::asset::ogg::rest_sound;
use crate::asset::ogg::Decoded;
use crate::asset::ogg::PacketView;
use crate::asset::vorbis::bits::field;
use crate::asset::vorbis::block_len;
use crate::asset::vorbis::books::root_from;
use crate::asset::vorbis::channels_in;
use crate::asset::vorbis::comments_at;
use crate::asset::vorbis::is_header;
use crate::asset::vorbis::is_ident;
use crate::asset::vorbis::le32_at;

verus! {

/// The channels of a block, taken in turn frame by frame, give back its samples.
pub proof fn channels_interleave_back<T>(s: Seq<T>, channels: int, pos: int, end: int)
    requires
        channels > 0,
        0 <= pos <= end,
        end * channels <= s.len(),
    ensures
        Seq::new(
            ((end - pos) * channels) as nat,
            |i: int| channel_of(s, channels, pos, end, i % channels)[i / channels],
        ) == s.subrange(pos * channels, end * channels),
{
    let n = (end - pos) * channels;
    assert(n == end * channels - pos * channels) by (nonlinear_arith)
        requires
            n == (end - pos) * channels,
    ;
    assert(0 <= n) by (nonlinear_arith)
        requires
            n == (end - pos) * channels,
            pos <= end,
            channels > 0,
    ;
    assert(0 <= pos * channels) by (nonlinear_arith)
        requires
            0 <= pos,
            channels > 0,
    ;
    let t = Seq::new(
        n as nat,
        |i: int| channel_of(s, channels, pos, end, i % channels)[i / channels],
    );
    let u = s.subrange(pos * channels, end * channels);
    assert forall|i: int| 0 <= i < n implies t[i] == u[i] by {
        let (f, c) = (i / channels, i % channels);
        vstd::arithmetic::div_mod::lemma_fundamental_div_mod(i, channels);
        vstd::arithmetic::div_mod::lemma_mod_bound(i, channels);
        assert(0 <= f < end - pos) by (nonlinear_arith)
            requires
                i == channels * f + c,
                0 <= c < channels,
                0 <= i < (end - pos) * channels,
                channels > 0,
        ;
        assert((pos + f) * channels + c == pos * channels + i) by (nonlinear_arith)
            requires
                i == channels * f + c,
        ;
    }
    assert(t =~= u);
}

/// The samples of packets stand one behind the other: those of one packet behind
/// all of the packets before it.
pub proof fn packets_are_joined_in_order(p: Seq<Seq<i16>>, i: int, j: int)
    requires
        0 <= i < p.len(),
        0 <= j < p[i].len(),
    ensures
        0 <= joined(p.take(i)).len() + j < joined(p).len(),
        joined(p)[joined(p.take(i)).len() + j] == p[i][j],
        joined(p).len() == joined(p.take(i)).len() + p[i].len() + joined(p.skip(i + 1)).len(),
    decreases i,
{
    let t = p.skip(1);
    if i == 0 {
        assert(p.take(0) =~= Seq::empty());
    } else {
        packets_are_joined_in_order(t, i - 1, j);
        assert(p.take(i)[0] == p[0]);
        assert(p.take(i).skip(1) =~= t.take(i - 1));
        assert(t.skip(i) =~= p.skip(i + 1));
        assert(t[i - 1] == p[i]);
        let k = joined(t.take(i - 1)).len() + j;
        assert(joined(p)[p[0].len() + k] == joined(t)[k]);
    }
}

/// A stream without a fault gives all its samples, with its channels and rate. A
/// fault is told, and no samples are given.
pub proof fn faults_are_told(
    p: Seq<Seq<i16>>,
    fault: Option<Seq<char>>,
    channels: u8,
    rate: u32,
    r: Result<Decoded, String>,
)
    requires
        collects_to(p, fault, channels, rate, r),
    ensures
        r is Ok <==> fault is None,
        r matches Ok(d) ==> d.pcm@ == joined(p) && d.channels == channels && d.sample_rate == rate,
        fault matches Some(why) ==> (r matches Err(e) && crate::text::ends_with(e@, why)),
{
    if let Some(why) = fault {
        let s = "lewton decode: "@ + why;
        assert(s.subrange(s.len() - why.len(), s.len() as int) =~= why);
    }
}

/// The next packet of a stream is the first from there on with its number.
pub proof fn the_next_packet_is_the_first(p: Seq<PacketView>, serial: u32, k: int)
    requires
        0 <= k <= p.len(),
    ensures
        k <= next_of(p, serial, k) <= p.len(),
        next_of(p, serial, k) < p.len() ==> p[next_of(p, serial, k)].serial == serial,
        forall|j: int| k <= j < next_of(p, serial, k) ==> (#[trigger] p[j]).serial != serial,
    decreases p.len() - k,
{
    if k < p.len() && p[k].serial != serial {
        the_next_packet_is_the_first(p, serial, k + 1);
    }
}

/// The headers are the first three packets of one stream, that of the very first
/// packet, in the order they come, with no other packet of it between them.
pub proof fn headers_are_of_one_stream(bytes: Seq<u8>, i: int)
    ensures
        ({
            let p = ogg_packets(bytes);
            let h = header_packets(bytes);
            &&& h.len() <= 3 && h.len() <= p.len()
            &&& 0 <= i < h.len() ==> h[i].serial == p[0].serial && p.contains(h[i])
            &&& h.len() > 0 ==> h[0] == p[0]
            &&& h.len() < 3 ==> forall|k: int|
                (header_places(p).1 <= k || h.len() < 2) && 1 <= k < p.len() ==> (
                #[trigger] p[k]).serial != p[0].serial
        }),
{
    let p = ogg_packets(bytes);
    let h = header_packets(bytes);
    if p.len() > 0 {
        let (second, third) = header_places(p);
        the_next_packet_is_the_first(p, p[0].serial, 1);
        assert(p.contains(p[0]));
        if second < p.len() {
            the_next_packet_is_the_first(p, p[0].serial, second + 1);
            assert(p.contains(p[second]));
            if third < p.len() {
                assert(p.contains(p[third]));
            }
        }
    }
}

/// Where no packet opens another stream, a stream can be followed where every
/// position in it can be counted. The packets of other streams do not matter.
pub proof fn one_stream_is_followed(p: Seq<PacketView>, k: int, serial: u32, channels: u8)
    requires
        0 <= k,
        forall|j: int| k <= j < p.len() ==> !(#[trigger] p[j]).first,
    ensures
        rest_sound(p, k, serial, channels) <==> forall|j: int|
            k <= j < p.len() && (#[trigger] p[j]).serial == serial ==> p[j].position
                < 0x8000_0000_0000_0000 && p[j].position * channels <= usize::MAX,
    decreases p.len() - k,
{
    if k < p.len() {
        one_stream_is_followed(p, k + 1, serial, channels);
        assert(p[k].serial == serial ==> (countable(p, k, channels) <==> p[k].position
            < 0x8000_0000_0000_0000 && p[k].position * channels <= usize::MAX));
        if rest_sound(p, k, serial, channels) {
            assert forall|j: int|
                k <= j < p.len() && (#[trigger] p[j]).serial == serial implies p[j].position
                < 0x8000_0000_0000_0000 && p[j].position * channels <= usize::MAX by {
                if j > k {
                    assert(rest_sound(p, k + 1, serial, channels));
                }
            }
        }
    }
}

// Headers.

/// A field of bits is made of its parts: the first ones are the lowest.
pub proof fn fields_are_made_of_parts(d: Seq<u8>, p: int, a: nat, b: nat)
    ensures
        field(d, p, a + b) == field(d, p, a) + pow2(a) * field(d, p + a, b),
    decreases a,
{
    lemma2_to64();
    if a == 0 {
        assert(pow2(0) * field(d, p, b) == field(d, p, b));
    } else {
        let c = (a - 1) as nat;
        fields_are_made_of_parts(d, p + 1, c, b);
        lemma_pow2_unfold(a);
        let x = field(d, p + a, b);
        assert(2 * (pow2(c) * x) == (2 * pow2(c)) * x) by (nonlinear_arith);
        assert(p + 1 + c == p + a);
    }
}

/// The eight bits of a byte are its number.
pub proof fn bytes_are_their_bits(d: Seq<u8>, i: int)
    requires
        0 <= i < d.len(),
    ensures
        field(d, 8 * i, 8) == d[i],
{
    reveal_with_fuel(field, 9);
    let n = d[i] as int;
    let p = 8 * i;
    assert(p / 8 == i && (p + 1) / 8 == i && (p + 2) / 8 == i && (p + 3) / 8 == i && (p + 4) / 8
        == i && (p + 5) / 8 == i && (p + 6) / 8 == i && (p + 7) / 8 == i);
    assert(p % 8 == 0 && (p + 1) % 8 == 1 && (p + 2) % 8 == 2 && (p + 3) % 8 == 3 && (p + 4) % 8
        == 4 && (p + 5) % 8 == 5 && (p + 6) % 8 == 6 && (p + 7) % 8 == 7);
    lemma_byte(n);
}

proof fn lemma_byte(n: int)
    requires
        0 <= n < 256,
    ensures
        n == n % 2 + 2 * (n / 2 % 2) + 4 * (n / 4 % 2) + 8 * (n / 8 % 2) + 16 * (n / 16 % 2) + 32
            * (n / 32 % 2) + 64 * (n / 64 % 2) + 128 * (n / 128 % 2),
{
    lemma_half(n, 1);
    lemma_half(n, 2);
    lemma_half(n, 4);
    lemma_half(n, 8);
    lemma_half(n, 16);
    lemma_half(n, 32);
    lemma_half(n, 64);
    assert(n / 1 == n);
    assert(n / 128 % 2 == n / 128);
}

proof fn lemma_half(n: int, w: int)
    requires
        0 <= n,
        w > 0,
    ensures
        n / w == n / w % 2 + 2 * (n / (2 * w)),
{
    vstd::arithmetic::div_mod::lemma_div_denominator(n, w, 2);
    assert(w * 2 == 2 * w);
    vstd::arithmetic::div_mod::lemma_fundamental_div_mod(n / w, 2);
}

/// A number of four bytes has the lowest first.
pub proof fn numbers_have_the_lowest_byte_first(d: Seq<u8>, i: int)
    requires
        0 <= i,
        i + 4 <= d.len(),
    ensures
        le32_at(d, i) % 0x100 == d[i],
        le32_at(d, i) / 0x100_0000 == d[i + 3],
        field(d, 8 * i, 32) == le32_at(d, i),
{
    lemma2_to64();
    fields_are_made_of_parts(d, 8 * i, 8, 24);
    fields_are_made_of_parts(d, 8 * i + 8, 8, 16);
    fields_are_made_of_parts(d, 8 * i + 16, 8, 8);
    bytes_are_their_bits(d, i);
    bytes_are_their_bits(d, i + 1);
    bytes_are_their_bits(d, i + 2);
    bytes_are_their_bits(d, i + 3);
    assert(8 * (i + 1) == 8 * i + 8);
    assert(8 * (i + 2) == 8 * i + 16);
    assert(8 * (i + 3) == 8 * i + 24);
}

/// A first header that is taken has a channel, a rate, and blocks of 64 to 8192
/// samples, the short ones not longer than the long ones.
pub proof fn taken_headers_have_blocks(d: Seq<u8>)
    requires
        is_ident(d),
    ensures
        is_header(d, 1) && !is_header(d, 3) && !is_header(d, 5),
        d[11] > 0 && le32_at(d, 12) > 0,
        64 <= block_len(d, false) <= block_len(d, true) <= 8192,
{
    lemma2_to64();
    let (s, l) = ((d[28] % 16) as nat, (d[28] / 16) as nat);
    if 6 < s {
        lemma_pow2_strictly_increases(6, s);
    }
    if s < l {
        lemma_pow2_strictly_increases(s, l);
    }
    if l < 13 {
        lemma_pow2_strictly_increases(l, 13);
    }
}

/// Comments that are as long as they say lie in their header, however many there
/// are; a header that ends before one of them is not taken.
pub proof fn comments_lie_in_their_header(d: Seq<u8>, i: int, left: int)
    requires
        0 <= i,
        left > 0,
        comments_at(d, i, left),
    ensures
        i + 4 * left <= d.len(),
        le32_at(d, i) >= 0,
    decreases left,
{
    if left > 1 {
        assert(le32_at(d, i) >= 0);
        comments_lie_in_their_header(d, i + 4 + le32_at(d, i), left - 1);
    }
}

/// The root of a table is the greatest number whose power is at most the entries.
pub proof fn roots_are_the_greatest(v: int, entries: int, dims: nat)
    requires
        0 <= v <= entries,
        v == 0 || pow(v, dims) <= entries,
    ensures
        v <= root_from(v, entries, dims) <= entries,
        root_from(v, entries, dims) > 0 ==> pow(root_from(v, entries, dims), dims) <= entries,
        root_from(v, entries, dims) < entries ==> pow(root_from(v, entries, dims) + 1, dims)
            > entries,
    decreases entries - v,
{
    if v < entries && pow(v + 1, dims) <= entries {
        roots_are_the_greatest(v + 1, entries, dims);
    }
}

/// The channels of a submap are counted: as many as of all channels say it.
pub proof fn channels_are_counted(mux: Seq<u32>, s: int, n: nat)
    requires
        n <= mux.len(),
    ensures
        channels_in(mux, s, n) == mux.take(n as int).filter(|c: u32| c == s).len(),
        channels_in(mux, s, n) <= n,
    decreases n,
{
    reveal(Seq::filter);
    if n > 0 {
        channels_are_counted(mux, s, (n - 1) as nat);
        assert(mux.take(n as int).drop_last() =~= mux.take(n - 1));
    }
}

} // verus!
