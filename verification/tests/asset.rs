use gatherer_hub::adaptive::AdaptiveMixer;
use gatherer_hub::asset::ogg;
use gatherer_hub::asset::ttasset;
use gatherer_hub::asset::wlabank;
use gatherer_hub::asset::wlamodel;
use gatherer_hub::json::{Json, JsonNumber};
use gatherer_hub::navigator::model::{AssetMeta, Region, SectionKind};
use gatherer_hub::number::Real32;

fn num(x: f32) -> Real32 {
    Real32 { bits: x.to_bits() }
}

fn float(x: Real32) -> f32 {
    f32::from_bits(x.bits)
}

/// Ogg Vorbis bytes of interleaved samples.
fn encode_ogg(interleaved: &[f32], channels: u8, sample_rate: u32, quality: f32) -> Vec<u8> {
    encode_stream(interleaved, channels, sample_rate, quality, 7)
}

/// Ogg Vorbis bytes of interleaved samples, as the stream `serial`.
fn encode_stream(
    interleaved: &[f32],
    channels: u8,
    sample_rate: u32,
    quality: f32,
    serial: i32,
) -> Vec<u8> {
    let mut out = Vec::new();
    let mut encoder = vorbis_rs::VorbisEncoderBuilder::new(
        std::num::NonZeroU32::new(sample_rate).unwrap(),
        std::num::NonZeroU8::new(channels).unwrap(),
        &mut out,
    )
    .unwrap()
    .bitrate_management_strategy(vorbis_rs::VorbisBitrateManagementStrategy::QualityVbr {
        target_quality: quality,
    })
    .stream_serial(serial)
    .build()
    .unwrap();
    let ch = channels as usize;
    for (pos, end) in ogg::blocks(interleaved.len() / ch) {
        encoder.encode_audio_block(ogg::planar(interleaved, ch, pos, end)).unwrap();
    }
    encoder.finish().unwrap();
    out
}

fn numbers(v: &serde_json::Value) -> Vec<Real32> {
    v.as_array().unwrap().iter().map(|x| num(x.as_f64().unwrap() as f32)).collect()
}

fn words(v: &serde_json::Value) -> String {
    v.as_str().unwrap().to_string()
}

/// The recipe in a text.
fn recipe(text: &str) -> ttasset::Recipe {
    let doc: serde_json::Value = serde_json::from_str(text).unwrap();
    ttasset::Recipe {
        production_code: words(&doc["meta"]["productionCode"]),
        variant_name: words(&doc["meta"]["variantName"]),
        asset_name: words(&doc["meta"]["assetName"]),
        id: words(&doc["music"]["id"]),
        page_uuid: words(&doc["music"]["pageUuid"]),
        description: words(&doc["music"]["description"]),
        layers: doc["music"]["layers"]
            .as_array()
            .unwrap()
            .iter()
            .map(|l| ttasset::RecipeLayer {
                layer: l["layer"].as_u64().unwrap() as usize,
                formula_type: words(&l["formula"]["type"]),
                mood_factors: numbers(&l["formula"]["moodFactors"]),
                constant_values: numbers(&l["formula"]["constantValues"]),
                balancer_include_factors: numbers(&l["balancerIncludeFactors"]),
            })
            .collect(),
    }
}

#[test]
fn round_trip_ttasset() {
    let mut m = AdaptiveMixer::new();
    m.slot_params[0].steepness = num(0.45);
    m.slot_params[0].minimum = num(0.0);
    m.slot_params[0].maximum = num(1.0);
    m.slot_params[0].formula = 3;
    m.mood_weight[0][0] = num(0.5);
    m.balancer_mask[1][2] = num(0.7);
    let meta = AssetMeta {
        production_code: "TEST01".into(),
        variant_name: "Test".into(),
        asset_name: "Test".into(),
        ..Default::default()
    };
    let json = ttasset::to_json(&m, &meta, "music-uuid", "page-uuid");

    let mut m2 = AdaptiveMixer::new();
    let mut meta2 = AssetMeta::default();
    let (mid, pid) = ttasset::apply(recipe(&json), &mut m2, &mut meta2);

    assert_eq!(mid, "music-uuid");
    assert_eq!(pid, "page-uuid");
    assert_eq!(meta2.production_code, "TEST01");
    assert!((float(m2.slot_params[0].steepness) - 0.45).abs() < 1e-5);
    assert_eq!(m2.slot_params[0].formula, 3);
    assert!((float(m2.mood_weight[0][0]) - 0.5).abs() < 1e-5);
    assert!((float(m2.balancer_mask[1][2]) - 0.7).abs() < 1e-5);
}

#[test]
fn recipe_document_has_its_fields_in_order() {
    let m = AdaptiveMixer::new();
    let meta = AssetMeta { production_code: "C".into(), ..Default::default() };
    let text = ttasset::to_json(&m, &meta, "a", "b");
    let order = [
        "\"meta\"",
        "\"documentType\": \"asset\"",
        "\"assetType\": \"music\"",
        "\"documentFormatVersion\": 1",
        "\"productionCode\": \"C\"",
        "\"music\"",
        "\"id\": \"a\"",
        "\"pageUuid\": \"b\"",
        "\"tags\": []",
        "\"description\": \"\"",
        "\"layers\"",
        "\"layer\": 0",
        "\"type\": \"type1\"",
        "\"moodFactors\"",
        "\"constantNames\"",
        "\"constantValues\"",
        "\"balancerIncludeFactors\"",
    ];
    let mut at = 0;
    for word in order {
        let found = text[at..].find(word);
        assert!(found.is_some(), "{word} behind {at}");
        at += found.unwrap();
    }
    assert_eq!(ttasset::recipe_file(&meta), "C.ttasset");
}

#[test]
fn constants_stand_with_the_minimum_first() {
    let mut m = AdaptiveMixer::new();
    m.slot_params[4].minimum = num(0.25);
    m.slot_params[4].maximum = num(0.75);
    let r = ttasset::describe(&m, &AssetMeta::default(), "", "");
    assert_eq!(r.layers.len(), 8);
    assert_eq!(r.layers[4].constant_values[2], num(0.25));
    assert_eq!(r.layers[4].constant_values[3], num(0.75));
}

#[test]
fn formula_names_tell_formulas() {
    assert_eq!(ttasset::formula_type(3), "type3");
    assert_eq!(ttasset::formula_type(9), "type9");
    assert_eq!(ttasset::parse_formula_type("type3"), 3);
    assert_eq!(ttasset::parse_formula_type("typetype4"), 4);
    assert_eq!(ttasset::parse_formula_type("7"), 7);
    assert_eq!(ttasset::parse_formula_type("type+5"), 5);
    assert_eq!(ttasset::parse_formula_type("type0"), 1);
    assert_eq!(ttasset::parse_formula_type("type200"), 9);
    assert_eq!(ttasset::parse_formula_type("type256"), 1);
    assert_eq!(ttasset::parse_formula_type("type"), 1);
    assert_eq!(ttasset::parse_formula_type("type+"), 1);
    assert_eq!(ttasset::parse_formula_type("kind3"), 1);
}

#[test]
fn short_and_foreign_layers_leave_the_rest() {
    let mut m = AdaptiveMixer::new();
    let before = m.slot_params[1].steepness;
    let mut meta = AssetMeta { description: "kept".into(), ..Default::default() };
    let layer = |n: usize, values: Vec<Real32>| ttasset::RecipeLayer {
        layer: n,
        formula_type: "type6".into(),
        mood_factors: vec![num(0.5)],
        constant_values: values,
        balancer_include_factors: vec![num(0.1), num(0.2), num(0.3), num(0.4)],
    };
    let doc = ttasset::Recipe {
        production_code: "P".into(),
        variant_name: "V".into(),
        asset_name: "A".into(),
        id: "i".into(),
        page_uuid: "p".into(),
        description: "not taken".into(),
        layers: vec![layer(1, vec![num(0.9); 4]), layer(8, vec![num(0.9); 5])],
    };
    ttasset::apply(doc, &mut m, &mut meta);
    assert_eq!(m.slot_params[1].steepness, before);
    assert_eq!(m.slot_params[1].formula, 6);
    assert_eq!(m.mood_weight[0][1], num(0.5));
    assert_eq!(m.mood_weight[1][1], num(1.0));
    assert_eq!(m.balancer_mask[2][1], num(0.3));
    assert_eq!(meta.description, "kept");
    assert_eq!(meta.asset_name, "A");
}

#[test]
fn wlabank_write_read_smoke() {
    let sr = 48_000u32;
    let sine: Vec<f32> =
        (0..(sr as usize / 10) * 2).map(|i| (i as f32 * 0.01).sin() * 0.3).collect();
    let silence: Vec<f32> = vec![0.0f32; sr as usize / 5 * 2];

    let ogg1 = encode_ogg(&sine, 2, sr, 0.5);
    let ogg2 = encode_ogg(&silence, 2, sr, 0.5);

    let clips = vec![
        wlabank::BankClip {
            clip_name: "module_TEST.wlabank/i1".into(),
            channels: 2,
            sample_rate: sr,
            frame_count: (sine.len() / 2) as u64,
            ogg: ogg1.clone(),
        },
        wlabank::BankClip {
            clip_name: "module_TEST.wlabank/m1".into(),
            channels: 2,
            sample_rate: sr,
            frame_count: (silence.len() / 2) as u64,
            ogg: ogg2.clone(),
        },
    ];

    let bytes = wlabank::encode(&clips);
    assert_eq!(wlabank::encoded_len(&clips), Some(bytes.len() as u32));
    assert_eq!(&bytes[..4], b"FORM");
    assert_eq!(&bytes[8..12], b"WLAB");

    let parsed = wlabank::parse(&bytes).unwrap();
    assert_eq!(parsed.len(), 2);
    assert_eq!(parsed[0].clip_name, "module_TEST.wlabank/i1");
    assert_eq!(parsed[0].channels, 2);
    assert_eq!(parsed[0].sample_rate, sr);
    assert_eq!(parsed[0].frame_count, (sine.len() / 2) as u64);
    assert_eq!(parsed[0].ogg.as_deref(), Some(ogg1.as_slice()));
    assert_eq!(parsed[1].ogg.as_deref(), Some(ogg2.as_slice()));
}

#[test]
fn banks_that_are_none_are_refused() {
    assert!(wlabank::parse(b"").is_err());
    assert!(wlabank::parse(b"FORM\0\0\0\x04JUNK").is_err());
    assert!(wlabank::parse(b"JUNK\0\0\0\x04WLAB").is_err());
}

#[test]
fn broken_names_in_a_bank_are_read_with_marks() {
    let clip = wlabank::BankClip {
        clip_name: "ab".into(),
        channels: 1,
        sample_rate: 8000,
        frame_count: 3,
        ogg: vec![1, 2, 3],
    };
    let mut bytes = wlabank::encode(&[clip]);
    let at = bytes.windows(2).position(|w| w == b"ab").unwrap();
    bytes[at] = 0xff;
    let parsed = wlabank::parse(&bytes).unwrap();
    assert_eq!(parsed[0].clip_name, "\u{fffd}b");
}

#[test]
fn ogg_round_trip_rms() {
    let sr = 48_000u32;
    let n = (sr as f32 * 0.5) as usize;
    let mut pcm = Vec::with_capacity(n * 2);
    for i in 0..n {
        let s = (2.0 * std::f32::consts::PI * 440.0 * i as f32 / sr as f32).sin() * 0.5;
        pcm.push(s);
        pcm.push(s);
    }
    let encoded = encode_ogg(&pcm, 2, sr, 0.6);
    assert!(encoded.starts_with(b"OggS"), "must start with Ogg magic");
    let decoded = ogg::decode(encoded).expect("decode");
    assert_eq!(decoded.channels, 2);
    assert_eq!(decoded.sample_rate, sr);
    let samples: Vec<f32> = decoded.pcm.iter().map(|&s| s as f32 / 32768.0).collect();
    let rms =
        |s: &[f32]| -> f32 { (s.iter().map(|&x| x * x).sum::<f32>() / s.len() as f32).sqrt() };
    let ratio_db = 20.0 * (rms(&samples) / rms(&pcm).max(1e-9)).log10();
    assert!(
        ratio_db.abs() < 3.0,
        "decoded RMS should be within ±3 dB of source, got {ratio_db:.1} dB"
    );
}

#[test]
fn values_are_widened_exactly() {
    for bits in [
        0u32, 1, 2, 3, 0x1234, 0x7f_ffff, 0x80_0000, 0x80_0001, 0x3f80_0000, 0x3fc0_0001,
        0x7f7f_ffff, 0x8000_0000, 0x8000_0001, 0xbf80_0000, 0xff7f_ffff,
    ] {
        let wide = (f32::from_bits(bits) as f64).to_bits();
        match Json::real32(Real32 { bits }) {
            Json::Number(n) => assert_eq!(n, JsonNumber::Real(wide), "{bits:x}"),
            other => panic!("{other:?}"),
        }
    }
    for bits in [0x7f80_0000u32, 0xff80_0000, 0x7fc0_0000] {
        match Json::real32(Real32 { bits }) {
            Json::Number(n) => assert_eq!(n, JsonNumber::Real(u64::MAX)),
            other => panic!("{other:?}"),
        }
    }
}

#[test]
fn sound_that_is_none_is_refused() {
    let e = ogg::decode(b"not a stream".to_vec()).unwrap_err();
    assert!(e.starts_with("lewton init: "), "{e}");
    let mut cut = encode_ogg(&vec![0.25f32; 48_000], 2, 48_000, 0.5);
    let last = cut.len() - 20;
    cut[last] ^= 0xff;
    let e = ogg::decode(cut).unwrap_err();
    assert!(e.starts_with("lewton decode: "), "{e}");
}

/// The packets of a stream, those behind the headers as the decoder gets them.
fn packets_of(bytes: &[u8]) -> (Vec<ogg::Packet>, Vec<ogg::Packet>) {
    let mut reader = ::ogg::PacketReader::new(std::io::Cursor::new(bytes.to_vec()));
    let mut out = Vec::new();
    while let Ok(Some(p)) = reader.read_packet() {
        out.push(ogg::Packet {
            first: p.first_in_stream(),
            serial: p.stream_serial(),
            position: p.absgp_page(),
            data: p.data,
        });
        if out.len() == 3 {
            reader.delete_unread_packets();
        }
    }
    let rest = out.split_off(3);
    (out, rest)
}

#[test]
fn encoded_streams_can_be_followed() {
    for channels in [1u8, 2, 3, 6, 8] {
        for rate in [8_000u32, 16_000, 22_050, 32_000, 44_100, 48_000, 96_000] {
            for quality in [-0.1f32, 0.0, 0.3, 0.5, 0.8, 1.0] {
                let frames = 3_000;
                let pcm: Vec<f32> = (0..frames * channels as usize)
                    .map(|i| ((i * 7919) % 1000) as f32 / 1000.0 - 0.5)
                    .collect();
                let bytes = encode_ogg(&pcm, channels, rate, quality);
                let (head, rest) = packets_of(&bytes);
                assert!(
                    ogg::can_follow(&head, &rest),
                    "{channels} channels, {rate} Hz, quality {quality}"
                );
                let decoded = ogg::decode(bytes).unwrap();
                assert_eq!((decoded.channels, decoded.sample_rate), (channels as u32, rate));
                assert_eq!(decoded.pcm.len() % channels as usize, 0);
                assert!(decoded.pcm.len() >= frames * channels as usize);
            }
        }
    }
}

#[test]
fn chained_streams_can_be_followed() {
    let pcm = vec![0.25f32; 9_600];
    let first = encode_stream(&pcm, 2, 48_000, 0.5, 1);
    let one = ogg::decode(first.clone()).unwrap().pcm.len();
    let chain = |serial| {
        let mut bytes = first.clone();
        bytes.extend(encode_stream(&pcm, 2, 48_000, 0.5, serial));
        bytes
    };
    assert_eq!(packets_of(&chain(2)).1.iter().filter(|p| p.first).count(), 1);
    let both = ogg::decode(chain(2)).unwrap();
    assert!(both.pcm.len() > one);
    assert_eq!((both.channels, both.sample_rate), (2, 48_000));
    // A header of the stream itself is no sound.
    let e = ogg::decode(chain(1)).unwrap_err();
    assert!(e.starts_with("lewton decode: "), "{e}");
}

#[test]
fn packets_that_cannot_be_followed_are_refused() {
    let follows_in = |bytes: &[u8], change: &dyn Fn(&mut Vec<ogg::Packet>, &mut Vec<ogg::Packet>)| {
        let (mut head, mut rest) = packets_of(bytes);
        change(&mut head, &mut rest);
        ogg::can_follow(&head, &rest)
    };
    let bytes = encode_ogg(&vec![0.25f32; 9_600], 2, 48_000, 0.5);
    let follows = |change: &dyn Fn(&mut Vec<ogg::Packet>, &mut Vec<ogg::Packet>)| {
        follows_in(&bytes, change)
    };
    assert!(follows(&|_, _| {}));
    assert!(follows(&|head, _| head.clear()));
    // Positions from which samples cannot be counted.
    assert!(follows(&|_, rest| rest[0].position = (1 << 63) - 1));
    assert!(!follows(&|_, rest| rest[0].position = 1 << 63));
    let three = encode_ogg(&vec![0.25f32; 9_600], 3, 48_000, 0.5);
    assert!(follows_in(&three, &|_, rest| rest[0].position = u64::MAX / 3));
    assert!(!follows_in(&three, &|_, rest| rest[0].position = u64::MAX / 3 + 1));
    // Those of a stream that is passed over do not count.
    assert!(follows(&|_, rest| {
        rest[0].position = 1 << 63;
        rest[0].serial ^= 1;
    }));
    // A comment that claims more than there is, a codebook without its mark.
    assert!(!follows(&|head, _| head[1].data[10] = 0x7f));
    assert!(!follows(&|head, _| head[2].data[8] ^= 1));
    // Cut headers, and what is no such stream, are left to the decoder.
    assert!(follows(&|head, _| head.truncate(2)));
    for (at, value) in [(1, 0), (7, 1), (11, 0), (28, 0x85), (28, 0x68), (28, 0xe8), (29, 0)] {
        assert!(follows(&|head, _| {
            head[0].data[at] = value;
            head[2].data[8] ^= 1;
        }));
    }
    // The headers of a stream behind the first are tested too, where it is
    // another one.
    let chained = |serial: u32, flip: u8, position: u64| {
        follows(&|_, rest| {
            let (mut more, sound) = packets_of(&bytes);
            more[2].data[8] ^= flip;
            more.extend(sound);
            more[4].position = position;
            for p in &mut more {
                p.serial = serial;
            }
            rest.append(&mut more);
        })
    };
    let own = packets_of(&bytes).0[0].serial;
    assert!(chained(own + 1, 0, 0));
    assert!(!chained(own + 1, 1, 0));
    assert!(!chained(own + 1, 0, 1 << 63));
    assert!(chained(own, 1, 0));
}

/// The bytes of packets, each on a page of its own.
fn paged(packets: Vec<ogg::Packet>) -> Vec<u8> {
    let mut out = std::io::Cursor::new(Vec::new());
    let mut writer = ::ogg::PacketWriter::new(&mut out);
    for p in packets {
        let end = ::ogg::PacketWriteEndInfo::EndPage;
        writer.write_packet(p.data.into_boxed_slice(), p.serial, end, p.position).unwrap();
    }
    drop(writer);
    out.into_inner()
}

#[test]
fn bytes_that_cannot_be_followed_are_refused() {
    let refused = "ogg: the headers cannot be followed";
    // A residue of all channels in turn, in long blocks.
    let stream = |channels: u8, blocks: u8, long: u64| {
        let mut head = headers(&plain_book, &[&line_floor], &[&residue(2, 0, 1, None, 0)], &|b| {
            b.put(0, 6);
            plain_mapping(b, 0, 0);
            b.put(0, 6);
            mode(b, long, 0);
        });
        head[0].data[11] = channels;
        head[0].data[28] = blocks;
        head
    };
    let follows = |channels, blocks, long| {
        ogg::can_follow(&stream(channels, blocks, long), &Vec::new())
    };
    assert!(follows(7, 0xd8, 1));
    assert!(!follows(8, 0xd8, 1));
    assert!(follows(8, 0xd8, 0));
    assert!(follows(8, 0xc8, 1));
    assert_eq!(ogg::decode(paged(stream(8, 0xd8, 1))).unwrap_err(), refused);
    let empty = ogg::decode(paged(stream(7, 0xd8, 1))).unwrap();
    assert_eq!((empty.pcm.len(), empty.channels, empty.sample_rate), (0, 7, 48_000));
    // A header that the decoder itself refuses.
    let e = ogg::decode(paged(stream(0, 0xb8, 1))).unwrap_err();
    assert!(e.starts_with("lewton init: "), "{e}");
    // A last position from which samples cannot be counted.
    let bytes = encode_ogg(&vec![0.25f32; 9_600], 3, 48_000, 0.5);
    let (mut packets, rest) = packets_of(&bytes);
    packets.extend(rest);
    packets.last_mut().unwrap().position = u64::MAX / 3 + 1;
    assert_eq!(ogg::decode(paged(packets)).unwrap_err(), refused);
}

#[test]
fn other_streams_between_the_headers_are_passed_over() {
    let bytes = encode_ogg(&vec![0.25f32; 9_600], 2, 48_000, 0.5);
    let other = || ogg::Packet { data: b"other".to_vec(), first: false, serial: 99, position: 0 };
    let (head, rest) = packets_of(&bytes);
    let mut packets = Vec::new();
    for p in head {
        packets.push(p);
        packets.push(other());
    }
    packets.pop();
    packets.extend(rest);
    let mixed = ogg::decode(paged(packets)).unwrap();
    let (mut plain, rest) = packets_of(&bytes);
    plain.extend(rest);
    let plain = ogg::decode(paged(plain)).unwrap();
    assert_eq!(mixed.pcm, plain.pcm);
    assert!(!mixed.pcm.is_empty());
    assert_eq!(mixed.pcm.len() % 2, 0);
}

/// Bits written one behind the other, the lowest of each field first.
struct Bits {
    out: Vec<u8>,
    at: usize,
}

impl Bits {
    fn put(&mut self, value: u64, n: usize) -> &mut Self {
        for i in 0..n {
            if self.at % 8 == 0 {
                self.out.push(0);
            }
            *self.out.last_mut().unwrap() |= (((value >> i) & 1) as u8) << (self.at % 8);
            self.at += 1;
        }
        self
    }
}

type Part<'a> = &'a dyn Fn(&mut Bits);

/// Headers whose codebook, floors and residues are written so, under the
/// mappings and modes of `behind`.
fn headers(
    book: Part<'_>,
    floors: &[Part<'_>],
    residues: &[Part<'_>],
    behind: Part<'_>,
) -> Vec<ogg::Packet> {
    let mut ident = vec![1u8];
    ident.extend(b"vorbis\0\0\0\0\x02\x80\xbb\0\0\0\0\0\0\0\0\0\0\0\0\0\0\xb8\x01");
    let mut comment = vec![3u8];
    comment.extend(b"vorbis\0\0\0\0\x01\0\0\0\x03\0\0\0A=b\x01");
    let mut setup = Bits { out: Vec::new(), at: 0 };
    setup.put(5, 8);
    for c in b"vorbis" {
        setup.put(*c as u64, 8);
    }
    setup.put(0, 8);
    book(&mut setup);
    setup.put(0, 6).put(0, 16);
    setup.put(floors.len() as u64 - 1, 6);
    for floor in floors {
        floor(&mut setup);
    }
    setup.put(residues.len() as u64 - 1, 6);
    for residue in residues {
        residue(&mut setup);
    }
    behind(&mut setup);
    setup.put(1, 1);
    let packet = |data: Vec<u8>, first| ogg::Packet { data, first, serial: 1, position: 0 };
    vec![packet(ident, true), packet(comment, false), packet(setup.out, false)]
}

fn follows_all(book: Part<'_>, floors: &[Part<'_>], residues: &[Part<'_>], behind: Part<'_>) -> bool {
    ogg::can_follow(&headers(book, floors, residues, behind), &Vec::new())
}

/// A mapping of one submap.
fn plain_mapping(b: &mut Bits, floor: u64, residue: u64) {
    b.put(0, 16).put(0, 1).put(0, 1).put(0, 2).put(0, 8).put(floor, 8).put(residue, 8);
}

fn mode(b: &mut Bits, long: u64, mapping: u64) {
    b.put(long, 1).put(0, 16).put(0, 16).put(mapping, 8);
}

/// One mapping and one mode, of the first floor and residue.
fn plain_modes(b: &mut Bits) {
    b.put(0, 6);
    plain_mapping(b, 0, 0);
    b.put(0, 6);
    mode(b, 0, 0);
}

fn follows(book: Part<'_>, floor: Part<'_>, residue: Part<'_>) -> bool {
    follows_all(book, &[floor], &[residue], &plain_modes)
}

/// Two entries of one bit each, each a vector of two numbers of one bit.
fn plain_book(b: &mut Bits) {
    b.put(0x564342, 24).put(2, 16).put(2, 24).put(0, 2).put(0, 5).put(0, 5);
    b.put(1, 4).put(0, 32).put(0, 32).put(0, 4).put(0, 1).put(0, 1);
}

/// Two entries of one bit each, without vectors.
fn scalar_book(dims: u64) -> impl Fn(&mut Bits) {
    move |b: &mut Bits| {
        b.put(0x564342, 24).put(dims, 16).put(2, 24).put(0, 2).put(0, 5).put(0, 5).put(0, 4);
    }
}

fn line_floor(b: &mut Bits) {
    // One partition of one class: one value, by the first book.
    b.put(1, 16).put(1, 5).put(0, 4).put(0, 3).put(0, 2).put(1, 8);
    b.put(0, 2).put(4, 4).put(5, 4);
}

fn curve_floor(order: u64, rate: u64, map: u64, amplitude: u64, book: u64) -> impl Fn(&mut Bits) {
    move |b: &mut Bits| {
        b.put(0, 16).put(order, 8).put(rate, 16).put(map, 16).put(amplitude, 6);
        b.put(0, 8).put(0, 4).put(book, 8);
    }
}

fn residue(kind: u64, classbook: u64, low: u64, high: Option<u64>, book: u64) -> impl Fn(&mut Bits) {
    move |b: &mut Bits| {
        b.put(kind, 16).put(0, 24).put(16, 24).put(7, 24).put(0, 6).put(classbook, 8);
        b.put(low, 3);
        match high {
            Some(h) => b.put(1, 1).put(h, 5),
            None => b.put(0, 1),
        };
        if low != 0 {
            b.put(book, 8);
        }
    }
}

fn plain_residue(b: &mut Bits) {
    residue(0, 0, 1, None, 0)(b);
}

#[test]
fn codebooks_are_tested() {
    assert!(follows(&plain_book, &line_floor, &plain_residue));
    let book = |dims: u64, entries: u64, table: u64, lengths: &[u64]| {
        let lengths = lengths.to_vec();
        move |b: &mut Bits| {
            b.put(0x564342, 24).put(dims, 16).put(entries, 24).put(0, 1).put(1, 1);
            for &l in &lengths {
                if l == 0 {
                    b.put(0, 1);
                } else {
                    b.put(1, 1).put(l - 1, 5);
                }
            }
            b.put(table, 4);
            if table > 0 {
                b.put(0, 32).put(0, 32).put(0, 4).put(0, 1);
                b.put(0, if table == 1 { 1 } else { (dims * entries) as usize });
            }
        }
    };
    assert!(follows(&book(2, 3, 1, &[1, 0, 1]), &line_floor, &plain_residue));
    // No codeword at all.
    assert!(!follows(&book(2, 3, 1, &[0, 0, 0]), &line_floor, &plain_residue));
    // No dimension: no table by products, and no vector to spread.
    assert!(!follows(&book(0, 3, 1, &[1, 0, 1]), &line_floor, &residue(1, 0, 1, None, 0)));
    assert!(follows(&book(0, 3, 2, &[1, 0, 1]), &line_floor, &residue(1, 0, 1, None, 0)));
    assert!(!follows(&book(0, 3, 2, &[1, 0, 1]), &line_floor, &residue(0, 0, 1, None, 0)));
    assert!(follows(&scalar_book(0), &line_floor, &residue(0, 0, 0, None, 0)));
    // A table of too many numbers; without a table their number is free.
    let many = [1; 0x3ff];
    let low = curve_floor(2, 48_000, 256, 8, 0);
    assert!(!follows(&book(0x7fff, 0x3ff, 1, &many), &low, &plain_residue));
    assert!(follows(&book(0x7fff, 0x3ff, 0, &many), &low, &residue(0, 0, 0, None, 0)));
    // Lengths in order: one of one bit, one of two, two of three.
    let ordered = |counts: &[(u64, usize)]| {
        let counts = counts.to_vec();
        move |b: &mut Bits| {
            b.put(0x564342, 24).put(2, 16).put(4, 24).put(1, 1).put(0, 5);
            for &(n, bits) in &counts {
                b.put(n, bits);
            }
            b.put(1, 4).put(0, 32).put(0, 32).put(0, 4).put(0, 1).put(0, 2);
        }
    };
    assert!(follows(&ordered(&[(1, 3), (1, 2), (2, 2)]), &line_floor, &plain_residue));
    assert!(!follows(&ordered(&[(1, 3), (3, 2), (3, 1)]), &line_floor, &plain_residue));
    let late = |zeros: usize| {
        let mut counts = vec![(0, 3); zeros];
        counts.push((4, 3));
        follows(&ordered(&counts), &line_floor, &plain_residue)
    };
    assert!(late(253));
    assert!(!late(254));
}

#[test]
fn floors_are_tested() {
    let curve = |order, rate, map, amplitude, book| {
        follows(&plain_book, &curve_floor(order, rate, map, amplitude, book), &plain_residue)
    };
    assert!(curve(2, 48_000, 256, 8, 0));
    assert!(!curve(1, 48_000, 256, 8, 0));
    assert!(!curve(0, 48_000, 256, 8, 0));
    assert!(!curve(2, 0, 256, 8, 0));
    assert!(!curve(2, 48_000, 0, 8, 0));
    assert!(!curve(2, 48_000, 256, 31, 0));
    assert!(!curve(2, 48_000, 256, 8, 1));
    // Without an amplitude nothing else is read.
    assert!(curve(0, 0, 0, 0, 1));
    // A floor of no known type, and one whose book is not there.
    assert!(!follows(&plain_book, &|b: &mut Bits| { b.put(2, 16); }, &plain_residue));
    let other = |b: &mut Bits| {
        b.put(1, 16).put(1, 5).put(0, 4).put(0, 3).put(0, 2).put(2, 8);
        b.put(0, 2).put(4, 4).put(5, 4);
    };
    assert!(!follows(&plain_book, &other, &plain_residue));
    // A book that gives more than the floor has values.
    let wide = |coded: usize, entries: usize| {
        move |b: &mut Bits| {
            b.put(0x564342, 24).put(2, 16).put(entries as u64, 24).put(0, 1).put(1, 1);
            for i in 0..entries {
                if i < coded {
                    b.put(1, 1).put(6, 5);
                } else {
                    b.put(0, 1);
                }
            }
            b.put(2, 4).put(0, 32).put(0, 32).put(0, 4).put(0, 1).put(0, 2 * entries);
        }
    };
    let narrow_floor = |b: &mut Bits| {
        b.put(1, 16).put(1, 5).put(0, 4).put(0, 3).put(0, 2).put(1, 8);
        b.put(3, 2).put(4, 4).put(5, 4);
    };
    assert!(follows(&wide(64, 64), &narrow_floor, &plain_residue));
    assert!(follows(&wide(64, 80), &narrow_floor, &plain_residue));
    assert!(!follows(&wide(65, 80), &narrow_floor, &plain_residue));
    assert!(follows(&wide(65, 80), &line_floor, &plain_residue));
    // The books of a class that no partition is of are not read.
    let classes = |class: u64| {
        move |b: &mut Bits| {
            b.put(1, 16).put(1, 5).put(class, 4).put(0, 3).put(0, 2).put(1, 8);
            if class == 1 {
                b.put(0, 3).put(0, 2).put(0, 8);
            }
            b.put(3, 2).put(4, 4).put(5, 4);
        }
    };
    assert!(!follows(&wide(65, 80), &classes(0), &plain_residue));
    assert!(follows(&wide(65, 80), &classes(1), &plain_residue));
}

#[test]
fn residues_are_tested() {
    let with = |book: Part<'_>, r: Part<'_>| follows(book, &line_floor, r);
    assert!(with(&plain_book, &residue(2, 0, 4, None, 0)));
    assert!(!with(&plain_book, &residue(3, 0, 4, None, 0)));
    assert!(!with(&plain_book, &residue(1, 1, 4, None, 0)));
    assert!(!with(&plain_book, &residue(1, 0, 4, None, 1)));
    // A stage needs vectors.
    assert!(with(&scalar_book(2), &residue(1, 0, 0, None, 0)));
    assert!(!with(&scalar_book(2), &residue(1, 0, 4, None, 0)));
    // A residue that is shorter than a partition is not read.
    let idle = |end: u64| {
        move |b: &mut Bits| {
            b.put(1, 16).put(10, 24).put(end, 24).put(7, 24).put(0, 6).put(0, 8);
            b.put(0, 3).put(1, 1).put(16, 5);
        }
    };
    assert!(with(&scalar_book(2), &idle(17)));
    assert!(!with(&scalar_book(2), &idle(18)));
    // The eighth stage has no book of its own.
    assert!(with(&plain_book, &residue(1, 0, 0, Some(16), 0)));
    assert!(!with(&scalar_book(2), &residue(1, 0, 0, Some(16), 0)));
}

#[test]
fn only_what_the_modes_use_is_tested() {
    let bad_floor = curve_floor(0, 48_000, 256, 8, 0);
    let bad_residue = residue(1, 0, 0, Some(16), 0);
    let fine_residue = residue(1, 0, 0, None, 0);
    let uses = |floor: u64, res: u64, mapping: u64| {
        follows_all(
            &scalar_book(2),
            &[&line_floor, &bad_floor],
            &[&fine_residue, &bad_residue],
            &|b| {
                b.put(1, 6);
                plain_mapping(b, 0, 0);
                plain_mapping(b, floor, res);
                b.put(1, 6);
                mode(b, 0, 0);
                mode(b, 1, mapping);
            },
        )
    };
    assert!(uses(0, 0, 1));
    assert!(!uses(1, 0, 1));
    assert!(!uses(0, 1, 1));
    assert!(uses(1, 1, 0));
    // Two submaps; the second is unsound, and both channels may be in the first.
    let split = |second: u64| {
        follows_all(
            &scalar_book(2),
            &[&line_floor, &bad_floor],
            &[&fine_residue],
            &|b| {
                b.put(0, 6).put(0, 16).put(1, 1).put(1, 4);
                // One step couples the two channels.
                b.put(1, 1).put(0, 8).put(0, 1).put(1, 1).put(0, 2);
                b.put(0, 4).put(second, 4);
                b.put(0, 8).put(0, 8).put(0, 8);
                b.put(0, 8).put(1, 8).put(0, 8);
                b.put(0, 6);
                mode(b, 0, 0);
            },
        )
    };
    assert!(split(0));
    assert!(!split(1));
    assert!(!split(2));
    // A mapping of a floor that is not there, and a mode of such a mapping.
    assert!(!uses(2, 0, 0));
    assert!(!uses(0, 0, 2));
}

#[test]
fn packets_are_collected() {
    let d = ogg::collected(vec![vec![1, 2], vec![], vec![3, 4]], None, 2, 48_000).unwrap();
    assert_eq!((d.pcm, d.channels, d.sample_rate), (vec![1, 2, 3, 4], 2, 48_000));
    let d = ogg::collected(Vec::new(), None, 1, 44_100).unwrap();
    assert_eq!((d.pcm.len(), d.channels, d.sample_rate), (0, 1, 44_100));
    let e = ogg::collected(vec![vec![1, 2]], Some("why".into()), 2, 48_000).unwrap_err();
    assert_eq!(e, "lewton decode: why");
}

#[test]
fn blocks_follow_each_other() {
    assert_eq!(ogg::blocks(0), vec![]);
    assert_eq!(ogg::blocks(4096), vec![(0, 4096)]);
    assert_eq!(ogg::blocks(10_000), vec![(0, 4096), (4096, 8192), (8192, 10_000)]);
    assert_eq!(ogg::planar(&[1, 2, 3, 4, 5, 6], 2, 1, 3), vec![vec![3, 5], vec![4, 6]]);
}

#[test]
fn write_and_parse_roundtrip() {
    let r_out = Region::new_out(1000, 2000, num(1.0), num(0.756));
    let r_in = Region::new_in(0, 500, num(0.0), num(0.5));
    let intro_out = [r_out];
    let intro_in = [r_in];
    let main_out = [r_out];
    let secs = vec![
        wlamodel::SectionSpec {
            kind: SectionKind::Intro,
            pattern_id: "i1",
            len_frames: 2000,
            bank_name: "TEST.wlabank",
            in_regions: &intro_in,
            out_regions: &intro_out,
            layer_ids: vec!["i1l1".into()],
        },
        wlamodel::SectionSpec {
            kind: SectionKind::Main,
            pattern_id: "m1",
            len_frames: 8000,
            bank_name: "TEST.wlabank",
            in_regions: &[],
            out_regions: &main_out,
            layer_ids: vec!["m1l1".into()],
        },
    ];
    let text = wlamodel::to_json("TEST", "mod-uuid", "page-uuid", &secs, 48_000);
    let (mod_uuid, page_uuid, parsed) = wlamodel::parse(&text).unwrap();
    assert_eq!(mod_uuid, "mod-uuid");
    assert_eq!(page_uuid, "page-uuid");
    assert_eq!(parsed.len(), 2);
    let intro = &parsed[0];
    assert_eq!(intro.kind, SectionKind::Intro);
    assert_eq!(intro.out_regions[0].begin_frames, 1000);
    assert_eq!(intro.out_regions[0].sync_frames, 1000);
    assert_eq!(intro.layer_ids, vec!["i1l1"]);
    assert_eq!(intro.out_regions[0], r_out);
    assert_eq!(intro.in_regions[0], r_in);
    assert_eq!(parsed[0].len_frames, 2000);
    assert_eq!(parsed[1].len_frames, 8000);
}

#[test]
fn every_section_keeps_its_length() {
    let spec = |kind, pattern_id, len_frames| wlamodel::SectionSpec {
        kind,
        pattern_id,
        len_frames,
        bank_name: "TEST.wlabank",
        in_regions: &[],
        out_regions: &[],
        layer_ids: vec![],
    };
    let specs = [
        spec(SectionKind::Intro, "i1", 2000),
        spec(SectionKind::Main, "m1", 8000),
        spec(SectionKind::Outro, "o1", 700),
    ];
    let text = wlamodel::to_json("TEST", "m", "p", &specs, 48_000);
    let (_, _, parsed) = wlamodel::parse(&text).unwrap();
    let lengths: Vec<u64> = parsed.iter().map(|s| s.len_frames).collect();
    assert_eq!(lengths, vec![2000, 8000, 700]);
    // Only Main loops.
    let doc: serde_json::Value = serde_json::from_str(&text).unwrap();
    let ends: Vec<u64> = (2..5)
        .map(|i| doc["content"][i]["data"]["loop"]["end"].as_u64().unwrap())
        .collect();
    assert_eq!(ends, vec![0, 8000, 0]);
    // Where there is a loop its end tells the length.
    let text = text.replace("\"length\": 8000", "\"length\": 5");
    assert_eq!(wlamodel::parse(&text).unwrap().2[1].len_frames, 8000);
}

#[test]
fn documents_that_are_no_model_are_refused() {
    assert_eq!(wlamodel::parse("{}").unwrap_err(), "missing content");
    assert_eq!(wlamodel::parse("{\"content\": []}").unwrap_err(), "missing module");
    assert_eq!(
        wlamodel::parse("{\"content\": [{\"type\": \"module\", \"data\": {}}]}").unwrap_err(),
        "missing module uuid"
    );
    let e = wlamodel::parse("{").unwrap_err();
    assert!(e.contains("EOF"), "{e}");
}

#[test]
fn model_document_has_sorted_fields_and_a_stamp() {
    let text = wlamodel::to_json("CODE", "m", "p", &[], 48_000);
    let doc: serde_json::Value = serde_json::from_str(&text).unwrap();
    assert_eq!(doc["document"]["createdBy"], "Gatherer Hub 1.0");
    assert_eq!(doc["document"]["version"], 1);
    let stamp = doc["document"]["createdAt"].as_str().unwrap();
    assert_eq!(stamp.len(), 25);
    assert!(stamp.ends_with("+00:00") && &stamp[10..11] == "T");
    assert!(text.find("\"channelStrip\"").unwrap() < text.find("\"id\"").unwrap());
}

#[test]
fn dates_of_the_epoch() {
    assert_eq!(wlamodel::epoch_to_parts(0), (1970, 1, 1, 0, 0, 0));
    assert_eq!(wlamodel::epoch_to_parts(951_782_400), (2000, 2, 29, 0, 0, 0));
    assert_eq!(wlamodel::epoch_to_parts(1_700_000_000), (2023, 11, 14, 22, 13, 20));
    assert_eq!(wlamodel::timestamp(1_700_000_000), "2023-11-14T22:13:20+00:00");
    assert_eq!(wlamodel::clip_name("B.wlabank", "m1"), "module_B.wlabank/m1");
}

#[test]
fn json_texts_read_as_what_was_written() {
    let mut o = Json::object();
    o.put("whole", Json::whole(u64::MAX));
    o.put("real", Json::real32(num(0.1)));
    o.put("nothing", Json::real32(num(f32::NAN)));
    o.put("text", Json::text("a \"b\"\n\u{1F3B5}"));
    o.put("list", Json::array(vec![Json::Bool(true), Json::Null]));
    o.put("text", Json::text("again"));
    let text = o.pretty();
    let back = Json::parse(&text).unwrap();
    assert_eq!(back.whole_field("whole"), u64::MAX);
    assert_eq!(back.real_field("real", num(9.0)), num(0.1));
    assert_eq!(back.real_field("nothing", num(9.0)), num(9.0));
    assert_eq!(back.real_field("whole", num(9.0)), num(u64::MAX as f32));
    assert_eq!(back.text_field("text"), Some("again"));
    assert_eq!(back.array_field("list").unwrap().len(), 2);
    assert!(back.get("missing").is_none());
    assert!(back.is_object());
    assert_eq!(back.pretty(), text);
    assert!(Json::parse("[1,").is_err());
    let n = Json::parse("{\"a\": -3, \"b\": 1.5, \"c\": 50}").unwrap();
    assert_eq!(n.whole_field("a"), 0);
    assert_eq!(n.real_field("a", num(0.0)), num(-3.0));
    assert_eq!(n.real_field("b", num(0.0)), num(1.5));
    assert_eq!(n.real_field("c", num(0.0)), num(50.0));
}
