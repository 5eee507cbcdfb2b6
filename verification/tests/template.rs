use gatherer_hub::adaptive::{AdaptiveMixer, SLOT_COUNT};
use gatherer_hub::number::Real32;
use gatherer_hub::template::{
    apply_values, is_template_name, parse_into, template_file, values, NUM_VALUES,
};

fn num(x: f32) -> Real32 {
    Real32 { bits: x.to_bits() }
}

fn float(x: Real32) -> f32 {
    f32::from_bits(x.bits)
}

fn fixture() -> AdaptiveMixer {
    let mut m = AdaptiveMixer::new();
    for i in 0..SLOT_COUNT {
        m.slot_params[i].steepness = num(0.1 * (i as f32 + 1.0));
        m.slot_params[i].deviation = num(0.02 * (i as f32 + 1.0));
        m.slot_params[i].maximum = num(1.0);
        m.slot_params[i].minimum = num(0.05 * (i as f32));
        m.slot_params[i].original_level = num(0.3);
        m.slot_params[i].formula = ((i % 9) + 1) as u8;
    }
    for mood in 0..3 {
        for s in 0..SLOT_COUNT {
            m.mood_weight[mood][s] = num((s as f32) / 8.0);
            m.balancer_mask[mood][s] = num(1.0 - (s as f32) / 16.0);
        }
    }
    m
}

#[test]
fn roundtrip_format_parse() {
    let a = fixture();
    let text = gatherer_hub::template::format(&a);
    let mut b = AdaptiveMixer::new();
    parse_into(&text, &mut b).unwrap();
    for s in 0..SLOT_COUNT {
        let (p, q) = (a.slot_params[s], b.slot_params[s]);
        assert!((float(p.steepness) - float(q.steepness)).abs() < 1e-3);
        assert!((float(p.minimum) - float(q.minimum)).abs() < 1e-3);
        assert_eq!(p.formula, q.formula);
    }
    for mood in 0..3 {
        for s in 0..SLOT_COUNT {
            assert!((float(a.mood_weight[mood][s]) - float(b.mood_weight[mood][s])).abs() < 1e-3);
            assert!(
                (float(a.balancer_mask[mood][s]) - float(b.balancer_mask[mood][s])).abs() < 1e-3
            );
        }
    }
}

#[test]
fn rejects_wrong_count() {
    let mut m = AdaptiveMixer::new();
    let err = parse_into("0 1 2 3", &mut m).unwrap_err();
    assert!(err.contains("got 4"), "{err}");
}

#[test]
fn parses_music_template_shape() {
    let zeros: String = std::iter::repeat("0 ").take(NUM_VALUES).collect();
    let mut m = AdaptiveMixer::new();
    parse_into(&zeros, &mut m).unwrap();
    for s in 0..SLOT_COUNT {
        assert_eq!(m.slot_params[s].formula, 1);
    }
}

#[test]
fn the_text_has_three_digits_behind_the_point() {
    let text = gatherer_hub::template::format(&fixture());
    assert!(text.starts_with("0 0.100 0.020 1.000 0.000 0.300 1.000 0.200 "));
    assert_eq!(text.split_whitespace().count(), 97);
    assert!(text.ends_with(" 0.562"));
}

#[test]
fn the_first_bad_word_is_named_and_nothing_changes() {
    let mut m = fixture();
    let before = values(&m);
    let err = parse_into("0 1.5 two three", &mut m).unwrap_err();
    assert_eq!(err, "parse `two`: invalid float literal");
    assert_eq!(values(&m), before);
    let err = parse_into("", &mut m).unwrap_err();
    assert_eq!(err, "expected 97 floats (version + 8×6 params + 6×8 masks), got 0");
}

#[test]
fn values_are_held_in_their_bounds() {
    let mut v = vec![num(9.0); 97];
    let mut m = AdaptiveMixer::new();
    apply_values(&v, &mut m).unwrap();
    assert_eq!(m.slot_params[3].steepness, num(1.0));
    assert_eq!(m.slot_params[3].maximum, num(2.0));
    assert_eq!(m.slot_params[3].formula, 9);
    assert_eq!(m.mood_weight[2][7], num(1.0));
    for (x, formula) in
        [(1.49f32, 1u8), (1.5, 2), (2.5, 3), (8.49, 8), (8.5, 9), (-3.0, 1), (f32::NAN, 1)]
    {
        v[6] = num(x);
        apply_values(&v, &mut m).unwrap();
        assert_eq!(m.slot_params[0].formula, formula, "{x}");
    }
    v.pop();
    assert!(apply_values(&v, &mut m).is_err());
    let mut tokens = vec!["0"; 97];
    tokens[6] = "NaN";
    parse_into(&tokens.join(" "), &mut m).unwrap();
    assert!((1..=9).contains(&m.slot_params[0].formula));
}

#[test]
fn values_stand_in_the_order_of_the_file() {
    let m = fixture();
    let v = values(&m);
    assert_eq!(v.len(), 97);
    assert_eq!(v[0], num(0.0));
    assert_eq!(v[1 + 6 * 2], m.slot_params[2].steepness);
    assert_eq!(v[1 + 6 * 2 + 2], m.slot_params[2].maximum);
    assert_eq!(v[1 + 6 * 2 + 5], num(3.0));
    assert_eq!(v[49 + 3], m.mood_weight[0][3]);
    assert_eq!(v[57 + 3], m.balancer_mask[0][3]);
    assert_eq!(v[81 + 5], m.mood_weight[2][5]);
    assert_eq!(v[89 + 7], m.balancer_mask[2][7]);
    let mut other = AdaptiveMixer::new();
    apply_values(&v, &mut other).unwrap();
    assert_eq!(values(&other), v);
    for f in 0..=255u8 {
        other.slot_params[0].formula = f;
        assert_eq!(values(&other)[6], num(f as f32));
    }
}

#[test]
fn template_files_end_in_txt() {
    assert!(is_template_name("Music.txt"));
    assert!(!is_template_name(".hidden.txt"));
    assert!(!is_template_name("Music.TXT"));
    assert!(!is_template_name("txt"));
    assert_eq!(template_file("Music"), "Music.txt");
    assert_eq!(template_file("Music.txt"), "Music.txt");
}
