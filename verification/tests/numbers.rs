use ply_writer::ply::{Double, Single};

#[test]
fn number_keeps_bit_pattern_and_text() {
    let single = Single::new(0x3fc00000, "1.5".to_string()).unwrap();
    assert_eq!(single.bits(), 0x3fc00000);
    assert_eq!(single.text(), "1.5");
    let double = Double::new(0xc004000000000000, "-2.5".to_string()).unwrap();
    assert_eq!(double.bits(), 0xc004000000000000);
    assert_eq!(double.text(), "-2.5");
    assert_eq!(single.clone(), single);
    assert_eq!(double.clone(), double);
}

#[test]
fn text_of_a_number_must_be_a_token() {
    for text in ["", " ", "1 5", "1.5\n", "\r1.5", "1\t5", "1,5€", "\u{7f}"] {
        assert_eq!(Single::new(0, text.to_string()), None);
        assert_eq!(Double::new(0, text.to_string()), None);
    }
    for text in ["0", "-0", "1.5", "1e-7", "NaN", "inf", "-inf", "!~"] {
        assert!(Single::new(0, text.to_string()).is_some());
        assert!(Double::new(0, text.to_string()).is_some());
    }
}

#[test]
fn std_renders_every_kind_of_number_as_a_token() {
    for v in [0.0f32, -0.0, 1.5, f32::MAX, f32::MIN_POSITIVE, f32::NAN, f32::INFINITY, -1e-30] {
        assert!(Single::new(v.to_bits(), v.to_string()).is_some());
    }
    for v in [0.0f64, -0.0, 2.5, f64::MAX, f64::MIN_POSITIVE, f64::NAN, f64::NEG_INFINITY] {
        assert!(Double::new(v.to_bits(), v.to_string()).is_some());
    }
}
