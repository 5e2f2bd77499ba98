use mavlink_cli::util::{check_float_text, str_lt, to_char_arr, to_string};

#[test]
fn to_string_strips_trailing_nuls() {
    let wire = ['T', 'H', 'R', '_', 'M', 'I', 'N', '\0', '\0', '\0', '\0', '\0', '\0', '\0', '\0', '\0'];
    assert_eq!(to_string(&wire), "THR_MIN");
}

#[test]
fn to_string_drops_every_nul() {
    let wire = ['A', '\0', 'B', '\0'];
    assert_eq!(to_string(&wire), "AB");
}

#[test]
fn to_string_of_empty_slice_is_empty() {
    let wire: [char; 0] = [];
    assert_eq!(to_string(&wire), "");
}

#[test]
fn to_char_arr_pads_with_nuls() {
    let arr = to_char_arr("THR_MIN");
    assert_eq!(&arr[..7], &['T', 'H', 'R', '_', 'M', 'I', 'N']);
    for i in 7..16 {
        assert_eq!(arr[i], '\0');
    }
}

#[test]
fn to_char_arr_of_full_name() {
    let arr = to_char_arr("ABCDEFGHIJKLMNOP");
    assert_eq!(arr.iter().collect::<String>(), "ABCDEFGHIJKLMNOP");
}

#[test]
fn to_char_arr_round_trips_through_to_string() {
    let arr = to_char_arr("THR_MAX");
    assert_eq!(to_string(&arr), "THR_MAX");
}

#[test]
fn float_text_accepts_plain_numbers() {
    for s in ["0.1", "0.9", "1", "-1", "+1.5", ".5", "5.", "1e5", "1E-5", "-2.5e+3", "0", "13"] {
        assert!(check_float_text(s), "expected {:?} to be float text", s);
    }
}

#[test]
fn float_text_accepts_special_words() {
    for s in ["inf", "-inf", "+inf", "Infinity", "INFINITY", "nan", "NaN", "NAN", "-NaN"] {
        assert!(check_float_text(s), "expected {:?} to be float text", s);
    }
}

#[test]
fn float_text_rejects_malformed_text() {
    for s in [
        "", "notafloat", ".", "-", "+", "1.2.3", "1e", "e5", "--1", " 0.1", "0.1 ", "0x10",
        "1,5", "na", "infx", "1e5.5", "nan1",
    ] {
        assert!(!check_float_text(s), "expected {:?} not to be float text", s);
    }
}

#[test]
fn float_text_agrees_with_the_standard_parser() {
    let cases = [
        "0.1", "0.9", "-0", "+4", ".25", "7.", "6e2", "3E-7", "-1.25e+30", "inf", "-infinity",
        "NaN", "nan", "", "x", "1.2.3", "1e", "e1", "++1", "1 ", " 1", "0b1", "1_000", "¼",
        "1e99999", "-.e5", ".e5", "..", "-.5", "+.5e1",
    ];
    for s in cases {
        assert_eq!(
            check_float_text(s),
            s.parse::<f32>().is_ok(),
            "grammar and parser disagree on {:?}",
            s
        );
    }
}

#[test]
fn str_lt_orders_names() {
    assert!(str_lt("A", "B"));
    assert!(str_lt("A", "AB"));
    assert!(!str_lt("B", "A"));
    assert!(!str_lt("A", "A"));
    assert!(str_lt("", "A"));
    assert!(str_lt("THR_MAX", "THR_MIN"));
}
