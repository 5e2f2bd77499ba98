use mavlink_cli::definitions::{DataType, Definition, Selection, User};
use mavlink_cli::definitions_xml_oll::parse_dirty_float;
use mavlink_cli::indicatif::{new_bar, new_spinner, progress_style, ProgressBar};
use mavlink_cli::parameters::Parameter;
use mavlink_cli::push_pull::ParseErrorKind;
use mavlink_cli::ui::{bar, spinner, wait_and_notice};

#[test]
fn an_unmarked_user_is_standard() {
    assert_eq!(User::default(), User::Standard);
    assert_eq!(
        mavlink_cli::definitions_xml_oll::User::default(),
        mavlink_cli::definitions_xml_oll::User::Standard
    );
}

#[test]
fn definitions_compare_by_name() {
    let a = Definition {
        name: "THR_MIN".to_string(),
        description: "one".to_string(),
        display_name: "Throttle minimum".to_string(),
        user: User::Standard,
        data: None,
        vehicle: "plane".to_string(),
    };
    let mut b = a.duplicate();
    b.description = "another".to_string();
    assert_eq!(a, b);
    b.name = "THR_MAX".to_string();
    assert_ne!(a, b);
}

#[test]
fn duplicate_copies_the_legal_values() {
    let d = Definition {
        name: "MODE".to_string(),
        description: "flight mode".to_string(),
        display_name: "Mode".to_string(),
        user: User::Advanced,
        data: Some(DataType::Values(vec![(0, "Manual".to_string()), (2, "Auto".to_string())])),
        vehicle: "rover".to_string(),
    };
    let copy = d.duplicate();
    match copy.data {
        Some(DataType::Values(m)) => {
            assert_eq!(m, vec![(0, "Manual".to_string()), (2, "Auto".to_string())]);
        }
        other => panic!("expected the values mapping, got {:?}", other),
    }
}

#[test]
fn selections_end_with_the_custom_entry() {
    let entries = vec![(1, "One".to_string()), (2, "Two".to_string())];
    let items = Selection::map_to_vec(&entries);
    assert_eq!(items.len(), 3);
    assert_eq!((items[0].0, items[0].text()), (1, "One"));
    assert_eq!((items[1].0, items[1].text()), (2, "Two"));
    assert_eq!((items[2].0, items[2].text()), (0, "Enter a Custom value"));
}

#[test]
fn an_unknown_parameter_gets_a_default_definition() {
    let p = Parameter { name: "MYSTERY".to_string(), value: "1".to_string() };
    let d = p.definition(None);
    assert_eq!(d.name, "MYSTERY");
    assert_eq!(d.description, "This parameter is unknown.");
    assert_eq!(d.display_name, "unknown");
    assert_eq!(d.user, User::Advanced);
    assert!(d.data.is_none());
    assert_eq!(d.vehicle, "unknown");
}

#[test]
fn a_known_parameter_gets_the_catalog_entry() {
    let p = Parameter { name: "THR_MIN".to_string(), value: "0.1".to_string() };
    let looked_up = Definition {
        name: "THR_MIN".to_string(),
        description: "minimum throttle".to_string(),
        display_name: "Throttle minimum".to_string(),
        user: User::Standard,
        data: Some(DataType::Range { high: "1".to_string(), low: "0".to_string() }),
        vehicle: "plane".to_string(),
    };
    let d = p.definition(Some(&looked_up));
    assert_eq!(d.description, "minimum throttle");
    assert_eq!(d.display_name, "Throttle minimum");
}

#[test]
fn dirty_floats_are_scrubbed_before_parsing() {
    assert_eq!(parse_dirty_float(" 0.5 ").unwrap(), "0.5");
    assert_eq!(parse_dirty_float("\t-1e3\n").unwrap(), "-1e3");
    assert_eq!(parse_dirty_float("1 000"), Ok("1000".to_string()));
    assert_eq!(parse_dirty_float("abc"), Err(ParseErrorKind::InvalidValue));
    assert_eq!(parse_dirty_float("   "), Err(ParseErrorKind::InvalidValue));
}

#[test]
fn progress_bars_track_their_state() {
    let mut p = ProgressBar::new(10);
    assert!(!p.is_finished());
    p.set_position(3);
    assert_eq!(p.position(), 3);
    p.set_length(20);
    assert_eq!(p.length, 20);
    p.set_message("working");
    assert_eq!(p.message, "working");
    p.finish();
    assert!(p.is_finished());
    let mut q = ProgressBar::new_spinner();
    q.abandon();
    assert!(q.is_finished());
    assert!(!q.finished);
}

#[test]
fn the_tool_styles_differ_by_width() {
    let wide = progress_style();
    let narrow = mavlink_cli::ui::progress_style();
    assert!(wide.template.contains("{bar:40"));
    assert!(narrow.template.contains("{bar:32"));
    assert_eq!(wide.progress_chars, "##-");
}

#[test]
fn spinners_and_bars_start_unfinished() {
    for p in [new_spinner("a"), new_bar("b"), spinner("c"), bar("d")] {
        assert!(!p.is_finished());
        assert_eq!(p.tick_ms, 100);
    }
    assert_eq!(new_bar("b").length, 1);
    assert_eq!(bar("d").message, "d");
}

#[test]
fn mask_bits_reads_the_low_bits() {
    let bits = mavlink_cli::definitions::mask_bits(0b1101);
    assert_eq!(bits.len(), 32);
    assert_eq!(&bits[..5], &[true, false, true, true, false]);
    assert!(bits[5..].iter().all(|b| !b));
}

#[test]
fn chosen_entries_combine_into_a_mask() {
    let entries = vec![(0, "GPS".to_string()), (2, "Compass".to_string()), (5, "Baro".to_string())];
    let items = Selection::map_to_vec(&entries);
    // ticking GPS and Baro sets bits 0 and 5
    let mask = mavlink_cli::definitions::bitmask_of_selection(&items, &vec![0, 2]);
    assert_eq!(mask, 0b100001);
    assert_eq!(mavlink_cli::definitions::bitmask_of_selection(&items, &vec![]), 0);
}

#[test]
fn wait_and_notice_hands_back_the_result() {
    let value = wait_and_notice("computing", || 21 * 2);
    assert_eq!(value, 42);
}
