use mavlink_cli::dump::{dump, dump_file_content, header_line};
use mavlink_cli::parameters::ParameterSnapshot;
use mavlink_cli::push_pull::apply_lines;

fn snapshot(entries: &[(&str, &str)]) -> ParameterSnapshot {
    let mut s = ParameterSnapshot::new();
    for (name, value) in entries {
        s.upsert(name.to_string(), value.to_string());
    }
    s
}

#[test]
fn the_header_line_is_a_comment() {
    let h = header_line("2021-05-01T10:00:00+02:00", "mavlink_cli");
    assert_eq!(h, "# Generated on 2021-05-01T10:00:00+02:00 by mavlink_cli");
}

#[test]
fn upsert_keeps_names_sorted_and_unique() {
    let s = snapshot(&[("ZULU", "3"), ("ALPHA", "1"), ("MIKE", "2"), ("ALPHA", "9")]);
    let pairs: Vec<(&str, &str)> =
        s.entries.iter().map(|p| (p.name.as_str(), p.value.as_str())).collect();
    // the later write for ALPHA won; the count never grew past three
    assert_eq!(pairs, vec![("ALPHA", "9"), ("MIKE", "2"), ("ZULU", "3")]);
    assert_eq!(s.len(), 3);
}

#[test]
fn the_file_image_lists_entries_sorted_by_name() {
    let s = snapshot(&[("THR_MIN", "0.1"), ("ANGLE", "45"), ("THR_MAX", "0.9")]);
    let lines = dump_file_content(&s, "T", "tool");
    assert_eq!(
        lines,
        vec!["# Generated on T by tool", "ANGLE,45", "THR_MAX,0.9", "THR_MIN,0.1"]
    );
}

#[test]
fn dump_then_apply_round_trips_every_entry() {
    let s = snapshot(&[("B", "0.5"), ("A", "-3"), ("C", "inf"), ("D", "1e-20")]);
    let lines = dump_file_content(&s, "2021-05-01T10:00:00+02:00", "mavlink_cli");
    let (msgs, err) = apply_lines(&lines);
    assert_eq!(err, None);
    assert_eq!(msgs.len(), s.entries.len());
    for (msg, entry) in msgs.iter().zip(s.entries.iter()) {
        match msg {
            mavlink_cli::mavlink_stub::Message::ParamSet { name, value } => {
                assert_eq!(name, &entry.name);
                assert_eq!(value, &entry.value);
            }
            other => panic!("expected a set message, got {:?}", other),
        }
    }
}

#[test]
fn round_trip_values_survive_as_floats() {
    // values as the wire layer would print them from 32-bit floats
    let originals: [f32; 5] = [0.1, 0.9, -42.5, 1.0e30, 7.0];
    let mut s = ParameterSnapshot::new();
    for (i, v) in originals.iter().enumerate() {
        s.upsert(format!("P{}", i), format!("{}", v));
    }
    let lines = dump(&s, "mavlink_cli");
    assert!(lines[0].starts_with('#'));
    let (msgs, err) = apply_lines(&lines);
    assert_eq!(err, None);
    for msg in msgs {
        match msg {
            mavlink_cli::mavlink_stub::Message::ParamSet { name, value } => {
                let index: usize = name[1..].parse().unwrap();
                let parsed: f32 = value.parse().unwrap();
                assert_eq!(parsed, originals[index]);
            }
            other => panic!("expected a set message, got {:?}", other),
        }
    }
}

#[test]
fn dump_headers_carry_the_generation_time() {
    let s = snapshot(&[("A", "1")]);
    let lines = dump(&s, "toolname");
    assert_eq!(lines.len(), 2);
    assert!(lines[0].starts_with("# Generated on "));
    assert!(lines[0].ends_with(" by toolname"));
    // the timestamp between the two fixed pieces is real text, not empty
    assert!(lines[0].len() > "# Generated on  by toolname".len());
    assert_eq!(lines[1], "A,1");
}
