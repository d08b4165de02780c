use ipasn::driver::{drive, DriverAction, DriverState, StreamEvent};
use ipasn::render::{color_for, first_two_tokens, render_line, render_plain_line, Color, Segment};
use ipasn::scan::{scan, Span};
use ipasn::table::{asn_table, get_asn, Entry, Table};

#[test]
fn scan_single_address() {
    let spans = scan("59.43.1.2 ping");
    assert_eq!(spans, vec![Span { start: 0, end: 9 }]);
}

#[test]
fn scan_no_address() {
    assert_eq!(scan("no ip here"), vec![]);
    assert_eq!(scan(""), vec![]);
    assert_eq!(scan("1.2.3"), vec![]);
}

#[test]
fn scan_unchecked_octets() {
    let spans = scan("999.999.999.999");
    assert_eq!(spans, vec![Span { start: 0, end: 15 }]);
}

#[test]
fn scan_adjacent_digits() {
    let spans = scan("1234.1.1.1");
    assert_eq!(spans, vec![Span { start: 1, end: 10 }]);
}

#[test]
fn scan_greedy_last_group() {
    let spans = scan("1.2.3.45678");
    assert_eq!(spans, vec![Span { start: 0, end: 9 }]);
}

#[test]
fn scan_non_overlapping() {
    let spans = scan("1.2.3.4.5.6.7.8");
    assert_eq!(spans, vec![Span { start: 0, end: 7 }, Span { start: 8, end: 15 }]);
}

#[test]
fn scan_two_addresses() {
    let spans = scan("from 59.43.1.2 to 202.97.0.1!");
    assert_eq!(spans, vec![Span { start: 5, end: 14 }, Span { start: 18, end: 28 }]);
}

#[test]
fn lookup_known_prefix() {
    let t = asn_table();
    assert_eq!(
        get_asn(&t, "59.43.1.2"),
        Some("AS4809 电信CN2  [优质线路]".to_string())
    );
    assert_eq!(
        get_asn(&t, "219.158.3.4"),
        Some("AS4837 联通4837 [普通线路]".to_string())
    );
}

#[test]
fn lookup_no_prefix() {
    let t = asn_table();
    assert_eq!(get_asn(&t, "8.8.8.8"), None);
    assert_eq!(get_asn(&t, "1.2.3.4"), None);
}

#[test]
fn lookup_most_specific_prefix_first() {
    let t = asn_table();
    assert_eq!(
        get_asn(&t, "223.120.19.9"),
        Some("AS58807 移动CMIN2[优质线路]".to_string())
    );
    assert_eq!(
        get_asn(&t, "223.120.5.5"),
        Some("AS58453 移动CMI  [普通线路]".to_string())
    );
}

#[test]
fn lookup_is_idempotent() {
    let t = asn_table();
    assert_eq!(get_asn(&t, "223.120.19.9"), get_asn(&t, "223.120.19.9"));
    assert_eq!(get_asn(&t, "8.8.8.8"), get_asn(&t, "8.8.8.8"));
}

#[test]
fn tokens_of_record() {
    let (code, name) = first_two_tokens("AS4809 电信CN2  [优质线路]");
    assert_eq!(code, "AS4809");
    assert_eq!(name, "电信CN2");
}

#[test]
fn tokens_missing() {
    assert_eq!(first_two_tokens("solo"), ("solo".to_string(), "".to_string()));
    assert_eq!(first_two_tokens(""), ("".to_string(), "".to_string()));
    assert_eq!(
        first_two_tokens("  padded  name  rest"),
        ("padded".to_string(), "name".to_string())
    );
}

#[test]
fn color_palette() {
    assert_eq!(color_for("AS9929"), Color::Yellow);
    assert_eq!(color_for("AS4809"), Color::Magenta);
    assert_eq!(color_for("AS58807"), Color::Blue);
    assert_eq!(color_for("AS4134"), Color::White);
    assert_eq!(color_for("as9929"), Color::White);
    assert_eq!(color_for(""), Color::White);
}

#[test]
fn classified_line_segments() {
    let t = asn_table();
    let segs = render_line("59.43.1.2 ping", &t);
    assert_eq!(
        segs,
        vec![
            Segment::Text("".to_string()),
            Segment::Text("59.43.1.2".to_string()),
            Segment::Ann("[电信CN2]".to_string(), Color::Magenta),
            Segment::Text(" ping".to_string()),
        ]
    );
}

#[test]
fn classified_line_plain_output() {
    let t = asn_table();
    assert_eq!(
        render_plain_line("59.43.1.2 ping", &t),
        "59.43.1.2 [电信CN2] ping\n"
    );
}

#[test]
fn overlapping_prefixes_use_most_specific() {
    let t = asn_table();
    let segs = render_line("223.120.19.9 test", &t);
    assert_eq!(
        segs,
        vec![
            Segment::Text("".to_string()),
            Segment::Text("223.120.19.9".to_string()),
            Segment::Ann("[移动CMIN2[优质线路]]".to_string(), Color::Blue),
            Segment::Text(" test".to_string()),
        ]
    );
}

#[test]
fn plain_line_is_identity() {
    let t = asn_table();
    assert_eq!(render_plain_line("no ip here", &t), "no ip here\n");
    let segs = render_line("no ip here", &t);
    assert_eq!(segs, vec![Segment::Text("no ip here".to_string())]);
}

#[test]
fn line_without_pattern_keeps_digits() {
    let t = asn_table();
    assert_eq!(render_plain_line("hello 42 world", &t), "hello 42 world\n");
    assert_eq!(render_plain_line("", &t), "\n");
}

#[test]
fn unclassified_address_unannotated() {
    let t = asn_table();
    assert_eq!(render_plain_line("1.2.3.4", &t), "1.2.3.4\n");
    let segs = render_line("1.2.3.4", &t);
    assert!(segs.iter().all(|s| !matches!(s, Segment::Ann(_, _))));
}

#[test]
fn round_trip_reconstructs_line() {
    let t = asn_table();
    let line = "a 59.43.1.2 b 8.8.8.8 c 223.120.19.9 末尾";
    let segs = render_line(line, &t);
    let mut rebuilt = String::new();
    for seg in &segs {
        if let Segment::Text(text) = seg {
            rebuilt.push_str(text);
        }
    }
    assert_eq!(rebuilt, line);
}

#[test]
fn plain_output_has_no_escape_codes() {
    let t = asn_table();
    let out = render_plain_line("59.43.1.2 and 218.105.0.1", &t);
    assert!(!out.contains('\u{1b}'));
    assert_eq!(out, "59.43.1.2 [电信CN2] and 218.105.0.1 [联通9929]\n");
}

#[test]
fn first_match_wins_in_insertion_order() {
    let t = Table {
        entries: vec![
            Entry {
                prefix: "9.".to_string(),
                info: "AS1 one".to_string(),
            },
            Entry {
                prefix: "9.9".to_string(),
                info: "AS2 two".to_string(),
            },
        ],
    };
    assert_eq!(get_asn(&t, "9.9.9.9"), Some("AS1 one".to_string()));
}

#[test]
fn record_with_one_token_gets_empty_name() {
    let t = Table {
        entries: vec![Entry {
            prefix: "1.".to_string(),
            info: "ASX".to_string(),
        }],
    };
    let segs = render_line("1.2.3.4", &t);
    assert_eq!(
        segs,
        vec![
            Segment::Text("".to_string()),
            Segment::Text("1.2.3.4".to_string()),
            Segment::Ann("[]".to_string(), Color::White),
            Segment::Text("".to_string()),
        ]
    );
}

#[test]
fn driver_emits_rendered_line() {
    let t = asn_table();
    let (state, action) = drive(
        DriverState::Reading,
        StreamEvent::Line("1.2.3.4".to_string()),
        &t,
    );
    assert_eq!(state, DriverState::Reading);
    assert_eq!(
        action,
        DriverAction::Emit(vec![
            Segment::Text("".to_string()),
            Segment::Text("1.2.3.4".to_string()),
            Segment::Text("".to_string()),
        ])
    );
}

#[test]
fn driver_skips_failed_read() {
    let t = asn_table();
    let (state, action) = drive(DriverState::Reading, StreamEvent::ReadFailure, &t);
    assert_eq!(state, DriverState::Reading);
    assert_eq!(action, DriverAction::Skip);
}

#[test]
fn driver_stops_at_end_of_input() {
    let t = asn_table();
    let (state, action) = drive(DriverState::Reading, StreamEvent::EndOfInput, &t);
    assert_eq!(state, DriverState::Done);
    assert_eq!(action, DriverAction::Stop);
    let (state, action) = drive(DriverState::Done, StreamEvent::ReadFailure, &t);
    assert_eq!(state, DriverState::Done);
    assert_eq!(action, DriverAction::Stop);
}
