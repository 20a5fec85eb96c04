use ccdiag::{ErrKind, GccErr};

#[test]
fn parses_single_error_record() {
    let input = r#"[{"kind":"error","message":"expected ';'","locations":[{"caret":{"file":"a.c","line":5,"column":3}}]}]"#;
    let records = GccErr::from(input).expect("well-formed input must parse");
    assert_eq!(records.len(), 1);
    assert_eq!(records[0].kind, ErrKind::Error);
    assert_eq!(records[0].message, "expected ';'");
    assert_eq!(records[0].locations.len(), 1);
    assert_eq!(records[0].locations[0].caret.file, "a.c");
    assert_eq!(records[0].locations[0].caret.line, 5);
    assert_eq!(records[0].locations[0].caret.column, 3);
}

#[test]
fn preserves_count_and_order() {
    let input = r#"[
        {"kind":"warning","message":"first","locations":[]},
        {"kind":"note","message":"second","locations":[]},
        {"kind":"error","message":"third","locations":[]}
    ]"#;
    let records = GccErr::from(input).unwrap();
    assert_eq!(records.len(), 3);
    assert_eq!(records[0].message, "first");
    assert_eq!(records[0].kind, ErrKind::Warning);
    assert_eq!(records[1].message, "second");
    assert_eq!(records[1].kind, ErrKind::Note);
    assert_eq!(records[2].message, "third");
    assert_eq!(records[2].kind, ErrKind::Error);
}

#[test]
fn empty_array_yields_zero_records() {
    let records = GccErr::from("[]").expect("an empty array is well-formed");
    assert_eq!(records.len(), 0);
    let records = GccErr::from("  [ ]  ").expect("whitespace is allowed");
    assert_eq!(records.len(), 0);
}

#[test]
fn members_in_any_order_parse() {
    let input = r#"[{"locations":[{"caret":{"column":2,"file":"b.c","line":9}}],"message":"m","kind":"note"}]"#;
    let records = GccErr::from(input).unwrap();
    assert_eq!(records[0].kind, ErrKind::Note);
    assert_eq!(records[0].locations[0].caret.file, "b.c");
    assert_eq!(records[0].locations[0].caret.line, 9);
    assert_eq!(records[0].locations[0].caret.column, 2);
}

#[test]
fn plain_compiler_text_fails() {
    assert!(GccErr::from("a.c:5:3: error: expected ';'").is_none());
}

#[test]
fn truncated_array_fails() {
    assert!(GccErr::from(r#"[{"kind":"error","message":"m","locations":[]}"#).is_none());
    assert!(GccErr::from("[").is_none());
    assert!(GccErr::from("").is_none());
}

#[test]
fn unknown_kind_fails() {
    assert!(GccErr::from(r#"[{"kind":"fatal","message":"m","locations":[]}]"#).is_none());
}

#[test]
fn missing_member_fails() {
    assert!(GccErr::from(r#"[{"kind":"error","locations":[]}]"#).is_none());
    assert!(GccErr::from(r#"[{"message":"m","locations":[]}]"#).is_none());
    assert!(GccErr::from(r#"[{}]"#).is_none());
}

#[test]
fn duplicate_member_fails() {
    assert!(
        GccErr::from(r#"[{"kind":"error","kind":"note","message":"m","locations":[]}]"#).is_none()
    );
}

#[test]
fn unrecognized_members_are_skipped() {
    let input = r#"[{"kind":"error","column-origin":1,"message":"m","locations":[
        {"caret":{"file":"a.c","line":5,"column":3,"display-column":3},
         "finish":{"file":"a.c","line":5,"column":9}}
    ],"children":[],"option":"-Wall","escape-source":false}]"#;
    let records = GccErr::from(input).unwrap();
    assert_eq!(records.len(), 1);
    assert_eq!(records[0].message, "m");
    assert_eq!(records[0].locations.len(), 1);
    assert_eq!(records[0].locations[0].caret.line, 5);
}

#[test]
fn skipped_values_may_hold_any_shape() {
    let input = r#"[{"kind":"note","message":"m","locations":[],
        "a":null,"b":true,"c":-1.5e+10,"d":[1,[2,"x"],{}],"e":{"f":{"g":[]}}}]"#;
    let records = GccErr::from(input).unwrap();
    assert_eq!(records[0].message, "m");
}

#[test]
fn malformed_skipped_value_fails() {
    assert!(GccErr::from(r#"[{"kind":"note","message":"m","locations":[],"x":nul}]"#).is_none());
    assert!(GccErr::from(r#"[{"kind":"note","message":"m","locations":[],"x":1.}]"#).is_none());
    assert!(GccErr::from(r#"[{"kind":"note","message":"m","locations":[],"x":}]"#).is_none());
}

#[test]
fn deeply_nested_skipped_value_fails() {
    let mut value = String::new();
    for _ in 0..200 {
        value.push('[');
    }
    for _ in 0..200 {
        value.push(']');
    }
    let input = format!(
        r#"[{{"kind":"note","message":"m","locations":[],"x":{}}}]"#,
        value
    );
    assert!(GccErr::from(&input).is_none());
}

#[test]
fn trailing_content_fails() {
    assert!(GccErr::from("[] trailing").is_none());
    assert!(GccErr::from("[][]").is_none());
}

#[test]
fn escapes_decode() {
    let input = r#"[{"kind":"note","message":"a\nb\t\"c\"\\\/A","locations":[]}]"#;
    let records = GccErr::from(input).unwrap();
    assert_eq!(records[0].message, "a\nb\t\"c\"\\/A");
}

#[test]
fn hex_escape_decodes() {
    let input = r#"[{"kind":"note","message":"\u0041\u00e9\u2713","locations":[]}]"#;
    let records = GccErr::from(input).unwrap();
    assert_eq!(records[0].message, "Aé✓");
}

#[test]
fn surrogate_pair_decodes() {
    let input = r#"[{"kind":"note","message":"😀","locations":[]}]"#;
    let records = GccErr::from(input).unwrap();
    assert_eq!(records[0].message, "\u{1F600}");
}

#[test]
fn lone_surrogate_fails() {
    assert!(GccErr::from(r#"[{"kind":"note","message":"\uD83D","locations":[]}]"#).is_none());
    assert!(GccErr::from(r#"[{"kind":"note","message":"\uDE00","locations":[]}]"#).is_none());
}

#[test]
fn unknown_escape_fails() {
    assert!(GccErr::from(r#"[{"kind":"note","message":"\x41","locations":[]}]"#).is_none());
}

#[test]
fn raw_control_character_fails() {
    let input = "[{\"kind\":\"note\",\"message\":\"a\nb\",\"locations\":[]}]";
    assert!(GccErr::from(input).is_none());
}

#[test]
fn non_ascii_text_parses() {
    let input = r#"[{"kind":"note","message":"ümlaut – ok","locations":[]}]"#;
    let records = GccErr::from(input).unwrap();
    assert_eq!(records[0].message, "ümlaut – ok");
}

#[test]
fn negative_number_parses() {
    let input = r#"[{"kind":"note","message":"m","locations":[{"caret":{"file":"f","line":-1,"column":-7}}]}]"#;
    let records = GccErr::from(input).unwrap();
    assert_eq!(records[0].locations[0].caret.line, -1);
    assert_eq!(records[0].locations[0].caret.column, -7);
}

#[test]
fn number_at_i32_bounds_parses() {
    let input = r#"[{"kind":"note","message":"m","locations":[{"caret":{"file":"f","line":2147483647,"column":-2147483648}}]}]"#;
    let records = GccErr::from(input).unwrap();
    assert_eq!(records[0].locations[0].caret.line, 2147483647);
    assert_eq!(records[0].locations[0].caret.column, -2147483648);
}

#[test]
fn number_beyond_i32_fails() {
    let input = r#"[{"kind":"note","message":"m","locations":[{"caret":{"file":"f","line":2147483648,"column":1}}]}]"#;
    assert!(GccErr::from(input).is_none());
}

#[test]
fn leading_zero_fails() {
    let input = r#"[{"kind":"note","message":"m","locations":[{"caret":{"file":"f","line":05,"column":1}}]}]"#;
    assert!(GccErr::from(input).is_none());
}

#[test]
fn fractional_number_fails() {
    let input = r#"[{"kind":"note","message":"m","locations":[{"caret":{"file":"f","line":5.0,"column":1}}]}]"#;
    assert!(GccErr::from(input).is_none());
}

#[test]
fn several_locations_parse_in_order() {
    let input = r#"[{"kind":"error","message":"m","locations":[
        {"caret":{"file":"a.c","line":1,"column":1}},
        {"caret":{"file":"b.c","line":2,"column":2}}
    ]}]"#;
    let records = GccErr::from(input).unwrap();
    assert_eq!(records[0].locations.len(), 2);
    assert_eq!(records[0].locations[0].caret.file, "a.c");
    assert_eq!(records[0].locations[1].caret.file, "b.c");
}
