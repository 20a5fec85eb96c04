use ccdiag::{
    build_args, excerpt_window, i32_to_string, plan_output, ErrKind, GccErr, Plan, RenderOp,
    SrcLocation, SrcPos,
};

fn line_text(op: &RenderOp) -> &str {
    match op {
        RenderOp::Line(text) => text,
        RenderOp::Excerpt { .. } => panic!("expected a text line"),
    }
}

#[test]
fn no_locations_renders_headline_and_blank_only() {
    let record = GccErr {
        kind: ErrKind::Note,
        locations: vec![],
        message: String::from("just saying"),
    };
    let ops = record.render();
    assert_eq!(ops.len(), 2);
    let head = line_text(&ops[0]);
    assert!(head.starts_with('['));
    assert!(head.contains("Note"));
    assert!(head.ends_with("] just saying"));
    assert_eq!(line_text(&ops[1]), "");
}

#[test]
fn window_clamps_below_line_three() {
    assert_eq!(excerpt_window(1), (0, 4));
    assert_eq!(excerpt_window(2), (0, 5));
    assert_eq!(excerpt_window(0), (0, 3));
}

#[test]
fn window_around_line_ten() {
    assert_eq!(excerpt_window(10), (7, 13));
}

#[test]
fn window_at_extremes_does_not_wrap() {
    assert_eq!(excerpt_window(i32::MAX), (i32::MAX as i64 - 3, i32::MAX as i64 + 3));
    assert_eq!(excerpt_window(i32::MIN), (0, i32::MIN as i64 + 3));
}

#[test]
fn error_record_renders_location_and_excerpt() {
    let input = r#"[{"kind":"error","message":"expected ';'","locations":[{"caret":{"file":"a.c","line":5,"column":3}}]}]"#;
    let records = GccErr::from(input).unwrap();
    let ops = records[0].render();
    assert_eq!(ops.len(), 4);

    let head = line_text(&ops[0]);
    assert!(head.starts_with('['));
    assert!(head.contains("Error"));
    assert!(head.ends_with("] expected ';'"));

    let loc = line_text(&ops[1]);
    assert!(loc.starts_with(" File `"));
    assert!(loc.contains("a.c"));
    assert!(loc.contains("` line "));
    assert!(loc.contains("5"));
    assert!(loc.contains(" col "));
    assert!(loc.contains("3"));
    assert!(loc.ends_with(':'));

    match &ops[2] {
        RenderOp::Excerpt {
            file,
            from,
            to,
            highlight,
        } => {
            assert_eq!(file, "a.c");
            assert_eq!(*from, 2);
            assert_eq!(*to, 8);
            assert_eq!(*highlight, 5);
        }
        RenderOp::Line(_) => panic!("expected an excerpt request"),
    }

    assert_eq!(line_text(&ops[3]), "");
}

#[test]
fn warning_label_appears_in_headline() {
    let record = GccErr {
        kind: ErrKind::Warning,
        locations: vec![],
        message: String::from("w"),
    };
    let ops = record.render();
    assert!(line_text(&ops[0]).contains("Warning"));
}

#[test]
fn two_steps_per_location() {
    let record = GccErr {
        kind: ErrKind::Error,
        locations: vec![
            SrcLocation {
                caret: SrcPos {
                    file: String::from("x.c"),
                    line: 1,
                    column: 1,
                },
            },
            SrcLocation {
                caret: SrcPos {
                    file: String::from("y.c"),
                    line: 10,
                    column: 2,
                },
            },
        ],
        message: String::from("m"),
    };
    let ops = record.render();
    assert_eq!(ops.len(), 6);
    match &ops[4] {
        RenderOp::Excerpt {
            file,
            from,
            to,
            highlight,
        } => {
            assert_eq!(file, "y.c");
            assert_eq!(*from, 7);
            assert_eq!(*to, 13);
            assert_eq!(*highlight, 10);
        }
        RenderOp::Line(_) => panic!("expected an excerpt request"),
    }
}

#[test]
fn decimal_rendering_is_exact() {
    assert_eq!(i32_to_string(0), "0");
    assert_eq!(i32_to_string(42), "42");
    assert_eq!(i32_to_string(-7), "-7");
    assert_eq!(i32_to_string(2147483647), "2147483647");
    assert_eq!(i32_to_string(-2147483648), "-2147483648");
}

#[test]
fn structured_path_for_empty_array() {
    match plan_output("[]") {
        Plan::Structured(plans) => assert_eq!(plans.len(), 0),
        Plan::Passthrough => panic!("an empty array is well-formed"),
    }
}

#[test]
fn structured_path_renders_each_record() {
    let input = r#"[
        {"kind":"note","message":"one","locations":[]},
        {"kind":"error","message":"two","locations":[{"caret":{"file":"a.c","line":1,"column":1}}]}
    ]"#;
    match plan_output(input) {
        Plan::Structured(plans) => {
            assert_eq!(plans.len(), 2);
            assert_eq!(plans[0].len(), 2);
            assert_eq!(plans[1].len(), 4);
            assert!(line_text(&plans[0][0]).contains("one"));
            assert!(line_text(&plans[1][0]).contains("two"));
        }
        Plan::Passthrough => panic!("well-formed input must take the structured path"),
    }
}

#[test]
fn fallback_path_for_plain_text() {
    assert!(matches!(
        plan_output("a.c:5:3: error: expected ';'"),
        Plan::Passthrough
    ));
    assert!(matches!(plan_output(""), Plan::Passthrough));
}

#[test]
fn forwarded_args_stay_verbatim_and_flag_is_appended() {
    let args = vec![String::from("-O2"), String::from("main.cpp")];
    let built = build_args(args);
    assert_eq!(built.len(), 3);
    assert_eq!(built[0], "-O2");
    assert_eq!(built[1], "main.cpp");
    assert_eq!(built[2], "-fdiagnostics-format=json");

    let built = build_args(vec![]);
    assert_eq!(built, vec![String::from("-fdiagnostics-format=json")]);
}
