use ctx::score::{
    compute_score, failed_conditions, parse_fail_on, score_file, side_metrics, FileScore,
    Metrics, Op, Side, FAN_IN_NOTE, NO_RULES_NOTE,
};

#[test]
fn test_parse_fail_on_all_operators() {
    let conds =
        parse_fail_on("complexity_delta>=10,new_duplication>0,fan_out_delta<=5,symbols_removed<3")
            .unwrap();
    assert_eq!(conds.len(), 4);
    assert_eq!(conds[0].metric, "complexity_delta");
    assert_eq!(conds[0].op, Op::Ge);
    assert_eq!(conds[0].value, 10);
    assert_eq!(conds[1].op, Op::Gt);
    assert_eq!(conds[1].value, 0);
    assert_eq!(conds[2].op, Op::Le);
    assert_eq!(conds[2].value, 5);
    assert_eq!(conds[3].op, Op::Lt);
    assert_eq!(conds[3].value, 3);
}

#[test]
fn test_parse_fail_on_whitespace_tolerance() {
    let conds = parse_fail_on("  new_duplication  >  0  ,  check_violations >= 1 ").unwrap();
    assert_eq!(conds.len(), 2);
    assert_eq!(conds[0].metric, "new_duplication");
    assert_eq!(conds[0].op, Op::Gt);
    assert_eq!(conds[1].metric, "check_violations");
    assert_eq!(conds[1].op, Op::Ge);
    assert_eq!(conds[0].to_text(), "new_duplication > 0");
}

#[test]
fn test_parse_fail_on_negative_values() {
    let conds = parse_fail_on("complexity_delta>=-5").unwrap();
    assert_eq!(conds[0].value, -5);
}

#[test]
fn test_parse_fail_on_unknown_metric_is_error() {
    let err = parse_fail_on("bogus_metric>0").unwrap_err();
    let msg = err.message();
    assert!(msg.contains("bogus_metric"), "msg: {}", msg);
    assert!(msg.contains("complexity_delta"), "msg: {}", msg);
}

#[test]
fn test_parse_fail_on_malformed_is_error() {
    for bad in [
        "new_duplication",
        "new_duplication>",
        ">0",
        "new_duplication>x",
        "",
        " , ",
    ] {
        assert!(parse_fail_on(bad).is_err(), "expected error for {:?}", bad);
    }
    assert!(parse_fail_on("new_duplication>0,nope").is_err());
}

#[test]
fn test_failed_conditions_evaluation() {
    let metrics = Metrics {
        complexity_delta: 7,
        new_duplication: 1,
        ..Metrics::default()
    };
    let conds = parse_fail_on("complexity_delta>=10,new_duplication>0,files_changed<1").unwrap();
    let failed = failed_conditions(&conds, &metrics);
    assert_eq!(failed.len(), 2);
    assert_eq!(failed[0].to_text(), "new_duplication > 0");
    assert_eq!(failed[1].to_text(), "files_changed < 1");
}

#[test]
fn metric_lookup_and_operators() {
    let m = Metrics {
        symbols_added: 3,
        ..Metrics::default()
    };
    assert_eq!(m.get("symbols_added"), Some(3));
    assert_eq!(m.get("nope"), None);
    assert_eq!(Op::Ge.as_str(), ">=");
    assert!(Op::Lt.holds(1, 2));
    assert!(!Op::Gt.holds(2, 2));
}

fn side(complexity: i64, fan_out: i64, keys: &[(Option<&str>, &str)]) -> Side {
    Side {
        complexity,
        fan_out,
        keys: keys
            .iter()
            .map(|(p, n)| (p.map(|x| x.to_string()), n.to_string()))
            .collect(),
    }
}

#[test]
fn score_file_counts_added_and_removed_keys() {
    let baseline = side(3, 1, &[(None, "alpha"), (None, "beta")]);
    let current = side(5, 2, &[(None, "alpha"), (None, "gamma"), (Some("T"), "beta")]);
    let fs = score_file("src/a.rs", &current, &baseline);
    assert_eq!(fs.path, "src/a.rs");
    assert_eq!(fs.complexity_baseline, 3);
    assert_eq!(fs.complexity_current, 5);
    assert_eq!(fs.fan_out_current, 2);
    assert_eq!(fs.symbols_added, 2);
    assert_eq!(fs.symbols_removed, 1);
    let empty = Side::empty();
    assert_eq!(score_file("x", &empty, &empty).symbols_added, 0);
}

#[test]
fn compute_score_sums_and_notes() {
    let per_file = vec![
        FileScore {
            path: "a".to_string(),
            complexity_baseline: 2,
            complexity_current: 5,
            fan_out_baseline: 1,
            fan_out_current: 0,
            symbols_added: 1,
            symbols_removed: 0,
        },
        FileScore {
            path: "b".to_string(),
            complexity_baseline: 4,
            complexity_current: 4,
            fan_out_baseline: 2,
            fan_out_current: 3,
            symbols_added: 0,
            symbols_removed: 2,
        },
    ];
    let report = compute_score("HEAD~1", 3, per_file, 1, None);
    assert_eq!(report.against, "HEAD~1");
    assert_eq!(report.metrics.complexity_delta, 3);
    assert_eq!(report.metrics.fan_out_delta, 0);
    assert_eq!(report.metrics.symbols_added, 1);
    assert_eq!(report.metrics.symbols_removed, 2);
    assert_eq!(report.metrics.files_changed, 2);
    assert_eq!(report.metrics.check_violations, 0);
    assert_eq!(report.check_violations_note.as_deref(), Some(NO_RULES_NOTE));
    assert_eq!(report.notes[0], FAN_IN_NOTE);
    assert_eq!(report.notes.len(), 2);
    let with_rules = compute_score("main", 0, vec![], 0, Some(4));
    assert_eq!(with_rules.metrics.check_violations, 4);
    assert!(with_rules.check_violations_note.is_none());
    assert_eq!(with_rules.notes.len(), 1);
}

#[test]
fn side_metrics_of_an_empty_file() {
    let s = side_metrics(&[], &[]);
    assert_eq!(s.complexity, 0);
    assert_eq!(s.fan_out, 0);
    assert!(s.keys.is_empty());
}

#[test]
fn condition_texts_parse_back() {
    let text = "files_changed < -9223372036854775808,symbols_added >= 7,fan_out_delta > 0,check_violations <= 3";
    let conds = parse_fail_on(text).unwrap();
    let rendered: Vec<String> = conds.iter().map(|c| c.to_text()).collect();
    assert_eq!(rendered.join(","), text);
    let again = parse_fail_on(&rendered.join(",")).unwrap();
    assert_eq!(again.len(), 4);
    for (a, b) in again.iter().zip(conds.iter()) {
        assert_eq!((a.metric.as_str(), a.op, a.value), (b.metric.as_str(), b.op, b.value));
    }
    let one = parse_fail_on(&conds[0].to_text()).unwrap();
    assert_eq!((one[0].metric.as_str(), one[0].op, one[0].value), ("files_changed", Op::Lt, i64::MIN));
}
