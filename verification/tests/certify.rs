use rusmt_lang::certify::{
    certify_imp, certify_toml, observe_imp, observe_toml, oracle_for, Verdict, DEFAULT_FUEL,
    TARGET_SEP,
};

// The two named markers of the IMP reference semantics.
const DIV0: &str = "division_by_zero";
const UNDEF: &str = "undefined_variable";

fn certify(src: &str, target: &str) -> Verdict {
    certify_imp(src, target, DEFAULT_FUEL)
}

#[test]
fn division_by_zero_witness_is_certified_for_its_target() {
    assert_eq!(certify("A := (0 / 0)", DIV0), Verdict::ReachedTarget);
}

#[test]
fn a_multi_marker_target_needs_every_marker_to_fire() {
    // IMP stops at the first error, so one run cannot fire both markers; the
    // merged target is therefore rejected, while each single-marker target is
    // certified by its own witness.
    let both = format!("{DIV0}{TARGET_SEP}{UNDEF}");
    assert_eq!(certify("A := (0 / 0)", DIV0), Verdict::ReachedTarget);
    assert!(!certify("A := (0 / 0)", &both).is_certified());
    assert!(!certify("A := v0", &both).is_certified());
}

#[test]
fn an_empty_target_certifies_nothing() {
    assert!(!certify("A := (0 / 0)", "").is_certified());
    assert!(!certify("A := (0 / 0)", ",").is_certified());
}

#[test]
fn extra_markers_do_not_break_certification() {
    assert_eq!(
        certify("A := (0 / 0)", &format!(" {DIV0} ")),
        Verdict::ReachedTarget
    );
}

#[test]
fn undefined_variable_witness_is_certified_for_its_target() {
    assert_eq!(certify("A := v0", UNDEF), Verdict::ReachedTarget);
}

#[test]
fn a_candidate_for_the_wrong_target_is_rejected() {
    assert!(matches!(
        certify("A := (0 / 0)", UNDEF),
        Verdict::ReachedOtherMarker(_)
    ));
}

#[test]
fn a_well_formed_program_that_reaches_no_marker_is_rejected() {
    assert_eq!(certify("A := 1", DIV0), Verdict::NoMarker);
}

#[test]
fn malformed_source_is_rejected() {
    assert!(matches!(certify("@@@ not imp", DIV0), Verdict::ParseError(_)));
}

#[test]
fn an_llm_style_proposal_is_certified_for_its_target() {
    assert_eq!(certify("B := (7 / (2 - 2))", DIV0), Verdict::ReachedTarget);
}

/// One proposed document per named TOML target.
const TOML_DIRECT_WITNESSES: [(&str, &str); 10] = [
    ("boolean_invalid", "a = FALSE"),
    ("bare_key_invalid_start", "@ = 1"),
    ("time_hour_out_of_range", "a = 25:32:00"),
    ("time_minute_out_of_range", "a = 00:99:00"),
    ("time_second_out_of_range", "a = 00:00:99"),
    ("date_invalid_month", "a = 2020-13-01"),
    ("date_invalid_day", "a = 2020-02-30"),
    ("float_no_digit_after_dot", "a = 1.x"),
    ("string_invalid_escape", "a = \"\\q\""),
    ("inline_table_unterminated", "a = {b = 1"),
];

#[test]
fn toml_named_targets_recovered_by_direct_proposal_and_replay() {
    for (target, src) in TOML_DIRECT_WITNESSES {
        assert_eq!(
            certify_toml(src, target),
            Verdict::ReachedTarget,
            "expected {src:?} to reach named TOML marker `{target}`",
        );
    }
}

#[test]
fn toml_recovery_is_per_target_not_some_marker() {
    assert!(matches!(
        certify_toml("a = FALSE", "date_invalid_month"),
        Verdict::ReachedOtherMarker(_)
    ));
}

#[test]
fn observable_behaviour_is_canonical_across_the_three_outcome_classes() {
    assert_eq!(observe_imp("A := 1; B := (A + 2)", DEFAULT_FUEL), "OK A=1;B=3");
    assert_eq!(observe_imp("A := (0 / 0)", DEFAULT_FUEL), "ERR division_by_zero");
    assert_eq!(observe_imp("A := v0", DEFAULT_FUEL), "ERR undefined_variable");
    assert!(observe_imp("@@@ not imp", DEFAULT_FUEL).starts_with("PARSE_ERROR"));
}

#[test]
fn observe_imp_sorts_the_store_by_line() {
    // `A0=2` sorts before `A=1` because `0` comes before `=`.
    assert_eq!(observe_imp("A := 1; A0 := 2", DEFAULT_FUEL), "OK A0=2;A=1");
    assert_eq!(observe_imp("skip", DEFAULT_FUEL), "OK ");
}

#[test]
fn observe_imp_reports_a_timeout_when_the_budget_runs_out() {
    assert_eq!(observe_imp("while true do skip", 10), "TIMEOUT");
    assert_eq!(certify_imp("while true do skip", DIV0, 10), Verdict::Timeout);
}

#[test]
fn observe_toml_names_the_rule() {
    assert_eq!(observe_toml("a = 1"), "OK");
    assert_eq!(observe_toml("a = FALSE"), "ERR boolean_invalid");
    assert_eq!(observe_toml("a = 1\na = {b = 1"), "ERR inline_table_unterminated");
}

#[test]
fn toml_accepts_a_small_document() {
    let doc = "# a document\ntitle = \"TOML\"\n[owner]\nname = 'Tom'\ndob = 1979-05-27T07:32:00-08:00\n[database]\nports = [ 8000, 8001, 8002 ]\nenabled = true\ntemp = { cpu = 79.5, case = 72.0 }\n";
    assert_eq!(observe_toml(doc), "OK");
    assert_eq!(certify_toml(doc, "boolean_invalid"), Verdict::NoMarker);
}

#[test]
fn toml_rejects_a_redefined_table() {
    assert_eq!(observe_toml("[a]\nx = 1\n[a]\ny = 2"), "ERR std_table_duplicate");
    assert_eq!(observe_toml("a = 1\nb = 2 c = 3"), "ERR toml_expected_newline_between_expressions");
}

#[test]
fn oracles_are_registered_for_both_languages() {
    let imp = oracle_for("imp").expect("imp oracle");
    assert_eq!(imp.ext, "imp");
    assert_eq!(imp.certify("A := (0 / 0)", DIV0, DEFAULT_FUEL), Verdict::ReachedTarget);
    let toml = oracle_for("toml").expect("toml oracle");
    assert_eq!(toml.certify("a = FALSE", "boolean_invalid", DEFAULT_FUEL), Verdict::ReachedTarget);
    assert!(oracle_for("rego").is_none());
}

#[test]
fn verdicts_survive_the_wire() {
    let vs = vec![
        Verdict::ReachedTarget,
        Verdict::ReachedOtherMarker(vec![1, 27, 183]),
        Verdict::NoMarker,
        Verdict::ParseError("expected `:=` at byte 3".to_string()),
        Verdict::Timeout,
        Verdict::Crashed("stack overflow".to_string()),
    ];
    for v in vs {
        assert_eq!(Verdict::from_wire(&v.to_wire()), Some(v.clone()));
    }
    assert_eq!(Verdict::ReachedOtherMarker(vec![3, 4]).to_wire(), "REACHED_OTHER 3 4");
    assert_eq!(Verdict::ParseError("a\nb".to_string()).to_wire(), "PARSE_ERROR a b");
    assert_eq!(Verdict::from_wire("  TIMEOUT  "), Some(Verdict::Timeout));
    assert_eq!(Verdict::from_wire("REACHED_OTHER 1 x"), None);
    assert_eq!(Verdict::from_wire("nonsense"), None);
}
