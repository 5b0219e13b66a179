use vibelang::diagnostics::{
    diagnostics_sort_mode_label, Diagnostic, Diagnostics, DiagnosticsSortMode, Severity, Span,
};

#[test]
fn host_diagnostics_sort_matches_shadow_contract_cases() {
    let mut diagnostics = Diagnostics::default();
    diagnostics.push(Diagnostic::new(
        "E1002",
        Severity::Warning,
        "shadow case warning",
        Span::new(3, 1, 3, 5),
    ));
    diagnostics.push(Diagnostic::new(
        "E1001",
        Severity::Error,
        "shadow case later span",
        Span::new(2, 1, 2, 5),
    ));
    diagnostics.push(Diagnostic::new(
        "E1002",
        Severity::Info,
        "shadow case info",
        Span::new(3, 1, 3, 5),
    ));
    diagnostics.push(Diagnostic::new(
        "E1002",
        Severity::Error,
        "shadow case code rank",
        Span::new(3, 1, 3, 5),
    ));
    diagnostics.push(Diagnostic::new(
        "E1001",
        Severity::Error,
        "shadow case earliest span",
        Span::new(1, 1, 1, 5),
    ));
    diagnostics.push(Diagnostic::new(
        "E1001",
        Severity::Error,
        "shadow case same span lower code",
        Span::new(3, 1, 3, 5),
    ));

    let sorted = diagnostics.into_sorted();
    let observed = sorted
        .iter()
        .map(|d| (d.code.clone(), d.severity, d.span))
        .collect::<Vec<_>>();

    let expected = vec![
        ("E1001".to_string(), Severity::Error, Span::new(1, 1, 1, 5)),
        ("E1001".to_string(), Severity::Error, Span::new(2, 1, 2, 5)),
        ("E1001".to_string(), Severity::Error, Span::new(3, 1, 3, 5)),
        ("E1002".to_string(), Severity::Error, Span::new(3, 1, 3, 5)),
        ("E1002".to_string(), Severity::Warning, Span::new(3, 1, 3, 5)),
        ("E1002".to_string(), Severity::Info, Span::new(3, 1, 3, 5)),
    ];

    assert_eq!(
        observed, expected,
        "host diagnostics ordering should match selfhost shadow ordering contract"
    );
}

#[test]
fn host_diagnostics_sort_is_repeat_run_deterministic() {
    let mut first_input = Diagnostics::default();
    first_input.push(Diagnostic::new(
        "E2002",
        Severity::Warning,
        "warning",
        Span::new(8, 1, 8, 5),
    ));
    first_input.push(Diagnostic::new(
        "E1001",
        Severity::Error,
        "error",
        Span::new(3, 2, 3, 7),
    ));

    let mut second_input = Diagnostics::default();
    second_input.push(Diagnostic::new(
        "E2002",
        Severity::Warning,
        "warning",
        Span::new(8, 1, 8, 5),
    ));
    second_input.push(Diagnostic::new(
        "E1001",
        Severity::Error,
        "error",
        Span::new(3, 2, 3, 7),
    ));

    assert_eq!(
        first_input.to_golden(),
        second_input.to_golden(),
        "diagnostic golden output should be deterministic across repeated runs"
    );
}

#[test]
fn golden_lists_sorted_entries_with_related_spans() {
    let mut diagnostics = Diagnostics::default();
    diagnostics.push(
        Diagnostic::new("E2001", Severity::Warning, "later", Span::new(4, 2, 4, 9))
            .with_related("see here", Span::new(1, 1, 1, 3)),
    );
    diagnostics.push(Diagnostic::new("E1001", Severity::Error, "first", Span::new(1, 10, 1, 12)));
    assert_eq!(
        diagnostics.to_golden(),
        "E1001: error: first @ 1:10-1:12\nE2001: warning: later @ 4:2-4:9\n  related: see here @ 1:1-1:3\n"
    );
}

#[test]
fn has_errors_sees_only_error_severity() {
    let mut diagnostics = Diagnostics::default();
    assert!(!diagnostics.has_errors());
    diagnostics.push(Diagnostic::new("W1", Severity::Warning, "w", Span::new(1, 1, 1, 1)));
    assert!(!diagnostics.has_errors());
    diagnostics.extend(vec![Diagnostic::new("E1", Severity::Error, "e", Span::new(2, 1, 2, 1))]);
    assert!(diagnostics.has_errors());
    assert_eq!(diagnostics.as_slice().len(), 2);
}

#[test]
fn sort_mode_follows_the_two_settings() {
    assert_eq!(diagnostics_sort_mode_label(None, None), "host");
    assert_eq!(diagnostics_sort_mode_label(None, Some("selfhost-default")), "selfhost-default");
    assert_eq!(diagnostics_sort_mode_label(Some("1"), Some("selfhost-default")), "host-fallback");
    assert_eq!(diagnostics_sort_mode_label(Some("0"), Some("other")), "host");
    assert_eq!(DiagnosticsSortMode::HostFallback.label(), "host-fallback");
}

#[test]
fn selfhost_mode_orders_like_host_for_small_spans() {
    let make = || {
        let mut d = Diagnostics::default();
        d.push(Diagnostic::new("E3001", Severity::Info, "info", Span::new(5, 2, 5, 6)));
        d.push(Diagnostic::new("E1001", Severity::Error, "error", Span::new(1, 1, 1, 5)));
        d.push(Diagnostic::new("E3001", Severity::Warning, "warning", Span::new(5, 2, 5, 6)));
        d
    };
    let host = make().into_sorted_with_mode(DiagnosticsSortMode::Host);
    let selfhost = make().into_sorted_with_mode(DiagnosticsSortMode::SelfhostDefault);
    assert_eq!(host, selfhost);
    assert_eq!(host[0].code, "E1001");
    assert_eq!(host[1].severity, Severity::Warning);
}

#[test]
fn golden_text_ignores_report_order() {
    let a = Diagnostic::new("E2002", Severity::Warning, "w", Span::new(8, 1, 8, 5));
    let b = Diagnostic::new("E1001", Severity::Error, "e", Span::new(3, 2, 3, 7));
    let mut d1 = Diagnostics::default();
    d1.push(a.clone());
    d1.push(b.clone());
    let mut d2 = Diagnostics::default();
    d2.push(b);
    d2.push(a);
    assert_eq!(d1.to_golden(), d2.to_golden());
    assert_eq!(d1.to_golden(), "E1001: error: e @ 3:2-3:7\nE2002: warning: w @ 8:1-8:5\n");
}

#[test]
fn every_mode_gives_host_order_for_small_spans() {
    let mut d = Diagnostics::default();
    d.push(Diagnostic::new("E2", Severity::Info, "x", Span::new(2, 5, 2, 6)));
    d.push(Diagnostic::new("E1", Severity::Error, "y", Span::new(2, 5, 2, 6)));
    let host = d.sorted();
    let selfhost = d.into_sorted_with_mode(DiagnosticsSortMode::SelfhostDefault);
    assert_eq!(host, selfhost);
}

#[test]
fn selfhost_mode_keeps_host_order_for_wide_columns() {
    let mut d = Diagnostics::default();
    d.push(Diagnostic::new("E1", Severity::Error, "b", Span::new(1, 1001, 1, 1002)));
    d.push(Diagnostic::new("E1", Severity::Error, "a", Span::new(2, 1, 2, 2)));
    let host = d.sorted();
    assert_eq!(host[0].message, "b");
    assert_eq!(d.into_sorted_with_mode(DiagnosticsSortMode::SelfhostDefault), host);
}
