use lean_mcp_server::patterns::{find_group, is_match, DECLARATION_PATTERN};
use lean_mcp_server::tools::profile::{
    build_proof_items, extract_line_times, extract_theorem_source, find_header_end,
    find_proof_start, find_theorem_end, match_line, parse_output, reported_categories,
    CategoryTime, LineTimes, ProofItem, TraceEntry,
};
use std::collections::HashSet;

/// The milliseconds of a step.
fn ms(entry: &TraceEntry) -> f64 {
    entry.seconds.parse::<f64>().unwrap() * 1000.0
}

/// The milliseconds of a line.
fn line_ms(traces: &[TraceEntry], times: &LineTimes, line: usize) -> f64 {
    let found = times.lines.iter().find(|(l, _)| *l == line).unwrap();
    ms(&traces[found.1])
}

/// The milliseconds of the whole proof.
fn total_ms(traces: &[TraceEntry], times: &LineTimes) -> f64 {
    times.total_of.iter().map(|i| ms(&traces[*i])).fold(0.0, f64::max)
}

/// The milliseconds of a category.
fn category_ms(times: &[CategoryTime], category: &str) -> f64 {
    let t = times.iter().find(|t| t.category == category).unwrap();
    let value = t.time.parse::<f64>().unwrap();
    if t.unit == "s" {
        value * 1000.0
    } else {
        value
    }
}

#[test]
fn find_header_end_simple_imports() {
    let lines = vec![
        "import Mathlib.Tactic",
        "import Mathlib.Data.Nat.Basic",
        "",
        "theorem foo : True := trivial",
    ];
    assert_eq!(find_header_end(&lines), 3);
}

#[test]
fn find_header_end_with_open_and_namespace() {
    let lines = vec![
        "import Mathlib.Tactic",
        "open Nat",
        "namespace MyNs",
        "",
        "theorem foo : True := trivial",
    ];
    assert_eq!(find_header_end(&lines), 4);
}

#[test]
fn find_header_end_with_block_comment() {
    let lines = vec![
        "import Mathlib.Tactic",
        "/-",
        "  A block comment",
        "-/",
        "",
        "theorem foo : True := trivial",
    ];
    assert_eq!(find_header_end(&lines), 5);
}

#[test]
fn find_header_end_no_header() {
    let lines = vec!["theorem foo : True := trivial"];
    assert_eq!(find_header_end(&lines), 0);
}

#[test]
fn find_theorem_end_single_theorem() {
    let lines = vec!["theorem foo : True := by", "  trivial"];
    assert_eq!(find_theorem_end(&lines, 0), 2);
}

#[test]
fn find_theorem_end_multiple_theorems() {
    let lines = vec![
        "theorem foo : True := by",
        "  trivial",
        "theorem bar : True := by",
        "  trivial",
    ];
    assert_eq!(find_theorem_end(&lines, 0), 2);
}

#[test]
fn extract_theorem_source_basic() {
    let lines = vec![
        "import Mathlib.Tactic",
        "",
        "theorem foo : True := by",
        "  trivial",
    ];
    let (source, name, _src_start) = extract_theorem_source(&lines, 3).unwrap();
    assert_eq!(name, "foo");
    assert!(source.contains("import Mathlib.Tactic"));
    assert!(source.contains("theorem foo : True := by"));
    assert!(source.contains("trivial"));
}

#[test]
fn extract_theorem_source_not_a_theorem() {
    let lines = vec!["import Mathlib.Tactic", "", "-- just a comment"];
    let result = extract_theorem_source(&lines, 3);
    assert!(result.is_err());
}

#[test]
fn extract_theorem_source_lemma() {
    let lines = vec![
        "import Mathlib.Tactic",
        "",
        "lemma bar (n : Nat) : n = n := by",
        "  rfl",
    ];
    let (source, name, _) = extract_theorem_source(&lines, 3).unwrap();
    assert_eq!(name, "bar");
    assert!(source.contains("lemma bar"));
}

#[test]
fn extract_theorem_source_private_def() {
    let lines = vec![
        "import Mathlib.Tactic",
        "",
        "private def helper : Nat := 42",
    ];
    let (_, name, _) = extract_theorem_source(&lines, 3).unwrap();
    assert_eq!(name, "helper");
}

#[test]
fn parse_output_trace_lines() {
    let output = "\
[Elab.definition.value] [0.050] foo
  [Elab.step] [0.030] intro h
    [Elab.step] [0.010] exact h";

    let (traces, cumulative) = parse_output(output);
    assert_eq!(traces.len(), 3);
    assert_eq!(traces[0].depth, 0);
    assert_eq!(traces[0].class, "Elab.definition.value");
    assert!((ms(&traces[0]) - 50.0).abs() < 0.1);
    assert_eq!(traces[0].message, "foo");

    assert_eq!(traces[1].depth, 1);
    assert_eq!(traces[1].class, "Elab.step");
    assert!((ms(&traces[1]) - 30.0).abs() < 0.1);

    assert_eq!(traces[2].depth, 2);
    assert!((ms(&traces[2]) - 10.0).abs() < 0.1);

    assert!(cumulative.is_empty());
}

#[test]
fn parse_output_cumulative_section() {
    let output = "\
[Elab.step] [0.010] foo
cumulative profiling times:
    elaboration 42.5ms
    type checking 13.2ms
    simp 1.5s";

    let (traces, cumulative) = parse_output(output);
    assert_eq!(traces.len(), 1);
    assert_eq!(cumulative.len(), 3);
    assert!((category_ms(&cumulative, "elaboration") - 42.5).abs() < 0.1);
    assert!((category_ms(&cumulative, "type checking") - 13.2).abs() < 0.1);
    assert!((category_ms(&cumulative, "simp") - 1500.0).abs() < 0.1);
}

#[test]
fn parse_output_empty() {
    let (traces, cumulative) = parse_output("");
    assert!(traces.is_empty());
    assert!(cumulative.is_empty());
}

#[test]
fn parse_output_no_traces_only_cumulative() {
    let output = "\
Some random output
cumulative profiling times:
    tactic 100.0ms";

    let (traces, cumulative) = parse_output(output);
    assert!(traces.is_empty());
    assert_eq!(cumulative.len(), 1);
    assert!((category_ms(&cumulative, "tactic") - 100.0).abs() < 0.1);
}

#[test]
fn build_proof_items_basic() {
    let lines = vec!["theorem foo : P := by", "  intro h", "  exact h"];
    let items = build_proof_items(&lines, 1);
    assert_eq!(items.len(), 2);
    assert_eq!(items[0].line_no, 2);
    assert_eq!(items[0].content, "intro h");
    assert!(!items[0].is_bullet);
    assert_eq!(items[1].line_no, 3);
    assert_eq!(items[1].content, "exact h");
}

#[test]
fn build_proof_items_with_bullets() {
    let lines = vec![
        "theorem foo : P := by",
        "  constructor",
        "  \u{00b7} intro h",
        "  \u{00b7} exact h",
    ];
    let items = build_proof_items(&lines, 1);
    assert_eq!(items.len(), 3);
    assert!(!items[0].is_bullet);
    assert!(items[1].is_bullet);
    assert!(items[2].is_bullet);
}

#[test]
fn build_proof_items_skips_comments_and_blanks() {
    let lines = vec!["theorem foo : P := by", "  -- a comment", "", "  intro h"];
    let items = build_proof_items(&lines, 1);
    assert_eq!(items.len(), 1);
    assert_eq!(items[0].content, "intro h");
}

#[test]
fn match_line_exact_prefix() {
    let items = vec![
        ProofItem {
            line_no: 2,
            content: "intro h".into(),
            is_bullet: false,
        },
        ProofItem {
            line_no: 3,
            content: "exact h".into(),
            is_bullet: false,
        },
    ];
    let used = HashSet::new();
    assert_eq!(match_line("exact h", false, &items, &used), Some(3));
}

#[test]
fn match_line_bullet_match() {
    let items = vec![
        ProofItem {
            line_no: 2,
            content: "intro h".into(),
            is_bullet: true,
        },
        ProofItem {
            line_no: 3,
            content: "exact h".into(),
            is_bullet: false,
        },
    ];
    let used = HashSet::new();
    assert_eq!(match_line("anything", true, &items, &used), Some(2));
}

#[test]
fn match_line_skips_used() {
    let items = vec![
        ProofItem {
            line_no: 2,
            content: "intro h".into(),
            is_bullet: false,
        },
        ProofItem {
            line_no: 3,
            content: "intro h".into(),
            is_bullet: false,
        },
    ];
    let mut used = HashSet::new();
    used.insert(2);
    assert_eq!(match_line("intro h", false, &items, &used), Some(3));
}

#[test]
fn match_line_no_match() {
    let items = vec![ProofItem {
        line_no: 2,
        content: "intro h".into(),
        is_bullet: false,
    }];
    let used = HashSet::new();
    assert_eq!(match_line("simp", false, &items, &used), None);
}

#[test]
fn extract_line_times_basic() {
    let traces = vec![
        TraceEntry {
            depth: 0,
            class: "Elab.definition.value".into(),
            seconds: "0.100".into(),
            message: "myThm".into(),
        },
        TraceEntry {
            depth: 1,
            class: "Elab.step".into(),
            seconds: "0.050".into(),
            message: "intro h".into(),
        },
        TraceEntry {
            depth: 1,
            class: "Elab.step".into(),
            seconds: "0.030".into(),
            message: "exact h".into(),
        },
    ];
    let items = vec![
        ProofItem {
            line_no: 3,
            content: "intro h".into(),
            is_bullet: false,
        },
        ProofItem {
            line_no: 4,
            content: "exact h".into(),
            is_bullet: false,
        },
    ];
    let times = extract_line_times(&traces, "myThm", &items);
    let total = total_ms(&traces, &times);
    assert!((total - 100.0).abs() < 0.1);
    assert_eq!(times.lines.len(), 2);
    assert!((line_ms(&traces, &times, 3) - 50.0).abs() < 0.1);
    assert!((line_ms(&traces, &times, 4) - 30.0).abs() < 0.1);
}

#[test]
fn extract_line_times_stops_at_value_depth() {
    let traces = vec![
        TraceEntry {
            depth: 0,
            class: "Elab.definition.value".into(),
            seconds: "0.100".into(),
            message: "myThm".into(),
        },
        TraceEntry {
            depth: 1,
            class: "Elab.step".into(),
            seconds: "0.050".into(),
            message: "intro h".into(),
        },
        TraceEntry {
            depth: 0,
            class: "Elab.definition.value".into(),
            seconds: "0.200".into(),
            message: "otherThm".into(),
        },
    ];
    let items = vec![ProofItem {
        line_no: 3,
        content: "intro h".into(),
        is_bullet: false,
    }];
    let times = extract_line_times(&traces, "myThm", &items);
    let total = total_ms(&traces, &times);
    assert!((total - 100.0).abs() < 0.1);
    assert_eq!(times.lines.len(), 1);
}

#[test]
fn extract_line_times_async_proof() {
    let traces = vec![
        TraceEntry {
            depth: 0,
            class: "Elab.definition.value".into(),
            seconds: "0.050".into(),
            message: "myThm".into(),
        },
        TraceEntry {
            depth: 0,
            class: "Elab.async".into(),
            seconds: "0.200".into(),
            message: "proof of myThm".into(),
        },
    ];
    let items = vec![];
    let times = extract_line_times(&traces, "myThm", &items);
    let total = total_ms(&traces, &times);
    assert!((total - 200.0).abs() < 0.1);
}

#[test]
fn extract_line_times_skips_expected_type() {
    let traces = vec![
        TraceEntry {
            depth: 0,
            class: "Elab.definition.value".into(),
            seconds: "0.100".into(),
            message: "myThm".into(),
        },
        TraceEntry {
            depth: 1,
            class: "Elab.step".into(),
            seconds: "0.010".into(),
            message: "expected type: Nat".into(),
        },
        TraceEntry {
            depth: 1,
            class: "Elab.step".into(),
            seconds: "0.050".into(),
            message: "intro h".into(),
        },
    ];
    let items = vec![ProofItem {
        line_no: 3,
        content: "intro h".into(),
        is_bullet: false,
    }];
    let times = extract_line_times(&traces, "myThm", &items);
    assert_eq!(times.lines.len(), 1);
    assert!(times.lines.iter().any(|(line, _)| *line == 3));
}

#[test]
fn find_proof_start_inline() {
    let lines = vec!["theorem foo : P := by", "  intro h"];
    assert_eq!(find_proof_start(&lines).unwrap(), 1);
}

#[test]
fn find_proof_start_ends_with_by() {
    let lines = vec!["theorem foo : P :=", "  by", "  intro h"];
    // The second line ends with "by"
    assert_eq!(find_proof_start(&lines).unwrap(), 2);
}

#[test]
fn find_proof_start_not_found() {
    let lines = vec!["theorem foo : P := trivial"];
    assert!(find_proof_start(&lines).is_err());
}

#[test]
fn declaration_re_matches_theorem() {
    let line = "theorem foo : True := trivial";
    assert_eq!(find_group(DECLARATION_PATTERN, line, 1).unwrap(), "theorem");
    assert_eq!(find_group(DECLARATION_PATTERN, line, 2).unwrap(), "foo");
}

#[test]
fn declaration_re_matches_private_lemma() {
    let line = "private lemma bar (n : Nat) : n = n := rfl";
    assert_eq!(find_group(DECLARATION_PATTERN, line, 1).unwrap(), "lemma");
    assert_eq!(find_group(DECLARATION_PATTERN, line, 2).unwrap(), "bar");
}

#[test]
fn declaration_re_matches_def() {
    let line = "def helper : Nat := 42";
    assert_eq!(find_group(DECLARATION_PATTERN, line, 1).unwrap(), "def");
    assert_eq!(find_group(DECLARATION_PATTERN, line, 2).unwrap(), "helper");
}

#[test]
fn declaration_re_no_match_on_comment() {
    assert!(!is_match(DECLARATION_PATTERN, "-- theorem foo"));
}

#[test]
fn parse_output_full_trace() {
    let output = "\
[Elab.definition.value] [0.150] myThm
  [Elab.step] [0.080] intro h
  [Elab.step] [0.050] exact h
  [Elab.step] [0.005] expected type: Bool
cumulative profiling times:
    elaboration 150.0ms
    initialization 5.0ms
    type checking 30.5ms
    import 200.0ms";

    let (traces, cumulative) = parse_output(output);
    assert_eq!(traces.len(), 4);
    assert_eq!(cumulative.len(), 4);

    // Verify filtering
    let filtered = reported_categories(cumulative);
    assert_eq!(filtered.len(), 2); // elaboration + type checking
    assert!(!filtered.iter().any(|t| t.category == "initialization"));
    assert!(!filtered.iter().any(|t| t.category == "import"));
}

#[test]
fn end_to_end_parse_and_extract() {
    let source = "\
import Mathlib.Tactic

theorem myThm (P Q : Prop) (hp : P) (hq : Q) : P := by
  intro
  exact hp";

    let source_lines: Vec<&str> = source.lines().collect();
    let proof_start = find_proof_start(&source_lines).unwrap();
    let proof_items = build_proof_items(&source_lines, proof_start);
    assert_eq!(proof_items.len(), 2);

    let trace_output = "\
[Elab.definition.value] [0.100] myThm
  [Elab.step] [0.060] intro
  [Elab.step] [0.030] exact hp
cumulative profiling times:
    elaboration 100.0ms";

    let (traces, cumulative) = parse_output(trace_output);
    let line_times = extract_line_times(&traces, "myThm", &proof_items);
    let total = total_ms(&traces, &line_times);

    assert!((total - 100.0).abs() < 0.1);
    assert_eq!(line_times.lines.len(), 2);

    let filtered = reported_categories(cumulative);
    assert!(filtered.iter().any(|t| t.category == "elaboration"));
}

#[test]
fn a_theorem_starts_where_it_is_said_to() {
    let bare = vec!["theorem foo : True := by", "  trivial"];
    let (source, name, start) = extract_theorem_source(&bare, 1).unwrap();
    assert_eq!(name, "foo");
    assert_eq!(start, 3);
    assert_eq!(source.lines().nth(start - 1), Some("theorem foo : True := by"));

    let headed = vec!["import Init", "open Nat", "", "theorem foo : True := by", "  trivial"];
    let (source, _, start) = extract_theorem_source(&headed, 4).unwrap();
    assert_eq!(start, 5);
    assert_eq!(source.lines().nth(start - 1), Some("theorem foo : True := by"));
}
