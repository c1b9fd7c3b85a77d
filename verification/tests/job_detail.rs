use wrkflw_ui::job_detail::{
    collapse_newlines, env_pane, format_yaml_scalar, files_pane, output_pane, output_rows, parse_step_output, scalar_text, scroll_view,
    status_badge, steps_count_label, steps_list, tab_strip, truncate_output, PaneBody, YamlScalar,
};
use wrkflw_ui::models::{JobStatus, StepExecution, StepStatus};
use wrkflw_ui::style::Role;

fn step(name: &str, output: &str, start: Option<i128>, end: Option<i128>) -> StepExecution {
    StepExecution {
        name: name.to_string(),
        status: StepStatus::Success,
        output: output.to_string(),
        started_at: start,
        finished_at: end,
        env: vec![],
        outputs: vec![],
        env_writes: vec![],
        path_writes: vec![],
    }
}

#[test]
fn parses_command_stdout_and_stderr_sections() {
    let raw = "Command: tools/resolve-images.sh\n\nStandard Output:\nResolution:\n  ying: rebuild\nStandard Error:\nwarning: no creds\n";
    let parsed = parse_step_output(raw);
    assert_eq!(parsed.command.as_deref(), Some("tools/resolve-images.sh"));
    assert_eq!(parsed.stdout, "Resolution:\n  ying: rebuild");
    assert_eq!(parsed.stderr, "warning: no creds");
}

#[test]
fn multiline_commands_stay_in_the_command_section() {
    let raw = "Command: set -e\nmake build\n\nStandard Output:\ndone\n";
    let parsed = parse_step_output(raw);
    assert_eq!(parsed.command.as_deref(), Some("set -e\nmake build"));
    assert_eq!(parsed.stdout, "done");
    assert!(parsed.stderr.is_empty());
}

#[test]
fn unstructured_output_lands_whole_in_stdout() {
    let raw = "just some words\nsecond line";
    let parsed = parse_step_output(raw);
    assert!(parsed.command.is_none());
    assert_eq!(parsed.stdout, raw);
    assert!(parsed.stderr.is_empty());
}

#[test]
fn stderr_only_output_parses() {
    let raw = "Command: false\n\nStandard Error:\nboom\n";
    let parsed = parse_step_output(raw);
    assert_eq!(parsed.command.as_deref(), Some("false"));
    assert!(parsed.stdout.is_empty());
    assert_eq!(parsed.stderr, "boom");
}

#[test]
fn the_executor_layout_round_trips() {
    let (cmd, out, err) = ("echo a\necho b", "a\n\nb", "note: x");
    let raw = format!("Command: {}\n\nStandard Output:\n{}\nStandard Error:\n{}", cmd, out, err);
    let parsed = parse_step_output(&raw);
    assert_eq!(parsed.command.as_deref(), Some(cmd));
    assert_eq!(parsed.stdout, out);
    assert_eq!(parsed.stderr, err);
}

#[test]
fn unstructured_output_drops_only_trailing_newlines() {
    let parsed = parse_step_output("one\n\ntwo\n\n\n");
    assert!(parsed.command.is_none());
    assert_eq!(parsed.stdout, "one\n\ntwo");
    assert_eq!(parse_step_output("").stdout, "");
}

#[test]
fn command_prefix_counts_only_on_the_first_line() {
    let parsed = parse_step_output("hello\nCommand: not a command");
    assert!(parsed.command.is_none());
    assert_eq!(parsed.stdout, "hello\nCommand: not a command");
}

#[test]
fn collapse_newlines_joins_runs_with_one_separator() {
    assert_eq!(collapse_newlines("a\nb"), "a · b");
    assert_eq!(collapse_newlines("a\r\n\nb"), "a · b");
    assert_eq!(collapse_newlines("plain"), "plain");
    assert_eq!(collapse_newlines("\n"), " · ");
    assert!(!collapse_newlines("x\ny\rz\n").contains('\n'));
}

#[test]
fn scalar_text_renders_each_kind() {
    assert_eq!(scalar_text(&YamlScalar::Null), "~");
    assert_eq!(scalar_text(&YamlScalar::Bool(true)), "true");
    assert_eq!(scalar_text(&YamlScalar::Bool(false)), "false");
    assert_eq!(scalar_text(&YamlScalar::Number("3.5".to_string())), "3.5");
    assert_eq!(scalar_text(&YamlScalar::String("a\nb".to_string())), "a · b");
    assert_eq!(scalar_text(&YamlScalar::Document("- 1\n- 2\n".to_string())), "- 1 · - 2");
}

#[test]
fn format_yaml_scalar_reads_serde_values() {
    let v: serde_yaml::Value = serde_yaml::from_str("[1, 2]").unwrap();
    assert_eq!(format_yaml_scalar(&v), "- 1 · - 2");
    assert_eq!(format_yaml_scalar(&serde_yaml::Value::Null), "~");
    assert_eq!(format_yaml_scalar(&serde_yaml::Value::Bool(true)), "true");
    assert_eq!(format_yaml_scalar(&serde_yaml::Value::String("x\ny".to_string())), "x · y");
    let n: serde_yaml::Value = serde_yaml::from_str("42").unwrap();
    assert_eq!(format_yaml_scalar(&n), "42");
}

#[test]
fn long_output_is_cut_at_8000_bytes() {
    let long: Vec<char> = "é".repeat(5000).chars().collect();
    let cut: String = truncate_output(&long).into_iter().collect();
    assert!(cut.ends_with("…[truncated]"));
    let body = cut.trim_end_matches("…[truncated]");
    assert_eq!(body.len(), 8000);
    let short: Vec<char> = "short".chars().collect();
    assert_eq!(truncate_output(&short), short);
}

#[test]
fn output_rows_show_sections() {
    let rows = output_rows("Command: make\n\nStandard Output:\nok\nStandard Error:\nwarn\n", true);
    let texts: Vec<&str> = rows.iter().map(|(s, _)| s.as_str()).collect();
    assert_eq!(texts, vec!["❯ make", "", "─ stdout ─", "ok", "", "─ stderr ─", "warn"]);
    assert_eq!(rows[0].1, Role::AccentStrong);
    assert_eq!(rows[6].1, Role::Error);
    let hidden = output_rows("Command: make\n\nStandard Output:\nok\n", false);
    let texts: Vec<&str> = hidden.iter().map(|(s, _)| s.as_str()).collect();
    assert_eq!(texts, vec!["ok"]);
}

#[test]
fn output_pane_messages() {
    let steps = vec![step("build", "", Some(0), Some(1)), step("test", "Command: t\n\n", Some(0), Some(1))];
    let p = output_pane(&steps, None, true);
    assert_eq!(p.title, "output");
    assert!(matches!(p.body, PaneBody::Message(ref m) if m == "(select a step on the left)"));
    let p = output_pane(&steps, Some(0), true);
    assert_eq!(p.title, "output — build  (c: hide command)");
    assert!(matches!(p.body, PaneBody::Message(ref m) if m == "(no output captured for this step)"));
    let p = output_pane(&steps, Some(1), false);
    assert_eq!(p.title, "output — test  (c: show command)");
    assert!(matches!(p.body, PaneBody::Message(ref m) if m == "(step produced no output)"));
    let p = output_pane(&steps, Some(7), false);
    assert_eq!(p.title, "output");
}

#[test]
fn env_pane_lists_variables() {
    let mut s = step("build", "x", Some(0), Some(1));
    s.env = vec![("A".to_string(), "1".to_string()), ("B".to_string(), "***".to_string())];
    let p = env_pane(&vec![s], Some(0));
    assert_eq!(p.title, "Environment — build");
    match p.body {
        PaneBody::Rows(rows) => {
            let texts: Vec<&str> = rows.iter().map(|(s, _)| s.as_str()).collect();
            assert_eq!(texts, vec!["2 variables · secret values masked", "", "A=1", "B=***"]);
        }
        PaneBody::Message(m) => panic!("unexpected message {m}"),
    }
    let running = step("run", "", Some(0), None);
    match env_pane(&vec![running], Some(0)).body {
        PaneBody::Message(m) => assert_eq!(m, "(environment appears when the step finishes)"),
        _ => panic!("expected a message"),
    }
}

#[test]
fn files_pane_lists_sections() {
    let mut s = step("build", "x", Some(0), Some(1));
    s.outputs = vec![("who".to_string(), "world".to_string())];
    s.path_writes = vec!["/opt/bin".to_string()];
    match files_pane(&vec![s], Some(0)).body {
        PaneBody::Rows(rows) => {
            let texts: Vec<&str> = rows.iter().map(|(s, _)| s.as_str()).collect();
            assert_eq!(texts, vec!["$GITHUB_OUTPUT — 1", "  who=world", "", "$GITHUB_PATH — 1", "  /opt/bin"]);
        }
        PaneBody::Message(m) => panic!("unexpected message {m}"),
    }
    let quiet = step("q", "x", Some(0), Some(1));
    match files_pane(&vec![quiet], Some(0)).body {
        PaneBody::Message(m) => assert_eq!(m, "this step wrote nothing to $GITHUB_OUTPUT, $GITHUB_ENV or $GITHUB_PATH"),
        _ => panic!("expected a message"),
    }
}

#[test]
fn scroll_view_wraps_and_clamps() {
    let rows = vec![("abcdef".to_string(), Role::Dim), ("gh".to_string(), Role::Error)];
    let v = scroll_view(&rows, 4, 2, 10, None);
    assert_eq!(v.wrapped, vec!["abcd", "ef", "gh"]);
    assert_eq!(v.scroll, 1);
    assert_eq!(v.lines, vec![("ef".to_string(), Role::Dim), ("gh".to_string(), Role::Error)]);
    let v = scroll_view(&rows, 4, 5, 0, Some((1, 2)));
    assert_eq!(v.scroll, 0);
    assert_eq!(v.lines[0].1, Role::Dim);
    assert_eq!(v.lines[1].1, Role::Selected);
    assert_eq!(v.lines[2].1, Role::Selected);
}

#[test]
fn steps_list_numbers_and_marks_rows() {
    let mut skipped = step("skip", "", Some(0), Some(1));
    skipped.status = StepStatus::Skipped;
    let steps = vec![step("a", "", Some(0), None), skipped];
    let rows = steps_list(&steps, Some(1));
    assert_eq!(rows[0].number, "01 ");
    assert!(rows[0].running && !rows[0].highlighted);
    assert_eq!(rows[1].number, "02 ");
    assert!(rows[1].highlighted && rows[1].muted);
}

#[test]
fn breadcrumb_texts() {
    assert_eq!(status_badge(JobStatus::Success), "success");
    assert_eq!(status_badge(JobStatus::Failure), "failed");
    assert_eq!(status_badge(JobStatus::Skipped), "skipped");
    assert_eq!(steps_count_label(3), "   (3 steps)");
}

#[test]
fn tab_strip_marks_the_active_tab() {
    let line = tab_strip(3);
    let texts: Vec<&str> = line.iter().map(|(s, _)| s.as_str()).collect();
    assert_eq!(texts, vec![" Output ", "·", " Env ", "·", " Files ", "·", " Matrix ", "·", " Timeline "]);
    assert_eq!(line[6].1, Role::AccentStrong);
    assert_eq!(line[0].1, Role::Dim);
}

#[test]
fn format_yaml_scalar_stays_on_one_line() {
    for src in ["{a: 1, b: [x, y]}", "\"multi\\nline\\r\\ntext\"", "1.5e-7", ".nan", "-.inf", "-12", "[]"] {
        let v: serde_yaml::Value = serde_yaml::from_str(src).unwrap();
        let t = format_yaml_scalar(&v);
        assert!(!t.contains('\n') && !t.contains('\r'), "{src} -> {t:?}");
    }
    let f: serde_yaml::Value = serde_yaml::from_str("1.5e-7").unwrap();
    assert!(format_yaml_scalar(&f).chars().all(|c| c.is_ascii_digit() || "-.einaf".contains(c)));
}

#[test]
fn escape_sequences_are_stripped_from_output() {
    let raw: Vec<char> = "\u{1b}[1;32mok\u{1b}[0m done\r\n\u{1b}]0;title\u{7}next\u{1b}(Bx\u{7}\ttab".chars().collect();
    let out: String = wrkflw_ui::job_detail::strip_ansi(&raw).into_iter().collect();
    assert_eq!(out, "ok done\nnextx\ttab");
    let rows = output_rows("\u{1b}[31merror\u{1b}[0m\nplain", false);
    let texts: Vec<&str> = rows.iter().map(|(s, _)| s.as_str()).collect();
    assert_eq!(texts, vec!["error", "plain"]);
}
