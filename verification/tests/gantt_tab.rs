use wrkflw_ui::gantt::{
    bar_cells, duration_label, elapsed_message, fmt_ms, gantt_geometry, gantt_rows, gantt_view, pad_or_trim,
    row_line, ruler_line, summary_line, time_domain, GanttCursor, GanttRow, GanttView,
};
use wrkflw_ui::models::{JobExecution, JobStatus, StepExecution, StepStatus, Workflow, WorkflowExecution, WorkflowStatus};
use wrkflw_ui::style::{Role, Tone};

fn text_of(line: &[(String, Role)]) -> String {
    line.iter().map(|(s, _)| s.as_str()).collect()
}

const SEC: i128 = 1_000_000_000;

fn step(name: &str, status: StepStatus, start: Option<i128>, end: Option<i128>) -> StepExecution {
    StepExecution {
        name: name.to_string(),
        status,
        output: String::new(),
        started_at: start,
        finished_at: end,
        env: vec![],
        outputs: vec![],
        env_writes: vec![],
        path_writes: vec![],
    }
}

fn job(name: &str, status: JobStatus, start: Option<i128>, end: Option<i128>, steps: Vec<StepExecution>) -> JobExecution {
    JobExecution { name: name.to_string(), status, steps, logs: vec![], started_at: start, finished_at: end }
}

fn workflow_with(jobs: Vec<JobExecution>) -> Workflow {
    Workflow {
        name: "ci".to_string(),
        path: "ci.yml".to_string(),
        selected: false,
        status: WorkflowStatus::Running,
        execution_details: Some(WorkflowExecution { jobs, start_time: 0, end_time: None, logs: vec![] }),
        job_names: vec![],
        trigger_match: None,
    }
}

#[test]
fn bar_cells_spans_full_width() {
    assert_eq!(bar_cells(0, 1000, 1000, 40), (0, 40));
}

#[test]
fn bar_cells_minimum_one_cell() {
    // A 1ms step inside a 100s run still shows up.
    assert_eq!(bar_cells(50_000, 50_001, 100_000, 40).1, 1);
}

#[test]
fn bar_cells_offset_positions_bar() {
    let (offset, len) = bar_cells(500, 1000, 1000, 40);
    assert_eq!(offset, 20);
    assert_eq!(offset + len, 40);
}

#[test]
fn bar_cells_never_overflows_width() {
    for (s, e) in [(999, 1000), (1000, 1000), (0, 1)] {
        let (offset, len) = bar_cells(s, e, 1000, 7);
        assert!(offset + len <= 7, "({s},{e}) -> ({offset},{len})");
        assert!(len >= 1);
    }
}

#[test]
fn bar_cells_zero_total_is_safe() {
    assert_eq!(bar_cells(0, 0, 0, 40), (0, 1));
    assert_eq!(bar_cells(0, 0, 0, 0), (0, 0));
}

#[test]
fn fmt_ms_ranges() {
    assert_eq!(fmt_ms(400), "0.4s");
    assert_eq!(fmt_ms(12_340), "12s");
    assert_eq!(fmt_ms(9_800), "9.8s");
    assert_eq!(fmt_ms(64_000), "1m 04s");
    assert_eq!(fmt_ms(3_720_000), "1h 02m");
}

#[test]
fn pad_or_trim_marks_truncation() {
    assert_eq!(pad_or_trim("abcdef", 4), "abc…");
    assert_eq!(pad_or_trim("ab", 4), "ab  ");
}

#[test]
fn row_line_positions_bar_on_the_time_axis() {
    let row = GanttRow {
        label: "build".to_string(),
        depth: 0,
        span_ms: Some((500, 1000)),
        tone: Tone::Success,
        duration_label: "0.5s".to_string(),
    };
    let line = row_line(&row, false, 16, 8, 40, 1000);
    let text = text_of(&line);
    // gutter(2) + name(16) + ' ' + dur(8) + ' │' + 20 spaces + 20 cells
    let chart = &text[text.find('│').unwrap() + '│'.len_utf8()..];
    assert!(chart.starts_with(&" ".repeat(20)), "chart: {:?}", chart);
    assert_eq!(chart.chars().filter(|&c| c == '█').count(), 20);
}

#[test]
fn row_line_renders_dash_for_rows_without_timing() {
    let row = GanttRow {
        label: "skipped".to_string(),
        depth: 1,
        span_ms: None,
        tone: Tone::Skipped,
        duration_label: "—".to_string(),
    };
    let line = row_line(&row, false, 16, 8, 40, 1000);
    let text = text_of(&line);
    assert!(text.ends_with(" —"), "text: {:?}", text);
    assert!(!text.contains('▓'));
}

#[test]
fn row_line_marks_the_selected_row() {
    let row = GanttRow {
        label: "build".to_string(),
        depth: 0,
        span_ms: Some((0, 1000)),
        tone: Tone::Success,
        duration_label: "1.0s".to_string(),
    };
    let line = row_line(&row, true, 16, 8, 40, 1000);
    let text = text_of(&line);
    assert!(text.starts_with("▶ "), "text: {:?}", text);
}

#[test]
fn ruler_labels_start_and_total() {
    let line = ruler_line(16, 8, 40, 10_000);
    let text = text_of(&line);
    assert!(text.contains("0s"), "ruler: {:?}", text);
    assert!(text.contains("10s"), "ruler: {:?}", text);
}

#[test]
fn ruler_is_exactly_chart_wide() {
    for w in [0usize, 5, 23, 24, 40, 77] {
        let line = ruler_line(16, 8, w, 3_720_000);
        assert_eq!(line[2].0.chars().count(), w);
        assert_eq!(line[0].0, " ".repeat(2 + 16 + 1 + 8));
        assert_eq!(line[1].0, " ╽");
    }
}

#[test]
fn narrow_ruler_right_aligns_the_total() {
    let line = ruler_line(16, 8, 10, 10_000);
    assert_eq!(line[2].0, "0s─────10s");
}

#[test]
fn wide_ruler_places_quarter_labels() {
    let line = ruler_line(16, 8, 25, 4_000);
    // ticks at 0, 6, 12, 18 and 24 (pulled back to 21 to fit "4.0s")
    assert_eq!(line[2].0, "0.0s──1.0s──2.0s──3.04.0s");
}

#[test]
fn pad_or_trim_is_always_exactly_n_wide() {
    for s in ["", "a", "abcd", "abcdefgh", "héllo wörld"] {
        for n in 0..10 {
            assert_eq!(pad_or_trim(s, n).chars().count(), n);
        }
    }
    assert_eq!(pad_or_trim("abc", 0), "");
    assert_eq!(pad_or_trim("abcd", 4), "abcd");
}

#[test]
fn step_rows_are_indented_and_dimmer() {
    let row = GanttRow {
        label: "checkout".to_string(),
        depth: 1,
        span_ms: Some((0, 1000)),
        tone: Tone::Failure,
        duration_label: "1.0s".to_string(),
    };
    let line = row_line(&row, false, 16, 8, 10, 1000);
    assert_eq!(line[1].0, "  checkout      ");
    assert_eq!(line[1].1, Role::Dim);
    assert_eq!(line[3].0, "    1.0s");
    assert_eq!(line.last().unwrap().0, "▓".repeat(10));
    assert_eq!(line.last().unwrap().1, Role::Bar(Tone::Failure));
}

#[test]
fn duration_label_ticks_for_running_rows() {
    assert_eq!(duration_label(None, None, 5 * SEC), "—");
    assert_eq!(duration_label(Some(0), Some(2 * SEC), 100 * SEC), "2.0s");
    assert_eq!(duration_label(Some(0), None, 75 * SEC), "1m 15s");
    // an end before the start counts as zero
    assert_eq!(duration_label(Some(10 * SEC), Some(0), 0), "0.0s");
}

#[test]
fn geometry_needs_room() {
    assert!(gantt_geometry(31, 10).is_none());
    assert!(gantt_geometry(40, 3).is_none());
    let g = gantt_geometry(90, 20).unwrap();
    assert_eq!(g.name_w, 30);
    assert_eq!(g.dur_w, 8);
    assert_eq!(g.chart_w, 90 - 2 - 30 - 1 - 8 - 2);
    assert_eq!(g.body_h, 18);
    let g = gantt_geometry(32, 4).unwrap();
    assert_eq!(g.name_w, 16);
}

#[test]
fn settle_scrolls_the_selection_into_view() {
    let mut c = GanttCursor { selected: 12, scroll: 0, follow: true };
    c.settle(20, 5);
    assert_eq!((c.selected, c.scroll, c.follow), (12, 8, false));
    let mut c = GanttCursor { selected: 99, scroll: 50, follow: false };
    c.settle(20, 5);
    assert_eq!(c.selected, 19);
    assert!(c.scroll + 5 <= 20);
    let mut c = GanttCursor { selected: 3, scroll: 7, follow: true };
    c.settle(20, 5);
    assert_eq!(c.scroll, 3);
}

#[test]
fn time_domain_spans_all_runs() {
    let jobs = vec![
        job("a", JobStatus::Success, Some(2 * SEC), Some(5 * SEC), vec![step("s", StepStatus::Success, Some(SEC), Some(3 * SEC))]),
        job("b", JobStatus::Success, Some(4 * SEC), None, vec![]),
    ];
    assert_eq!(time_domain(&jobs, 9 * SEC), Some((SEC, 9 * SEC)));
    assert_eq!(time_domain(&vec![], 9 * SEC), None);
}

#[test]
fn gantt_rows_list_jobs_then_their_steps() {
    let jobs = vec![job(
        "build",
        JobStatus::Failure,
        Some(0),
        Some(4 * SEC),
        vec![step("compile", StepStatus::Failure, Some(SEC), Some(3 * SEC)), step("later", StepStatus::Skipped, None, None)],
    )];
    let rows = gantt_rows(&jobs, 0, 10 * SEC);
    assert_eq!(rows.len(), 3);
    assert_eq!(rows[0].label, "build");
    assert_eq!(rows[0].depth, 0);
    assert_eq!(rows[0].span_ms, Some((0, 4000)));
    assert_eq!(rows[0].tone, Tone::Failure);
    assert_eq!(rows[1].label, "compile");
    assert_eq!(rows[1].span_ms, Some((1000, 3000)));
    assert_eq!(rows[1].duration_label, "2.0s");
    assert_eq!(rows[2].span_ms, None);
    assert_eq!(rows[2].duration_label, "—");
    assert_eq!(rows[2].tone, Tone::Skipped);
}

#[test]
fn summary_line_counts_jobs_and_steps() {
    let jobs = vec![job("a", JobStatus::Success, Some(0), Some(SEC), vec![step("s", StepStatus::Success, Some(0), Some(SEC))])];
    let line = summary_line(&jobs, 64_000, 2, 10, 0);
    let text = text_of(&line);
    assert!(text.starts_with("total 1m 04s  ·  1 jobs, 1 steps"), "text: {:?}", text);
}

#[test]
fn elapsed_message_counts_minutes_and_seconds() {
    assert_eq!(
        elapsed_message(0, 75 * SEC + 3),
        "run in progress — 01:15 elapsed (waiting for the first job to start)"
    );
    assert_eq!(elapsed_message(10 * SEC, 0), "run in progress — 00:00 elapsed (waiting for the first job to start)");
}

#[test]
fn gantt_view_without_a_workflow_says_so() {
    let mut c = GanttCursor { selected: 0, scroll: 0, follow: false };
    match gantt_view(&vec![], None, None, 80, 20, 0, &mut c) {
        GanttView::Message(m) => assert_eq!(m, "no workflow selected"),
        _ => panic!("expected a message"),
    }
}

#[test]
fn gantt_view_draws_a_chart_for_a_run() {
    let w = workflow_with(vec![job(
        "build",
        JobStatus::Success,
        Some(0),
        Some(10 * SEC),
        vec![step("compile", StepStatus::Success, Some(0), Some(5 * SEC))],
    )]);
    let mut c = GanttCursor { selected: 5, scroll: 0, follow: true };
    match gantt_view(&vec![w], None, Some(0), 80, 20, 10 * SEC, &mut c) {
        GanttView::Chart { lines, rows, .. } => {
            assert_eq!(rows, 2);
            assert!(lines.len() >= 4);
            assert!(text_of(&lines[0]).starts_with("total 10s"));
        }
        GanttView::Message(m) => panic!("unexpected message {m}"),
    }
    assert_eq!(c.selected, 1);
    assert!(!c.follow);
}
