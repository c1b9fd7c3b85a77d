use wrkflw_ui::models::{JobStatus, StepExecution, StepStatus};
use wrkflw_ui::style::{Role, Tone};
use wrkflw_ui::timing::{bar_fill, pad_left, pad_right, summarise, timeline_rows, timing_lines, TimingRow};

fn row(name: &str, status: Option<JobStatus>, label: &str, weight: Option<(u64, u64)>) -> TimingRow {
    TimingRow { name: name.to_string(), status, label: label.to_string(), weight }
}

#[test]
fn pads_cut_or_fill() {
    assert_eq!(pad_right("abcdefghijkl", 10), "abcdefghij");
    assert_eq!(pad_right("ab", 4), "ab  ");
    assert_eq!(pad_left("7s", 5), "   7s");
    assert_eq!(pad_left("1m 47s", 5), "1m 47s");
}

#[test]
fn summarise_lists_finished_rows() {
    let rows = vec![
        row("lint", Some(JobStatus::Success), "1s", None),
        row("skip", Some(JobStatus::Skipped), "—", None),
        row("test", Some(JobStatus::Failure), "2s", None),
        row("deploy", None, "—", None),
    ];
    assert_eq!(summarise(&rows), "lint → test");
    assert_eq!(summarise(&vec![row("p", None, "", None)]), "(awaiting first job)");
}

#[test]
fn bar_fill_follows_weight_or_status() {
    assert_eq!(bar_fill(Some(JobStatus::Success), None, 20), 20);
    assert_eq!(bar_fill(Some(JobStatus::Skipped), None, 20), 8);
    assert_eq!(bar_fill(None, Some((1, 2)), 20), 0);
    assert_eq!(bar_fill(Some(JobStatus::Success), Some((1, 2)), 20), 10);
    // a sliver stays visible: at least 2% of the width
    assert_eq!(bar_fill(Some(JobStatus::Success), Some((0, 1000)), 50), 1);
    assert_eq!(bar_fill(Some(JobStatus::Failure), Some((5, 4)), 30), 30);
    for w in 0..70 {
        for (p, q) in [(0u64, 1u64), (1, 3), (2, 3), (99, 100), (7, 7)] {
            assert!(bar_fill(Some(JobStatus::Success), Some((p, q)), w) <= w);
        }
    }
}

#[test]
fn timing_lines_draw_bars_and_the_critical_path() {
    let rows = vec![row("build", Some(JobStatus::Success), "2s", Some((1, 2)))];
    let lines = timing_lines(28, &rows);
    assert_eq!(lines.len(), 3);
    assert_eq!(lines[0][0].0, "build     ");
    assert_eq!(lines[0][1], ("█".repeat(5), Role::Bar(Tone::Success)));
    assert_eq!(lines[0][2].0, "·".repeat(5));
    assert_eq!(lines[0][4].0, "   2s");
    assert!(lines[1].is_empty());
    assert_eq!(lines[2][1].0, "build");
    assert!(timing_lines(11, &rows).is_empty());
    let empty = timing_lines(40, &vec![]);
    assert_eq!(empty.len(), 1);
    assert_eq!(empty[0][0].0, "no jobs yet");
}

#[test]
fn timeline_rows_weigh_steps_against_the_longest() {
    let s = |name: &str, status: StepStatus, a: Option<i128>, b: Option<i128>| StepExecution {
        name: name.to_string(),
        status,
        output: String::new(),
        started_at: a,
        finished_at: b,
        env: vec![],
        outputs: vec![],
        env_writes: vec![],
        path_writes: vec![],
    };
    const MS: i128 = 1_000_000;
    let steps = vec![
        s("a", StepStatus::Success, Some(0), Some(4000 * MS)),
        s("b", StepStatus::Failure, Some(0), Some(1000 * MS)),
        s("c", StepStatus::Skipped, None, None),
        s("d", StepStatus::Success, Some(0), None),
    ];
    let rows = timeline_rows(&steps, 2000 * MS);
    assert_eq!(rows[0].weight, Some((4000, 4000)));
    assert_eq!(rows[0].label, "4.0s");
    assert_eq!(rows[1].weight, Some((1000, 4000)));
    assert_eq!(rows[1].status, Some(JobStatus::Failure));
    assert_eq!(rows[2].label, "skip");
    assert_eq!(rows[2].weight, None);
    assert_eq!(rows[3].status, None);
    assert_eq!(rows[3].label, "2.0s");
}

#[test]
fn a_zero_whole_counts_as_no_weight() {
    assert_eq!(bar_fill(Some(JobStatus::Success), Some((3, 0)), 20), 20);
    assert_eq!(bar_fill(Some(JobStatus::Skipped), Some((3, 0)), 20), 8);
    let rows = vec![row("odd", Some(JobStatus::Skipped), "1s", Some((1, 0)))];
    let lines = timing_lines(28, &rows);
    assert_eq!(lines[0][1].0, "█".repeat(4));
}
