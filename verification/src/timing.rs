//! Per-job timing chart: horizontal bars sized against the longest run.
//!
//! A row may carry a weight (its duration relative to the longest row,
//! held exactly as a pair of millisecond counts); with a weight the bar is
//! proportional, without one the bar length follows the row's status.

use vstd::prelude::*;
use crate::text::{chars_of, push_all, push_repeat, push_str, repeat_char, string_of};
use crate::models::{JobStatus, StepExecution, StepStatus, running_spec};
use crate::style::{Role, Tone, spans_view};
use crate::gantt::{end_or, fmt_ms, fmt_ms_spec, millis_between};

verus! {

broadcast use vstd::string::group_string_axioms;

/// `s` cut to at most `n` characters, then padded with spaces to `n`.
pub open spec fn pad_right_spec(s: Seq<char>, n: nat) -> Seq<char> {
    if s.len() >= n {
        s.take(n as int)
    } else {
        s + repeat_char(' ', (n - s.len()) as nat)
    }
}

/// `s` right-aligned in `n` columns (left-padded with spaces; never cut).
pub open spec fn pad_left_spec(s: Seq<char>, n: nat) -> Seq<char> {
    if s.len() >= n {
        s
    } else {
        repeat_char(' ', (n - s.len()) as nat) + s
    }
}

/// `s` cut to at most `n` characters, then padded with spaces to `n`.
pub fn pad_right(s: &str, n: usize) -> (r: String)
    ensures
        r@ == pad_right_spec(s@, n as nat),
{
    let v = chars_of(s);
    let mut out: Vec<char> = Vec::new();
    if v.len() >= n {
        let mut i: usize = 0;
        while i < n
            invariant
                i <= n <= v.len(),
                out@ == v@.take(i as int),
            decreases n - i,
        {
            out.push(v[i]);
            assert(v@.take(i as int).push(v@[i as int]) =~= v@.take(i + 1));
            i += 1;
        }
    } else {
        push_all(&mut out, v.as_slice());
        push_repeat(&mut out, ' ', n - v.len());
    }
    string_of(out.as_slice())
}

/// `s` right-aligned in `n` columns; longer strings are kept whole.
pub fn pad_left(s: &str, n: usize) -> (r: String)
    ensures
        r@ == pad_left_spec(s@, n as nat),
{
    let v = chars_of(s);
    let mut out: Vec<char> = Vec::new();
    if v.len() < n {
        push_repeat(&mut out, ' ', n - v.len());
    }
    push_all(&mut out, v.as_slice());
    proof {
        if v.len() >= n {
            assert(out@ =~= v@);
        }
    }
    string_of(out.as_slice())
}


/// One row of the timing chart. `status` is `None` while the row is
/// pending or live. `weight` is the row's duration relative to the longest
/// row, as `(part, whole)` milliseconds (a zero whole counts as no
/// weight); `None` without timing data.
pub struct TimingRow {
    pub name: String,
    pub status: Option<JobStatus>,
    pub label: String,
    pub weight: Option<(u64, u64)>,
}

pub struct TimingRowView {
    pub name: Seq<char>,
    pub status: Option<JobStatus>,
    pub label: Seq<char>,
    pub weight: Option<(u64, u64)>,
}

impl View for TimingRow {
    type V = TimingRowView;

    open spec fn view(&self) -> TimingRowView {
        TimingRowView { name: self.name@, status: self.status, label: self.label@, weight: self.weight }
    }
}

/// The bar colour class of a row's status.
pub open spec fn status_tone(s: Option<JobStatus>) -> Tone {
    match s {
        Some(JobStatus::Success) => Tone::Success,
        Some(JobStatus::Failure) => Tone::Failure,
        Some(JobStatus::Skipped) => Tone::Skipped,
        None => Tone::Running,
    }
}

/// `x / y` rounded to the nearest integer, halves up (`y > 0`).
pub open spec fn round_div(x: nat, y: nat) -> nat
    recommends
        y > 0,
{
    (2 * x + y) / (2 * y)
}

/// The weight a row's bar follows: one with a zero whole carries no
/// proportion and counts as none.
pub open spec fn usable_weight(weight: Option<(u64, u64)>) -> Option<(u64, u64)> {
    match weight {
        Some((p, q)) => if q > 0 { Some((p, q)) } else { None },
        None => None,
    }
}

/// How many of `bar_width` cells a row fills: a weighted row that ran is
/// proportional to its weight (at least 2% of the width, at most all of
/// it), rounded; otherwise success and failure fill the bar, a skip fills
/// 40% and a pending row nothing.
pub open spec fn filled_cells(status: Option<JobStatus>, weight: Option<(u64, u64)>, bar_width: nat) -> nat {
    match (status, usable_weight(weight)) {
        (Some(_), Some((p, q))) => if p >= q {
            bar_width
        } else if 50 * p < q {
            round_div(bar_width, 50)
        } else {
            round_div((p * bar_width) as nat, q as nat)
        },
        (Some(JobStatus::Skipped), None) => round_div(4 * bar_width, 10),
        (Some(_), None) => bar_width,
        (None, _) => 0,
    }
}

/// A bar never fills more than its width.
pub proof fn law_bar_fill_within_width(status: Option<JobStatus>, weight: Option<(u64, u64)>, bar_width: nat)
    ensures
        filled_cells(status, weight, bar_width) <= bar_width,
{
    let w = bar_width;
    assert((2 * w + 50) / 100 <= w || w == 0) by (nonlinear_arith);
    assert((2 * (4 * w) + 10) / 20 <= w || w == 0) by (nonlinear_arith);
    if let Some((p, q)) = usable_weight(weight) {
        if p < q {
            let pw: nat = (p * w) as nat;
            let qn: nat = q as nat;
            assert(p * w <= (q - 1) * w) by (nonlinear_arith)
                requires p < q;
            assert(round_div(pw, qn) <= w) by (nonlinear_arith)
                requires pw <= (qn - 1) * w, qn > 0;
        }
    }
}

/// The bar cells a row fills.
pub fn bar_fill(status: Option<JobStatus>, weight: Option<(u64, u64)>, bar_width: usize) -> (n: usize)
    requires
        bar_width <= 0xffff,
    ensures
        n == filled_cells(status, weight, bar_width as nat),
        n <= bar_width,
{
    let bw = bar_width as u128;
    let usable = match weight {
        Some((p, q)) => if q > 0 { Some((p, q)) } else { None },
        None => None,
    };
    match (status, usable) {
        (Some(_), Some((p, q))) => {
            if p >= q {
                bar_width
            } else if 50 * (p as u128) < (q as u128) {
                ((2 * bw + 50) / 100) as usize
            } else {
                let pp = p as u128;
                assert(pp * bw <= 0xffff_ffff_ffff_ffffu128 * 0xffff) by (nonlinear_arith)
                    requires
                        pp <= 0xffff_ffff_ffff_ffffu128,
                        bw <= 0xffff,
                ;
                let x = pp * bw;
                let r = (2 * x + (q as u128)) / (2 * (q as u128));
                assert(r <= bw) by (nonlinear_arith)
                    requires
                        pp < q,
                        x == pp * bw,
                        r == (2 * x + q) / (2 * q),
                        q > 0,
                ;
                r as usize
            }
        },
        (Some(JobStatus::Skipped), None) => ((8 * bw + 10) / 20) as usize,
        (Some(_), None) => bar_width,
        (None, _) => 0,
    }
}

/// The names of the rows that finished (succeeded or failed), joined with
/// `" → "`; `"(awaiting first job)"` when there are none.
pub open spec fn finished_names(rows: Seq<TimingRow>) -> Seq<Seq<char>>
    decreases rows.len(),
{
    if rows.len() == 0 {
        Seq::empty()
    } else {
        let prev = finished_names(rows.drop_last());
        match rows.last().status {
            Some(JobStatus::Success) | Some(JobStatus::Failure) => prev.push(rows.last().name@),
            _ => prev,
        }
    }
}

/// `parts` joined with `sep` between them.
pub open spec fn join_with(parts: Seq<Seq<char>>, sep: Seq<char>) -> Seq<char>
    decreases parts.len(),
{
    if parts.len() == 0 {
        Seq::empty()
    } else if parts.len() == 1 {
        parts[0]
    } else {
        join_with(parts.drop_last(), sep) + sep + parts.last()
    }
}

/// The critical-path summary of the rows.
pub open spec fn summarise_spec(rows: Seq<TimingRow>) -> Seq<char> {
    let names = finished_names(rows);
    if names.len() == 0 {
        "(awaiting first job)"@
    } else {
        join_with(names, " → "@)
    }
}

/// The finished rows' names joined with `" → "`, or
/// `"(awaiting first job)"`.
pub fn summarise(rows: &Vec<TimingRow>) -> (s: String)
    ensures
        s@ == summarise_spec(rows@),
{
    let mut out: Vec<char> = Vec::new();
    let mut any = false;
    let sep = chars_of(" → ");
    let mut i: usize = 0;
    assert(rows@.take(0) =~= Seq::<TimingRow>::empty());
    while i < rows.len()
        invariant
            i <= rows.len(),
            sep@ == " → "@,
            any == (finished_names(rows@.take(i as int)).len() > 0),
            out@ == join_with(finished_names(rows@.take(i as int)), " → "@),
        decreases rows.len() - i,
    {
        assert(rows@.take(i + 1).drop_last() =~= rows@.take(i as int));
        let ghost names = finished_names(rows@.take(i as int));
        match rows[i].status {
            Some(JobStatus::Success) | Some(JobStatus::Failure) => {
                if any {
                    push_all(&mut out, sep.as_slice());
                }
                push_str(&mut out, rows[i].name.as_str());
                assert(names.push(rows[i as int].name@).drop_last() =~= names);
                proof {
                    if !any {
                        assert(out@ =~= names.push(rows@[i as int].name@)[0]);
                    }
                }
                any = true;
            },
            _ => {},
        }
        i += 1;
    }
    assert(rows@.take(rows.len() as int) =~= rows@);
    if !any {
        string_of(chars_of("(awaiting first job)").as_slice())
    } else {
        string_of(out.as_slice())
    }
}

/// One chart line: the name in 10 columns, the filled and empty parts of
/// the bar, and the label right-aligned in 5 columns.
pub open spec fn timing_row_line_spec(row: TimingRow, bar_width: nat) -> Seq<(Seq<char>, Role)> {
    let filled = filled_cells(row.status, row.weight, bar_width);
    seq![
        (pad_right_spec(row.name@, 10), Role::Dim),
        (repeat_char('█', filled), Role::Bar(status_tone(row.status))),
        (repeat_char('·', (bar_width - filled) as nat), Role::Border),
        (seq![' '], Role::Plain),
        (pad_left_spec(row.label@, 5), Role::Muted),
    ]
}

/// The timing chart for a pane `width` columns wide: nothing under 12
/// columns; else one line per row with the bar in `width - 18` columns,
/// then a blank line and the critical path (or `"no jobs yet"`).
pub open spec fn timing_lines_spec(width: u16, rows: Seq<TimingRow>) -> Seq<Seq<(Seq<char>, Role)>> {
    if width < 12 {
        Seq::empty()
    } else {
        let bw: nat = if width >= 18 { (width - 18) as nat } else { 0 };
        let body = rows.map_values(|r: TimingRow| timing_row_line_spec(r, bw));
        if rows.len() == 0 {
            body.push(seq![("no jobs yet"@, Role::Muted)])
        } else {
            body.push(Seq::empty()).push(
                seq![("critical path "@, Role::MutedDim), (summarise_spec(rows), Role::Dim)],
            )
        }
    }
}

/// Whether every weighted row has a positive whole.
pub open spec fn weights_valid(rows: Seq<TimingRow>) -> bool {
    forall|i: int| 0 <= i < rows.len() ==> (#[trigger] rows[i].weight matches Some((p, q)) ==> q > 0)
}

fn chars_string(v: Vec<char>) -> (s: String)
    ensures
        s@ == v@,
{
    string_of(v.as_slice())
}

/// The lines of the timing chart for a pane `width` columns wide.
pub fn timing_lines(width: u16, rows: &Vec<TimingRow>) -> (lines: Vec<Vec<(String, Role)>>)
    ensures
        lines@.map_values(|l: Vec<(String, Role)>| spans_view(l@)) == timing_lines_spec(width, rows@),
{
    let mut lines: Vec<Vec<(String, Role)>> = Vec::new();
    if width < 12 {
        assert(lines@.map_values(|l: Vec<(String, Role)>| spans_view(l@)) =~= timing_lines_spec(width, rows@));
        return lines;
    }
    let bw: usize = if width >= 18 { (width - 18) as usize } else { 0 };
    let ghost bwn = bw as nat;
    let mut i: usize = 0;
    while i < rows.len()
        invariant
            i <= rows.len(),
            bw <= 0xffff,
            lines@.len() == i,
            forall|j: int| 0 <= j < i ==> spans_view(#[trigger] lines@[j]@) == timing_row_line_spec(rows@[j], bw as nat),
        decreases rows.len() - i,
    {
        let row = &rows[i];
        let filled = bar_fill(row.status, row.weight, bw);
        let tone = match row.status {
            Some(JobStatus::Success) => Tone::Success,
            Some(JobStatus::Failure) => Tone::Failure,
            Some(JobStatus::Skipped) => Tone::Skipped,
            None => Tone::Running,
        };
        let mut full: Vec<char> = Vec::new();
        push_repeat(&mut full, '█', filled);
        let mut empty: Vec<char> = Vec::new();
        push_repeat(&mut empty, '·', bw - filled);
        let mut line: Vec<(String, Role)> = Vec::new();
        line.push((pad_right(row.name.as_str(), 10), Role::Dim));
        line.push((chars_string(full), Role::Bar(tone)));
        line.push((chars_string(empty), Role::Border));
        line.push((chars_string(vec![' ']), Role::Plain));
        line.push((pad_left(row.label.as_str(), 5), Role::Muted));
        proof {
            let sv = spans_view(line@);
            let sp = timing_row_line_spec(rows@[i as int], bw as nat);
            assert(sv[0] == sp[0]);
            assert(sv[1] == sp[1]);
            assert(sv[2] == sp[2]);
            assert(sv[3] == sp[3]);
            assert(sv[4] == sp[4]);
            assert(sv =~= sp);
        }
        lines.push(line);
        i += 1;
    }
    let ghost body = lines@.map_values(|l: Vec<(String, Role)>| spans_view(l@));
    assert(body =~= rows@.map_values(|r: TimingRow| timing_row_line_spec(r, bw as nat)));
    if rows.len() == 0 {
        let mut l: Vec<(String, Role)> = Vec::new();
        l.push((chars_string(chars_of("no jobs yet")), Role::Muted));
        proof {
            assert(spans_view(l@) =~= seq![("no jobs yet"@, Role::Muted)]);
        }
        lines.push(l);
    } else {
        let blank: Vec<(String, Role)> = Vec::new();
        assert(spans_view(blank@) =~= Seq::<(Seq<char>, Role)>::empty());
        lines.push(blank);
        let mut l: Vec<(String, Role)> = Vec::new();
        l.push((chars_string(chars_of("critical path ")), Role::MutedDim));
        l.push((summarise(rows), Role::Dim));
        proof {
            assert(spans_view(l@) =~= seq![("critical path "@, Role::MutedDim), (summarise_spec(rows@), Role::Dim)]);
        }
        lines.push(l);
    }
    assert(lines@.map_values(|l: Vec<(String, Role)>| spans_view(l@)) =~= timing_lines_spec(width, rows@));
    lines
}


/// A step's run time in milliseconds (a running step ticks against
/// `now`); `None` without a start stamp or when it ends before it starts.
pub open spec fn step_duration_ms(s: StepExecution, now: i128) -> Option<u64> {
    match s.started_at {
        Some(st) => {
            let e = end_or(s.finished_at, now);
            if e >= st {
                Some(millis_between(st, e))
            } else {
                None
            }
        },
        None => None,
    }
}

/// The longest step run time in milliseconds, 0 when none has one.
pub open spec fn max_step_ms(steps: Seq<StepExecution>, now: i128) -> u64
    decreases steps.len(),
{
    if steps.len() == 0 {
        0
    } else {
        let prev = max_step_ms(steps.drop_last(), now);
        match step_duration_ms(steps.last(), now) {
            Some(d) => if d > prev { d } else { prev },
            None => prev,
        }
    }
}

/// The longest step time is at least every step's time, and (when not
/// zero) is some step's time.
proof fn lemma_max_step_is_longest(steps: Seq<StepExecution>, now: i128)
    ensures
        forall|i: int| 0 <= i < steps.len() && #[trigger] step_duration_ms(steps[i], now) is Some
            ==> step_duration_ms(steps[i], now)->0 <= max_step_ms(steps, now),
        max_step_ms(steps, now) > 0 ==> exists|i: int|
            0 <= i < steps.len() && #[trigger] step_duration_ms(steps[i], now) == Some(max_step_ms(steps, now)),
    decreases steps.len(),
{
    if steps.len() > 0 {
        let d = steps.drop_last();
        lemma_max_step_is_longest(d, now);
        assert forall|i: int| 0 <= i < steps.len() && #[trigger] step_duration_ms(steps[i], now) is Some
            implies step_duration_ms(steps[i], now)->0 <= max_step_ms(steps, now) by {
            if i < d.len() {
                assert(steps[i] == d[i]);
                assert(step_duration_ms(d[i], now) is Some);
            }
        }
        if max_step_ms(steps, now) > 0 {
            if step_duration_ms(steps.last(), now) == Some(max_step_ms(steps, now)) {
                assert(step_duration_ms(steps[steps.len() - 1], now) == Some(max_step_ms(steps, now)));
            } else {
                let i = choose|i: int| 0 <= i < d.len() && #[trigger] step_duration_ms(d[i], now) == Some(max_step_ms(d, now));
                assert(steps[i] == d[i]);
                assert(step_duration_ms(steps[i], now) == Some(max_step_ms(steps, now)));
            }
        }
    }
}

/// Every timeline weight is a step's time over the longest step's time:
/// the whole is at least every step's time (so the part never exceeds it)
/// and is itself some step's time.
pub proof fn law_timeline_weights_use_the_longest_step(steps: Seq<StepExecution>, now: i128, k: int)
    requires
        0 <= k < steps.len(),
    ensures
        timeline_row_spec(steps[k], now, max_step_ms(steps, now)).weight matches Some((p, q)) ==> {
            &&& step_duration_ms(steps[k], now) == Some(p)
            &&& p <= q
            &&& forall|j: int| 0 <= j < steps.len() && #[trigger] step_duration_ms(steps[j], now) is Some
                ==> step_duration_ms(steps[j], now)->0 <= q
            &&& exists|j: int| 0 <= j < steps.len() && #[trigger] step_duration_ms(steps[j], now) == Some(q)
        },
{
    lemma_max_step_is_longest(steps, now);
    if step_duration_ms(steps[k], now) is Some {
        assert(step_duration_ms(steps[k], now)->0 <= max_step_ms(steps, now));
    }
}

/// The timing row of a step in the step timeline: its run time as the
/// label (or `ok`/`fail`/`skip` without one), no status while it runs, and
/// its run time relative to the longest step as the weight.
pub open spec fn timeline_row_spec(s: StepExecution, now: i128, max_ms: u64) -> TimingRowView {
    let d = step_duration_ms(s, now);
    TimingRowView {
        name: s.name@,
        status: if running_spec(s.started_at, s.finished_at) {
            None
        } else {
            Some(
                match s.status {
                    StepStatus::Success => JobStatus::Success,
                    StepStatus::Failure => JobStatus::Failure,
                    StepStatus::Skipped => JobStatus::Skipped,
                },
            )
        },
        label: match d {
            Some(ms) => fmt_ms_spec(ms as nat),
            None => match s.status {
                StepStatus::Success => "ok"@,
                StepStatus::Failure => "fail"@,
                StepStatus::Skipped => "skip"@,
            },
        },
        weight: match d {
            Some(ms) => if max_ms > 0 { Some((ms, max_ms)) } else { None },
            None => None,
        },
    }
}

fn step_ms(s: &StepExecution, now: i128) -> (d: Option<u64>)
    ensures
        d == step_duration_ms(*s, now),
{
    match s.started_at {
        Some(st) => {
            let e = match s.finished_at {
                Some(e) => e,
                None => now,
            };
            if e >= st {
                Some(crate::gantt::millis_from(st, e))
            } else {
                None
            }
        },
        None => None,
    }
}

/// The rows of a job's step timeline.
pub fn timeline_rows(steps: &Vec<StepExecution>, now: i128) -> (rows: Vec<TimingRow>)
    ensures
        rows@.map_values(|r: TimingRow| r@) == steps@.map_values(
            |s: StepExecution| timeline_row_spec(s, now, max_step_ms(steps@, now)),
        ),
        weights_valid(rows@),
{
    let mut max_ms: u64 = 0;
    let mut i: usize = 0;
    assert(steps@.take(0) =~= Seq::<StepExecution>::empty());
    while i < steps.len()
        invariant
            i <= steps.len(),
            max_ms == max_step_ms(steps@.take(i as int), now),
        decreases steps.len() - i,
    {
        assert(steps@.take(i + 1).drop_last() =~= steps@.take(i as int));
        match step_ms(&steps[i], now) {
            Some(d) => if d > max_ms {
                max_ms = d;
            },
            None => {},
        }
        i += 1;
    }
    assert(steps@.take(steps.len() as int) =~= steps@);
    let mut rows: Vec<TimingRow> = Vec::new();
    let mut k: usize = 0;
    while k < steps.len()
        invariant
            k <= steps.len(),
            max_ms == max_step_ms(steps@, now),
            rows@.len() == k,
            weights_valid(rows@),
            forall|i: int| 0 <= i < k ==> (#[trigger] rows@[i])@ == timeline_row_spec(steps@[i], now, max_ms),
        decreases steps.len() - k,
    {
        let s = &steps[k];
        let d = step_ms(s, now);
        let label = match d {
            Some(ms) => fmt_ms(ms),
            None => match s.status {
                StepStatus::Success => string_of(chars_of("ok").as_slice()),
                StepStatus::Failure => string_of(chars_of("fail").as_slice()),
                StepStatus::Skipped => string_of(chars_of("skip").as_slice()),
            },
        };
        let status = if s.is_running() {
            None
        } else {
            Some(
                match s.status {
                    StepStatus::Success => JobStatus::Success,
                    StepStatus::Failure => JobStatus::Failure,
                    StepStatus::Skipped => JobStatus::Skipped,
                },
            )
        };
        let weight = match d {
            Some(ms) => if max_ms > 0 { Some((ms, max_ms)) } else { None },
            None => None,
        };
        rows.push(TimingRow { name: s.name.clone(), status, label, weight });
        k += 1;
    }
    assert(rows@.map_values(|r: TimingRow| r@) =~= steps@.map_values(
        |s: StepExecution| timeline_row_spec(s, now, max_step_ms(steps@, now)),
    ));
    rows
}

} // verus!
