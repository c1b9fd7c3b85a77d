//! Gantt tab: the wall-clock timeline of a run, one bar per job and one per
//! step, on a shared time axis from the earliest start to the latest
//! finish. Rows without stamps show a dash.

use vstd::prelude::*;
use crate::text::{
    chars_of, decimal, decimal2, push_all, push_decimal, push_decimal2, push_repeat, push_str,
    repeat_char, string_of,
};
use crate::timing::{pad_left, pad_left_spec};
use crate::style::{Role, Tone, spans_view};
use crate::models::{JobExecution, JobStatus, StepExecution, StepStatus, Workflow, running_spec, resolve_workflow_idx};

verus! {

broadcast use vstd::string::group_string_axioms;

/// Nanoseconds from `a` to `b`; zero when `b` is not after `a`.
pub open spec fn nanos_between(a: i128, b: i128) -> nat {
    if b > a {
        (b - a) as nat
    } else {
        0
    }
}

/// Whole milliseconds from `a` to `b`, truncated to 64 bits (as
/// `Duration::as_millis() as u64`); zero when `b` is not after `a`.
pub open spec fn millis_between(a: i128, b: i128) -> u64 {
    (nanos_between(a, b) / 1_000_000) as u64
}

/// Nanoseconds from `a` to `b`; zero when `b` is not after `a`.
pub fn nanos_from(a: i128, b: i128) -> (d: u128)
    ensures
        d == nanos_between(a, b),
{
    if b <= a {
        0
    } else if a >= 0 {
        (b - a) as u128
    } else if b < 0 {
        (b - a) as u128
    } else {
        let na = (-(a + 1)) as u128;
        (b as u128) + na + 1
    }
}

/// Whole milliseconds from `a` to `b` (zero when `b` is not after `a`).
pub fn millis_from(a: i128, b: i128) -> (m: u64)
    ensures
        m == millis_between(a, b),
{
    let d = nanos_from(a, b);
    (d / 1_000_000) as u64
}

/// Human duration from milliseconds: `"0.4s"`, `"12s"`, `"1m 04s"`,
/// `"1h 02m"`.
pub open spec fn fmt_ms_spec(ms: nat) -> Seq<char> {
    let secs = ms / 1000;
    if secs >= 3600 {
        decimal(secs / 3600) + seq!['h', ' '] + decimal2((secs % 3600) / 60) + seq!['m']
    } else if secs >= 60 {
        decimal(secs / 60) + seq!['m', ' '] + decimal2(secs % 60) + seq!['s']
    } else if secs >= 10 {
        decimal(secs) + seq!['s']
    } else {
        decimal(secs) + seq!['.'] + decimal((ms % 1000) / 100) + seq!['s']
    }
}

pub fn push_fmt_ms(out: &mut Vec<char>, ms: u64)
    ensures
        final(out)@ == old(out)@ + fmt_ms_spec(ms as nat),
{
    let secs = ms / 1000;
    let ghost o = out@;
    if secs >= 3600 {
        push_decimal(out, (secs / 3600) as u128);
        out.push('h');
        out.push(' ');
        push_decimal2(out, ((secs % 3600) / 60) as u128);
        out.push('m');
        assert(out@ =~= o + fmt_ms_spec(ms as nat));
    } else if secs >= 60 {
        push_decimal(out, (secs / 60) as u128);
        out.push('m');
        out.push(' ');
        push_decimal2(out, (secs % 60) as u128);
        out.push('s');
        assert(out@ =~= o + fmt_ms_spec(ms as nat));
    } else if secs >= 10 {
        push_decimal(out, secs as u128);
        out.push('s');
        assert(out@ =~= o + fmt_ms_spec(ms as nat));
    } else {
        push_decimal(out, secs as u128);
        out.push('.');
        push_decimal(out, ((ms % 1000) / 100) as u128);
        out.push('s');
        assert(out@ =~= o + fmt_ms_spec(ms as nat));
    }
}

/// Human duration from milliseconds: `"0.4s"`, `"12s"`, `"9.8s"`,
/// `"1m 04s"`, `"1h 02m"`.
pub fn fmt_ms(ms: u64) -> (s: String)
    ensures
        s@ == fmt_ms_spec(ms as nat),
{
    let mut v: Vec<char> = Vec::new();
    push_fmt_ms(&mut v, ms);
    assert(v@ =~= fmt_ms_spec(ms as nat));
    string_of(v.as_slice())
}

/// The duration text of a row: `"—"` when it never started, else the
/// time from its start to its end (or to `now` while it runs).
pub open spec fn duration_label_spec(start: Option<i128>, end: Option<i128>, now: i128) -> Seq<char> {
    match start {
        Some(s) => fmt_ms_spec(
            millis_between(
                s,
                match end {
                    Some(e) => e,
                    None => now,
                },
            ) as nat,
        ),
        None => seq!['—'],
    }
}

/// Duration text for a row; a started but unfinished row ticks against
/// `now`.
pub fn duration_label(start: Option<i128>, end: Option<i128>, now: i128) -> (s: String)
    ensures
        s@ == duration_label_spec(start, end, now),
{
    match start {
        Some(st) => {
            let e = match end {
                Some(e) => e,
                None => now,
            };
            fmt_ms(millis_from(st, e))
        },
        None => {
            let v: Vec<char> = vec!['—'];
            let s = string_of(v.as_slice());
            assert(s@ =~= seq!['—']);
            s
        },
    }
}

/// The column at which `ms` falls when `total` milliseconds span `width`
/// columns (truncated to `usize`, as the integer conversion does).
pub open spec fn scale_spec(ms: u64, width: usize, total: u64) -> usize {
    ((ms * width) / (total as int)) as usize
}

/// Where the bar for `[start_ms, end_ms]` lands on a chart `width` columns
/// wide covering `total_ms`: `(offset, len)`.
pub open spec fn bar_cells_spec(start_ms: u64, end_ms: u64, total_ms: u64, width: usize) -> (usize, usize) {
    if width == 0 {
        (0, 0)
    } else if total_ms == 0 {
        (0, 1)
    } else {
        let s = scale_spec(start_ms, width, total_ms);
        let offset: usize = if s < width - 1 { s } else { (width - 1) as usize };
        let e = scale_spec(if end_ms >= start_ms { end_ms } else { start_ms }, width, total_ms);
        let end_cell: usize = if e < offset + 1 {
            (offset + 1) as usize
        } else if e > width {
            width
        } else {
            e
        };
        (offset, (end_cell - offset) as usize)
    }
}

fn scale(ms: u64, width: usize, total: u64) -> (c: usize)
    requires
        total > 0,
    ensures
        c == scale_spec(ms, width, total),
{
    let m = ms as u128;
    let w = width as u128;
    assert(m * w <= 0xffff_ffff_ffff_ffffu128 * 0xffff_ffff_ffff_ffffu128) by (nonlinear_arith)
        requires
            m <= 0xffff_ffff_ffff_ffffu128,
            w <= 0xffff_ffff_ffff_ffffu128,
    ;
    let p: u128 = m * w;
    let q = p / (total as u128);
    (#[verifier::truncate] (q as usize))
}

/// Maps a `[start, end]` span (milliseconds from the run's start) onto
/// `width` columns: `(offset, len)`. Every span that ran gets at least one
/// cell, and `offset + len` never exceeds `width`.
pub fn bar_cells(start_ms: u64, end_ms: u64, total_ms: u64, width: usize) -> (r: (usize, usize))
    ensures
        r == bar_cells_spec(start_ms, end_ms, total_ms, width),
        r.0 + r.1 <= width,
        width > 0 ==> r.1 >= 1,
{
    if width == 0 {
        return (0, 0);
    }
    if total_ms == 0 {
        return (0, 1);
    }
    let s = scale(start_ms, width, total_ms);
    let offset = if s < width - 1 { s } else { width - 1 };
    let e = scale(if end_ms >= start_ms { end_ms } else { start_ms }, width, total_ms);
    let end_cell = if e < offset + 1 {
        offset + 1
    } else if e > width {
        width
    } else {
        e
    };
    (offset, end_cell - offset)
}

/// `s` fitted to exactly `n` columns: cut with a trailing `'…'` when it is
/// longer, padded with spaces when shorter.
pub open spec fn pad_or_trim_spec(s: Seq<char>, n: nat) -> Seq<char> {
    if s.len() > n {
        if n > 0 {
            s.take(n - 1).push('…')
        } else {
            Seq::empty()
        }
    } else {
        s + repeat_char(' ', (n - s.len()) as nat)
    }
}

/// A fitted name is always exactly `n` columns, and a name that had to be
/// cut ends in `…`.
pub proof fn law_pad_or_trim_fits(s: Seq<char>, n: nat)
    ensures
        pad_or_trim_spec(s, n).len() == n,
        s.len() > n && n > 0 ==> pad_or_trim_spec(s, n).last() == '…',
        s.len() <= n ==> pad_or_trim_spec(s, n).take(s.len() as int) == s,
{
    if s.len() <= n {
        assert(pad_or_trim_spec(s, n).take(s.len() as int) =~= s);
    }
}

fn pad_or_trim_chars(v: &[char], n: usize) -> (r: Vec<char>)
    ensures
        r@ == pad_or_trim_spec(v@, n as nat),
{
    let mut out: Vec<char> = Vec::new();
    if v.len() > n {
        if n > 0 {
            let mut i: usize = 0;
            while i < n - 1
                invariant
                    i <= n - 1,
                    n < v.len(),
                    out@ == v@.take(i as int),
                decreases n - 1 - i,
            {
                out.push(v[i]);
                assert(v@.take(i as int).push(v@[i as int]) =~= v@.take(i + 1));
                i += 1;
            }
            out.push('…');
        }
    } else {
        push_all(&mut out, v);
        push_repeat(&mut out, ' ', n - v.len());
    }
    out
}

/// `s` fitted to exactly `n` columns: cut with a trailing `'…'` when it is
/// longer, padded with spaces when shorter.
pub fn pad_or_trim(s: &str, n: usize) -> (r: String)
    ensures
        r@ == pad_or_trim_spec(s@, n as nat),
{
    let v = chars_of(s);
    let r = pad_or_trim_chars(v.as_slice(), n);
    string_of(r.as_slice())
}


/// One row of the chart.
pub struct GanttRow {
    pub label: String,
    /// 0 for a job, 1 for a step (indented, dimmer).
    pub depth: usize,
    /// Milliseconds from the run's start; `None` when it never ran.
    pub span_ms: Option<(u64, u64)>,
    pub tone: Tone,
    pub duration_label: String,
}

pub struct GanttRowView {
    pub label: Seq<char>,
    pub depth: nat,
    pub span_ms: Option<(u64, u64)>,
    pub tone: Tone,
    pub duration_label: Seq<char>,
}

impl View for GanttRow {
    type V = GanttRowView;

    open spec fn view(&self) -> GanttRowView {
        GanttRowView {
            label: self.label@,
            depth: self.depth as nat,
            span_ms: self.span_ms,
            tone: self.tone,
            duration_label: self.duration_label@,
        }
    }
}

/// The text of one chart row: gutter (`"▶ "` when selected), the name
/// fitted to `name_w`, the duration right-aligned in `dur_w`, the
/// separator, then the bar placed by `bar_cells` (or `" —"` without
/// timing).
pub open spec fn row_line_spec(
    row: GanttRowView,
    selected: bool,
    name_w: nat,
    dur_w: nat,
    chart_w: usize,
    total_ms: u64,
) -> Seq<(Seq<char>, Role)> {
    let indent: Seq<char> = if row.depth == 0 { Seq::empty() } else { seq![' ', ' '] };
    let name_role = if selected {
        Role::Selected
    } else if row.depth == 0 {
        Role::Strong
    } else {
        Role::Dim
    };
    let bar_char = if row.depth == 0 { '█' } else { '▓' };
    let head = seq![
        (if selected { seq!['▶', ' '] } else { seq![' ', ' '] }, Role::Accent),
        (pad_or_trim_spec(indent + row.label, name_w), name_role),
        (seq![' '], Role::Plain),
        (pad_left_spec(row.duration_label, dur_w), Role::Muted),
        (seq![' ', '│'], Role::Border),
    ];
    match row.span_ms {
        Some((s, e)) => {
            let (o, l) = bar_cells_spec(s, e, total_ms, chart_w);
            head + seq![
                (repeat_char(' ', o as nat), Role::Plain),
                (repeat_char(bar_char, l as nat), Role::Bar(row.tone)),
            ]
        },
        None => head + seq![(seq![' ', '—'], Role::Muted)],
    }
}

fn chars_string(v: Vec<char>) -> (s: String)
    ensures
        s@ == v@,
{
    string_of(v.as_slice())
}

/// One chart row as styled text pieces.
pub fn row_line(
    row: &GanttRow,
    selected: bool,
    name_w: usize,
    dur_w: usize,
    chart_w: usize,
    total_ms: u64,
) -> (line: Vec<(String, Role)>)
    ensures
        spans_view(line@) == row_line_spec(row@, selected, name_w as nat, dur_w as nat, chart_w, total_ms),
{
    let mut name: Vec<char> = Vec::new();
    if row.depth != 0 {
        name.push(' ');
        name.push(' ');
    }
    push_str(&mut name, row.label.as_str());
    let name_role = if selected {
        Role::Selected
    } else if row.depth == 0 {
        Role::Strong
    } else {
        Role::Dim
    };
    let bar_char = if row.depth == 0 { '█' } else { '▓' };
    let gutter: Vec<char> = if selected { vec!['▶', ' '] } else { vec![' ', ' '] };
    let mut line: Vec<(String, Role)> = Vec::new();
    line.push((chars_string(gutter), Role::Accent));
    line.push((chars_string(pad_or_trim_chars(name.as_slice(), name_w)), name_role));
    line.push((chars_string(vec![' ']), Role::Plain));
    line.push((pad_left(row.duration_label.as_str(), dur_w), Role::Muted));
    line.push((chars_string(vec![' ', '│']), Role::Border));
    match row.span_ms {
        Some((s, e)) => {
            let (o, l) = bar_cells(s, e, total_ms, chart_w);
            let mut pad: Vec<char> = Vec::new();
            push_repeat(&mut pad, ' ', o);
            let mut bar: Vec<char> = Vec::new();
            push_repeat(&mut bar, bar_char, l);
            line.push((chars_string(pad), Role::Plain));
            line.push((chars_string(bar), Role::Bar(row.tone)));
        },
        None => {
            line.push((chars_string(vec![' ', '—']), Role::Muted));
        },
    }
    proof {
        let indent: Seq<char> = if row.depth == 0 { Seq::empty() } else { seq![' ', ' '] };
        assert(name@ =~= indent + row.label@);
        let sv = spans_view(line@);
        let sp = row_line_spec(row@, selected, name_w as nat, dur_w as nat, chart_w, total_ms);
        assert(sv.len() == sp.len());
        assert(sv[0] == sp[0]);
        assert(sv[1] == sp[1]);
        assert(sv[2] == sp[2]);
        assert(sv[3] == sp[3]);
        assert(sv[4] == sp[4]);
        assert(sv[5] == sp[5]);
        assert(spans_view(line@) =~= row_line_spec(row@, selected, name_w as nat, dur_w as nat, chart_w, total_ms));
    }
    line
}


/// Where a label of `len` characters aimed at column `at` starts on a
/// ruler `width` columns wide: right-aligned when it would run past the end.
pub open spec fn label_start(width: nat, at: int, len: nat) -> int {
    if at + len > width {
        if width >= len { width - len } else { 0 }
    } else {
        at
    }
}

/// `r` with `text` written from `label_start`, characters past the end
/// dropped.
pub open spec fn place_spec(r: Seq<char>, at: int, text: Seq<char>) -> Seq<char> {
    let start = label_start(r.len(), at, text.len());
    Seq::new(r.len(), |k: int| if start <= k < start + text.len() { text[k - start] } else { r[k] })
}

fn place(r: &mut Vec<char>, at: usize, text: &[char])
    ensures
        final(r)@ == place_spec(old(r)@, at as int, text@),
{
    let ghost orig = r@;
    let len = r.len();
    let start = if text.len() > len || at > len - text.len() {
        if len >= text.len() { len - text.len() } else { 0 }
    } else {
        at
    };
    assert(start == label_start(len as nat, at as int, text@.len()));
    let mut i: usize = 0;
    while i < text.len()
        invariant
            i <= text.len(),
            start <= len,
            r@.len() == len,
            orig.len() == len,
            r@ == Seq::new(len as nat, |k: int| if start <= k < start + i { text@[k - start] } else { orig[k] }),
        decreases text.len() - i,
    {
        if i < len - start {
            r.set(start + i, text[i]);
        }
        i += 1;
        assert(r@ =~= Seq::new(len as nat, |k: int| if start <= k < start + i { text@[k - start] } else { orig[k] }));
    }
    assert(r@ =~= place_spec(orig, at as int, text@));
}

/// The ruler's axis: `chart_w` rules with tick labels at 0, ¼, ½, ¾ and
/// the total when there is room (24 columns), else just `"0s"` and the
/// total.
pub open spec fn ruler_spec(chart_w: nat, total_ms: nat) -> Seq<char> {
    let base = repeat_char('─', chart_w);
    if chart_w >= 24 {
        let w1 = (chart_w - 1) as nat;
        let r0 = place_spec(base, 0, fmt_ms_spec(0));
        let r1 = place_spec(r0, (w1 * 1 / 4) as int, fmt_ms_spec(total_ms * 1 / 4));
        let r2 = place_spec(r1, (w1 * 2 / 4) as int, fmt_ms_spec(total_ms * 2 / 4));
        let r3 = place_spec(r2, (w1 * 3 / 4) as int, fmt_ms_spec(total_ms * 3 / 4));
        place_spec(r3, (w1 * 4 / 4) as int, fmt_ms_spec(total_ms * 4 / 4))
    } else {
        place_spec(place_spec(base, 0, seq!['0', 's']), chart_w as int, fmt_ms_spec(total_ms))
    }
}

/// The ruler is exactly as wide as the chart: a label that would run past
/// the end is pulled back inside.
pub proof fn law_ruler_fits_chart(chart_w: nat, total_ms: nat)
    ensures
        ruler_spec(chart_w, total_ms).len() == chart_w,
{
}

/// The ruler line: blank up to the chart, a tick, then the axis.
pub open spec fn ruler_line_spec(name_w: nat, dur_w: nat, chart_w: nat, total_ms: nat) -> Seq<(Seq<char>, Role)> {
    seq![
        (repeat_char(' ', 2 + name_w + 1 + dur_w), Role::Plain),
        (seq![' ', '╽'], Role::Border),
        (ruler_spec(chart_w, total_ms), Role::Muted),
    ]
}

fn fmt_ms_chars(ms: u64) -> (v: Vec<char>)
    ensures
        v@ == fmt_ms_spec(ms as nat),
{
    let mut v: Vec<char> = Vec::new();
    push_fmt_ms(&mut v, ms);
    assert(v@ =~= fmt_ms_spec(ms as nat));
    v
}

fn quarter_at(w: usize, q: usize) -> (r: usize)
    requires
        q <= 4,
    ensures
        r == w * q / 4,
{
    let w1 = w as u128;
    let q1 = q as u128;
    assert(w1 * q1 <= 0xffff_ffff_ffff_ffffu128 * 4) by (nonlinear_arith)
        requires
            w1 <= 0xffff_ffff_ffff_ffffu128,
            q1 <= 4,
    ;
    let p = w1 * q1;
    assert(w * q / 4 <= w) by (nonlinear_arith)
        requires
            q <= 4,
    ;
    (p / 4) as usize
}

fn quarter_ms(t: u64, q: u64) -> (r: u64)
    requires
        q <= 4,
    ensures
        r == t * q / 4,
{
    let t1 = t as u128;
    let q1 = q as u128;
    assert(t1 * q1 <= 0xffff_ffff_ffff_ffffu128 * 4) by (nonlinear_arith)
        requires
            t1 <= 0xffff_ffff_ffff_ffffu128,
            q1 <= 4,
    ;
    let p = t1 * q1;
    assert(t * q / 4 <= t) by (nonlinear_arith)
        requires
            q <= 4,
    ;
    (p / 4) as u64
}

/// The ruler line with tick labels at 0 / ¼ / ½ / ¾ / total.
pub fn ruler_line(name_w: usize, dur_w: usize, chart_w: usize, total_ms: u64) -> (line: Vec<(String, Role)>)
    requires
        name_w + dur_w + 3 <= usize::MAX,
    ensures
        spans_view(line@) == ruler_line_spec(name_w as nat, dur_w as nat, chart_w as nat, total_ms as nat),
{
    let mut ruler: Vec<char> = Vec::new();
    push_repeat(&mut ruler, '─', chart_w);
    assert(ruler@ =~= repeat_char('─', chart_w as nat));
    if chart_w >= 24 {
        let w1 = chart_w - 1;
        place(&mut ruler, 0, fmt_ms_chars(0).as_slice());
        place(&mut ruler, quarter_at(w1, 1), fmt_ms_chars(quarter_ms(total_ms, 1)).as_slice());
        place(&mut ruler, quarter_at(w1, 2), fmt_ms_chars(quarter_ms(total_ms, 2)).as_slice());
        place(&mut ruler, quarter_at(w1, 3), fmt_ms_chars(quarter_ms(total_ms, 3)).as_slice());
        place(&mut ruler, quarter_at(w1, 4), fmt_ms_chars(quarter_ms(total_ms, 4)).as_slice());
    } else {
        place(&mut ruler, 0, vec!['0', 's'].as_slice());
        place(&mut ruler, chart_w, fmt_ms_chars(total_ms).as_slice());
    }
    let mut lead: Vec<char> = Vec::new();
    push_repeat(&mut lead, ' ', 2 + name_w + 1 + dur_w);
    let mut line: Vec<(String, Role)> = Vec::new();
    line.push((chars_string(lead), Role::Plain));
    line.push((chars_string(vec![' ', '╽']), Role::Border));
    line.push((chars_string(ruler), Role::Muted));
    proof {
        let sv = spans_view(line@);
        let sp = ruler_line_spec(name_w as nat, dur_w as nat, chart_w as nat, total_ms as nat);
        assert(sv[0] == sp[0]);
        assert(sv[1] == sp[1]);
        assert(sv[2] == sp[2]);
        assert(sv =~= sp);
    }
    line
}


/// The end stamp of a row: its finish, or `now` while it runs.
pub open spec fn end_or(end: Option<i128>, now: i128) -> i128 {
    match end {
        Some(e) => e,
        None => now,
    }
}

/// The `(start, end)` stamps of the started steps, in order.
pub open spec fn step_spans(steps: Seq<StepExecution>, now: i128) -> Seq<(i128, i128)>
    decreases steps.len(),
{
    if steps.len() == 0 {
        Seq::empty()
    } else {
        let prev = step_spans(steps.drop_last(), now);
        match steps.last().started_at {
            Some(s) => prev.push((s, end_or(steps.last().finished_at, now))),
            None => prev,
        }
    }
}

/// The `(start, end)` stamp of a job, if it started.
pub open spec fn job_own_span(j: JobExecution, now: i128) -> Seq<(i128, i128)> {
    match j.started_at {
        Some(s) => seq![(s, end_or(j.finished_at, now))],
        None => Seq::empty(),
    }
}

/// The `(start, end)` stamps of every started job and step of a run.
pub open spec fn run_spans(jobs: Seq<JobExecution>, now: i128) -> Seq<(i128, i128)>
    decreases jobs.len(),
{
    if jobs.len() == 0 {
        Seq::empty()
    } else {
        run_spans(jobs.drop_last(), now) + job_own_span(jobs.last(), now) + step_spans(
            jobs.last().steps@,
            now,
        )
    }
}

/// `t0` is the earliest start and `t1` the latest end of `spans`.
pub open spec fn is_time_domain(spans: Seq<(i128, i128)>, t0: i128, t1: i128) -> bool {
    &&& exists|i: int| 0 <= i < spans.len() && #[trigger] spans[i].0 == t0
    &&& forall|i: int| 0 <= i < spans.len() ==> t0 <= #[trigger] spans[i].0
    &&& exists|i: int| 0 <= i < spans.len() && #[trigger] spans[i].1 == t1
    &&& forall|i: int| 0 <= i < spans.len() ==> #[trigger] spans[i].1 <= t1
}

spec fn domain_acc(spans: Seq<(i128, i128)>, found: bool, t0: i128, t1: i128) -> bool {
    &&& found == (spans.len() > 0)
    &&& found ==> is_time_domain(spans, t0, t1)
}

fn absorb(found: &mut bool, t0: &mut i128, t1: &mut i128, s: i128, e: i128, Ghost(spans): Ghost<Seq<(i128, i128)>>)
    requires
        domain_acc(spans, *old(found), *old(t0), *old(t1)),
    ensures
        domain_acc(spans.push((s, e)), *final(found), *final(t0), *final(t1)),
{
    let ghost ns = spans.push((s, e));
    if !*found {
        *found = true;
        *t0 = s;
        *t1 = e;
        assert(ns.len() == 1);
        assert(ns[0].0 == s);
        assert(ns[0].1 == e);
    } else {
        let ghost (o0, o1) = (*t0, *t1);
        if s < *t0 {
            *t0 = s;
        }
        if e > *t1 {
            *t1 = e;
        }
        assert(ns[spans.len() as int] == (s, e));
        assert(ns[spans.len() as int].0 == s);
        assert(ns[spans.len() as int].1 == e);
        assert forall|i: int| 0 <= i < ns.len() implies *t0 <= #[trigger] ns[i].0 && ns[i].1 <= *t1 by {
            if i < spans.len() {
                assert(ns[i] == spans[i]);
            }
        }
        proof {
            if s >= o0 {
                let w = choose|i: int| 0 <= i < spans.len() && #[trigger] spans[i].0 == o0;
                assert(ns[w] == spans[w]);
            }
            if e <= o1 {
                let w = choose|i: int| 0 <= i < spans.len() && #[trigger] spans[i].1 == o1;
                assert(ns[w] == spans[w]);
            }
        }
    }
}

/// The time axis of a run: the earliest start and the latest end (a row
/// still running ends at `now`) over all started jobs and steps; `None`
/// when nothing carries a stamp.
pub fn time_domain(jobs: &Vec<JobExecution>, now: i128) -> (r: Option<(i128, i128)>)
    ensures
        match r {
            Some((t0, t1)) => is_time_domain(run_spans(jobs@, now), t0, t1),
            None => run_spans(jobs@, now).len() == 0,
        },
{
    let mut found = false;
    let mut t0: i128 = 0;
    let mut t1: i128 = 0;
    let mut i: usize = 0;
    assert(jobs@.take(0) =~= Seq::<JobExecution>::empty());
    while i < jobs.len()
        invariant
            i <= jobs.len(),
            domain_acc(run_spans(jobs@.take(i as int), now), found, t0, t1),
        decreases jobs.len() - i,
    {
        let job = &jobs[i];
        let ghost before = run_spans(jobs@.take(i as int), now);
        match job.started_at {
            Some(s) => {
                let e = match job.finished_at {
                    Some(e) => e,
                    None => now,
                };
                absorb(&mut found, &mut t0, &mut t1, s, e, Ghost(before));
                assert(before.push((s, e)) =~= before + job_own_span(*job, now));
            },
            None => {
                assert(before =~= before + job_own_span(*job, now));
            },
        }
        let ghost mid = before + job_own_span(*job, now);
        let mut k: usize = 0;
        assert(job.steps@.take(0) =~= Seq::<StepExecution>::empty());
        assert(mid + step_spans(job.steps@.take(0), now) =~= mid);
        while k < job.steps.len()
            invariant
                k <= job.steps.len(),
                job == &jobs[i as int],
                domain_acc(mid + step_spans(job.steps@.take(k as int), now), found, t0, t1),
            decreases job.steps.len() - k,
        {
            let step = &job.steps[k];
            let ghost cur = mid + step_spans(job.steps@.take(k as int), now);
            assert(job.steps@.take(k + 1).drop_last() =~= job.steps@.take(k as int));
            match step.started_at {
                Some(s) => {
                    let e = match step.finished_at {
                        Some(e) => e,
                        None => now,
                    };
                    absorb(&mut found, &mut t0, &mut t1, s, e, Ghost(cur));
                    assert(cur.push((s, e)) =~= mid + step_spans(job.steps@.take(k + 1), now));
                },
                None => {
                    assert(cur =~= mid + step_spans(job.steps@.take(k + 1), now));
                },
            }
            k += 1;
        }
        assert(job.steps@.take(k as int) =~= job.steps@);
        assert(jobs@.take(i + 1).drop_last() =~= jobs@.take(i as int));
        assert(run_spans(jobs@.take(i + 1), now) =~= mid + step_spans(job.steps@, now));
        i += 1;
    }
    assert(jobs@.take(jobs.len() as int) =~= jobs@);
    if found {
        Some((t0, t1))
    } else {
        None
    }
}


/// The bar colour class of a job: live while running, else its status.
pub open spec fn job_tone(j: JobExecution) -> Tone {
    if running_spec(j.started_at, j.finished_at) {
        Tone::Running
    } else {
        match j.status {
            JobStatus::Success => Tone::Success,
            JobStatus::Failure => Tone::Failure,
            JobStatus::Skipped => Tone::Skipped,
        }
    }
}

/// The bar colour class of a step: live while running, else its status.
pub open spec fn step_tone(s: StepExecution) -> Tone {
    if running_spec(s.started_at, s.finished_at) {
        Tone::Running
    } else {
        match s.status {
            StepStatus::Success => Tone::Success,
            StepStatus::Failure => Tone::Failure,
            StepStatus::Skipped => Tone::Skipped,
        }
    }
}

/// A row's span in milliseconds from `t0`, if it started.
pub open spec fn span_from(t0: i128, start: Option<i128>, end: Option<i128>, now: i128) -> Option<(u64, u64)> {
    match start {
        Some(s) => Some((millis_between(t0, s), millis_between(t0, end_or(end, now)))),
        None => None,
    }
}

/// The chart row of a job.
pub open spec fn job_row_spec(j: JobExecution, t0: i128, now: i128) -> GanttRowView {
    GanttRowView {
        label: j.name@,
        depth: 0,
        span_ms: span_from(t0, j.started_at, j.finished_at, now),
        tone: job_tone(j),
        duration_label: duration_label_spec(j.started_at, j.finished_at, now),
    }
}

/// The chart row of a step.
pub open spec fn step_row_spec(s: StepExecution, t0: i128, now: i128) -> GanttRowView {
    GanttRowView {
        label: s.name@,
        depth: 1,
        span_ms: span_from(t0, s.started_at, s.finished_at, now),
        tone: step_tone(s),
        duration_label: duration_label_spec(s.started_at, s.finished_at, now),
    }
}

/// The chart rows of a run: each job followed by its steps.
pub open spec fn gantt_rows_spec(jobs: Seq<JobExecution>, t0: i128, now: i128) -> Seq<GanttRowView>
    decreases jobs.len(),
{
    if jobs.len() == 0 {
        Seq::empty()
    } else {
        gantt_rows_spec(jobs.drop_last(), t0, now) + seq![job_row_spec(jobs.last(), t0, now)]
            + jobs.last().steps@.map_values(|s: StepExecution| step_row_spec(s, t0, now))
    }
}

/// The rows as views.
pub open spec fn rows_view(rows: Seq<GanttRow>) -> Seq<GanttRowView> {
    rows.map_values(|r: GanttRow| r@)
}

fn span_of(t0: i128, start: Option<i128>, end: Option<i128>, now: i128) -> (r: Option<(u64, u64)>)
    ensures
        r == span_from(t0, start, end, now),
{
    match start {
        Some(s) => {
            let e = match end {
                Some(e) => e,
                None => now,
            };
            Some((millis_from(t0, s), millis_from(t0, e)))
        },
        None => None,
    }
}

/// The chart rows of a run, measured from `t0`: each job (depth 0)
/// followed by its steps (depth 1).
pub fn gantt_rows(jobs: &Vec<JobExecution>, t0: i128, now: i128) -> (rows: Vec<GanttRow>)
    ensures
        rows_view(rows@) == gantt_rows_spec(jobs@, t0, now),
{
    let mut rows: Vec<GanttRow> = Vec::new();
    let mut i: usize = 0;
    assert(jobs@.take(0) =~= Seq::<JobExecution>::empty());
    assert(rows_view(rows@) =~= Seq::<GanttRowView>::empty());
    while i < jobs.len()
        invariant
            i <= jobs.len(),
            rows_view(rows@) == gantt_rows_spec(jobs@.take(i as int), t0, now),
        decreases jobs.len() - i,
    {
        let job = &jobs[i];
        let ghost before = rows_view(rows@);
        let tone = if job.is_running() {
            Tone::Running
        } else {
            match job.status {
                JobStatus::Success => Tone::Success,
                JobStatus::Failure => Tone::Failure,
                JobStatus::Skipped => Tone::Skipped,
            }
        };
        rows.push(
            GanttRow {
                label: job.name.clone(),
                depth: 0,
                span_ms: span_of(t0, job.started_at, job.finished_at, now),
                tone,
                duration_label: duration_label(job.started_at, job.finished_at, now),
            },
        );
        let ghost mid = before + seq![job_row_spec(*job, t0, now)];
        assert(rows_view(rows@) =~= mid);
        let mut k: usize = 0;
        assert(job.steps@.take(0).map_values(|s: StepExecution| step_row_spec(s, t0, now)) =~= Seq::<GanttRowView>::empty());
        while k < job.steps.len()
            invariant
                k <= job.steps.len(),
                job == &jobs[i as int],
                rows_view(rows@) == mid + job.steps@.take(k as int).map_values(|s: StepExecution| step_row_spec(s, t0, now)),
            decreases job.steps.len() - k,
        {
            let step = &job.steps[k];
            let ghost cur = rows_view(rows@);
            let tone = if step.is_running() {
                Tone::Running
            } else {
                match step.status {
                    StepStatus::Success => Tone::Success,
                    StepStatus::Failure => Tone::Failure,
                    StepStatus::Skipped => Tone::Skipped,
                }
            };
            rows.push(
                GanttRow {
                    label: step.name.clone(),
                    depth: 1,
                    span_ms: span_of(t0, step.started_at, step.finished_at, now),
                    tone,
                    duration_label: duration_label(step.started_at, step.finished_at, now),
                },
            );
            assert(rows_view(rows@) =~= cur.push(step_row_spec(*step, t0, now)));
            assert(job.steps@.take(k + 1).map_values(|s: StepExecution| step_row_spec(s, t0, now))
                =~= job.steps@.take(k as int).map_values(|s: StepExecution| step_row_spec(s, t0, now)).push(step_row_spec(*step, t0, now)));
            k += 1;
        }
        assert(job.steps@.take(k as int) =~= job.steps@);
        assert(jobs@.take(i + 1).drop_last() =~= jobs@.take(i as int));
        assert(rows_view(rows@) =~= gantt_rows_spec(jobs@.take(i + 1), t0, now));
        i += 1;
    }
    assert(jobs@.take(jobs.len() as int) =~= jobs@);
    rows
}


/// Column widths and the number of chart rows that fit.
pub struct GanttGeometry {
    pub name_w: usize,
    pub dur_w: usize,
    pub chart_w: usize,
    pub body_h: usize,
}

/// The layout of a pane `width` × `height` (inside its border): `None`
/// when it is too small (under 32 × 4). The name column takes a third of
/// the width, clamped to 16..=30; the duration column 8; the chart the rest
/// after the gutter and separators; the header and ruler take two lines.
pub open spec fn geometry_spec(width: u16, height: u16) -> Option<GanttGeometry> {
    if width < 32 || height < 4 {
        None
    } else {
        let third = width / 3;
        let name_w: usize = if third < 16 { 16 } else if third > 30 { 30 } else { third as usize };
        Some(GanttGeometry {
            name_w,
            dur_w: 8,
            chart_w: (width - 2 - name_w - 1 - 8 - 2) as usize,
            body_h: (height - 2) as usize,
        })
    }
}

/// The chart layout for a pane `width` × `height`.
pub fn gantt_geometry(width: u16, height: u16) -> (g: Option<GanttGeometry>)
    ensures
        g == geometry_spec(width, height),
{
    if width < 32 || height < 4 {
        return None;
    }
    let third = (width / 3) as usize;
    let name_w: usize = if third < 16 { 16 } else if third > 30 { 30 } else { third };
    let w = width as usize;
    Some(GanttGeometry { name_w, dur_w: 8, chart_w: w - 2 - name_w - 1 - 8 - 2, body_h: (height - 2) as usize })
}

/// The row cursor and viewport of the chart. `follow` is set after a
/// keyboard move and asks for the cursor to be scrolled into view.
pub struct GanttCursor {
    pub selected: usize,
    pub scroll: usize,
    pub follow: bool,
}

/// The cursor after a frame with `rows_len` rows and `body_h` visible
/// ones: the selection clamped to the rows, scrolled into view when
/// `follow` is set, the viewport clamped to the last page, `follow`
/// cleared.
pub open spec fn settle_spec(c: GanttCursor, rows_len: nat, body_h: nat) -> GanttCursor {
    let sel: nat = if c.selected >= rows_len {
        if rows_len > 0 { (rows_len - 1) as nat } else { 0 }
    } else {
        c.selected as nat
    };
    let s1: nat = if c.follow {
        let up: nat = if sel < c.scroll { sel } else { c.scroll as nat };
        if sel + 1 > up + body_h { (sel + 1 - body_h) as nat } else { up }
    } else {
        c.scroll as nat
    };
    let max_scroll: nat = if rows_len > body_h { (rows_len - body_h) as nat } else { 0 };
    GanttCursor {
        selected: sel as usize,
        scroll: (if s1 > max_scroll { max_scroll } else { s1 }) as usize,
        follow: false,
    }
}

impl GanttCursor {
    /// Settles the cursor for a frame with `rows_len` rows of which `body_h`
    /// are visible. After a keyboard move (`follow`) the selected row is in
    /// view.
    pub fn settle(&mut self, rows_len: usize, body_h: usize)
        ensures
            *final(self) == settle_spec(*old(self), rows_len as nat, body_h as nat),
            !final(self).follow,
            rows_len > 0 ==> final(self).selected < rows_len,
            final(self).scroll + body_h <= rows_len || final(self).scroll == 0,
            old(self).follow && rows_len > 0 && body_h > 0 ==> final(self).scroll <= final(self).selected
                < final(self).scroll + body_h,
    {
        if self.selected >= rows_len {
            self.selected = if rows_len > 0 { rows_len - 1 } else { 0 };
        }
        if self.follow {
            if self.selected < self.scroll {
                self.scroll = self.selected;
            }
            if self.selected >= self.scroll && self.selected - self.scroll >= body_h {
                self.scroll = self.selected - body_h + 1;
            }
            self.follow = false;
        }
        let max_scroll = if rows_len > body_h { rows_len - body_h } else { 0 };
        if self.scroll > max_scroll {
            self.scroll = max_scroll;
        }
    }
}

/// The number of steps over all jobs.
pub open spec fn total_steps(jobs: Seq<JobExecution>) -> nat
    decreases jobs.len(),
{
    if jobs.len() == 0 {
        0
    } else {
        total_steps(jobs.drop_last()) + jobs.last().steps@.len()
    }
}

/// A finished job's run time in nanoseconds; `None` without both stamps or
/// when it ended before it started.
pub open spec fn job_duration(j: JobExecution) -> Option<nat> {
    match (j.started_at, j.finished_at) {
        (Some(s), Some(e)) => if e >= s { Some(nanos_between(s, e)) } else { None },
        _ => None,
    }
}

/// The longest-running job among the first `k` (the last one on ties).
pub open spec fn longest_upto(jobs: Seq<JobExecution>, k: int) -> Option<int>
    decreases k,
{
    if k <= 0 || k > jobs.len() {
        None
    } else {
        let prev = longest_upto(jobs, k - 1);
        match job_duration(jobs[k - 1]) {
            Some(d) => match prev {
                Some(p) => if d >= job_duration(jobs[p])->0 { Some(k - 1) } else { prev },
                None => Some(k - 1),
            },
            None => prev,
        }
    }
}

pub proof fn lemma_longest_valid(jobs: Seq<JobExecution>, k: int)
    ensures
        longest_upto(jobs, k) matches Some(i) ==> 0 <= i < k && i < jobs.len() && job_duration(jobs[i]) is Some,
    decreases k,
{
    if k > 0 && k <= jobs.len() {
        lemma_longest_valid(jobs, k - 1);
    }
}

/// Among the first `k` jobs, the one `longest_upto` picks has both stamps
/// and runs at least as long as every other job with both stamps; it picks
/// none only when no such job has both stamps.
proof fn lemma_longest_upto_is_longest(jobs: Seq<JobExecution>, k: int)
    requires
        0 <= k <= jobs.len(),
    ensures
        match longest_upto(jobs, k) {
            Some(i) => 0 <= i < k && job_duration(jobs[i]) is Some && forall|j: int|
                0 <= j < k && #[trigger] job_duration(jobs[j]) is Some ==> job_duration(jobs[j])->0 <= job_duration(jobs[i])->0,
            None => forall|j: int| 0 <= j < k ==> #[trigger] job_duration(jobs[j]) is None,
        },
    decreases k,
{
    if k > 0 {
        lemma_longest_upto_is_longest(jobs, k - 1);
    }
}

/// The header names as the longest job one that has both stamps and runs
/// at least as long as every other job with both stamps; it names none
/// only when no job has both stamps.
pub proof fn law_summary_names_the_longest_job(
    jobs: Seq<JobExecution>,
    total_ms: u64,
    rows_len: nat,
    body_h: nat,
    scroll: nat,
)
    ensures
        match longest_upto(jobs, jobs.len() as int) {
            Some(i) => {
                &&& 0 <= i < jobs.len()
                &&& job_duration(jobs[i]) is Some
                &&& forall|j: int| 0 <= j < jobs.len() && #[trigger] job_duration(jobs[j]) is Some
                    ==> job_duration(jobs[j])->0 <= job_duration(jobs[i])->0
                &&& summary_spec(jobs, total_ms, rows_len, body_h, scroll)[2].0 == "  ·  longest job: "@ + jobs[i].name@ + " ("@
                    + fmt_ms_spec(((job_duration(jobs[i])->0 / 1_000_000) as u64) as nat) + ")"@
            },
            None => forall|j: int| 0 <= j < jobs.len() ==> #[trigger] job_duration(jobs[j]) is None,
        },
{
    lemma_longest_upto_is_longest(jobs, jobs.len() as int);
}

/// The chart's header line: total time, counts, the longest job, and which
/// rows are shown when they do not all fit.
pub open spec fn summary_spec(
    jobs: Seq<JobExecution>,
    total_ms: u64,
    rows_len: nat,
    body_h: nat,
    scroll: nat,
) -> Seq<(Seq<char>, Role)> {
    let head = seq![
        ("total "@ + fmt_ms_spec(total_ms as nat), Role::Strong),
        ("  ·  "@ + decimal(jobs.len()) + " jobs, "@ + decimal(total_steps(jobs)) + " steps"@, Role::Dim),
    ];
    let longest = match longest_upto(jobs, jobs.len() as int) {
        Some(i) => seq![
            (
                "  ·  longest job: "@ + jobs[i].name@ + " ("@ + fmt_ms_spec(
                    ((job_duration(jobs[i])->0 / 1_000_000) as u64) as nat,
                ) + ")"@,
                Role::Dim,
            ),
        ],
        None => Seq::empty(),
    };
    let window = if rows_len > body_h {
        let last = if scroll + body_h < rows_len { scroll + body_h } else { rows_len };
        seq![
            (
                "  ·  rows "@ + decimal(scroll + 1) + "–"@ + decimal(last) + "/"@ + decimal(rows_len)
                    + " (wheel/↑↓)"@,
                Role::Muted,
            ),
        ]
    } else {
        Seq::empty()
    };
    head + longest + window
}

fn count_steps(jobs: &Vec<JobExecution>) -> (n: u128)
    ensures
        n == total_steps(jobs@),
{
    let mut n: u128 = 0;
    let mut i: usize = 0;
    assert(jobs@.take(0) =~= Seq::<JobExecution>::empty());
    while i < jobs.len()
        invariant
            i <= jobs.len(),
            n == total_steps(jobs@.take(i as int)),
            n <= i * 0xffff_ffff_ffff_ffffu128,
        decreases jobs.len() - i,
    {
        assert(jobs@.take(i + 1).drop_last() =~= jobs@.take(i as int));
        let l = jobs[i].steps.len() as u128;
        assert(i * 0xffff_ffff_ffff_ffffu128 + 0xffff_ffff_ffff_ffffu128 == (i + 1) * 0xffff_ffff_ffff_ffffu128) by (nonlinear_arith);
        assert((i + 1) * 0xffff_ffff_ffff_ffffu128 <= 0xffff_ffff_ffff_ffffu128 * 0xffff_ffff_ffff_ffffu128) by (nonlinear_arith)
            requires
                i + 1 <= 0xffff_ffff_ffff_ffffu128,
        ;
        n = n + l;
        i += 1;
    }
    assert(jobs@.take(jobs.len() as int) =~= jobs@);
    n
}

fn job_duration_of(j: &JobExecution) -> (d: Option<u128>)
    ensures
        match d {
            Some(x) => job_duration(*j) == Some(x as nat),
            None => job_duration(*j) is None,
        },
{
    match (j.started_at, j.finished_at) {
        (Some(s), Some(e)) => if e >= s { Some(nanos_from(s, e)) } else { None },
        _ => None,
    }
}

fn longest_job(jobs: &Vec<JobExecution>) -> (r: Option<(usize, u128)>)
    ensures
        match r {
            Some((i, d)) => i < jobs.len() && longest_upto(jobs@, jobs.len() as int) == Some(i as int) && job_duration(jobs@[i as int]) == Some(d as nat),
            None => longest_upto(jobs@, jobs.len() as int) is None,
        },
{
    let mut best: Option<(usize, u128)> = None;
    let mut k: usize = 0;
    while k < jobs.len()
        invariant
            k <= jobs.len(),
            match best {
                Some((i, d)) => longest_upto(jobs@, k as int) == Some(i as int) && i < k && job_duration(jobs@[i as int]) == Some(d as nat),
                None => longest_upto(jobs@, k as int) is None,
            },
        decreases jobs.len() - k,
    {
        match job_duration_of(&jobs[k]) {
            Some(d) => {
                match best {
                    Some((_, bd)) => {
                        if d >= bd {
                            best = Some((k, d));
                        }
                    },
                    None => {
                        best = Some((k, d));
                    },
                }
            },
            None => {},
        }
        k += 1;
    }
    best
}

fn lit(s: &str) -> (v: Vec<char>)
    ensures
        v@ == s@,
{
    chars_of(s)
}

/// The chart's header line.
pub fn summary_line(jobs: &Vec<JobExecution>, total_ms: u64, rows_len: usize, body_h: usize, scroll: usize) -> (line: Vec<(String, Role)>)
    ensures
        spans_view(line@) == summary_spec(jobs@, total_ms, rows_len as nat, body_h as nat, scroll as nat),
{
    let mut line: Vec<(String, Role)> = Vec::new();
    let mut a = lit("total ");
    push_fmt_ms(&mut a, total_ms);
    line.push((chars_string(a), Role::Strong));
    let mut b = lit("  ·  ");
    push_decimal(&mut b, jobs.len() as u128);
    push_str(&mut b, " jobs, ");
    push_decimal(&mut b, count_steps(jobs));
    push_str(&mut b, " steps");
    line.push((chars_string(b), Role::Dim));
    let ghost after_head = spans_view(line@);
    match longest_job(jobs) {
        Some((i, d)) => {
            let mut c = lit("  ·  longest job: ");
            push_str(&mut c, jobs[i].name.as_str());
            push_str(&mut c, " (");
            let dm = d / 1_000_000;
            push_fmt_ms(&mut c, (#[verifier::truncate] (dm as u64)));
            push_str(&mut c, ")");
            line.push((chars_string(c), Role::Dim));
        },
        None => {},
    }
    let ghost after_longest = spans_view(line@);
    if rows_len > body_h {
        let last = if scroll >= rows_len || body_h >= rows_len - scroll { rows_len } else { scroll + body_h };
        let mut w = lit("  ·  rows ");
        push_decimal(&mut w, (scroll as u128) + 1);
        push_str(&mut w, "–");
        push_decimal(&mut w, last as u128);
        push_str(&mut w, "/");
        push_decimal(&mut w, rows_len as u128);
        push_str(&mut w, " (wheel/↑↓)");
        line.push((chars_string(w), Role::Muted));
    }
    proof {
        let sp = summary_spec(jobs@, total_ms, rows_len as nat, body_h as nat, scroll as nat);
        let sv = spans_view(line@);
        assert(sv[0] == sp[0]);
        assert(sv[1] == sp[1]);
        assert(sv =~= sp);
    }
    line
}

/// The line shown before the first job event: the run's elapsed time as
/// minutes and seconds.
pub open spec fn elapsed_message_spec(start: i128, now: i128) -> Seq<char> {
    let secs = nanos_between(start, now) / 1_000_000_000;
    "run in progress — "@ + decimal2(secs / 60) + ":"@ + decimal2(secs % 60)
        + " elapsed (waiting for the first job to start)"@
}

/// The message shown while a run has no job yet.
pub fn elapsed_message(start: i128, now: i128) -> (s: String)
    ensures
        s@ == elapsed_message_spec(start, now),
{
    let secs = nanos_from(start, now) / 1_000_000_000;
    let mut v = lit("run in progress — ");
    push_decimal2(&mut v, secs / 60);
    push_str(&mut v, ":");
    push_decimal2(&mut v, secs % 60);
    push_str(&mut v, " elapsed (waiting for the first job to start)");
    assert(v@ =~= elapsed_message_spec(start, now));
    chars_string(v)
}


/// The earliest start and latest end of a non-empty list of spans.
pub open spec fn domain_of(spans: Seq<(i128, i128)>) -> (i128, i128) {
    choose|p: (i128, i128)| is_time_domain(spans, p.0, p.1)
}

pub proof fn lemma_domain_unique(spans: Seq<(i128, i128)>, t0: i128, t1: i128)
    requires
        is_time_domain(spans, t0, t1),
    ensures
        domain_of(spans) == (t0, t1),
{
    let w = (t0, t1);
    assert(is_time_domain(spans, w.0, w.1));
    let p = domain_of(spans);
    assert(is_time_domain(spans, p.0, p.1));
    let a = choose|i: int| 0 <= i < spans.len() && #[trigger] spans[i].0 == t0;
    let b = choose|i: int| 0 <= i < spans.len() && #[trigger] spans[i].0 == p.0;
    assert(p.0 <= spans[a].0);
    assert(t0 <= spans[b].0);
    let c = choose|i: int| 0 <= i < spans.len() && #[trigger] spans[i].1 == t1;
    let d = choose|i: int| 0 <= i < spans.len() && #[trigger] spans[i].1 == p.1;
    assert(spans[c].1 <= p.1);
    assert(spans[d].1 <= t1);
}

/// What the Gantt tab shows: a one-line message, or the chart's lines
/// with the number of rows shown, the first row shown and the row count.
pub enum GanttView {
    Message(String),
    Chart { lines: Vec<Vec<(String, Role)>>, shown: usize, scroll: usize, rows: usize },
}

pub enum GanttViewSpec {
    Message(Seq<char>),
    Chart { lines: Seq<Seq<(Seq<char>, Role)>>, shown: nat, scroll: nat, rows: nat },
}

impl View for GanttView {
    type V = GanttViewSpec;

    open spec fn view(&self) -> GanttViewSpec {
        match self {
            GanttView::Message(m) => GanttViewSpec::Message(m@),
            GanttView::Chart { lines, shown, scroll, rows } => GanttViewSpec::Chart {
                lines: lines@.map_values(|l: Vec<(String, Role)>| spans_view(l@)),
                shown: *shown as nat,
                scroll: *scroll as nat,
                rows: *rows as nat,
            },
        }
    }
}

/// The workflow the tab shows, as `resolve_workflow_idx` picks it.
pub open spec fn shown_workflow(current: Option<usize>, selected: Option<usize>, len: nat) -> Option<usize> {
    match (if current is Some { current } else { selected }) {
        Some(i) => if i < len { Some(i) } else { None },
        None => None,
    }
}

/// The Gantt tab for a pane `width` × `height`, and the cursor after the
/// frame. Messages stand in when no workflow is selected, it has not run,
/// no job has started yet (with the elapsed time), nothing carries timing
/// data, or the pane is too small; the cursor only moves when the chart is
/// drawn.
pub open spec fn gantt_view_spec(
    workflows: Seq<Workflow>,
    current: Option<usize>,
    selected: Option<usize>,
    width: u16,
    height: u16,
    now: i128,
    cursor: GanttCursor,
) -> (GanttViewSpec, GanttCursor) {
    match shown_workflow(current, selected, workflows.len()) {
        None => (GanttViewSpec::Message("no workflow selected"@), cursor),
        Some(idx) => match workflows[idx as int].execution_details {
            None => (GanttViewSpec::Message("no run yet — execute the workflow first"@), cursor),
            Some(exec) => if exec.jobs@.len() == 0 {
                (GanttViewSpec::Message(elapsed_message_spec(exec.start_time, now)), cursor)
            } else if run_spans(exec.jobs@, now).len() == 0 {
                (GanttViewSpec::Message("this run carries no timing data (re-run to capture it)"@), cursor)
            } else {
                let (t0, t1) = domain_of(run_spans(exec.jobs@, now));
                let total_ms = millis_between(t0, t1);
                let rows = gantt_rows_spec(exec.jobs@, t0, now);
                match geometry_spec(width, height) {
                    None => (GanttViewSpec::Message("window too small"@), cursor),
                    Some(g) => {
                        let c = settle_spec(cursor, rows.len(), g.body_h as nat);
                        let rest: nat = if rows.len() > c.scroll { (rows.len() - c.scroll) as nat } else { 0 };
                        let shown: nat = if rest < g.body_h { rest } else { g.body_h as nat };
                        let lines = seq![
                            summary_spec(exec.jobs@, total_ms, rows.len(), g.body_h as nat, c.scroll as nat),
                            ruler_line_spec(g.name_w as nat, g.dur_w as nat, g.chart_w as nat, total_ms as nat),
                        ] + Seq::new(
                            shown,
                            |k: int|
                                row_line_spec(
                                    rows[c.scroll + k],
                                    c.scroll + k == c.selected,
                                    g.name_w as nat,
                                    g.dur_w as nat,
                                    g.chart_w,
                                    total_ms,
                                ),
                        );
                        (GanttViewSpec::Chart { lines, shown, scroll: c.scroll as nat, rows: rows.len() }, c)
                    },
                }
            },
        },
    }
}

/// Lays out the Gantt tab: the decisions of the tab, with the drawing left
/// to the renderer. `now` is the wall clock (nanoseconds since the epoch).
pub fn gantt_view(
    workflows: &Vec<Workflow>,
    current: Option<usize>,
    selected: Option<usize>,
    width: u16,
    height: u16,
    now: i128,
    cursor: &mut GanttCursor,
) -> (v: GanttView)
    ensures
        (v@, *final(cursor)) == gantt_view_spec(workflows@, current, selected, width, height, now, *old(cursor)),
{
    let idx = match resolve_workflow_idx(current, selected, workflows.len()) {
        Some(i) => i,
        None => return GanttView::Message(chars_string(lit("no workflow selected"))),
    };
    let exec = match &workflows[idx].execution_details {
        Some(e) => e,
        None => return GanttView::Message(chars_string(lit("no run yet — execute the workflow first"))),
    };
    if exec.jobs.len() == 0 {
        return GanttView::Message(elapsed_message(exec.start_time, now));
    }
    let (t0, t1) = match time_domain(&exec.jobs, now) {
        Some(d) => d,
        None => return GanttView::Message(
            chars_string(lit("this run carries no timing data (re-run to capture it)")),
        ),
    };
    proof {
        lemma_domain_unique(run_spans(exec.jobs@, now), t0, t1);
    }
    let total_ms = millis_from(t0, t1);
    let rows = gantt_rows(&exec.jobs, t0, now);
    let g = match gantt_geometry(width, height) {
        Some(g) => g,
        None => return GanttView::Message(chars_string(lit("window too small"))),
    };
    proof {
        assert(rows@.len() == rows_view(rows@).len());
    }
    cursor.settle(rows.len(), g.body_h);
    let scroll = cursor.scroll;
    let rest = if rows.len() > scroll { rows.len() - scroll } else { 0 };
    let shown = if rest < g.body_h { rest } else { g.body_h };
    let mut lines: Vec<Vec<(String, Role)>> = Vec::new();
    lines.push(summary_line(&exec.jobs, total_ms, rows.len(), g.body_h, scroll));
    lines.push(ruler_line(g.name_w, g.dur_w, g.chart_w, total_ms));
    let ghost rv = rows_view(rows@);
    let ghost l0 = spans_view(lines@[0]@);
    let ghost l1 = spans_view(lines@[1]@);
    let mut k: usize = 0;
    while k < shown
        invariant
            k <= shown,
            shown <= rest,
            rest == rows.len() - scroll,
            scroll == cursor.scroll,
            rv == rows_view(rows@),
            lines@.len() == 2 + k,
            spans_view(lines@[0]@) == l0,
            spans_view(lines@[1]@) == l1,
            forall|j: int|
                0 <= j < k ==> spans_view(#[trigger] lines@[2 + j]@) == row_line_spec(
                    rv[scroll + j],
                    scroll + j == cursor.selected,
                    g.name_w as nat,
                    g.dur_w as nat,
                    g.chart_w,
                    total_ms,
                ),
        decreases shown - k,
    {
        let i = scroll + k;
        let l = row_line(&rows[i], i == cursor.selected, g.name_w, g.dur_w, g.chart_w, total_ms);
        lines.push(l);
        k += 1;
    }
    let v = GanttView::Chart { lines, shown, scroll, rows: rows.len() };
    proof {
        let (vs, cs) = gantt_view_spec(workflows@, current, selected, width, height, now, *old(cursor));
        match vs {
            GanttViewSpec::Chart { lines: sl, .. } => {
                let ml = lines@.map_values(|l: Vec<(String, Role)>| spans_view(l@));
                assert(ml.len() == sl.len());
                assert forall|j: int| 0 <= j < ml.len() implies ml[j] == sl[j] by {
                    if j >= 2 {
                        assert(spans_view(lines@[2 + (j - 2)]@) == sl[j]);
                    }
                }
                assert(ml =~= sl);
            },
            _ => {},
        }
    }
    v
}

} // verus!
