//! Step inspector logic: splitting a run step's captured output back into
//! its command / stdout / stderr sections, and the text shown in the
//! inspector's panes.

use vstd::prelude::*;
use crate::text::{owned, chars_of, chars_eq, starts_with, push_all, push_str, string_of, is_newline, trim_chars, trim_spec};
use crate::style::{Role, spans_view};
use crate::models::{JobStatus, StepExecution, StepStatus, running_spec};
use crate::text::{decimal, decimal2, push_decimal, push_decimal2};

verus! {

broadcast use vstd::string::group_string_axioms;

/// Which section of a run step's output a line belongs to.
#[derive(Clone, Copy, Debug, PartialEq, Eq, Structural)]
pub enum Section {
    Command,
    Stdout,
    Stderr,
}

/// What the parser has gathered after some lines: the command (if the
/// output started with one), the stdout and stderr lines, and the current
/// section.
pub struct ParseState {
    pub command: Option<Seq<char>>,
    pub stdout: Seq<Seq<char>>,
    pub stderr: Seq<Seq<char>>,
    pub section: Section,
}

/// The prefix of the first line that names the command.
pub open spec fn command_prefix() -> Seq<char> {
    "Command: "@
}

/// The line that opens the stdout section.
pub open spec fn stdout_marker() -> Seq<char> {
    "Standard Output:"@
}

/// The line that opens the stderr section.
pub open spec fn stderr_marker() -> Seq<char> {
    "Standard Error:"@
}

/// `s` split at every `'\n'` (as `str::split('\n')`: `k` newlines give
/// `k + 1` pieces).
pub open spec fn split_lines(s: Seq<char>) -> Seq<Seq<char>>
    decreases s.len(),
{
    if s.len() == 0 {
        seq![Seq::<char>::empty()]
    } else {
        let prev = split_lines(s.drop_last());
        if s.last() == '\n' {
            prev.push(Seq::<char>::empty())
        } else {
            prev.update(prev.len() - 1, prev.last().push(s.last()))
        }
    }
}

/// The parser state before any line.
pub open spec fn initial_parse_state() -> ParseState {
    ParseState {
        command: None,
        stdout: Seq::empty(),
        stderr: Seq::empty(),
        section: Section::Stdout,
    }
}

/// One line of input: a `Command: ` first line opens the command section;
/// the two marker lines switch sections; inside the command section a
/// blank line ends the command and other lines extend it; otherwise the
/// line joins the current section.
pub open spec fn parse_line(st: ParseState, first: bool, line: Seq<char>) -> ParseState {
    if first && command_prefix().is_prefix_of(line) {
        ParseState {
            command: Some(line.skip(command_prefix().len() as int)),
            section: Section::Command,
            ..st
        }
    } else if line == stdout_marker() {
        ParseState { section: Section::Stdout, ..st }
    } else if line == stderr_marker() {
        ParseState { section: Section::Stderr, ..st }
    } else {
        match st.section {
            Section::Command => {
                if line.len() == 0 {
                    ParseState { section: Section::Stdout, ..st }
                } else {
                    ParseState {
                        command: match st.command {
                            Some(c) => Some(c.push('\n') + line),
                            None => None,
                        },
                        ..st
                    }
                }
            },
            Section::Stdout => ParseState { stdout: st.stdout.push(line), ..st },
            Section::Stderr => ParseState { stderr: st.stderr.push(line), ..st },
        }
    }
}

/// The parser state after all of `lines`.
pub open spec fn parse_lines(lines: Seq<Seq<char>>) -> ParseState
    decreases lines.len(),
{
    if lines.len() == 0 {
        initial_parse_state()
    } else {
        parse_line(parse_lines(lines.drop_last()), lines.len() == 1, lines.last())
    }
}

/// `lines` joined with `'\n'` between them.
pub open spec fn join_lines(lines: Seq<Seq<char>>) -> Seq<char>
    decreases lines.len(),
{
    if lines.len() == 0 {
        Seq::empty()
    } else if lines.len() == 1 {
        lines[0]
    } else {
        join_lines(lines.drop_last()).push('\n') + lines.last()
    }
}

/// `lines` without its trailing empty lines.
pub open spec fn trim_trailing_empty(lines: Seq<Seq<char>>) -> Seq<Seq<char>>
    decreases lines.len(),
{
    if lines.len() > 0 && lines.last().len() == 0 {
        trim_trailing_empty(lines.drop_last())
    } else {
        lines
    }
}

/// A section's text: its lines without trailing empty ones, joined.
pub open spec fn section_text(lines: Seq<Seq<char>>) -> Seq<char> {
    join_lines(trim_trailing_empty(lines))
}

/// `s` without its trailing `'\n'` characters.
pub open spec fn strip_trailing_newlines(s: Seq<char>) -> Seq<char>
    decreases s.len(),
{
    if s.len() > 0 && s.last() == '\n' {
        strip_trailing_newlines(s.drop_last())
    } else {
        s
    }
}

/// Whether no line holds a `'\n'`.
pub open spec fn no_newlines(lines: Seq<Seq<char>>) -> bool {
    forall|i: int, j: int| 0 <= i < lines.len() && 0 <= j < lines[i].len() ==> lines[i][j] != '\n'
}

pub proof fn lemma_split_lines_shape(s: Seq<char>)
    ensures
        split_lines(s).len() >= 1,
        no_newlines(split_lines(s)),
    decreases s.len(),
{
    if s.len() > 0 {
        lemma_split_lines_shape(s.drop_last());
        let prev = split_lines(s.drop_last());
        if s.last() != '\n' {
            let cur = split_lines(s);
            assert forall|i: int, j: int|
                0 <= i < cur.len() && 0 <= j < cur[i].len() implies cur[i][j] != '\n' by {
                if i == prev.len() - 1 {
                    if j < prev.last().len() {
                        assert(cur[i][j] == prev[i][j]);
                    }
                } else {
                    assert(cur[i] == prev[i]);
                }
            }
        } else {
            let cur = split_lines(s);
            assert forall|i: int, j: int|
                0 <= i < cur.len() && 0 <= j < cur[i].len() implies cur[i][j] != '\n' by {
                if i < prev.len() {
                    assert(cur[i] == prev[i]);
                }
            }
        }
    }
}

pub proof fn lemma_join_push(lines: Seq<Seq<char>>, l: Seq<char>)
    ensures
        join_lines(lines.push(l)) == if lines.len() == 0 {
            l
        } else {
            join_lines(lines).push('\n') + l
        },
{
    assert(lines.push(l).drop_last() =~= lines);
}

/// Joining then stripping trailing newlines is the same as dropping the
/// trailing empty lines then joining, for lines without newlines.
pub proof fn lemma_section_text_strip(lines: Seq<Seq<char>>)
    requires
        no_newlines(lines),
    ensures
        section_text(lines) == strip_trailing_newlines(join_lines(lines)),
    decreases lines.len(),
{
    if lines.len() == 0 {
    } else if lines.last().len() == 0 {
        let dl = lines.drop_last();
        assert(no_newlines(dl)) by {
            assert forall|i: int, j: int| 0 <= i < dl.len() && 0 <= j < dl[i].len() implies dl[i][j] != '\n' by {
                assert(dl[i] == lines[i]);
            }
        }
        lemma_section_text_strip(dl);
        if lines.len() == 1 {
            assert(trim_trailing_empty(dl) =~= dl);
        } else {
            let j = join_lines(dl).push('\n') + lines.last();
            assert(j =~= join_lines(dl).push('\n'));
            assert(j.drop_last() =~= join_lines(dl));
        }
    } else {
        let last = lines.last();
        assert(last[last.len() - 1] != '\n');
        if lines.len() == 1 {
        } else {
            let j = join_lines(lines.drop_last()).push('\n') + last;
            assert(j.last() == last.last());
        }
    }
}

/// The sections of a run step's captured output.
pub struct ParsedStepOutput {
    pub command: Option<String>,
    pub stdout: String,
    pub stderr: String,
}

/// What `parse_step_output` returns for `raw`, as sequences.
pub open spec fn parsed_view(raw: Seq<char>) -> (Option<Seq<char>>, Seq<char>, Seq<char>) {
    let st = parse_lines(split_lines(raw));
    (st.command, section_text(st.stdout), section_text(st.stderr))
}

struct ParseAcc {
    command: Option<Vec<char>>,
    out: Vec<char>,
    out_any: bool,
    err: Vec<char>,
    err_any: bool,
    section: Section,
}

spec fn opt_chars(c: Option<Vec<char>>) -> Option<Seq<char>> {
    match c {
        Some(v) => Some(v@),
        None => None,
    }
}

spec fn acc_matches(a: ParseAcc, st: ParseState) -> bool {
    &&& opt_chars(a.command) == st.command
    &&& a.out@ == join_lines(st.stdout)
    &&& a.out_any == (st.stdout.len() > 0)
    &&& a.err@ == join_lines(st.stderr)
    &&& a.err_any == (st.stderr.len() > 0)
    &&& a.section == st.section
}

fn push_line(text: &mut Vec<char>, any: &mut bool, line: &[char], Ghost(lines): Ghost<Seq<Seq<char>>>)
    requires
        old(text)@ == join_lines(lines),
        *old(any) == (lines.len() > 0),
    ensures
        final(text)@ == join_lines(lines.push(line@)),
        *final(any),
{
    proof {
        lemma_join_push(lines, line@);
    }
    if *any {
        text.push('\n');
    }
    push_all(text, line);
    *any = true;
}

fn feed_line(
    acc: &mut ParseAcc,
    first: bool,
    line: &[char],
    prefix: &[char],
    out_marker: &[char],
    err_marker: &[char],
    Ghost(st): Ghost<ParseState>,
)
    requires
        acc_matches(*old(acc), st),
        prefix@ == command_prefix(),
        out_marker@ == stdout_marker(),
        err_marker@ == stderr_marker(),
    ensures
        acc_matches(*final(acc), parse_line(st, first, line@)),
{
    if first && starts_with(line, prefix) {
        let mut rest: Vec<char> = Vec::new();
        let mut i = prefix.len();
        while i < line.len()
            invariant
                prefix.len() <= i <= line.len(),
                rest@ == line@.subrange(prefix.len() as int, i as int),
            decreases line.len() - i,
        {
            rest.push(line[i]);
            assert(line@.subrange(prefix.len() as int, i as int).push(line@[i as int])
                =~= line@.subrange(prefix.len() as int, i + 1));
            i += 1;
        }
        assert(rest@ =~= line@.skip(prefix.len() as int));
        acc.command = Some(rest);
        acc.section = Section::Command;
    } else if chars_eq(line, out_marker) {
        acc.section = Section::Stdout;
    } else if chars_eq(line, err_marker) {
        acc.section = Section::Stderr;
    } else {
        match acc.section {
            Section::Command => {
                if line.len() == 0 {
                    acc.section = Section::Stdout;
                } else {
                    match &mut acc.command {
                        Some(c) => {
                            c.push('\n');
                            push_all(c, line);
                        },
                        None => {},
                    }
                }
            },
            Section::Stdout => {
                push_line(&mut acc.out, &mut acc.out_any, line, Ghost(st.stdout));
            },
            Section::Stderr => {
                push_line(&mut acc.err, &mut acc.err_any, line, Ghost(st.stderr));
            },
        }
    }
}

fn strip_newlines_at_end(v: &mut Vec<char>)
    ensures
        final(v)@ == strip_trailing_newlines(old(v)@),
{
    let ghost orig = v@;
    while v.len() > 0 && v[v.len() - 1] == '\n'
        invariant
            strip_trailing_newlines(orig) == strip_trailing_newlines(v@),
        decreases v.len(),
    {
        let ghost before = v@;
        v.pop();
        assert(v@ =~= before.drop_last());
    }
}

/// Whether a line is one of the two section markers.
pub open spec fn is_marker(l: Seq<char>) -> bool {
    l == stdout_marker() || l == stderr_marker()
}

/// The parser state after further lines, none of them the first.
pub open spec fn parse_more(st: ParseState, lines: Seq<Seq<char>>) -> ParseState
    decreases lines.len(),
{
    if lines.len() == 0 {
        st
    } else {
        parse_line(parse_more(st, lines.drop_last()), false, lines.last())
    }
}

/// The layout the executor writes a run step's output in.
pub open spec fn step_output_layout(cmd: Seq<char>, out: Seq<char>, err: Seq<char>) -> Seq<char> {
    "Command: "@ + cmd + "\n\nStandard Output:\n"@ + out + "\nStandard Error:\n"@ + err
}

proof fn lemma_join_split(s: Seq<char>)
    ensures
        join_lines(split_lines(s)) == s,
    decreases s.len(),
{
    if s.len() > 0 {
        lemma_join_split(s.drop_last());
        lemma_split_lines_shape(s.drop_last());
        let p = split_lines(s.drop_last());
        if s.last() == '\n' {
            lemma_join_push(p, Seq::empty());
            assert(join_lines(p).push('\n') + Seq::<char>::empty() =~= s);
        } else {
            let q = split_lines(s);
            assert(q.len() == p.len());
            if p.len() == 1 {
                assert(join_lines(q) =~= s);
            } else {
                assert(q.drop_last() =~= p.drop_last());
                assert(join_lines(q) == join_lines(p.drop_last()).push('\n') + q.last());
                assert(join_lines(p) == join_lines(p.drop_last()).push('\n') + p.last());
                assert(join_lines(q) =~= join_lines(p).push(s.last()));
                assert(s =~= s.drop_last().push(s.last()));
            }
        }
    }
}

proof fn lemma_split_concat(a: Seq<char>, b: Seq<char>)
    ensures
        split_lines(a + seq!['\n'] + b) == split_lines(a) + split_lines(b),
    decreases b.len(),
{
    let s = a + seq!['\n'] + b;
    if b.len() == 0 {
        assert(s.drop_last() =~= a);
    } else {
        let b0 = b.drop_last();
        lemma_split_concat(a, b0);
        assert(s.drop_last() =~= a + seq!['\n'] + b0);
        lemma_split_lines_shape(b0);
        if b.last() == '\n' {
            assert(split_lines(s) =~= split_lines(a) + split_lines(b));
        } else {
            let pa = split_lines(a);
            let pb = split_lines(b0);
            assert(split_lines(s) =~= split_lines(a) + split_lines(b));
        }
    }
}

proof fn lemma_split_single(s: Seq<char>)
    requires
        forall|i: int| 0 <= i < s.len() ==> s[i] != '\n',
    ensures
        split_lines(s) == seq![s],
    decreases s.len(),
{
    if s.len() > 0 {
        let d = s.drop_last();
        assert forall|i: int| 0 <= i < d.len() implies d[i] != '\n' by {
            assert(d[i] == s[i]);
        }
        lemma_split_single(d);
        assert(s.last() != '\n');
        assert(d.push(s.last()) =~= s);
        assert(split_lines(s) =~= seq![s]);
    } else {
        assert(s =~= Seq::<char>::empty());
    }
}

proof fn lemma_split_prefix(p: Seq<char>, s: Seq<char>)
    requires
        forall|i: int| 0 <= i < p.len() ==> p[i] != '\n',
    ensures
        split_lines(p + s) == split_lines(s).update(0, p + split_lines(s)[0]),
    decreases s.len(),
{
    lemma_split_lines_shape(s);
    if s.len() == 0 {
        assert(p + s =~= p);
        lemma_split_single(p);
        assert(split_lines(p + s) =~= split_lines(s).update(0, p + split_lines(s)[0]));
    } else {
        lemma_split_prefix(p, s.drop_last());
        lemma_split_lines_shape(s.drop_last());
        assert((p + s).drop_last() =~= p + s.drop_last());
        let q = split_lines(s.drop_last());
        if s.last() == '\n' {
            assert(split_lines(p + s) =~= split_lines(s).update(0, p + split_lines(s)[0]));
        } else {
            if q.len() == 1 {
                assert(split_lines(s)[0] =~= q[0].push(s.last()));
                assert(split_lines(p + s) =~= split_lines(s).update(0, p + split_lines(s)[0]));
            } else {
                assert(split_lines(p + s) =~= split_lines(s).update(0, p + split_lines(s)[0]));
            }
        }
    }
}

proof fn lemma_parse_append(a: Seq<Seq<char>>, b: Seq<Seq<char>>)
    requires
        a.len() >= 1,
    ensures
        parse_lines(a + b) == parse_more(parse_lines(a), b),
    decreases b.len(),
{
    if b.len() == 0 {
        assert(a + b =~= a);
    } else {
        lemma_parse_append(a, b.drop_last());
        assert((a + b).drop_last() =~= a + b.drop_last());
    }
}

proof fn lemma_parse_more_split(st: ParseState, a: Seq<Seq<char>>, b: Seq<Seq<char>>)
    ensures
        parse_more(st, a + b) == parse_more(parse_more(st, a), b),
    decreases b.len(),
{
    if b.len() == 0 {
        assert(a + b =~= a);
    } else {
        lemma_parse_more_split(st, a, b.drop_last());
        assert((a + b).drop_last() =~= a + b.drop_last());
    }
}

/// Plain lines (no markers) in the stdout or stderr section join it.
proof fn lemma_parse_plain(st: ParseState, lines: Seq<Seq<char>>)
    requires
        st.section != Section::Command,
        forall|i: int| 0 <= i < lines.len() ==> !is_marker(#[trigger] lines[i]),
    ensures
        parse_more(st, lines) == (if st.section == Section::Stdout {
            ParseState { stdout: st.stdout + lines, ..st }
        } else {
            ParseState { stderr: st.stderr + lines, ..st }
        }),
    decreases lines.len(),
{
    if lines.len() == 0 {
        assert(st.stdout + lines =~= st.stdout);
        assert(st.stderr + lines =~= st.stderr);
    } else {
        let dl = lines.drop_last();
        assert forall|i: int| 0 <= i < dl.len() implies !is_marker(#[trigger] dl[i]) by {
            assert(dl[i] == lines[i]);
        }
        lemma_parse_plain(st, dl);
        let l = lines.last();
        assert(!is_marker(lines[lines.len() - 1]));
        let prev = parse_more(st, dl);
        assert(prev.section == st.section);
        assert((st.stdout + dl).push(l) =~= st.stdout + lines);
        assert((st.stderr + dl).push(l) =~= st.stderr + lines);
        if st.section == Section::Stdout {
            assert(parse_line(prev, false, l) == (ParseState { stdout: st.stdout + lines, ..st }));
        } else {
            assert(parse_line(prev, false, l) == (ParseState { stderr: st.stderr + lines, ..st }));
        }
    }
}

/// Non-blank, non-marker lines in the command section extend the command.
proof fn lemma_parse_command(st: ParseState, c: Seq<char>, lines: Seq<Seq<char>>)
    requires
        st.section == Section::Command,
        st.command == Some(c),
        forall|i: int| 0 <= i < lines.len() ==> (#[trigger] lines[i]).len() > 0 && !is_marker(lines[i]),
    ensures
        parse_more(st, lines) == (ParseState { command: Some(join_lines(seq![c] + lines)), ..st }),
    decreases lines.len(),
{
    if lines.len() == 0 {
        assert(seq![c] + lines =~= seq![c]);
    } else {
        lemma_parse_command(st, c, lines.drop_last());
        assert(lines[lines.len() - 1].len() > 0 && !is_marker(lines[lines.len() - 1]));
        lemma_join_push(seq![c] + lines.drop_last(), lines.last());
        assert((seq![c] + lines.drop_last()).push(lines.last()) =~= seq![c] + lines);
    }
}

/// Output that does not follow the step layout (its first line names no
/// command and no line is a section marker) lands whole in `stdout`, less
/// its trailing line breaks.
pub proof fn law_unstructured_output_is_stdout(raw: Seq<char>)
    requires
        !command_prefix().is_prefix_of(split_lines(raw)[0]),
        forall|i: int| 0 <= i < split_lines(raw).len() ==> !is_marker(#[trigger] split_lines(raw)[i]),
    ensures
        parsed_view(raw) == (None::<Seq<char>>, strip_trailing_newlines(raw), Seq::<char>::empty()),
{
    let ls = split_lines(raw);
    lemma_split_lines_shape(raw);
    let first = ls.take(1);
    let rest = ls.skip(1);
    assert(ls =~= first + rest);
    assert(first.drop_last() =~= Seq::<Seq<char>>::empty());
    assert(!is_marker(ls[0]));
    let st1 = parse_lines(first);
    assert(parse_lines(first.drop_last()) == initial_parse_state());
    assert(first.last() == ls[0]);
    assert(Seq::<Seq<char>>::empty().push(ls[0]) =~= seq![ls[0]]);
    assert(st1 == (ParseState { stdout: seq![ls[0]], ..initial_parse_state() }));
    lemma_parse_append(first, rest);
    assert forall|i: int| 0 <= i < rest.len() implies !is_marker(#[trigger] rest[i]) by {
        assert(rest[i] == ls[i + 1]);
    }
    lemma_parse_plain(st1, rest);
    assert(seq![ls[0]] + rest =~= ls);
    lemma_section_text_strip(ls);
    lemma_join_split(raw);
    assert(trim_trailing_empty(Seq::<Seq<char>>::empty()) =~= Seq::<Seq<char>>::empty());
}

/// Parsing gives back what the executor wrote: the command, and stdout and
/// stderr less their trailing line breaks, provided the command has no
/// blank or marker line after its first and no stdout or stderr line is a
/// section marker.
pub proof fn law_step_layout_round_trip(cmd: Seq<char>, out: Seq<char>, err: Seq<char>)
    requires
        forall|i: int| 1 <= i < split_lines(cmd).len() ==>
            (#[trigger] split_lines(cmd)[i]).len() > 0 && !is_marker(split_lines(cmd)[i]),
        forall|i: int| 0 <= i < split_lines(out).len() ==> !is_marker(#[trigger] split_lines(out)[i]),
        forall|i: int| 0 <= i < split_lines(err).len() ==> !is_marker(#[trigger] split_lines(err)[i]),
    ensures
        parsed_view(step_output_layout(cmd, out, err)) == (Some(cmd), strip_trailing_newlines(out), strip_trailing_newlines(err)),
{
    reveal_strlit("Command: ");
    reveal_strlit("\n\nStandard Output:\n");
    reveal_strlit("\nStandard Error:\n");
    reveal_strlit("Standard Output:");
    reveal_strlit("Standard Error:");
    let pre = "Command: "@;
    let so = stdout_marker();
    let se = stderr_marker();
    let e = Seq::<char>::empty();
    let raw = step_output_layout(cmd, out, err);
    // the output as lines joined by newlines
    assert(raw =~= (pre + cmd) + seq!['\n'] + (e + seq!['\n'] + (so + seq!['\n'] + (out + seq!['\n'] + (se + seq!['\n'] + err)))));
    lemma_split_concat(se, err);
    lemma_split_concat(out, se + seq!['\n'] + err);
    lemma_split_concat(so, out + seq!['\n'] + (se + seq!['\n'] + err));
    lemma_split_concat(e, so + seq!['\n'] + (out + seq!['\n'] + (se + seq!['\n'] + err)));
    lemma_split_concat(pre + cmd, e + seq!['\n'] + (so + seq!['\n'] + (out + seq!['\n'] + (se + seq!['\n'] + err))));
    lemma_split_single(e);
    lemma_split_single(so);
    lemma_split_single(se);
    lemma_split_prefix(pre, cmd);
    lemma_split_lines_shape(cmd);
    lemma_split_lines_shape(out);
    lemma_split_lines_shape(err);
    let cl = split_lines(cmd);
    let ol = split_lines(out);
    let el = split_lines(err);
    let head = seq![pre + cl[0]];
    let ls = split_lines(raw);
    assert(split_lines(pre + cmd) =~= head + cl.skip(1));
    assert(ls =~= head + (cl.skip(1) + (seq![e] + (seq![so] + (ol + (seq![se] + el))))));
    // the first line names the command
    assert(head.drop_last() =~= Seq::<Seq<char>>::empty());
    assert(pre.is_prefix_of(pre + cl[0]));
    assert((pre + cl[0]).skip(pre.len() as int) =~= cl[0]);
    let st1 = parse_lines(head);
    assert(parse_lines(head.drop_last()) == initial_parse_state());
    assert(head.last() == pre + cl[0]);
    assert(st1 == (ParseState { command: Some(cl[0]), section: Section::Command, ..initial_parse_state() }));
    lemma_parse_append(head, cl.skip(1) + (seq![e] + (seq![so] + (ol + (seq![se] + el)))));
    // the rest of the command
    assert forall|i: int| 0 <= i < cl.skip(1).len() implies
        (#[trigger] cl.skip(1)[i]).len() > 0 && !is_marker(cl.skip(1)[i]) by {
        assert(cl.skip(1)[i] == cl[i + 1]);
    }
    lemma_parse_command(st1, cl[0], cl.skip(1));
    assert(seq![cl[0]] + cl.skip(1) =~= cl);
    lemma_join_split(cmd);
    let st2 = ParseState { command: Some(cmd), ..st1 };
    lemma_parse_more_split(st1, cl.skip(1), seq![e] + (seq![so] + (ol + (seq![se] + el))));
    // the blank line and the stdout marker
    lemma_parse_more_split(st2, seq![e], seq![so] + (ol + (seq![se] + el)));
    assert(seq![e].drop_last() =~= Seq::<Seq<char>>::empty());
    assert(e.len() != so.len() && e.len() != se.len());
    let st3 = ParseState { section: Section::Stdout, ..st2 };
    assert(parse_more(st2, Seq::<Seq<char>>::empty()) == st2);
    assert(seq![e].last() == e);
    assert(parse_more(st2, seq![e]) == st3);
    lemma_parse_more_split(st3, seq![so], ol + (seq![se] + el));
    assert(seq![so].drop_last() =~= Seq::<Seq<char>>::empty());
    assert(parse_more(st3, Seq::<Seq<char>>::empty()) == st3);
    assert(seq![so].last() == so);
    assert(parse_more(st3, seq![so]) == st3);
    // stdout
    lemma_parse_more_split(st3, ol, seq![se] + el);
    lemma_parse_plain(st3, ol);
    let st4 = ParseState { stdout: ol, ..st3 };
    assert(st3.stdout + ol =~= ol);
    // the stderr marker, then stderr
    lemma_parse_more_split(st4, seq![se], el);
    assert(seq![se].drop_last() =~= Seq::<Seq<char>>::empty());
    let st5 = ParseState { section: Section::Stderr, ..st4 };
    assert(se.len() != so.len());
    assert(parse_more(st4, Seq::<Seq<char>>::empty()) == st4);
    assert(seq![se].last() == se);
    assert(parse_more(st4, seq![se]) == st5);
    lemma_parse_plain(st5, el);
    assert(st5.stderr + el =~= el);
    lemma_section_text_strip(ol);
    lemma_section_text_strip(el);
    lemma_join_split(out);
    lemma_join_split(err);
}

/// Splits a run step's captured output (`Command: <cmd>\n\nStandard
/// Output:\n…\nStandard Error:\n…`) back into its sections. Output that
/// does not follow that layout lands whole in `stdout`.
pub fn parse_step_output(raw: &str) -> (p: ParsedStepOutput)
    ensures
        (match p.command {
            Some(c) => Some(c@),
            None => None::<Seq<char>>,
        }) == parsed_view(raw@).0,
        p.stdout@ == parsed_view(raw@).1,
        p.stderr@ == parsed_view(raw@).2,
{
    let chars = chars_of(raw);
    let prefix = chars_of("Command: ");
    let out_marker = chars_of("Standard Output:");
    let err_marker = chars_of("Standard Error:");
    let mut acc = ParseAcc {
        command: None,
        out: Vec::new(),
        out_any: false,
        err: Vec::new(),
        err_any: false,
        section: Section::Stdout,
    };
    let mut cur: Vec<char> = Vec::new();
    let mut first = true;
    let ghost mut done: Seq<Seq<char>> = Seq::empty();
    proof {
        assert(chars@.take(0) =~= Seq::<char>::empty());
        assert(acc.out@ =~= join_lines(Seq::<Seq<char>>::empty()));
        assert(acc.err@ =~= join_lines(Seq::<Seq<char>>::empty()));
        assert(seq![Seq::<char>::empty()] =~= done.push(cur@));
    }
    let mut i: usize = 0;
    while i < chars.len()
        invariant
            i <= chars.len(),
            split_lines(chars@.take(i as int)) == done.push(cur@),
            acc_matches(acc, parse_lines(done)),
            first == (done.len() == 0),
            prefix@ == command_prefix(),
            out_marker@ == stdout_marker(),
            err_marker@ == stderr_marker(),
        decreases chars.len() - i,
    {
        let c = chars[i];
        let ghost s1 = chars@.take(i + 1);
        proof {
            assert(s1.drop_last() =~= chars@.take(i as int));
            assert(s1.last() == c);
        }
        if c == '\n' {
            feed_line(
                &mut acc,
                first,
                cur.as_slice(),
                prefix.as_slice(),
                out_marker.as_slice(),
                err_marker.as_slice(),
                Ghost(parse_lines(done)),
            );
            proof {
                let nd = done.push(cur@);
                assert(nd.drop_last() =~= done);
                done = nd;
            }
            cur = Vec::new();
            first = false;
            proof {
                assert(split_lines(s1) =~= done.push(cur@));
            }
        } else {
            let ghost old_cur = cur@;
            cur.push(c);
            proof {
                assert(split_lines(s1) =~= done.push(cur@));
            }
        }
        i += 1;
    }
    feed_line(
        &mut acc,
        first,
        cur.as_slice(),
        prefix.as_slice(),
        out_marker.as_slice(),
        err_marker.as_slice(),
        Ghost(parse_lines(done)),
    );
    let ghost lines = done.push(cur@);
    proof {
        assert(lines.drop_last() =~= done);
        assert(chars@.take(chars.len() as int) =~= chars@);
        lemma_split_lines_shape(raw@);
        let st = parse_lines(lines);
        parse_lines_keeps_newline_free(lines);
        lemma_section_text_strip(st.stdout);
        lemma_section_text_strip(st.stderr);
    }
    strip_newlines_at_end(&mut acc.out);
    strip_newlines_at_end(&mut acc.err);
    let command = match &acc.command {
        Some(c) => Some(string_of(c.as_slice())),
        None => None,
    };
    ParsedStepOutput {
        command,
        stdout: string_of(acc.out.as_slice()),
        stderr: string_of(acc.err.as_slice()),
    }
}

/// The stdout and stderr lines gathered from newline-free lines are
/// themselves newline-free.
pub proof fn parse_lines_keeps_newline_free(lines: Seq<Seq<char>>)
    requires
        no_newlines(lines),
    ensures
        no_newlines(parse_lines(lines).stdout),
        no_newlines(parse_lines(lines).stderr),
    decreases lines.len(),
{
    if lines.len() > 0 {
        let dl = lines.drop_last();
        assert forall|i: int, j: int| 0 <= i < dl.len() && 0 <= j < dl[i].len() implies dl[i][j] != '\n' by {
            assert(dl[i] == lines[i]);
        }
        parse_lines_keeps_newline_free(dl);
        let prev = parse_lines(dl);
        let l = lines.last();
        assert forall|j: int| 0 <= j < l.len() implies l[j] != '\n' by {
            assert(lines[lines.len() - 1] == l);
        }
        let cur = parse_lines(lines);
        assert forall|i: int, j: int|
            0 <= i < cur.stdout.len() && 0 <= j < cur.stdout[i].len() implies cur.stdout[i][j] != '\n' by {
            if i < prev.stdout.len() {
                assert(cur.stdout[i] == prev.stdout[i]);
            }
        }
        assert forall|i: int, j: int|
            0 <= i < cur.stderr.len() && 0 <= j < cur.stderr[i].len() implies cur.stderr[i][j] != '\n' by {
            if i < prev.stderr.len() {
                assert(cur.stderr[i] == prev.stderr[i]);
            }
        }
    }
}


/// `s` with every run of line breaks (`\n`, `\r`) replaced by one visible
/// `" · "` separator.
pub open spec fn collapse_spec(s: Seq<char>) -> Seq<char>
    decreases s.len(),
{
    if s.len() == 0 {
        Seq::empty()
    } else if is_newline(s.last()) {
        if s.len() > 1 && is_newline(s[s.len() - 2]) {
            collapse_spec(s.drop_last())
        } else {
            collapse_spec(s.drop_last()) + seq![' ', '·', ' ']
        }
    } else {
        collapse_spec(s.drop_last()).push(s.last())
    }
}

/// A collapsed text holds no line break, so it fits one rendered line.
pub proof fn law_collapse_is_one_line(s: Seq<char>)
    ensures
        forall|i: int| 0 <= i < collapse_spec(s).len() ==> !is_newline(#[trigger] collapse_spec(s)[i]),
    decreases s.len(),
{
    if s.len() > 0 {
        law_collapse_is_one_line(s.drop_last());
        let prev = collapse_spec(s.drop_last());
        let cur = collapse_spec(s);
        assert forall|i: int| 0 <= i < cur.len() implies !is_newline(#[trigger] cur[i]) by {
            if i < prev.len() {
                assert(cur[i] == prev[i]);
            }
        }
    }
}

fn collapse_chars(v: &[char]) -> (r: Vec<char>)
    ensures
        r@ == collapse_spec(v@),
{
    let mut out: Vec<char> = Vec::new();
    let mut last_was_sep = false;
    let mut i: usize = 0;
    assert(v@.take(0) =~= Seq::<char>::empty());
    while i < v.len()
        invariant
            i <= v.len(),
            out@ == collapse_spec(v@.take(i as int)),
            last_was_sep == (i > 0 && is_newline(v@[i - 1])),
        decreases v.len() - i,
    {
        let ch = v[i];
        let ghost t = v@.take(i + 1);
        assert(t.drop_last() =~= v@.take(i as int));
        assert(t.last() == ch);
        if ch == '\n' || ch == '\r' {
            if !last_was_sep {
                out.push(' ');
                out.push('·');
                out.push(' ');
                last_was_sep = true;
                assert(out@ =~= collapse_spec(t));
            } else {
                assert(t[t.len() - 2] == v@[i - 1]);
            }
        } else {
            out.push(ch);
            last_was_sep = false;
        }
        i += 1;
    }
    assert(v@.take(v.len() as int) =~= v@);
    out
}

/// Replaces every run of `\n` / `\r` with a visible `" · "` so multi-line
/// text fits one rendered line.
pub fn collapse_newlines(s: &str) -> (r: String)
    ensures
        r@ == collapse_spec(s@),
{
    let v = chars_of(s);
    string_of(collapse_chars(v.as_slice()).as_slice())
}

#[verifier::external_type_specification]
#[verifier::external_body]
pub struct ExYamlValue(serde_yaml::Value);

#[verifier::external_type_specification]
#[verifier::external_body]
pub struct ExYamlNumber(serde_yaml::Number);

#[verifier::external_type_specification]
#[verifier::external_body]
pub struct ExYamlError(serde_yaml::Error);

/// Which kind of YAML value a `serde_yaml::Value` is, borrowing its
/// string or number.
pub enum YamlKind<'a> {
    Null,
    Bool(bool),
    Number(&'a serde_yaml::Number),
    String(&'a String),
    Other,
}

/// The variant of a YAML value (sequences, mappings and tagged values are
/// all `Other`).
#[derive(Clone, Copy, Debug, PartialEq, Eq, Structural)]
pub enum YamlTag {
    Null,
    Bool,
    Number,
    String,
    Other,
}

/// The variant of a `serde_yaml::Value`.
pub uninterp spec fn yaml_tag(v: serde_yaml::Value) -> YamlTag;

/// The boolean a `Value::Bool` holds.
pub uninterp spec fn yaml_bool(v: serde_yaml::Value) -> bool;

/// The characters of the string a `Value::String` holds.
pub uninterp spec fn yaml_str(v: serde_yaml::Value) -> Seq<char>;

/// The number a `Value::Number` holds.
pub uninterp spec fn yaml_number(v: serde_yaml::Value) -> serde_yaml::Number;

/// serde_yaml's printed text of a number (its `Display`).
pub uninterp spec fn number_text(n: serde_yaml::Number) -> Seq<char>;

/// `serde_yaml::to_string` of a value: the document, or `None` when it
/// fails to serialize.
pub uninterp spec fn yaml_doc(v: serde_yaml::Value) -> Option<Seq<char>>;

/// Tells the variants of a `serde_yaml::Value` apart, one arm per variant
/// (sequences, mappings and tagged values are all `Other`), handing out the
/// boolean, a reference to the number, or a reference to the string.
#[verifier::external_body]
fn yaml_kind(v: &serde_yaml::Value) -> (k: YamlKind<'_>)
    ensures
        match yaml_tag(*v) {
            YamlTag::Null => k is Null,
            YamlTag::Bool => k matches YamlKind::Bool(b) && b == yaml_bool(*v),
            YamlTag::Number => k matches YamlKind::Number(n) && *n == yaml_number(*v),
            YamlTag::String => k matches YamlKind::String(t) && t@ == yaml_str(*v),
            YamlTag::Other => k is Other,
        },
{
    match v {
        serde_yaml::Value::Null => YamlKind::Null,
        serde_yaml::Value::Bool(b) => YamlKind::Bool(*b),
        serde_yaml::Value::Number(n) => YamlKind::Number(n),
        serde_yaml::Value::String(s) => YamlKind::String(s),
        serde_yaml::Value::Sequence(_) => YamlKind::Other,
        serde_yaml::Value::Mapping(_) => YamlKind::Other,
        serde_yaml::Value::Tagged(_) => YamlKind::Other,
    }
}

/// Whether `c` can appear in serde_yaml's text for a number: a decimal
/// digit, a sign, a point, an exponent `e`, or a letter of `.nan`/`.inf`.
pub open spec fn is_number_char(c: char) -> bool {
    ('0' <= c && c <= '9') || c == '-' || c == '.' || c == 'e' || c == 'n' || c == 'a' || c == 'i' || c == 'f'
}

/// serde_yaml's `Display` for `Number`. Its source writes an integer in
/// decimal (with a `-` when negative), a finite float as `ryu` prints it
/// (digits, `.`, `e`, `-`), or `.nan`, `.inf`, `-.inf`; so the text is not
/// empty and holds only those characters.
#[verifier::external_body]
fn yaml_number_text(n: &serde_yaml::Number) -> (t: String)
    ensures
        t@ == number_text(*n),
        t@.len() > 0,
        forall|i: int| 0 <= i < t@.len() ==> is_number_char(#[trigger] t@[i]),
{
    n.to_string()
}

/// `serde_yaml::to_string`: the YAML document for a value, or the error
/// when it fails to serialize.
#[verifier::external_body]
fn yaml_document(v: &serde_yaml::Value) -> (r: Result<String, serde_yaml::Error>)
    ensures
        match r {
            Ok(d) => yaml_doc(*v) == Some(d@),
            Err(_) => yaml_doc(*v) is None,
        },
{
    serde_yaml::to_string(v)
}

/// A YAML value reduced to what a matrix cell shows: a null, a boolean,
/// a number's text, a string, or another value's serialized document.
pub enum YamlScalar {
    Null,
    Bool(bool),
    Number(String),
    String(String),
    Document(String),
}

/// The one-line text of a YAML value: strings with line breaks collapsed,
/// `true`/`false`, the number's text, `~` for null, and other values'
/// documents trimmed and collapsed.
pub open spec fn scalar_text_spec(v: YamlScalar) -> Seq<char> {
    match v {
        YamlScalar::String(s) => collapse_spec(s@),
        YamlScalar::Bool(b) => if b { "true"@ } else { "false"@ },
        YamlScalar::Number(t) => t@,
        YamlScalar::Null => "~"@,
        YamlScalar::Document(d) => collapse_spec(trim_spec(d@)),
    }
}

/// The one-line text of a YAML value.
pub fn scalar_text(v: &YamlScalar) -> (r: String)
    ensures
        r@ == scalar_text_spec(*v),
{
    match v {
        YamlScalar::String(s) => collapse_newlines(s.as_str()),
        YamlScalar::Bool(b) => if *b {
            string_of(chars_of("true").as_slice())
        } else {
            string_of(chars_of("false").as_slice())
        },
        YamlScalar::Number(t) => t.clone(),
        YamlScalar::Null => string_of(chars_of("~").as_slice()),
        YamlScalar::Document(d) => {
            let v = chars_of(d.as_str());
            let t = trim_chars(v.as_slice());
            string_of(collapse_chars(t.as_slice()).as_slice())
        },
    }
}

/// Whether a scalar's number text is one serde_yaml can print.
pub open spec fn number_text_ok(v: YamlScalar) -> bool {
    v matches YamlScalar::Number(t) ==> (t@.len() > 0 && forall|i: int| 0 <= i < t@.len() ==> is_number_char(#[trigger] t@[i]))
}

/// Whether `s` holds no line break.
pub open spec fn one_line(s: Seq<char>) -> bool {
    forall|i: int| 0 <= i < s.len() ==> !is_newline(#[trigger] s[i])
}

/// Whether `k` is the scalar a matrix cell shows for `v`: null, the
/// boolean, the number's printed text, the string, or (for sequences,
/// mappings and tagged values) the serialized document, empty when it
/// fails to serialize.
pub open spec fn scalar_of(v: serde_yaml::Value, k: YamlScalar) -> bool {
    match yaml_tag(v) {
        YamlTag::Null => k is Null,
        YamlTag::Bool => k == YamlScalar::Bool(yaml_bool(v)),
        YamlTag::Number => k matches YamlScalar::Number(t) && t@ == number_text(yaml_number(v)),
        YamlTag::String => k matches YamlScalar::String(t) && t@ == yaml_str(v),
        YamlTag::Other => k matches YamlScalar::Document(d) && d@ == (match yaml_doc(v) {
            Some(x) => x,
            None => Seq::<char>::empty(),
        }),
    }
}

/// The one-line text of a YAML value in a matrix cell: a string with its
/// line breaks collapsed, `true`/`false`, the number's printed text, `~`
/// for null, and another value's document trimmed and collapsed.
pub open spec fn yaml_cell_text(v: serde_yaml::Value) -> Seq<char> {
    match yaml_tag(v) {
        YamlTag::Null => "~"@,
        YamlTag::Bool => if yaml_bool(v) { "true"@ } else { "false"@ },
        YamlTag::Number => number_text(yaml_number(v)),
        YamlTag::String => collapse_spec(yaml_str(v)),
        YamlTag::Other => collapse_spec(trim_spec(match yaml_doc(v) {
            Some(x) => x,
            None => Seq::<char>::empty(),
        })),
    }
}

/// Reduces a `serde_yaml::Value` to the scalar a matrix cell shows.
pub fn yaml_scalar(v: &serde_yaml::Value) -> (k: YamlScalar)
    ensures
        scalar_of(*v, k),
        number_text_ok(k),
{
    match yaml_kind(v) {
        YamlKind::Null => YamlScalar::Null,
        YamlKind::Bool(b) => YamlScalar::Bool(b),
        YamlKind::Number(n) => YamlScalar::Number(yaml_number_text(n)),
        YamlKind::String(s) => YamlScalar::String(owned(s.as_str())),
        YamlKind::Other => YamlScalar::Document(
            match yaml_document(v) {
                Ok(d) => d,
                Err(_) => String::new(),
            },
        ),
    }
}

/// The one-line text of a YAML value in a matrix cell (see
/// `yaml_cell_text`); it holds no line break, so it fits one rendered
/// line.
pub fn format_yaml_scalar(v: &serde_yaml::Value) -> (r: String)
    ensures
        r@ == yaml_cell_text(*v),
        one_line(r@),
{
    let k = yaml_scalar(v);
    let r = scalar_text(&k);
    proof {
        lemma_scalar_text_one_line(k);
    }
    r
}

/// The text of a scalar whose number text serde_yaml prints holds no line
/// break.
pub proof fn lemma_scalar_text_one_line(k: YamlScalar)
    requires
        number_text_ok(k),
    ensures
        one_line(scalar_text_spec(k)),
{
    reveal_strlit("true");
    reveal_strlit("false");
    reveal_strlit("~");
    match k {
        YamlScalar::String(s) => law_collapse_is_one_line(s@),
        YamlScalar::Document(d) => law_collapse_is_one_line(trim_spec(d@)),
        YamlScalar::Number(t) => {
            assert forall|i: int| 0 <= i < t@.len() implies !is_newline(#[trigger] t@[i]) by {
                assert(is_number_char(t@[i]));
            }
        },
        YamlScalar::Bool(b) => {
            let x = scalar_text_spec(k);
            assert forall|i: int| 0 <= i < x.len() implies !is_newline(#[trigger] x[i]) by {
                if b {
                    assert(x[i] == "true"@[i]);
                } else {
                    assert(x[i] == "false"@[i]);
                }
            }
        },
        YamlScalar::Null => {},
    }
}


/// Where the escape-sequence stripper stands: in plain text, after an
/// ESC, among an escape sequence's intermediate characters, inside a
/// control sequence (`ESC [`), inside an operating-system command
/// (`ESC ]`), or after an ESC inside one.
#[derive(Clone, Copy, Debug, PartialEq, Eq, Structural)]
pub enum AnsiState {
    Text,
    Esc,
    EscMore,
    Csi,
    Osc,
    OscEsc,
}

/// Whether `c` is a control character that is dropped from plain text
/// (every C0 control but tab and line feed, and DEL).
pub open spec fn is_dropped_control(c: char) -> bool {
    (c < ' ' && c != '\n' && c != '\t') || c == '\u{7f}'
}

/// One character through the stripper: the next state and the character
/// kept, if any. An ESC opens a sequence; `[` after it opens a control
/// sequence that runs to its final character (`@` to `~`); `]` opens an
/// operating-system command that runs to BEL or to ESC and the next
/// character; intermediate characters (space to `/`) continue an escape
/// sequence, and any other character ends it.
pub open spec fn ansi_step(st: AnsiState, c: char) -> (AnsiState, Option<char>) {
    match st {
        AnsiState::Text => if c == '\u{1b}' {
            (AnsiState::Esc, None)
        } else if is_dropped_control(c) {
            (AnsiState::Text, None)
        } else {
            (AnsiState::Text, Some(c))
        },
        AnsiState::Esc => if c == '[' {
            (AnsiState::Csi, None)
        } else if c == ']' {
            (AnsiState::Osc, None)
        } else if ' ' <= c && c <= '/' {
            (AnsiState::EscMore, None)
        } else {
            (AnsiState::Text, None)
        },
        AnsiState::EscMore => if ' ' <= c && c <= '/' { (AnsiState::EscMore, None) } else { (AnsiState::Text, None) },
        AnsiState::Csi => if '@' <= c && c <= '~' { (AnsiState::Text, None) } else { (AnsiState::Csi, None) },
        AnsiState::Osc => if c == '\u{7}' {
            (AnsiState::Text, None)
        } else if c == '\u{1b}' {
            (AnsiState::OscEsc, None)
        } else {
            (AnsiState::Osc, None)
        },
        AnsiState::OscEsc => (AnsiState::Text, None),
    }
}

/// The stripper's state and kept text after all of `s`.
pub open spec fn strip_run(s: Seq<char>) -> (AnsiState, Seq<char>)
    decreases s.len(),
{
    if s.len() == 0 {
        (AnsiState::Text, Seq::empty())
    } else {
        let prev = strip_run(s.drop_last());
        let step = ansi_step(prev.0, s.last());
        (step.0, match step.1 {
            Some(c) => prev.1.push(c),
            None => prev.1,
        })
    }
}

/// `s` without its terminal escape sequences and stray control characters.
pub open spec fn strip_ansi_spec(s: Seq<char>) -> Seq<char> {
    strip_run(s).1
}

/// Whether `c` is kept inert on screen: not ESC and not a dropped
/// control character.
pub open spec fn inert(c: char) -> bool {
    c != '\u{1b}' && !is_dropped_control(c)
}

/// Stripped text holds no ESC and no dropped control character, so it
/// cannot move the cursor or repaint outside the pane.
pub proof fn law_stripped_text_is_inert(s: Seq<char>)
    ensures
        forall|i: int| 0 <= i < strip_ansi_spec(s).len() ==> inert(#[trigger] strip_ansi_spec(s)[i]),
    decreases s.len(),
{
    if s.len() > 0 {
        law_stripped_text_is_inert(s.drop_last());
        let prev = strip_run(s.drop_last()).1;
        let st = strip_run(s.drop_last()).0;
        let step = ansi_step(st, s.last());
        let cur = strip_ansi_spec(s);
        assert forall|i: int| 0 <= i < cur.len() implies inert(#[trigger] cur[i]) by {
            if i < prev.len() {
                assert(cur[i] == prev[i]);
                assert(inert(strip_ansi_spec(s.drop_last())[i]));
            } else {
                assert(step.1 is Some);
                assert(cur[i] == step.1->0);
                assert(inert(step.1->0));
            }
        }
    }
}

/// `v` with its terminal escape sequences and stray control characters
/// removed.
pub fn strip_ansi(v: &[char]) -> (r: Vec<char>)
    ensures
        r@ == strip_ansi_spec(v@),
{
    let mut st = AnsiState::Text;
    let mut out: Vec<char> = Vec::new();
    let mut i: usize = 0;
    assert(v@.take(0) =~= Seq::<char>::empty());
    while i < v.len()
        invariant
            i <= v.len(),
            (st, out@) == strip_run(v@.take(i as int)),
        decreases v.len() - i,
    {
        let c = v[i];
        assert(v@.take(i + 1).drop_last() =~= v@.take(i as int));
        assert(v@.take(i + 1).last() == c);
        let (next, keep) = match st {
            AnsiState::Text => if c == '\u{1b}' {
                (AnsiState::Esc, None)
            } else if (c < ' ' && c != '\n' && c != '\t') || c == '\u{7f}' {
                (AnsiState::Text, None)
            } else {
                (AnsiState::Text, Some(c))
            },
            AnsiState::Esc => if c == '[' {
                (AnsiState::Csi, None)
            } else if c == ']' {
                (AnsiState::Osc, None)
            } else if ' ' <= c && c <= '/' {
                (AnsiState::EscMore, None)
            } else {
                (AnsiState::Text, None)
            },
            AnsiState::EscMore => if ' ' <= c && c <= '/' { (AnsiState::EscMore, None) } else { (AnsiState::Text, None) },
            AnsiState::Csi => if '@' <= c && c <= '~' { (AnsiState::Text, None) } else { (AnsiState::Csi, None) },
            AnsiState::Osc => if c == '\u{7}' {
                (AnsiState::Text, None)
            } else if c == '\u{1b}' {
                (AnsiState::OscEsc, None)
            } else {
                (AnsiState::Osc, None)
            },
            AnsiState::OscEsc => (AnsiState::Text, None),
        };
        assert((next, keep) == ansi_step(st, c));
        match keep {
            Some(k) => out.push(k),
            None => {},
        }
        st = next;
        i += 1;
    }
    assert(v@.take(v.len() as int) =~= v@);
    out
}

/// The number of bytes UTF-8 takes for `c`.
pub open spec fn utf8_width(c: char) -> nat {
    if (c as u32) < 0x80 {
        1
    } else if (c as u32) < 0x800 {
        2
    } else if (c as u32) < 0x10000 {
        3
    } else {
        4
    }
}

/// The UTF-8 byte length of `s` (what `str::len` reports).
pub open spec fn utf8_len(s: Seq<char>) -> nat
    decreases s.len(),
{
    if s.len() == 0 {
        0
    } else {
        utf8_len(s.drop_last()) + utf8_width(s.last())
    }
}

/// The length of the longest prefix of `s` that fits in `limit` bytes.
pub open spec fn prefix_fit(s: Seq<char>, limit: nat) -> nat
    decreases s.len(),
{
    if s.len() == 0 || utf8_len(s) <= limit {
        s.len()
    } else {
        prefix_fit(s.drop_last(), limit)
    }
}

/// The most output bytes the pane shows.
pub open spec fn output_limit() -> nat {
    8000
}

/// Output longer than 8000 bytes is cut at the last character boundary
/// within them and marked `"…[truncated]"`.
pub open spec fn truncated_spec(s: Seq<char>) -> Seq<char> {
    if utf8_len(s) > output_limit() {
        s.take(prefix_fit(s, output_limit()) as int) + "…[truncated]"@
    } else {
        s
    }
}

/// The kept part of a truncated output fits the byte limit.
pub proof fn law_truncated_prefix_fits(s: Seq<char>, limit: nat)
    ensures
        utf8_len(s.take(prefix_fit(s, limit) as int)) <= limit,
        prefix_fit(s, limit) <= s.len(),
    decreases s.len(),
{
    assert(s.take(s.len() as int) =~= s);
    if s.len() == 0 || utf8_len(s) <= limit {
    } else {
        let d = s.drop_last();
        law_truncated_prefix_fits(d, limit);
        assert(d.take(prefix_fit(d, limit) as int) =~= s.take(prefix_fit(d, limit) as int));
    }
}

pub proof fn lemma_utf8_len_mono(s: Seq<char>, i: int, j: int)
    requires
        0 <= i <= j <= s.len(),
    ensures
        utf8_len(s.take(i)) <= utf8_len(s.take(j)),
        i < j ==> utf8_len(s.take(i)) < utf8_len(s.take(j)),
    decreases j - i,
{
    if i < j {
        lemma_utf8_len_mono(s, i, j - 1);
        assert(s.take(j).drop_last() =~= s.take(j - 1));
    }
}

pub proof fn lemma_prefix_fit(s: Seq<char>, limit: nat, k: int)
    requires
        0 <= k <= s.len(),
        utf8_len(s.take(k)) <= limit,
        k == s.len() || utf8_len(s.take(k + 1)) > limit,
    ensures
        prefix_fit(s, limit) == k,
    decreases s.len(),
{
    assert(s.take(s.len() as int) =~= s);
    if s.len() == 0 {
    } else if utf8_len(s) <= limit {
        if k < s.len() {
            lemma_utf8_len_mono(s, k + 1, s.len() as int);
        }
    } else {
        let d = s.drop_last();
        assert(k < s.len());
        assert(d.take(k) =~= s.take(k));
        if k + 1 < s.len() {
            assert(d.take(k + 1) =~= s.take(k + 1));
        }
        lemma_prefix_fit(d, limit, k);
    }
}

fn utf8_width_of(c: char) -> (w: usize)
    ensures
        w == utf8_width(c),
{
    let u = c as u32;
    if u < 0x80 {
        1
    } else if u < 0x800 {
        2
    } else if u < 0x10000 {
        3
    } else {
        4
    }
}

/// The output with anything past 8000 bytes cut (at a character boundary)
/// and marked `"…[truncated]"`.
pub fn truncate_output(v: &[char]) -> (r: Vec<char>)
    ensures
        r@ == truncated_spec(v@),
{
    let mut k: usize = 0;
    let mut bytes: usize = 0;
    assert(v@.take(0) =~= Seq::<char>::empty());
    while k < v.len() && bytes + utf8_width_of(v[k]) <= 8000
        invariant
            k <= v.len(),
            bytes == utf8_len(v@.take(k as int)),
            bytes <= 8000,
        decreases v.len() - k,
    {
        assert(v@.take(k + 1).drop_last() =~= v@.take(k as int));
        bytes = bytes + utf8_width_of(v[k]);
        k += 1;
    }
    if k < v.len() {
        assert(v@.take(k + 1).drop_last() =~= v@.take(k as int));
    }
    proof {
        lemma_prefix_fit(v@, 8000, k as int);
        assert(v@.take(v.len() as int) =~= v@);
        if k < v.len() {
            lemma_utf8_len_mono(v@, k + 1, v.len() as int);
        }
    }
    if k == v.len() {
        let mut r: Vec<char> = Vec::new();
        push_all(&mut r, v);
        r
    } else {
        let mut r: Vec<char> = Vec::new();
        let mut i: usize = 0;
        while i < k
            invariant
                i <= k < v.len(),
                r@ == v@.take(i as int),
            decreases k - i,
        {
            r.push(v[i]);
            assert(v@.take(i as int).push(v@[i as int]) =~= v@.take(i + 1));
            i += 1;
        }
        push_str(&mut r, "…[truncated]");
        r
    }
}

/// The pieces of `v` between `'\n'`s.
pub fn lines_of(v: &[char]) -> (ls: Vec<Vec<char>>)
    ensures
        ls@.map_values(|l: Vec<char>| l@) == split_lines(v@),
{
    let mut ls: Vec<Vec<char>> = Vec::new();
    let mut cur: Vec<char> = Vec::new();
    let mut i: usize = 0;
    assert(v@.take(0) =~= Seq::<char>::empty());
    assert(ls@.map_values(|l: Vec<char>| l@).push(cur@) =~= split_lines(v@.take(0)));
    while i < v.len()
        invariant
            i <= v.len(),
            ls@.map_values(|l: Vec<char>| l@).push(cur@) == split_lines(v@.take(i as int)),
        decreases v.len() - i,
    {
        let ghost t = v@.take(i + 1);
        assert(t.drop_last() =~= v@.take(i as int));
        let c = v[i];
        if c == '\n' {
            let ghost before = ls@.map_values(|l: Vec<char>| l@);
            let done = cur;
            ls.push(done);
            cur = Vec::new();
            assert(ls@.map_values(|l: Vec<char>| l@).push(cur@) =~= split_lines(t));
        } else {
            let ghost before = ls@.map_values(|l: Vec<char>| l@);
            cur.push(c);
            assert(ls@.map_values(|l: Vec<char>| l@).push(cur@) =~= split_lines(t));
        }
        i += 1;
    }
    assert(v@.take(v.len() as int) =~= v@);
    ls.push(cur);
    ls
}

/// The rows of the command section: the first line after `"❯ "`, the rest
/// indented.
pub open spec fn command_rows(cmd: Seq<char>) -> Seq<(Seq<char>, Role)> {
    let lines = split_lines(cmd);
    Seq::new(
        lines.len(),
        |i: int| ((if i == 0 { seq!['❯', ' '] } else { seq![' ', ' '] }) + lines[i], Role::AccentStrong),
    )
}

/// The rows of a section: its lines in one style.
pub open spec fn section_rows(text: Seq<char>, role: Role) -> Seq<(Seq<char>, Role)> {
    split_lines(text).map_values(|l: Seq<char>| (l, role))
}

/// The output pane's rows for a step's output: the command (when shown)
/// and a blank line, the stdout lines (under a `"─ stdout ─"` header only
/// when stderr follows), then a blank line, a `"─ stderr ─"` header and the
/// stderr lines.
pub open spec fn output_rows_spec(output: Seq<char>, show_command: bool) -> Seq<(Seq<char>, Role)> {
    let p = parsed_view(truncated_spec(strip_ansi_spec(output)));
    let cmd = p.0;
    let out = p.1;
    let err = p.2;
    let cmd_rows = if show_command && cmd is Some {
        command_rows(cmd->0).push((Seq::empty(), Role::Plain))
    } else {
        Seq::empty()
    };
    let out_rows = if out.len() > 0 {
        (if err.len() > 0 { seq![("─ stdout ─"@, Role::Muted)] } else { Seq::empty() }) + section_rows(out, Role::Dim)
    } else {
        Seq::empty()
    };
    let err_rows = if err.len() > 0 {
        (if out.len() > 0 { seq![(Seq::<char>::empty(), Role::Plain)] } else { Seq::empty() })
            + seq![("─ stderr ─"@, Role::ErrorStrong)] + section_rows(err, Role::Error)
    } else {
        Seq::empty()
    };
    cmd_rows + out_rows + err_rows
}

fn push_section(rows: &mut Vec<(String, Role)>, text: &String, role: Role)
    ensures
        spans_view(final(rows)@) == spans_view(old(rows)@) + section_rows(text@, role),
{
    let v = chars_of(text.as_str());
    let ls = lines_of(v.as_slice());
    let ghost lv = ls@.map_values(|l: Vec<char>| l@);
    let ghost base = spans_view(rows@);
    let mut i: usize = 0;
    while i < ls.len()
        invariant
            i <= ls.len(),
            lv == ls@.map_values(|l: Vec<char>| l@),
            lv == split_lines(text@),
            spans_view(rows@) == base + lv.take(i as int).map_values(|l: Seq<char>| (l, role)),
        decreases ls.len() - i,
    {
        let ghost before = spans_view(rows@);
        rows.push((string_of(ls[i].as_slice()), role));
        assert(spans_view(rows@) =~= before.push((lv[i as int], role)));
        assert(lv.take(i + 1).map_values(|l: Seq<char>| (l, role)) =~= lv.take(i as int).map_values(|l: Seq<char>| (l, role)).push((lv[i as int], role)));
        i += 1;
    }
    assert(lv.take(ls.len() as int) =~= lv);
}

fn push_row(rows: &mut Vec<(String, Role)>, text: &str, role: Role)
    ensures
        spans_view(final(rows)@) == spans_view(old(rows)@).push((text@, role)),
{
    let ghost before = spans_view(rows@);
    rows.push((string_of(chars_of(text).as_slice()), role));
    assert(spans_view(rows@) =~= before.push((text@, role)));
}

/// The output pane's rows for a step's captured output.
pub fn output_rows(output: &str, show_command: bool) -> (rows: Vec<(String, Role)>)
    ensures
        spans_view(rows@) == output_rows_spec(output@, show_command),
{
    let raw = strip_ansi(chars_of(output).as_slice());
    let text = string_of(truncate_output(raw.as_slice()).as_slice());
    let parsed = parse_step_output(text.as_str());
    let mut rows: Vec<(String, Role)> = Vec::new();
    assert(spans_view(rows@) =~= Seq::<(Seq<char>, Role)>::empty());
    if show_command {
        match &parsed.command {
            Some(cmd) => {
                let cv = chars_of(cmd.as_str());
                let ls = lines_of(cv.as_slice());
                let ghost lv = ls@.map_values(|l: Vec<char>| l@);
                let mut i: usize = 0;
                while i < ls.len()
                    invariant
                        i <= ls.len(),
                        lv == ls@.map_values(|l: Vec<char>| l@),
                        lv == split_lines(cmd@),
                        spans_view(rows@) == command_rows(cmd@).take(i as int),
                    decreases ls.len() - i,
                {
                    let mut line: Vec<char> = if i == 0 { vec!['❯', ' '] } else { vec![' ', ' '] };
                    push_all(&mut line, ls[i].as_slice());
                    let ghost before = spans_view(rows@);
                    assert(lv[i as int] == ls@[i as int]@);
                    assert(line@ =~= (if i == 0 { seq!['❯', ' '] } else { seq![' ', ' '] }) + lv[i as int]);
                    rows.push((string_of(line.as_slice()), Role::AccentStrong));
                    assert(command_rows(cmd@).take(i + 1) =~= command_rows(cmd@).take(i as int).push(command_rows(cmd@)[i as int]));
                    assert(spans_view(rows@) =~= command_rows(cmd@).take(i + 1));
                    i += 1;
                }
                assert(command_rows(cmd@).take(ls.len() as int) =~= command_rows(cmd@));
                assert(spans_view(rows@) == command_rows(cmd@));
                let ghost mid = spans_view(rows@);
                push_row(&mut rows, "", Role::Plain);
                assert(spans_view(rows@) == mid.push((""@, Role::Plain)));
                proof {
                    reveal_strlit("");
                    assert(""@ =~= Seq::<char>::empty());
                    assert(spans_view(rows@) =~= command_rows(cmd@).push((Seq::<char>::empty(), Role::Plain)));
                }
            },
            None => {},
        }
    }
    let ghost after_cmd = spans_view(rows@);
    proof {
        reveal_strlit("");
        let p = parsed_view(truncated_spec(strip_ansi_spec(output@)));
        assert(text@ == truncated_spec(strip_ansi_spec(output@)));
        assert(parsed.stdout@ == p.1);
        assert(parsed.stderr@ == p.2);
        if show_command && p.0 is Some {
            assert(parsed.command is Some);
            assert(parsed.command->0@ == p.0->0);
            assert(after_cmd =~= command_rows(p.0->0).push((Seq::<char>::empty(), Role::Plain)));
        } else {
            assert(after_cmd =~= Seq::<(Seq<char>, Role)>::empty());
        }
    }
    let has_err = parsed.stderr.as_str().unicode_len() > 0;
    let has_out = parsed.stdout.as_str().unicode_len() > 0;
    if has_out {
        if has_err {
            push_row(&mut rows, "─ stdout ─", Role::Muted);
        }
        push_section(&mut rows, &parsed.stdout, Role::Dim);
    }
    let ghost after_out = spans_view(rows@);
    if has_err {
        if has_out {
            push_row(&mut rows, "", Role::Plain);
            proof {
                reveal_strlit("");
                assert(""@ =~= Seq::<char>::empty());
            }
        }
        push_row(&mut rows, "─ stderr ─", Role::ErrorStrong);
        push_section(&mut rows, &parsed.stderr, Role::Error);
    }
    proof {
        reveal_strlit("");
        assert(""@ =~= Seq::<char>::empty());
        let p = parsed_view(truncated_spec(strip_ansi_spec(output@)));
        let cmd_rows = if show_command && p.0 is Some {
            command_rows(p.0->0).push((Seq::empty(), Role::Plain))
        } else {
            Seq::empty()
        };
        assert(after_cmd =~= cmd_rows);
        let out_rows = if p.1.len() > 0 {
            (if p.2.len() > 0 { seq![("─ stdout ─"@, Role::Muted)] } else { Seq::empty() }) + section_rows(p.1, Role::Dim)
        } else {
            Seq::empty()
        };
        assert(after_out =~= cmd_rows + out_rows);
        let sp = output_rows_spec(output@, show_command);
        assert(spans_view(rows@) =~= sp);
    }
    rows
}


/// What a pane's body shows: a one-line message, or rows of text.
pub enum PaneBody {
    Message(String),
    Rows(Vec<(String, Role)>),
}

pub enum PaneBodyView {
    Message(Seq<char>),
    Rows(Seq<(Seq<char>, Role)>),
}

/// A pane of the step inspector: its title and body.
pub struct Pane {
    pub title: String,
    pub body: PaneBody,
}

impl View for Pane {
    type V = (Seq<char>, PaneBodyView);

    open spec fn view(&self) -> (Seq<char>, PaneBodyView) {
        (
            self.title@,
            match self.body {
                PaneBody::Message(m) => PaneBodyView::Message(m@),
                PaneBody::Rows(r) => PaneBodyView::Rows(spans_view(r@)),
            },
        )
    }
}

/// The step the inspector shows: the selected one, if in range.
pub open spec fn selected_step(steps: Seq<StepExecution>, selected: Option<usize>) -> Option<StepExecution> {
    match selected {
        Some(i) => if i < steps.len() { Some(steps[i as int]) } else { None },
        None => None,
    }
}

/// The Output pane: the selected step's output in sections.
pub open spec fn output_pane_spec(steps: Seq<StepExecution>, selected: Option<usize>, show_command: bool) -> (Seq<char>, PaneBodyView) {
    match selected_step(steps, selected) {
        Some(st) => {
            let title = "output — "@ + st.name@ + "  (c: "@ + (if show_command {
                "hide command"@
            } else {
                "show command"@
            }) + ")"@;
            let rows = output_rows_spec(st.output@, show_command);
            (
                title,
                if st.output@.len() == 0 {
                    PaneBodyView::Message("(no output captured for this step)"@)
                } else if rows.len() == 0 {
                    PaneBodyView::Message("(step produced no output)"@)
                } else {
                    PaneBodyView::Rows(rows)
                },
            )
        },
        None => ("output"@, PaneBodyView::Message("(select a step on the left)"@)),
    }
}

fn pick_step(steps: &Vec<StepExecution>, selected: Option<usize>) -> (r: Option<&StepExecution>)
    ensures
        match r {
            Some(s) => selected_step(steps@, selected) == Some(*s),
            None => selected_step(steps@, selected) is None,
        },
{
    match selected {
        Some(i) => if i < steps.len() { Some(&steps[i]) } else { None },
        None => None,
    }
}

/// The Output pane for the selected step; `show_command` shows the
/// command section.
pub fn output_pane(steps: &Vec<StepExecution>, selected: Option<usize>, show_command: bool) -> (p: Pane)
    ensures
        p@ == output_pane_spec(steps@, selected, show_command),
{
    match pick_step(steps, selected) {
        Some(st) => {
            let mut t = chars_of("output — ");
            push_str(&mut t, st.name.as_str());
            push_str(&mut t, "  (c: ");
            if show_command {
                push_str(&mut t, "hide command");
            } else {
                push_str(&mut t, "show command");
            }
            push_str(&mut t, ")");
            let title = string_of(t.as_slice());
            if st.output.as_str().unicode_len() == 0 {
                return Pane { title, body: PaneBody::Message(owned("(no output captured for this step)")) };
            }
            let rows = output_rows(st.output.as_str(), show_command);
            if rows.len() == 0 {
                Pane { title, body: PaneBody::Message(owned("(step produced no output)")) }
            } else {
                Pane { title, body: PaneBody::Rows(rows) }
            }
        },
        None => Pane { title: owned("output"), body: PaneBody::Message(owned("(select a step on the left)")) },
    }
}

/// `key=value` for each pair.
pub open spec fn kv_texts(pairs: Seq<(String, String)>) -> Seq<Seq<char>> {
    pairs.map_values(|p: (String, String)| p.0@ + seq!['='] + p.1@)
}

fn kv_strings(pairs: &Vec<(String, String)>) -> (r: Vec<String>)
    ensures
        r@.map_values(|s: String| s@) == kv_texts(pairs@),
{
    let mut r: Vec<String> = Vec::new();
    let mut i: usize = 0;
    while i < pairs.len()
        invariant
            i <= pairs.len(),
            r@.len() == i,
            forall|j: int| 0 <= j < i ==> (#[trigger] r@[j])@ == pairs@[j].0@ + seq!['='] + pairs@[j].1@,
        decreases pairs.len() - i,
    {
        let mut v = chars_of(pairs[i].0.as_str());
        v.push('=');
        push_str(&mut v, pairs[i].1.as_str());
        r.push(string_of(v.as_slice()));
        i += 1;
    }
    assert(r@.map_values(|s: String| s@) =~= kv_texts(pairs@));
    r
}

/// The Env pane: the environment the selected step saw, one `key=value`
/// per row under a count (secret values are masked at capture).
pub open spec fn env_pane_spec(steps: Seq<StepExecution>, selected: Option<usize>) -> (Seq<char>, PaneBodyView) {
    match selected_step(steps, selected) {
        Some(st) => (
            "Environment — "@ + st.name@,
            if st.env@.len() == 0 {
                PaneBodyView::Message(
                    if running_spec(st.started_at, st.finished_at) {
                        "(environment appears when the step finishes)"@
                    } else {
                        "(no environment captured for this step)"@
                    },
                )
            } else {
                PaneBodyView::Rows(
                    seq![
                        (decimal(st.env@.len()) + " variables · secret values masked"@, Role::Muted),
                        (Seq::<char>::empty(), Role::Plain),
                    ] + kv_texts(st.env@).map_values(|t: Seq<char>| (t, Role::Dim)),
                )
            },
        ),
        None => ("Environment"@, PaneBodyView::Message("(select a step on the left)"@)),
    }
}

fn push_texts(rows: &mut Vec<(String, Role)>, texts: Vec<String>, indent: bool, role: Role)
    ensures
        spans_view(final(rows)@) == spans_view(old(rows)@) + texts@.map_values(
            |s: String| ((if indent { seq![' ', ' '] } else { Seq::empty() }) + s@, role),
        ),
{
    let ghost base = spans_view(rows@);
    let ghost tv = texts@.map_values(|s: String| ((if indent { seq![' ', ' '] } else { Seq::empty() }) + s@, role));
    let mut i: usize = 0;
    while i < texts.len()
        invariant
            i <= texts.len(),
            tv == texts@.map_values(|s: String| ((if indent { seq![' ', ' '] } else { Seq::empty() }) + s@, role)),
            spans_view(rows@) == base + tv.take(i as int),
        decreases texts.len() - i,
    {
        let mut v: Vec<char> = Vec::new();
        if indent {
            v.push(' ');
            v.push(' ');
        }
        push_str(&mut v, texts[i].as_str());
        assert(v@ =~= (if indent { seq![' ', ' '] } else { Seq::<char>::empty() }) + texts@[i as int]@);
        assert(tv[i as int] == (v@, role));
        let ghost before = spans_view(rows@);
        rows.push((string_of(v.as_slice()), role));
        assert(spans_view(rows@) =~= before.push(tv[i as int]));
        assert(tv.take(i + 1) =~= tv.take(i as int).push(tv[i as int]));
        i += 1;
    }
    assert(tv.take(texts.len() as int) =~= tv);
}

/// The Env pane for the selected step.
pub fn env_pane(steps: &Vec<StepExecution>, selected: Option<usize>) -> (p: Pane)
    ensures
        p@ == env_pane_spec(steps@, selected),
{
    match pick_step(steps, selected) {
        Some(st) => {
            let mut t = chars_of("Environment — ");
            push_str(&mut t, st.name.as_str());
            let title = string_of(t.as_slice());
            if st.env.len() == 0 {
                let msg = if st.is_running() {
                    owned("(environment appears when the step finishes)")
                } else {
                    owned("(no environment captured for this step)")
                };
                return Pane { title, body: PaneBody::Message(msg) };
            }
            let mut rows: Vec<(String, Role)> = Vec::new();
            let mut h: Vec<char> = Vec::new();
            push_decimal(&mut h, st.env.len() as u128);
            push_str(&mut h, " variables · secret values masked");
            rows.push((string_of(h.as_slice()), Role::Muted));
            rows.push((String::new(), Role::Plain));
            let ghost head = spans_view(rows@);
            push_texts(&mut rows, kv_strings(&st.env), false, Role::Dim);
            proof {
                let kv = kv_texts(st.env@);
                assert(kv.map_values(|t: Seq<char>| (t, Role::Dim)) =~= kv.map_values(
                    |t: Seq<char>| (Seq::<char>::empty() + t, Role::Dim),
                ));
                assert(spans_view(rows@) =~= env_pane_spec(steps@, selected).1->Rows_0);
            }
            Pane { title, body: PaneBody::Rows(rows) }
        },
        None => Pane { title: owned("Environment"), body: PaneBody::Message(owned("(select a step on the left)")) },
    }
}


/// `rows` followed by a titled section of `entries` (nothing when there
/// are none): a blank separator when `rows` is not empty, `"<name> — <n>"`,
/// then each entry indented.
pub open spec fn file_section(rows: Seq<(Seq<char>, Role)>, name: Seq<char>, entries: Seq<Seq<char>>) -> Seq<(Seq<char>, Role)> {
    if entries.len() == 0 {
        rows
    } else {
        (if rows.len() > 0 { rows.push((Seq::empty(), Role::Plain)) } else { rows }).push(
            (name + " — "@ + decimal(entries.len()), Role::AccentStrong),
        ) + entries.map_values(|e: Seq<char>| (seq![' ', ' '] + e, Role::Dim))
    }
}

/// The Files pane's rows: what the step wrote to `$GITHUB_OUTPUT`,
/// `$GITHUB_ENV` and `$GITHUB_PATH`.
pub open spec fn files_rows_spec(st: StepExecution) -> Seq<(Seq<char>, Role)> {
    file_section(
        file_section(
            file_section(Seq::empty(), "$GITHUB_OUTPUT"@, kv_texts(st.outputs@)),
            "$GITHUB_ENV"@,
            kv_texts(st.env_writes@),
        ),
        "$GITHUB_PATH"@,
        st.path_writes@.map_values(|s: String| s@),
    )
}

/// Where a section lands: after the earlier rows (and a blank one when
/// there are any), its heading, then its entries; earlier rows stay put.
proof fn lemma_file_section_layout(rows: Seq<(Seq<char>, Role)>, name: Seq<char>, entries: Seq<Seq<char>>)
    ensures
        file_section(rows, name, entries).len() >= rows.len(),
        forall|x: int| 0 <= x < rows.len() ==> #[trigger] file_section(rows, name, entries)[x] == rows[x],
        entries.len() > 0 ==> {
            let h = rows.len() + (if rows.len() > 0 { 1int } else { 0int });
            &&& file_section(rows, name, entries)[h] == (name + " — "@ + decimal(entries.len()), Role::AccentStrong)
            &&& forall|t: int| 0 <= t < entries.len() ==> #[trigger] file_section(rows, name, entries)[h + 1 + t]
                == (seq![' ', ' '] + entries[t], Role::Dim)
        },
{
}

/// Whether `rows` hold a heading `"<name> — <n>"` followed by one row
/// `"  key=value"` per pair, in order.
pub open spec fn pairs_listed(rows: Seq<(Seq<char>, Role)>, name: Seq<char>, pairs: Seq<(String, String)>) -> bool {
    exists|h: int| {
        &&& 0 <= h && h + pairs.len() < rows.len()
        &&& #[trigger] rows[h] == (name + " — "@ + decimal(pairs.len()), Role::AccentStrong)
        &&& forall|t: int| 0 <= t < pairs.len() ==> rows[h + 1 + t] == ("  "@ + (#[trigger] pairs[t]).0@ + "="@ + pairs[t].1@, Role::Dim)
    }
}

/// Whether `rows` hold a heading `"<name> — <n>"` followed by one row
/// `"  <path>"` per path, in order.
pub open spec fn paths_listed(rows: Seq<(Seq<char>, Role)>, name: Seq<char>, paths: Seq<String>) -> bool {
    exists|h: int| {
        &&& 0 <= h && h + paths.len() < rows.len()
        &&& #[trigger] rows[h] == (name + " — "@ + decimal(paths.len()), Role::AccentStrong)
        &&& forall|t: int| 0 <= t < paths.len() ==> rows[h + 1 + t] == ("  "@ + (#[trigger] paths[t])@, Role::Dim)
    }
}

/// For a finished step that wrote anything, the Files pane shows rows,
/// and every write is listed under its file's heading with the count:
/// each `$GITHUB_OUTPUT` and `$GITHUB_ENV` pair as `"  key=value"`, each
/// `$GITHUB_PATH` entry as `"  <path>"`.
pub proof fn law_files_pane_lists_every_write(steps: Seq<StepExecution>, selected: Option<usize>)
    requires
        selected_step(steps, selected) matches Some(st) && !running_spec(st.started_at, st.finished_at)
            && (st.outputs@.len() > 0 || st.env_writes@.len() > 0 || st.path_writes@.len() > 0),
    ensures
        files_pane_spec(steps, selected).1 matches PaneBodyView::Rows(rows) && rows.len() > 0 && {
            let st = selected_step(steps, selected)->0;
            &&& (st.outputs@.len() > 0 ==> pairs_listed(rows, "$GITHUB_OUTPUT"@, st.outputs@))
            &&& (st.env_writes@.len() > 0 ==> pairs_listed(rows, "$GITHUB_ENV"@, st.env_writes@))
            &&& (st.path_writes@.len() > 0 ==> paths_listed(rows, "$GITHUB_PATH"@, st.path_writes@))
        },
{
    reveal_strlit("  ");
    reveal_strlit("=");
    let st = selected_step(steps, selected)->0;
    let ko = kv_texts(st.outputs@);
    let ke = kv_texts(st.env_writes@);
    let kp = st.path_writes@.map_values(|s: String| s@);
    let r1 = file_section(Seq::empty(), "$GITHUB_OUTPUT"@, ko);
    let r2 = file_section(r1, "$GITHUB_ENV"@, ke);
    let r3 = file_section(r2, "$GITHUB_PATH"@, kp);
    lemma_file_section_layout(Seq::empty(), "$GITHUB_OUTPUT"@, ko);
    lemma_file_section_layout(r1, "$GITHUB_ENV"@, ke);
    lemma_file_section_layout(r2, "$GITHUB_PATH"@, kp);
    assert(r3 == files_rows_spec(st));
    if st.outputs@.len() > 0 {
        let h = 0int;
        assert(r3[h] == r1[h]);
        assert forall|t: int| 0 <= t < st.outputs@.len() implies r3[h + 1 + t]
            == ("  "@ + (#[trigger] st.outputs@[t]).0@ + "="@ + st.outputs@[t].1@, Role::Dim) by {
            assert(r3[h + 1 + t] == r2[h + 1 + t]);
            assert(r2[h + 1 + t] == r1[h + 1 + t]);
            assert(ko[t] == st.outputs@[t].0@ + seq!['='] + st.outputs@[t].1@);
            assert(seq![' ', ' '] + ko[t] =~= "  "@ + st.outputs@[t].0@ + "="@ + st.outputs@[t].1@);
        }
        assert(pairs_listed(r3, "$GITHUB_OUTPUT"@, st.outputs@));
    }
    if st.env_writes@.len() > 0 {
        let h = r1.len() + (if r1.len() > 0 { 1int } else { 0int });
        assert(r3[h] == r2[h]);
        assert forall|t: int| 0 <= t < st.env_writes@.len() implies r3[h + 1 + t]
            == ("  "@ + (#[trigger] st.env_writes@[t]).0@ + "="@ + st.env_writes@[t].1@, Role::Dim) by {
            assert(r3[h + 1 + t] == r2[h + 1 + t]);
            assert(ke[t] == st.env_writes@[t].0@ + seq!['='] + st.env_writes@[t].1@);
            assert(seq![' ', ' '] + ke[t] =~= "  "@ + st.env_writes@[t].0@ + "="@ + st.env_writes@[t].1@);
        }
        assert(pairs_listed(r3, "$GITHUB_ENV"@, st.env_writes@));
    }
    if st.path_writes@.len() > 0 {
        let h = r2.len() + (if r2.len() > 0 { 1int } else { 0int });
        assert forall|t: int| 0 <= t < st.path_writes@.len() implies r3[h + 1 + t]
            == ("  "@ + (#[trigger] st.path_writes@[t])@, Role::Dim) by {
            assert(kp[t] == st.path_writes@[t]@);
            assert(seq![' ', ' '] + kp[t] =~= "  "@ + st.path_writes@[t]@);
        }
        assert(paths_listed(r3, "$GITHUB_PATH"@, st.path_writes@));
    }
}

/// The Files pane for the selected step.
pub open spec fn files_pane_spec(steps: Seq<StepExecution>, selected: Option<usize>) -> (Seq<char>, PaneBodyView) {
    match selected_step(steps, selected) {
        Some(st) => (
            "Environment files — "@ + st.name@,
            if running_spec(st.started_at, st.finished_at) {
                PaneBodyView::Message("(file writes appear when the step finishes)"@)
            } else if st.outputs@.len() == 0 && st.env_writes@.len() == 0 && st.path_writes@.len() == 0 {
                PaneBodyView::Message(
                    "this step wrote nothing to $GITHUB_OUTPUT, $GITHUB_ENV or $GITHUB_PATH"@,
                )
            } else {
                PaneBodyView::Rows(files_rows_spec(st))
            },
        ),
        None => ("Environment files"@, PaneBodyView::Message("(select a step on the left)"@)),
    }
}

fn push_file_section(rows: &mut Vec<(String, Role)>, name: &str, entries: Vec<String>)
    ensures
        spans_view(final(rows)@) == file_section(spans_view(old(rows)@), name@, entries@.map_values(|s: String| s@)),
{
    let ghost ev = entries@.map_values(|s: String| s@);
    if entries.len() == 0 {
        return;
    }
    if rows.len() > 0 {
        rows.push((String::new(), Role::Plain));
    }
    let mut h = chars_of(name);
    push_str(&mut h, " — ");
    push_decimal(&mut h, entries.len() as u128);
    rows.push((string_of(h.as_slice()), Role::AccentStrong));
    let ghost head = spans_view(rows@);
    push_texts(rows, entries, true, Role::Dim);
    proof {
        let ghost tv = entries@.map_values(|s: String| ((if true { seq![' ', ' '] } else { Seq::<char>::empty() }) + s@, Role::Dim));
        assert(tv =~= ev.map_values(|e: Seq<char>| (seq![' ', ' '] + e, Role::Dim)));
        assert(spans_view(rows@) =~= file_section(spans_view(old(rows)@), name@, ev));
    }
}

fn copy_strings(v: &Vec<String>) -> (r: Vec<String>)
    ensures
        r@.map_values(|s: String| s@) == v@.map_values(|s: String| s@),
{
    let mut r: Vec<String> = Vec::new();
    let mut i: usize = 0;
    while i < v.len()
        invariant
            i <= v.len(),
            r@.len() == i,
            forall|j: int| 0 <= j < i ==> (#[trigger] r@[j])@ == v@[j]@,
        decreases v.len() - i,
    {
        r.push(owned(v[i].as_str()));
        i += 1;
    }
    assert(r@.map_values(|s: String| s@) =~= v@.map_values(|s: String| s@));
    r
}

/// The Files pane for the selected step.
pub fn files_pane(steps: &Vec<StepExecution>, selected: Option<usize>) -> (p: Pane)
    ensures
        p@ == files_pane_spec(steps@, selected),
{
    match pick_step(steps, selected) {
        Some(st) => {
            let mut t = chars_of("Environment files — ");
            push_str(&mut t, st.name.as_str());
            let title = string_of(t.as_slice());
            if st.is_running() {
                return Pane { title, body: PaneBody::Message(owned("(file writes appear when the step finishes)")) };
            }
            if st.outputs.len() == 0 && st.env_writes.len() == 0 && st.path_writes.len() == 0 {
                return Pane {
                    title,
                    body: PaneBody::Message(
                        owned("this step wrote nothing to $GITHUB_OUTPUT, $GITHUB_ENV or $GITHUB_PATH"),
                    ),
                };
            }
            let mut rows: Vec<(String, Role)> = Vec::new();
            assert(spans_view(rows@) =~= Seq::<(Seq<char>, Role)>::empty());
            push_file_section(&mut rows, "$GITHUB_OUTPUT", kv_strings(&st.outputs));
            push_file_section(&mut rows, "$GITHUB_ENV", kv_strings(&st.env_writes));
            push_file_section(&mut rows, "$GITHUB_PATH", copy_strings(&st.path_writes));
            Pane { title, body: PaneBody::Rows(rows) }
        },
        None => Pane { title: owned("Environment files"), body: PaneBody::Message(owned("(select a step on the left)")) },
    }
}


/// `s` cut into pieces of `w` characters (the last one shorter); an empty
/// `s` gives one empty piece.
pub open spec fn chunks_spec(s: Seq<char>, w: nat) -> Seq<Seq<char>>
    decreases s.len(),
{
    if s.len() <= w || w == 0 {
        seq![s]
    } else {
        seq![s.take(w as int)] + chunks_spec(s.skip(w as int), w)
    }
}

/// Each row wrapped to `w` columns, every piece keeping its row's style.
pub open spec fn wrap_rows_spec(rows: Seq<(Seq<char>, Role)>, w: nat) -> Seq<(Seq<char>, Role)>
    decreases rows.len(),
{
    if rows.len() == 0 {
        Seq::empty()
    } else {
        wrap_rows_spec(rows.drop_last(), w) + chunks_spec(rows.last().0, w).map_values(
            |c: Seq<char>| (c, rows.last().1),
        )
    }
}

/// The visible part of a scrollable pane: the rows shown, the first row
/// shown, and every wrapped row's text.
pub struct ScrollView {
    pub lines: Vec<(String, Role)>,
    pub scroll: usize,
    pub wrapped: Vec<String>,
}

/// The first wrapped row shown: the requested one, kept so that the pane
/// stays filled when it can be.
pub open spec fn clamp_scroll(req: nat, total: nat, max_rows: nat) -> nat {
    let room: nat = if max_rows < total { (total - max_rows) as nat } else { 0 };
    if req < room { req } else { room }
}

/// A scrollable pane `width` × `height`: rows wrapped to the width (at
/// least one column), the window from the clamped scroll position, and the
/// dragged range `[lo, hi]` (wrapped-row indices) shown selected.
pub open spec fn scroll_view_spec(
    rows: Seq<(Seq<char>, Role)>,
    width: u16,
    height: u16,
    req: usize,
    drag: Option<(usize, usize)>,
) -> (Seq<(Seq<char>, Role)>, nat, Seq<Seq<char>>) {
    let w: nat = if width == 0 { 1 } else { width as nat };
    let wr = wrap_rows_spec(rows, w);
    let total = wr.len();
    let scroll = clamp_scroll(req as nat, total, height as nat);
    let end: nat = if scroll + (height as nat) < total { scroll + (height as nat) } else { total };
    (
        Seq::new(
            (end - scroll) as nat,
            |k: int|
                {
                    let idx = scroll + k;
                    (
                        wr[idx].0,
                        match drag {
                            Some((lo, hi)) => if lo <= idx <= hi { Role::Selected } else { wr[idx].1 },
                            None => wr[idx].1,
                        },
                    )
                },
        ),
        scroll,
        wr.map_values(|p: (Seq<char>, Role)| p.0),
    )
}

fn chunk_row(out: &mut Vec<(String, Role)>, s: &[char], w: usize, role: Role)
    requires
        w >= 1,
    ensures
        spans_view(final(out)@) == spans_view(old(out)@) + chunks_spec(s@, w as nat).map_values(
            |c: Seq<char>| (c, role),
        ),
{
    let ghost base = spans_view(out@);
    let mut i: usize = 0;
    let ghost mut done: Seq<Seq<char>> = Seq::empty();
    assert(s@.skip(0) =~= s@);
    while s.len() - i > w
        invariant
            i <= s.len(),
            w >= 1,
            chunks_spec(s@, w as nat) == done + chunks_spec(s@.skip(i as int), w as nat),
            spans_view(out@) == base + done.map_values(|c: Seq<char>| (c, role)),
        decreases s.len() - i,
    {
        let mut piece: Vec<char> = Vec::new();
        let mut j: usize = 0;
        while j < w
            invariant
                j <= w,
                i + w < s.len(),
                piece@ == s@.subrange(i as int, i + j),
            decreases w - j,
        {
            piece.push(s[i + j]);
            assert(s@.subrange(i as int, i + j).push(s@[i + j]) =~= s@.subrange(i as int, i + j + 1));
            j += 1;
        }
        let ghost rest = s@.skip(i as int);
        assert(rest.take(w as int) =~= piece@);
        assert(rest.skip(w as int) =~= s@.skip(i + w));
        let ghost before = spans_view(out@);
        out.push((string_of(piece.as_slice()), role));
        proof {
            assert(spans_view(out@) =~= before.push((piece@, role)));
            assert(done.push(piece@).map_values(|c: Seq<char>| (c, role)) =~= done.map_values(|c: Seq<char>| (c, role)).push((piece@, role)));
            assert(done + chunks_spec(rest, w as nat) =~= done.push(piece@) + chunks_spec(s@.skip(i + w), w as nat));
            done = done.push(piece@);
        }
        i += w;
    }
    let mut last: Vec<char> = Vec::new();
    let mut j = i;
    while j < s.len()
        invariant
            i <= j <= s.len(),
            last@ == s@.subrange(i as int, j as int),
        decreases s.len() - j,
    {
        last.push(s[j]);
        assert(s@.subrange(i as int, j as int).push(s@[j as int]) =~= s@.subrange(i as int, j + 1));
        j += 1;
    }
    assert(last@ =~= s@.skip(i as int));
    let ghost before = spans_view(out@);
    out.push((string_of(last.as_slice()), role));
    proof {
        assert(spans_view(out@) =~= before.push((last@, role)));
        assert(chunks_spec(s@.skip(i as int), w as nat) =~= seq![last@]);
        assert((done + seq![last@]).map_values(|c: Seq<char>| (c, role)) =~= done.map_values(|c: Seq<char>| (c, role)).push((last@, role)));
    }
}

/// Lays out a scrollable pane `width` × `height`: wraps the rows, clamps the
/// requested scroll position, and marks the dragged range.
pub fn scroll_view(rows: &Vec<(String, Role)>, width: u16, height: u16, req: usize, drag: Option<(usize, usize)>) -> (v: ScrollView)
    ensures
        (spans_view(v.lines@), v.scroll as nat, v.wrapped@.map_values(|s: String| s@)) == scroll_view_spec(
            spans_view(rows@),
            width,
            height,
            req,
            drag,
        ),
{
    let w: usize = if width == 0 { 1 } else { width as usize };
    let ghost rv = spans_view(rows@);
    let mut wrapped: Vec<(String, Role)> = Vec::new();
    let mut i: usize = 0;
    assert(rv.take(0) =~= Seq::<(Seq<char>, Role)>::empty());
    assert(spans_view(wrapped@) =~= wrap_rows_spec(rv.take(0), w as nat));
    while i < rows.len()
        invariant
            i <= rows.len(),
            w >= 1,
            rv == spans_view(rows@),
            spans_view(wrapped@) == wrap_rows_spec(rv.take(i as int), w as nat),
        decreases rows.len() - i,
    {
        let cs = chars_of(rows[i].0.as_str());
        chunk_row(&mut wrapped, cs.as_slice(), w, rows[i].1);
        assert(rv.take(i + 1).drop_last() =~= rv.take(i as int));
        assert(rv.take(i + 1).last() == (rows@[i as int].0@, rows@[i as int].1));
        i += 1;
    }
    assert(rv.take(rows.len() as int) =~= rv);
    let ghost wr = spans_view(wrapped@);
    let total = wrapped.len();
    let max_rows = height as usize;
    let room = if max_rows < total { total - max_rows } else { 0 };
    let scroll = if req < room { req } else { room };
    let end = if max_rows < total - scroll { scroll + max_rows } else { total };
    let mut lines: Vec<(String, Role)> = Vec::new();
    let mut k = scroll;
    while k < end
        invariant
            scroll <= k <= end <= total,
            total == wrapped@.len(),
            wr == spans_view(wrapped@),
            lines@.len() == k - scroll,
            forall|j: int|
                scroll <= j < k ==> spans_view(lines@)[j - scroll] == (
                    wr[j].0,
                    match drag {
                        Some((lo, hi)) => if lo <= j <= hi { Role::Selected } else { wr[j].1 },
                        None => wr[j].1,
                    },
                ),
        decreases end - k,
    {
        let role = match drag {
            Some((lo, hi)) => if lo <= k && k <= hi { Role::Selected } else { wrapped[k].1 },
            None => wrapped[k].1,
        };
        lines.push((owned(wrapped[k].0.as_str()), role));
        k += 1;
    }
    let mut texts: Vec<String> = Vec::new();
    let mut m: usize = 0;
    while m < wrapped.len()
        invariant
            m <= wrapped.len(),
            wr == spans_view(wrapped@),
            texts@.len() == m,
            forall|j: int| 0 <= j < m ==> (#[trigger] texts@[j])@ == wr[j].0,
        decreases wrapped.len() - m,
    {
        texts.push(owned(wrapped[m].0.as_str()));
        m += 1;
    }
    let v = ScrollView { lines, scroll, wrapped: texts };
    proof {
        let sp = scroll_view_spec(rv, width, height, req, drag);
        assert(spans_view(v.lines@) =~= sp.0);
        assert(v.wrapped@.map_values(|s: String| s@) =~= sp.2);
    }
    v
}


/// One row of the steps list.
pub struct StepListRow {
    /// The step's 1-based position, two digits, then a space.
    pub number: String,
    pub name: String,
    pub highlighted: bool,
    pub running: bool,
    /// Finished as skipped: the name is shown muted.
    pub muted: bool,
}

/// Whether `r` is the steps-list row for `steps[i]`.
pub open spec fn step_list_row_ok(r: StepListRow, st: StepExecution, i: int, selected: Option<usize>) -> bool {
    &&& r.number@ == decimal2((i + 1) as nat) + seq![' ']
    &&& r.name@ == st.name@
    &&& r.highlighted == (selected == Some(i as usize))
    &&& r.running == running_spec(st.started_at, st.finished_at)
    &&& r.muted == (st.status == StepStatus::Skipped && !running_spec(st.started_at, st.finished_at))
}

/// The rows of the steps list, the `selected` one highlighted.
pub fn steps_list(steps: &Vec<StepExecution>, selected: Option<usize>) -> (rows: Vec<StepListRow>)
    ensures
        rows@.len() == steps@.len(),
        forall|i: int| 0 <= i < steps@.len() ==> step_list_row_ok(#[trigger] rows@[i], steps@[i], i, selected),
{
    let mut rows: Vec<StepListRow> = Vec::new();
    let mut i: usize = 0;
    while i < steps.len()
        invariant
            i <= steps.len(),
            rows@.len() == i,
            forall|j: int| 0 <= j < i ==> step_list_row_ok(#[trigger] rows@[j], steps@[j], j, selected),
        decreases steps.len() - i,
    {
        let st = &steps[i];
        let mut num: Vec<char> = Vec::new();
        push_decimal2(&mut num, (i as u128) + 1);
        num.push(' ');
        let running = st.is_running();
        let muted = match st.status {
            StepStatus::Skipped => !running,
            _ => false,
        };
        let highlighted = match selected {
            Some(s) => s == i,
            None => false,
        };
        let row = StepListRow { number: string_of(num.as_slice()), name: owned(st.name.as_str()), highlighted, running, muted };
        assert(row.number@ == decimal2((i + 1) as nat) + seq![' ']);
        assert(row.highlighted == (selected == Some(i)));
        assert(row.muted == (st.status == StepStatus::Skipped && !running_spec(st.started_at, st.finished_at)));
        rows.push(row);
        i += 1;
    }
    rows
}

/// The breadcrumb's status badge text for a job.
pub open spec fn status_badge_spec(s: JobStatus) -> Seq<char> {
    match s {
        JobStatus::Success => "success"@,
        JobStatus::Failure => "failed"@,
        JobStatus::Skipped => "skipped"@,
    }
}

/// The breadcrumb's status badge text for a job.
pub fn status_badge(s: JobStatus) -> (r: &'static str)
    ensures
        r@ == status_badge_spec(s),
{
    match s {
        JobStatus::Success => "success",
        JobStatus::Failure => "failed",
        JobStatus::Skipped => "skipped",
    }
}

/// The breadcrumb's step count, `"   (<n> steps)"`.
pub fn steps_count_label(n: usize) -> (r: String)
    ensures
        r@ == "   ("@ + decimal(n as nat) + " steps)"@,
{
    let mut v = chars_of("   (");
    push_decimal(&mut v, n as u128);
    push_str(&mut v, " steps)");
    string_of(v.as_slice())
}

/// The inspector's tabs.
pub open spec fn tab_label(i: int) -> Seq<char> {
    if i == 0 {
        "Output"@
    } else if i == 1 {
        "Env"@
    } else if i == 2 {
        "Files"@
    } else if i == 3 {
        "Matrix"@
    } else {
        "Timeline"@
    }
}

/// The tab strip: each tab's label with a space either side (the `active`
/// one accented), `"·"` between tabs.
pub open spec fn tab_strip_spec(active: usize) -> Seq<(Seq<char>, Role)> {
    Seq::new(
        9,
        |k: int|
            if k % 2 == 0 {
                (seq![' '] + tab_label(k / 2) + seq![' '], if k / 2 == active { Role::AccentStrong } else { Role::Dim })
            } else {
                ("·"@, Role::Muted)
            },
    )
}

/// The tab strip with `active` accented.
pub fn tab_strip(active: usize) -> (line: Vec<(String, Role)>)
    ensures
        spans_view(line@) == tab_strip_spec(active),
{
    let mut line: Vec<(String, Role)> = Vec::new();
    let mut i: usize = 0;
    while i < 5
        invariant
            i <= 5,
            line@.len() == if i == 0 { 0 } else { 2 * i - 1 },
            forall|k: int| 0 <= k < line@.len() ==> spans_view(line@)[k] == tab_strip_spec(active)[k],
        decreases 5 - i,
    {
        let label = if i == 0 {
            "Output"
        } else if i == 1 {
            "Env"
        } else if i == 2 {
            "Files"
        } else if i == 3 {
            "Matrix"
        } else {
            "Timeline"
        };
        if i > 0 {
            line.push((owned("·"), Role::Muted));
        }
        let mut v: Vec<char> = vec![' '];
        push_str(&mut v, label);
        v.push(' ');
        let role = if i == active { Role::AccentStrong } else { Role::Dim };
        let ghost k = line@.len();
        line.push((string_of(v.as_slice()), role));
        assert(spans_view(line@)[k as int] == tab_strip_spec(active)[k as int]);
        i += 1;
    }
    assert(spans_view(line@) =~= tab_strip_spec(active));
    line
}

} // verus!
