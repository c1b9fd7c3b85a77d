//! Style roles: what a piece of text is, for the renderer to colour.

use vstd::prelude::*;

verus! {

/// The colour class of a bar: live rows, and the final statuses.
#[derive(Clone, Copy, Debug, PartialEq, Eq, Structural)]
pub enum Tone {
    Running,
    Success,
    Failure,
    Skipped,
}

/// The style role of a piece of text; the renderer maps roles to colours.
#[derive(Clone, Copy, Debug, PartialEq, Eq, Structural)]
pub enum Role {
    Plain,
    Accent,
    AccentStrong,
    Strong,
    Text,
    Dim,
    Muted,
    MutedDim,
    Border,
    Selected,
    Error,
    ErrorStrong,
    Heading,
    BadgeDim,
    BadgeWarning,
    BadgeError,
    Bar(Tone),
    /// A status glyph: the renderer draws the symbol for the tone
    /// (`Running` meaning not started).
    Glyph(Tone),
}

/// A line of styled pieces, as sequences.
pub open spec fn spans_view(v: Seq<(String, Role)>) -> Seq<(Seq<char>, Role)> {
    v.map_values(|p: (String, Role)| (p.0@, p.1))
}

/// Lines of styled pieces, as sequences.
pub open spec fn lines_view(v: Seq<Vec<(String, Role)>>) -> Seq<Seq<(Seq<char>, Role)>> {
    v.map_values(|l: Vec<(String, Role)>| spans_view(l@))
}

/// Appends a line.
pub fn push_line(lines: &mut Vec<Vec<(String, Role)>>, line: Vec<(String, Role)>)
    ensures
        lines_view(final(lines)@) == lines_view(old(lines)@).push(spans_view(line@)),
{
    let ghost l = line;
    lines.push(line);
    assert(lines_view(lines@) =~= lines_view(old(lines)@).push(spans_view(l@)));
}

/// Appends an empty line.
pub fn push_blank(lines: &mut Vec<Vec<(String, Role)>>)
    ensures
        lines_view(final(lines)@) == lines_view(old(lines)@).push(Seq::empty()),
{
    let blank: Vec<(String, Role)> = Vec::new();
    assert(spans_view(blank@) =~= Seq::<(Seq<char>, Role)>::empty());
    push_line(lines, blank);
}

/// A line of one piece.
pub fn single(text: String, role: Role) -> (line: Vec<(String, Role)>)
    ensures
        spans_view(line@) == seq![(text@, role)],
{
    let ghost t = text@;
    let mut line: Vec<(String, Role)> = Vec::new();
    line.push((text, role));
    assert(spans_view(line@) =~= seq![(t, role)]);
    line
}

} // verus!
