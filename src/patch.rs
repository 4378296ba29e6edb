use vstd::prelude::*;

use crate::error::ScaffoldError;
use crate::locate::Position;
use crate::render::push_char;
use crate::trace::{first_at_or_after, lemma_first_at_or_after_bounds};

verus! {

/// How an edit places its text.
#[derive(Debug, Clone, Copy, PartialEq, Eq, Structural)]
pub enum EditMode {
    /// The text goes in as whole lines just before the named line; the column
    /// is not used.
    InsertBeforeLine,
    /// The text goes into the named line at the named column, with no line
    /// break added.
    SpliceAtColumn,
}

/// One positional change to a text.
#[derive(Debug)]
pub struct Edit {
    pub position: Position,
    pub text: String,
    pub mode: EditMode,
}

/// What an edit says: where, what text, and how.
pub type EditSpec = (Position, Seq<char>, EditMode);

/// What each edit of a batch says.
pub open spec fn edit_views(v: Seq<Edit>) -> Seq<EditSpec> {
    v.map_values(|e: Edit| (e.position, e.text@, e.mode))
}

/// Where the line that starts at `start` ends: just past its `\n`, or at the
/// end of the text.
pub open spec fn line_end(s: Seq<char>, start: int) -> int {
    let nl = first_at_or_after(s, '\n', start);
    if nl < s.len() {
        nl + 1
    } else {
        s.len() as int
    }
}

/// The lines of `s` from `start` on, each with its own terminator.
pub open spec fn lines_from(s: Seq<char>, start: int) -> Seq<Seq<char>>
    decreases s.len() - start,
    via lines_from_decreases
{
    if start < 0 || start >= s.len() {
        Seq::empty()
    } else {
        seq![s.subrange(start, line_end(s, start))] + lines_from(s, line_end(s, start))
    }
}

#[via_fn]
proof fn lines_from_decreases(s: Seq<char>, start: int) {
    if 0 <= start < s.len() {
        lemma_first_at_or_after_bounds(s, '\n', start);
    }
}

/// The lines of a text, each with its own terminator; a last line without
/// one is kept as it is.
pub open spec fn lines_of(s: Seq<char>) -> Seq<Seq<char>> {
    lines_from(s, 0)
}

/// The characters of each string.
pub open spec fn texts(v: Seq<String>) -> Seq<Seq<char>> {
    v.map_values(|c: String| c@)
}

/// Text to go in before a line, completed to whole lines.
pub open spec fn as_whole_lines(t: Seq<char>) -> Seq<char> {
    if t.len() > 0 && t.last() != '\n' {
        t.push('\n')
    } else {
        t
    }
}

/// Whether an edit names a line of `lines`, and for a splice a column of it.
pub open spec fn edit_fits(lines: Seq<Seq<char>>, e: EditSpec) -> bool {
    &&& 1 <= e.0.line <= lines.len()
    &&& e.2 == EditMode::SpliceAtColumn ==> e.0.column <= lines[e.0.line - 1].len()
}

/// The text that the splices at (`line`, `column`) put in, in the order given.
pub open spec fn splices_at(edits: Seq<EditSpec>, line: int, column: int) -> Seq<char>
    decreases edits.len(),
{
    if edits.len() == 0 {
        Seq::empty()
    } else {
        let e = edits.last();
        splices_at(edits.drop_last(), line, column) + if e.2 == EditMode::SpliceAtColumn
            && e.0.line as int == line && e.0.column as int == column {
            e.1
        } else {
            Seq::empty()
        }
    }
}

/// The whole lines that go in before `line`, in the order given.
pub open spec fn inserts_before(edits: Seq<EditSpec>, line: int) -> Seq<char>
    decreases edits.len(),
{
    if edits.len() == 0 {
        Seq::empty()
    } else {
        let e = edits.last();
        inserts_before(edits.drop_last(), line) + if e.2 == EditMode::InsertBeforeLine && e.0.line as int
            == line {
            as_whole_lines(e.1)
        } else {
            Seq::empty()
        }
    }
}

/// The original line `t` of number `line`, from column `i` on, with each
/// splice put in at the column of the original line that it names.
pub open spec fn spliced_from(t: Seq<char>, edits: Seq<EditSpec>, line: int, i: int) -> Seq<char>
    decreases t.len() - i,
{
    if i < 0 || i > t.len() {
        Seq::empty()
    } else if i == t.len() {
        splices_at(edits, line, i)
    } else {
        splices_at(edits, line, i) + seq![t[i]] + spliced_from(t, edits, line, i + 1)
    }
}

/// The original line `t` of number `line` after the whole batch of edits.
pub open spec fn edited_line(t: Seq<char>, edits: Seq<EditSpec>, line: int) -> Seq<char> {
    inserts_before(edits, line) + spliced_from(t, edits, line, 0)
}

/// The text that applying `edits` to `content` gives: every position is read
/// against the original text, so each text lands at the line and column it
/// names, as if the edits were applied in descending position order; texts
/// at one position keep the order given. An edit that does not fit the
/// original text makes the batch fail.
pub open spec fn patched(content: Seq<char>, edits: Seq<EditSpec>) -> Result<Seq<char>, ScaffoldError> {
    let lines = lines_of(content);
    if forall|k: int| 0 <= k < edits.len() ==> edit_fits(lines, #[trigger] edits[k]) {
        Ok(Seq::new(lines.len(), |l: int| edited_line(lines[l], edits, l + 1)).flatten())
    } else {
        Err(ScaffoldError::PositionOutOfRange)
    }
}

/// Joining the lines of a text from `start` on gives back that part of the text.
pub proof fn lemma_lines_from_flatten(s: Seq<char>, start: int)
    requires
        0 <= start <= s.len(),
    ensures
        lines_from(s, start).flatten() == s.skip(start),
    decreases s.len() - start,
{
    if start < s.len() {
        lemma_first_at_or_after_bounds(s, '\n', start);
        let e = line_end(s, start);
        lemma_lines_from_flatten(s, e);
        let l = lines_from(s, start);
        assert(l.first() == s.subrange(start, e));
        assert(l.drop_first() =~= lines_from(s, e));
        assert(s.skip(start) =~= s.subrange(start, e) + s.skip(e));
    } else {
        assert(s.skip(start) =~= Seq::<char>::empty());
    }
}

/// Joining the lines of a text gives back the text.
pub proof fn lemma_lines_round_trip(s: Seq<char>)
    ensures
        lines_of(s).flatten() == s,
{
    lemma_lines_from_flatten(s, 0);
    assert(s.skip(0) =~= s);
}

/// How many characters of `content` come before the original (line, column)
/// position `p`.
pub open spec fn offset_of(content: Seq<char>, p: Position) -> int {
    lines_of(content).take(p.line - 1).flatten().len() + p.column
}

/// What a batch of one edit puts in at one place.
proof fn lemma_one_edit(e: EditSpec, line: int, column: int)
    ensures
        splices_at(seq![e], line, column) == if e.2 == EditMode::SpliceAtColumn && e.0.line as int == line
            && e.0.column as int == column {
            e.1
        } else {
            Seq::<char>::empty()
        },
        inserts_before(seq![e], line) == if e.2 == EditMode::InsertBeforeLine && e.0.line as int == line {
            as_whole_lines(e.1)
        } else {
            Seq::<char>::empty()
        },
{
    let s = seq![e];
    assert(s.drop_last() =~= Seq::<EditSpec>::empty());
    assert(s.last() == e);
    assert(splices_at(Seq::<EditSpec>::empty(), line, column) == Seq::<char>::empty());
    assert(inserts_before(Seq::<EditSpec>::empty(), line) == Seq::<char>::empty());
    assert(Seq::<char>::empty() + e.1 =~= e.1);
    assert(Seq::<char>::empty() + as_whole_lines(e.1) =~= as_whole_lines(e.1));
    assert(Seq::<char>::empty() + Seq::<char>::empty() =~= Seq::<char>::empty());
}

/// Where no splice aims at a column of `line` from `i` on, the line stays as
/// it was from `i` on.
proof fn lemma_spliced_plain(t: Seq<char>, edits: Seq<EditSpec>, line: int, i: int)
    requires
        0 <= i <= t.len(),
        forall|j: int| i <= j <= t.len() ==> #[trigger] splices_at(edits, line, j) == Seq::<char>::empty(),
    ensures
        spliced_from(t, edits, line, i) == t.skip(i),
    decreases t.len() - i,
{
    if i < t.len() {
        lemma_spliced_plain(t, edits, line, i + 1);
        assert(splices_at(edits, line, i) == Seq::<char>::empty());
        assert(t.skip(i) =~= Seq::<char>::empty() + seq![t[i]] + t.skip(i + 1));
    } else {
        assert(splices_at(edits, line, i) == Seq::<char>::empty());
        assert(t.skip(i) =~= Seq::<char>::empty());
    }
}

/// A line that exactly one text is spliced into, at column `c`, read from `i`
/// up to that column.
proof fn lemma_spliced_once(t: Seq<char>, edits: Seq<EditSpec>, line: int, c: int, text: Seq<char>, i: int)
    requires
        0 <= i <= c <= t.len(),
        forall|j: int| 0 <= j <= t.len() ==> #[trigger] splices_at(edits, line, j) == if j == c {
            text
        } else {
            Seq::<char>::empty()
        },
    ensures
        spliced_from(t, edits, line, i) == t.subrange(i, c) + text + t.skip(c),
    decreases t.len() - i,
{
    assert(splices_at(edits, line, c) == text);
    if i < c {
        lemma_spliced_once(t, edits, line, c, text, i + 1);
        assert(splices_at(edits, line, i) == Seq::<char>::empty());
        assert(t.subrange(i, c) =~= seq![t[i]] + t.subrange(i + 1, c));
        assert(spliced_from(t, edits, line, i) =~= t.subrange(i, c) + text + t.skip(c));
    } else if c < t.len() {
        assert(forall|j: int| c + 1 <= j <= t.len() ==> #[trigger] splices_at(edits, line, j) == Seq::<char>::empty());
        lemma_spliced_plain(t, edits, line, c + 1);
        assert(t.skip(c) =~= seq![t[c]] + t.skip(c + 1));
        assert(spliced_from(t, edits, line, i) =~= t.subrange(i, c) + text + t.skip(c));
    } else {
        assert(spliced_from(t, edits, line, i) =~= t.subrange(i, c) + text + t.skip(c));
    }
}

/// A single splice that fits puts its text into the original text at the
/// character offset of its position, and keeps everything else as it was.
pub proof fn lemma_single_splice(content: Seq<char>, e: EditSpec)
    requires
        e.2 == EditMode::SpliceAtColumn,
        edit_fits(lines_of(content), e),
    ensures
        patched(content, seq![e]) == Ok::<Seq<char>, ScaffoldError>(
            content.take(offset_of(content, e.0)) + e.1 + content.skip(offset_of(content, e.0)),
        ),
{
    let lines = lines_of(content);
    let edits = seq![e];
    let i = e.0.line - 1;
    let c = e.0.column as int;
    let t = lines[i];
    assert(edits.drop_last() =~= Seq::<EditSpec>::empty());
    assert(forall|k: int| 0 <= k < edits.len() ==> edit_fits(lines, #[trigger] edits[k]));
    let new_line = t.take(c) + e.1 + t.skip(c);
    let ed = Seq::new(lines.len(), |l: int| edited_line(lines[l], edits, l + 1));
    lemma_one_edit(e, e.0.line as int, 0);
    assert forall|j: int| 0 <= j <= t.len() implies #[trigger] splices_at(edits, e.0.line as int, j) == if j
        == c {
        e.1
    } else {
        Seq::<char>::empty()
    } by {
        lemma_one_edit(e, e.0.line as int, j);
    }
    lemma_spliced_once(t, edits, e.0.line as int, c, e.1, 0);
    assert(t.subrange(0, c) =~= t.take(c));
    assert(ed[i] =~= new_line);
    assert forall|l: int| 0 <= l < lines.len() && l != i implies #[trigger] ed[l] == lines[l] by {
        lemma_one_edit(e, l + 1, 0);
        assert forall|j: int| 0 <= j <= lines[l].len() implies #[trigger] splices_at(edits, l + 1, j)
            == Seq::<char>::empty() by {
            lemma_one_edit(e, l + 1, j);
        }
        lemma_spliced_plain(lines[l], edits, l + 1, 0);
        assert(lines[l].skip(0) =~= lines[l]);
    }
    let before = lines.take(i);
    let after = lines.skip(i + 1);
    assert(ed =~= before + seq![new_line] + after);
    assert(lines =~= before + seq![t] + after);
    vstd::seq_lib::lemma_flatten_concat(before + seq![new_line], after);
    vstd::seq_lib::lemma_flatten_concat(before, seq![new_line]);
    vstd::seq_lib::lemma_flatten_concat(before + seq![t], after);
    vstd::seq_lib::lemma_flatten_concat(before, seq![t]);
    seq![new_line].lemma_flatten_one_element();
    seq![t].lemma_flatten_one_element();
    lemma_lines_round_trip(content);
    let a = before.flatten();
    let b = after.flatten();
    assert(content =~= a + t + b);
    let o = offset_of(content, e.0);
    assert(o == a.len() + c);
    assert(content.take(o) =~= a + t.take(c));
    assert(content.skip(o) =~= t.skip(c) + b);
    assert(ed.flatten() =~= content.take(o) + e.1 + content.skip(o));
}

/// Whether no two edits name the same line.
pub open spec fn on_distinct_lines(edits: Seq<EditSpec>) -> bool {
    forall|j: int, k: int| 0 <= j < k < edits.len() ==> #[trigger] edits[j].0.line != #[trigger] edits[k].0.line
}

/// Whether every edit is a splice.
pub open spec fn all_splices(edits: Seq<EditSpec>) -> bool {
    forall|k: int| 0 <= k < edits.len() ==> (#[trigger] edits[k]).2 == EditMode::SpliceAtColumn
}

/// Whether some edit names `line`.
pub open spec fn names_line(edits: Seq<EditSpec>, line: int) -> bool {
    exists|k: int| 0 <= k < edits.len() && (#[trigger] edits[k]).0.line as int == line
}

/// The original line `t` of number `line` with the text of the splice that
/// names it, if one does, put in at the column it names.
pub open spec fn line_with_splice(t: Seq<char>, edits: Seq<EditSpec>, line: int) -> Seq<char> {
    if names_line(edits, line) {
        let k = choose|k: int| 0 <= k < edits.len() && (#[trigger] edits[k]).0.line as int == line;
        t.take(edits[k].0.column as int) + edits[k].1 + t.skip(edits[k].0.column as int)
    } else {
        t
    }
}

proof fn lemma_no_inserts(edits: Seq<EditSpec>, line: int)
    requires
        all_splices(edits),
    ensures
        inserts_before(edits, line) == Seq::<char>::empty(),
    decreases edits.len(),
{
    if edits.len() > 0 {
        assert(all_splices(edits.drop_last()));
        lemma_no_inserts(edits.drop_last(), line);
        assert(edits.last() == edits[edits.len() - 1]);
        assert(Seq::<char>::empty() + Seq::<char>::empty() =~= Seq::<char>::empty());
    }
}

proof fn lemma_splices_on_distinct_lines(edits: Seq<EditSpec>, line: int, k: int, col: int)
    requires
        on_distinct_lines(edits),
        all_splices(edits),
        0 <= k < edits.len(),
        edits[k].0.line as int == line,
    ensures
        splices_at(edits, line, col) == if col == edits[k].0.column as int {
            edits[k].1
        } else {
            Seq::<char>::empty()
        },
    decreases edits.len(),
{
    let r = edits.drop_last();
    let n = edits.len() - 1;
    assert(edits.last() == edits[n]);
    if k == n {
        assert(!names_line(r, line)) by {
            if names_line(r, line) {
                let j = choose|j: int| 0 <= j < r.len() && (#[trigger] r[j]).0.line as int == line;
                assert(edits[j].0.line != edits[n].0.line);
            }
        }
        lemma_splices_unnamed(r, line, col);
        assert(Seq::<char>::empty() + edits[k].1 =~= edits[k].1);
        assert(Seq::<char>::empty() + Seq::<char>::empty() =~= Seq::<char>::empty());
    } else {
        assert(on_distinct_lines(r));
        assert(all_splices(r));
        assert(r[k] == edits[k]);
        lemma_splices_on_distinct_lines(r, line, k, col);
        assert(edits[k].0.line != edits[n].0.line);
        assert(splices_at(r, line, col) + Seq::<char>::empty() =~= splices_at(r, line, col));
    }
}

proof fn lemma_splices_unnamed(edits: Seq<EditSpec>, line: int, col: int)
    requires
        !names_line(edits, line),
    ensures
        splices_at(edits, line, col) == Seq::<char>::empty(),
    decreases edits.len(),
{
    if edits.len() > 0 {
        let r = edits.drop_last();
        assert(!names_line(r, line)) by {
            if names_line(r, line) {
                let j = choose|j: int| 0 <= j < r.len() && (#[trigger] r[j]).0.line as int == line;
                assert(edits[j] == r[j]);
            }
        }
        lemma_splices_unnamed(r, line, col);
        assert(edits.last() == edits[edits.len() - 1]);
        assert(Seq::<char>::empty() + Seq::<char>::empty() =~= Seq::<char>::empty());
    }
}

/// Splices that fit, on lines that no two of them share, each put their text
/// into their line at the column they name; every other line stays as it was.
pub proof fn lemma_splices_on_distinct_lines_land_in_place(content: Seq<char>, edits: Seq<EditSpec>)
    requires
        all_splices(edits),
        on_distinct_lines(edits),
        forall|k: int| 0 <= k < edits.len() ==> edit_fits(lines_of(content), #[trigger] edits[k]),
    ensures
        patched(content, edits) == Ok::<Seq<char>, ScaffoldError>(
            Seq::new(lines_of(content).len(), |l: int| line_with_splice(lines_of(content)[l], edits, l + 1)).flatten(),
        ),
{
    let lines = lines_of(content);
    let ed = Seq::new(lines.len(), |l: int| edited_line(lines[l], edits, l + 1));
    let want = Seq::new(lines.len(), |l: int| line_with_splice(lines[l], edits, l + 1));
    assert forall|l: int| 0 <= l < lines.len() implies #[trigger] ed[l] == want[l] by {
        let t = lines[l];
        lemma_no_inserts(edits, l + 1);
        if names_line(edits, l + 1) {
            let k = choose|k: int| 0 <= k < edits.len() && (#[trigger] edits[k]).0.line as int == l + 1;
            let c = edits[k].0.column as int;
            assert(edit_fits(lines, edits[k]));
            assert forall|j: int| 0 <= j <= t.len() implies #[trigger] splices_at(edits, l + 1, j) == if j == c {
                edits[k].1
            } else {
                Seq::<char>::empty()
            } by {
                lemma_splices_on_distinct_lines(edits, l + 1, k, j);
            }
            lemma_spliced_once(t, edits, l + 1, c, edits[k].1, 0);
            assert(t.subrange(0, c) =~= t.take(c));
            assert(ed[l] =~= want[l]);
        } else {
            assert forall|j: int| 0 <= j <= t.len() implies #[trigger] splices_at(edits, l + 1, j)
                == Seq::<char>::empty() by {
                lemma_splices_unnamed(edits, l + 1, j);
            }
            lemma_spliced_plain(t, edits, l + 1, 0);
            assert(t.skip(0) =~= t);
            assert(ed[l] =~= want[l]);
        }
    }
    assert(ed =~= want);
}

/// With no edits a line stays as it was.
proof fn lemma_no_edits_keep_line(t: Seq<char>, line: int, i: int)
    requires
        0 <= i <= t.len(),
    ensures
        spliced_from(t, Seq::empty(), line, i) == t.skip(i),
    decreases t.len() - i,
{
    if i < t.len() {
        lemma_no_edits_keep_line(t, line, i + 1);
        assert(t.skip(i) =~= seq![t[i]] + t.skip(i + 1));
    } else {
        assert(t.skip(i) =~= Seq::<char>::empty());
    }
}

/// Splits a text into lines, each with its own terminator.
pub fn split_lines(content: &str) -> (r: Vec<String>)
    ensures
        texts(r@) == lines_of(content@),
{
    let ghost s = content@;
    let n = content.unicode_len();
    let mut out: Vec<String> = Vec::new();
    let mut start: usize = 0;
    let mut i: usize = 0;
    while i < n
        invariant
            n == s.len(),
            s == content@,
            0 <= start <= i <= n,
            first_at_or_after(s, '\n', start as int) == first_at_or_after(s, '\n', i as int),
            lines_of(s) == texts(out@) + lines_from(s, start as int),
        decreases n - i,
    {
        if content.get_char(i) == '\n' {
            let line = content.substring_char(start, i + 1).to_owned();
            proof {
                let rest = lines_from(s, (i + 1) as int);
                assert(lines_from(s, start as int) == seq![line@] + rest);
                assert(texts(out@.push(line)) =~= texts(out@).push(line@));
                assert(texts(out@) + (seq![line@] + rest) =~= texts(out@).push(line@) + rest);
            }
            out.push(line);
            start = i + 1;
        }
        i = i + 1;
    }
    if start < n {
        let line = content.substring_char(start, n).to_owned();
        proof {
            assert(lines_from(s, start as int) =~= seq![line@] + lines_from(s, n as int));
            assert(texts(out@.push(line)) =~= texts(out@).push(line@));
        }
        out.push(line);
    }
    assert(texts(out@) =~= lines_of(s));
    out
}

/// Joins lines into one text.
pub fn join_lines(lines: &Vec<String>) -> (r: String)
    ensures
        r@ == texts(lines@).flatten(),
{
    let mut r = String::new();
    let mut k: usize = 0;
    while k < lines.len()
        invariant
            0 <= k <= lines@.len(),
            r@ == texts(lines@).take(k as int).flatten(),
        decreases lines@.len() - k,
    {
        proof {
            let t = texts(lines@);
            assert(t.take(k + 1) =~= t.take(k as int).push(t[k as int]));
            t.take(k as int).lemma_flatten_push(t[k as int]);
        }
        r.append(lines[k].as_str());
        k = k + 1;
    }
    assert(texts(lines@).take(k as int) =~= texts(lines@));
    r
}

/// The text that the splices of `edits` at (`line`, `column`) put in.
fn splices_at_position(edits: &Vec<Edit>, line: usize, column: usize) -> (r: String)
    ensures
        r@ == splices_at(edit_views(edits@), line as int, column as int),
{
    let ghost views = edit_views(edits@);
    let mut r = String::new();
    let mut k: usize = 0;
    while k < edits.len()
        invariant
            0 <= k <= edits@.len(),
            views == edit_views(edits@),
            r@ == splices_at(views.take(k as int), line as int, column as int),
        decreases edits@.len() - k,
    {
        let e = &edits[k];
        assert(views.take(k + 1).drop_last() =~= views.take(k as int));
        assert(views.take(k + 1).last() == (e.position, e.text@, e.mode));
        if e.mode == EditMode::SpliceAtColumn && e.position.line == line && e.position.column == column {
            r.append(e.text.as_str());
        } else {
            assert(r@ + Seq::<char>::empty() =~= r@);
        }
        k = k + 1;
    }
    assert(views.take(k as int) =~= views);
    r
}

/// The whole lines that `edits` put in before `line`.
fn inserts_before_line(edits: &Vec<Edit>, line: usize) -> (r: String)
    ensures
        r@ == inserts_before(edit_views(edits@), line as int),
{
    let ghost views = edit_views(edits@);
    let mut r = String::new();
    let mut k: usize = 0;
    while k < edits.len()
        invariant
            0 <= k <= edits@.len(),
            views == edit_views(edits@),
            r@ == inserts_before(views.take(k as int), line as int),
        decreases edits@.len() - k,
    {
        let e = &edits[k];
        assert(views.take(k + 1).drop_last() =~= views.take(k as int));
        assert(views.take(k + 1).last() == (e.position, e.text@, e.mode));
        if e.mode == EditMode::InsertBeforeLine && e.position.line == line {
            let ghost before = r@;
            let text = e.text.as_str();
            r.append(text);
            let m = text.unicode_len();
            if m > 0 && text.get_char(m - 1) != '\n' {
                r.append("\n");
                proof {
                    reveal_strlit("\n");
                }
            }
            assert(r@ =~= before + as_whole_lines(text@));
        } else {
            assert(r@ + Seq::<char>::empty() =~= r@);
        }
        k = k + 1;
    }
    assert(views.take(k as int) =~= views);
    r
}

/// The original line `t` of number `line` after the whole batch of edits.
fn edit_line(t: &str, edits: &Vec<Edit>, line: usize) -> (r: String)
    ensures
        r@ == edited_line(t@, edit_views(edits@), line as int),
{
    let ghost views = edit_views(edits@);
    let mut out = inserts_before_line(edits, line);
    let n = t.unicode_len();
    let mut i: usize = 0;
    while i < n
        invariant
            n == t@.len(),
            0 <= i <= n,
            views == edit_views(edits@),
            out@ + spliced_from(t@, views, line as int, i as int) == edited_line(t@, views, line as int),
        decreases n - i,
    {
        let ghost before = out@;
        let here = splices_at_position(edits, line, i);
        out.append(here.as_str());
        push_char(&mut out, t.get_char(i));
        assert(spliced_from(t@, views, line as int, i as int) == here@ + seq![t@[i as int]] + spliced_from(
            t@,
            views,
            line as int,
            i + 1,
        ));
        assert(out@ =~= before + here@ + seq![t@[i as int]]);
        assert(before + (here@ + seq![t@[i as int]] + spliced_from(t@, views, line as int, i + 1))
            =~= out@ + spliced_from(t@, views, line as int, i + 1));
        i = i + 1;
    }
    let last = splices_at_position(edits, line, n);
    out.append(last.as_str());
    out
}

/// Applies a batch of edits to a text. The text is taken as its lines, each
/// with its own terminator. Every position is read against the original text:
/// each text lands at the line and column it names, just as if the edits were
/// applied from the last position to the first, and texts aimed at one
/// position keep the order given. A position that names no line of the text,
/// or a column past the end of its line, is an error, and then nothing is
/// applied.
pub fn apply_edits(content: &str, edits: &Vec<Edit>) -> (r: Result<String, ScaffoldError>)
    ensures
        crate::message::text_result(r) == patched(content@, edit_views(edits@)),
        edits@.len() == 0 ==> (r matches Ok(t) && t@ == content@),
{
    let lines = split_lines(content);
    let ghost original = lines_of(content@);
    let ghost views = edit_views(edits@);
    let mut k: usize = 0;
    while k < edits.len()
        invariant
            0 <= k <= edits@.len(),
            original == texts(lines@),
            original == lines_of(content@),
            views == edit_views(edits@),
            forall|j: int| 0 <= j < k ==> edit_fits(original, #[trigger] views[j]),
        decreases edits@.len() - k,
    {
        let e = &edits[k];
        assert(views[k as int] == (e.position, e.text@, e.mode));
        let line = e.position.line;
        if line < 1 || line > lines.len() || (e.mode == EditMode::SpliceAtColumn
            && e.position.column > lines[line - 1].as_str().unicode_len()) {
            assert(!edit_fits(original, views[k as int]));
            return Err(ScaffoldError::PositionOutOfRange);
        }
        k = k + 1;
    }
    let mut out: Vec<String> = Vec::new();
    let mut l: usize = 0;
    while l < lines.len()
        invariant
            0 <= l <= lines@.len(),
            original == texts(lines@),
            original == lines_of(content@),
            forall|j: int| 0 <= j < edits@.len() ==> edit_fits(original, #[trigger] views[j]),
            views == edit_views(edits@),
            texts(out@) == Seq::new(l as nat, |x: int| edited_line(original[x], views, x + 1)),
        decreases lines@.len() - l,
    {
        let new_line = edit_line(lines[l].as_str(), edits, l + 1);
        let ghost before = out@;
        out.push(new_line);
        assert(original[l as int] == lines@[l as int]@);
        assert(texts(out@) =~= texts(before).push(new_line@));
        assert(texts(out@) =~= Seq::new((l + 1) as nat, |x: int| edited_line(original[x], views, x + 1)));
        l = l + 1;
    }
    let r = join_lines(&out);
    proof {
        assert(texts(out@) =~= Seq::new(original.len(), |x: int| edited_line(original[x], views, x + 1)));
        if edits@.len() == 0 {
            assert(views =~= Seq::<EditSpec>::empty());
            assert forall|x: int| 0 <= x < original.len() implies edited_line(original[x], views, x + 1)
                == original[x] by {
                lemma_no_edits_keep_line(original[x], x + 1, 0);
                assert(original[x].skip(0) =~= original[x]);
                assert(Seq::<char>::empty() + original[x] =~= original[x]);
            }
            assert(texts(out@) =~= original);
            lemma_lines_round_trip(content@);
        }
    }
    Ok(r)
}

} // verus!
