use vstd::prelude::*;

use crate::error::ScaffoldError;
use crate::message::text_result;

verus! {

/// A point in source text: `line` counts from 1, `column` counts characters
/// from 0.
#[derive(Debug, Clone, Copy, PartialEq, Eq)]
pub struct Position {
    pub line: usize,
    pub column: usize,
}

/// A span of source text, from its first token to the end of its last.
#[derive(Debug, Clone, Copy, PartialEq, Eq)]
pub struct Location {
    pub start: Position,
    pub end: Position,
}

/// An attribute found in the source: its tokens as printed, and its span.
#[derive(Debug)]
pub struct AttrNode {
    pub text: String,
    pub location: Location,
}

/// A method call found in the source: the method's name, and the span from
/// the `.` to the end of the call.
#[derive(Debug)]
pub struct CallNode {
    pub method: String,
    pub location: Location,
}

/// A function declaration found in the source: its name and the printed
/// tokens of each attribute attached to it.
#[derive(Debug)]
pub struct FnNode {
    pub name: String,
    pub attrs: Vec<String>,
}

/// The anchors of one source text, as a syntax tree walk reports them; a walk
/// may list a call before the calls nested in its receiver, so policies go by
/// the spans, not by the order of the lists. A text that does not parse has
/// no anchors.
#[derive(Debug)]
pub struct SourceScan {
    pub attrs: Vec<AttrNode>,
    pub calls: Vec<CallNode>,
    pub fns: Vec<FnNode>,
}

impl SourceScan {
    /// The scan of a text that does not parse: no anchors at all.
    pub fn unparsed() -> (r: SourceScan)
        ensures
            r.attrs@.len() == 0,
            r.calls@.len() == 0,
            r.fns@.len() == 0,
    {
        SourceScan { attrs: Vec::new(), calls: Vec::new(), fns: Vec::new() }
    }
}

/// How many matches a caller accepts.
#[derive(Debug, Clone, Copy, PartialEq, Eq)]
pub enum Cardinality {
    /// Exactly one match; none, or more than one, is an error.
    ExactlyOne,
    /// The match that starts last in the text; only none is an error.
    MostRecent,
}

/// Characters that printing tokens may put between them.
pub open spec fn is_layout(c: char) -> bool {
    c == ' ' || c == '\t' || c == '\n' || c == '\r'
}

/// A text with its layout characters removed.
pub open spec fn strip_layout(s: Seq<char>) -> Seq<char> {
    s.filter(|c: char| !is_layout(c))
}

/// Whether printed tokens, with layout removed, begin with `prefix`.
pub open spec fn tokens_start_with(text: Seq<char>, prefix: Seq<char>) -> bool {
    prefix.is_prefix_of(strip_layout(text))
}

/// The single match, or an error that says there were none or several.
pub open spec fn exactly_one<T>(found: Seq<T>) -> Result<T, ScaffoldError> {
    if found.len() == 0 {
        Err(ScaffoldError::NotFound)
    } else if found.len() == 1 {
        Ok(found[0])
    } else {
        Err(ScaffoldError::Ambiguous { count: found.len() as usize })
    }
}

/// Whether `a` comes no later than `b` in the text.
pub open spec fn at_or_before(a: Position, b: Position) -> bool {
    a.line < b.line || (a.line == b.line && a.column <= b.column)
}

/// The span among `found` that starts last in the text; of spans that start
/// at one place, the one listed last.
pub open spec fn latest_start(found: Seq<Location>) -> Location
    decreases found.len(),
{
    if found.len() <= 1 {
        found[0]
    } else {
        let earlier = latest_start(found.drop_last());
        if at_or_before(earlier.start, found.last().start) {
            found.last()
        } else {
            earlier
        }
    }
}

/// The span that a policy picks among the matches found.
pub open spec fn select(found: Seq<Location>, cardinality: Cardinality) -> Result<Location, ScaffoldError> {
    match cardinality {
        Cardinality::ExactlyOne => exactly_one(found),
        Cardinality::MostRecent => if found.len() == 0 {
            Err(ScaffoldError::NotFound)
        } else {
            Ok(latest_start(found))
        },
    }
}

/// The span that starts last is one of the spans, and none starts after it.
pub proof fn lemma_latest_start(found: Seq<Location>)
    requires
        found.len() > 0,
    ensures
        found.contains(latest_start(found)),
        forall|k: int| 0 <= k < found.len() ==> at_or_before(#[trigger] found[k].start, latest_start(found).start),
    decreases found.len(),
{
    if found.len() > 1 {
        let rest = found.drop_last();
        lemma_latest_start(rest);
        let e = latest_start(rest);
        let j = choose|j: int| 0 <= j < rest.len() && rest[j] == e;
        assert(found[j] == e);
        assert forall|k: int| 0 <= k < found.len() implies at_or_before(#[trigger] found[k].start, latest_start(found).start) by {
            if k < found.len() - 1 {
                assert(found[k] == rest[k]);
            }
        }
        if at_or_before(e.start, found.last().start) {
            assert(found[found.len() - 1] == latest_start(found));
        }
    } else {
        assert(found[0] == latest_start(found));
    }
}

/// The spans of the attributes whose printed tokens begin with `prefix`.
pub open spec fn matching_attr_locations(attrs: Seq<AttrNode>, prefix: Seq<char>) -> Seq<Location> {
    attrs.filter(|a: AttrNode| tokens_start_with(a.text@, prefix)).map_values(|a: AttrNode| a.location)
}

/// The spans of the calls of the method named `method`.
pub open spec fn matching_call_locations(calls: Seq<CallNode>, method: Seq<char>) -> Seq<Location> {
    calls.filter(|c: CallNode| c.method@ == method).map_values(|c: CallNode| c.location)
}

/// Whether some attribute of a function begins with `prefix`.
pub open spec fn fn_has_attr(f: FnNode, prefix: Seq<char>) -> bool {
    exists|k: int| 0 <= k < f.attrs@.len() && tokens_start_with(#[trigger] f.attrs@[k]@, prefix)
}

/// The names of the functions that carry an attribute beginning with `prefix`.
pub open spec fn matching_fn_names(fns: Seq<FnNode>, prefix: Seq<char>) -> Seq<Seq<char>> {
    fns.filter(|f: FnNode| fn_has_attr(f, prefix)).map_values(|f: FnNode| f.name@)
}

/// Under the exactly-one policy a search succeeds exactly when one match was
/// found, and then gives that match; otherwise it reports none or several.
pub proof fn lemma_exactly_one<T>(found: Seq<T>)
    ensures
        exactly_one(found) is Ok <==> found.len() == 1,
        found.len() == 1 ==> exactly_one(found) == Ok::<T, ScaffoldError>(found[0]),
        found.len() == 0 ==> exactly_one(found) == Err::<T, ScaffoldError>(ScaffoldError::NotFound),
        found.len() >= 2 ==> exactly_one(found) == Err::<T, ScaffoldError>(
            ScaffoldError::Ambiguous { count: found.len() as usize },
        ),
{
}

/// Under the most-recent policy a search fails only when nothing was found,
/// and otherwise gives a match that no other match starts after.
pub proof fn lemma_most_recent(found: Seq<Location>)
    ensures
        found.len() == 0 ==> select(found, Cardinality::MostRecent) == Err::<Location, ScaffoldError>(
            ScaffoldError::NotFound,
        ),
        found.len() > 0 ==> (select(found, Cardinality::MostRecent) matches Ok(m) && found.contains(m)
            && forall|k: int| 0 <= k < found.len() ==> at_or_before(#[trigger] found[k].start, m.start)),
{
    if found.len() > 0 {
        lemma_latest_start(found);
    }
}

/// There can be only one: the single element of `things`, or an error that
/// says there were none or several.
pub fn highlander<T>(things: Vec<T>) -> (r: Result<T, ScaffoldError>)
    ensures
        r == exactly_one(things@),
{
    let mut things = things;
    if things.len() == 0 {
        Err(ScaffoldError::NotFound)
    } else if things.len() != 1 {
        Err(ScaffoldError::Ambiguous { count: things.len() })
    } else {
        Ok(things.remove(0))
    }
}

/// The span among `found` that starts last in the text.
pub fn latest_location(found: &Vec<Location>) -> (r: Location)
    requires
        found@.len() > 0,
    ensures
        r == latest_start(found@),
{
    let mut best = found[0];
    let mut i: usize = 1;
    assert(found@.take(1).drop_last().len() == 0);
    while i < found.len()
        invariant
            1 <= i <= found@.len(),
            best == latest_start(found@.take(i as int)),
        decreases found@.len() - i,
    {
        let f = found[i];
        assert(found@.take(i + 1).drop_last() =~= found@.take(i as int));
        assert(found@.take(i + 1).last() == f);
        if best.start.line < f.start.line || (best.start.line == f.start.line && best.start.column
            <= f.start.column) {
            best = f;
        }
        i = i + 1;
    }
    assert(found@.take(i as int) =~= found@);
    best
}

/// The span that `cardinality` picks among `found`.
pub fn select_match(found: Vec<Location>, cardinality: Cardinality) -> (r: Result<Location, ScaffoldError>)
    ensures
        r == select(found@, cardinality),
{
    match cardinality {
        Cardinality::ExactlyOne => highlander(found),
        Cardinality::MostRecent => if found.len() == 0 {
            Err(ScaffoldError::NotFound)
        } else {
            Ok(latest_location(&found))
        },
    }
}

/// The spans of the attributes in `scan` whose printed tokens begin with
/// `prefix`, in the order the scan lists them.
pub fn find_attr_locations(scan: &SourceScan, prefix: &str) -> (r: Vec<Location>)
    ensures
        r@ == matching_attr_locations(scan.attrs@, prefix@),
{
    let attrs = &scan.attrs;
    let mut out: Vec<Location> = Vec::new();
    let mut i: usize = 0;
    while i < attrs.len()
        invariant
            0 <= i <= attrs@.len(),
            attrs@ == scan.attrs@,
            out@ == matching_attr_locations(attrs@.take(i as int), prefix@),
        decreases attrs@.len() - i,
    {
        let a = &attrs[i];
        proof {
            assert(attrs@.take(i + 1) =~= attrs@.take(i as int).push(*a));
            attrs@.take(i as int).lemma_filter_push(*a, |a: AttrNode| tokens_start_with(a.text@, prefix@));
        }
        if starts_with_ignoring_layout(a.text.as_str(), prefix) {
            out.push(a.location);
            proof {
                let f = attrs@.take(i as int).filter(|a: AttrNode| tokens_start_with(a.text@, prefix@));
                assert(f.push(*a).map_values(|a: AttrNode| a.location) =~= f.map_values(
                    |a: AttrNode| a.location,
                ).push(a.location));
            }
        }
        i = i + 1;
    }
    assert(attrs@.take(i as int) =~= attrs@);
    out
}

/// The spans of the calls in `scan` of the method named `method`, in document
/// order.
pub fn find_call_locations(scan: &SourceScan, method: &str) -> (r: Vec<Location>)
    ensures
        r@ == matching_call_locations(scan.calls@, method@),
{
    let calls = &scan.calls;
    let mut out: Vec<Location> = Vec::new();
    let mut i: usize = 0;
    while i < calls.len()
        invariant
            0 <= i <= calls@.len(),
            calls@ == scan.calls@,
            out@ == matching_call_locations(calls@.take(i as int), method@),
        decreases calls@.len() - i,
    {
        let c = &calls[i];
        proof {
            assert(calls@.take(i + 1) =~= calls@.take(i as int).push(*c));
            calls@.take(i as int).lemma_filter_push(*c, |c: CallNode| c.method@ == method@);
        }
        if same_text(c.method.as_str(), method) {
            out.push(c.location);
            proof {
                let f = calls@.take(i as int).filter(|c: CallNode| c.method@ == method@);
                assert(f.push(*c).map_values(|c: CallNode| c.location) =~= f.map_values(
                    |c: CallNode| c.location,
                ).push(c.location));
            }
        }
        i = i + 1;
    }
    assert(calls@.take(i as int) =~= calls@);
    out
}

/// Whether some attribute of `f` begins with `prefix`, layout ignored.
pub fn has_matching_attr(f: &FnNode, prefix: &str) -> (r: bool)
    ensures
        r == fn_has_attr(*f, prefix@),
{
    let mut k: usize = 0;
    while k < f.attrs.len()
        invariant
            0 <= k <= f.attrs@.len(),
            forall|j: int| 0 <= j < k ==> !tokens_start_with(#[trigger] f.attrs@[j]@, prefix@),
        decreases f.attrs@.len() - k,
    {
        if starts_with_ignoring_layout(f.attrs[k].as_str(), prefix) {
            return true;
        }
        k = k + 1;
    }
    false
}

/// The names of the functions in `scan` that carry an attribute beginning with
/// `prefix`, in the order the scan lists them.
pub fn find_fn_names(scan: &SourceScan, prefix: &str) -> (r: Vec<String>)
    ensures
        r@.map_values(|n: String| n@) == matching_fn_names(scan.fns@, prefix@),
{
    let fns = &scan.fns;
    let mut out: Vec<String> = Vec::new();
    let mut i: usize = 0;
    while i < fns.len()
        invariant
            0 <= i <= fns@.len(),
            fns@ == scan.fns@,
            out@.map_values(|n: String| n@) == matching_fn_names(fns@.take(i as int), prefix@),
        decreases fns@.len() - i,
    {
        let f = &fns[i];
        proof {
            assert(fns@.take(i + 1) =~= fns@.take(i as int).push(*f));
            fns@.take(i as int).lemma_filter_push(*f, |f: FnNode| fn_has_attr(f, prefix@));
        }
        if has_matching_attr(f, prefix) {
            let ghost before = out@;
            out.push(f.name.clone());
            proof {
                assert(out@.map_values(|n: String| n@) =~= before.map_values(|n: String| n@).push(f.name@));
                let g = fns@.take(i as int).filter(|f: FnNode| fn_has_attr(f, prefix@));
                assert(g.push(*f).map_values(|f: FnNode| f.name@) =~= g.map_values(
                    |f: FnNode| f.name@,
                ).push(f.name@));
            }
        }
        i = i + 1;
    }
    assert(fns@.take(i as int) =~= fns@);
    out
}

/// The span of the attribute that `cardinality` picks among those whose
/// printed tokens begin with `prefix`.
pub fn locate_attr(scan: &SourceScan, prefix: &str, cardinality: Cardinality) -> (r: Result<
    Location,
    ScaffoldError,
>)
    ensures
        r == select(matching_attr_locations(scan.attrs@, prefix@), cardinality),
{
    select_match(find_attr_locations(scan, prefix), cardinality)
}

/// The span of the call that `cardinality` picks among the calls of `method`.
pub fn locate_call(scan: &SourceScan, method: &str, cardinality: Cardinality) -> (r: Result<
    Location,
    ScaffoldError,
>)
    ensures
        r == select(matching_call_locations(scan.calls@, method@), cardinality),
{
    select_match(find_call_locations(scan, method), cardinality)
}

/// The name of the single function that carries an attribute beginning with
/// `prefix`.
pub fn locate_fn_name(scan: &SourceScan, prefix: &str) -> (r: Result<String, ScaffoldError>)
    ensures
        text_result(r) == exactly_one(matching_fn_names(scan.fns@, prefix@)),
{
    let names = find_fn_names(scan, prefix);
    let ghost views = names@.map_values(|n: String| n@);
    let r = highlander(names);
    proof {
        if names@.len() == 1 {
            assert(views[0] == names@[0]@);
        }
    }
    r
}

/// Whether two texts hold the same characters.
pub fn same_text(a: &str, b: &str) -> (r: bool)
    ensures
        r == (a@ == b@),
{
    let n = a.unicode_len();
    if n != b.unicode_len() {
        return false;
    }
    let mut i: usize = 0;
    while i < n
        invariant
            n == a@.len() == b@.len(),
            0 <= i <= n,
            a@.take(i as int) == b@.take(i as int),
        decreases n - i,
    {
        if a.get_char(i) != b.get_char(i) {
            return false;
        }
        assert(a@.take(i + 1) =~= a@.take(i as int).push(a@[i as int]));
        assert(b@.take(i + 1) =~= b@.take(i as int).push(b@[i as int]));
        i = i + 1;
    }
    assert(a@.take(n as int) =~= a@);
    assert(b@.take(n as int) =~= b@);
    true
}

/// Whether the printed tokens `text`, with layout removed, begin with `prefix`.
pub fn starts_with_ignoring_layout(text: &str, prefix: &str) -> (r: bool)
    ensures
        r == tokens_start_with(text@, prefix@),
{
    let n = text.unicode_len();
    let m = prefix.unicode_len();
    let mut i: usize = 0;
    let mut j: usize = 0;
    while i < n && j < m
        invariant
            n == text@.len(),
            m == prefix@.len(),
            0 <= i <= n,
            0 <= j <= m,
            strip_layout(text@.take(i as int)) == prefix@.take(j as int),
        decreases n - i,
    {
        let c = text.get_char(i);
        assert(text@.take(i + 1) =~= text@.take(i as int).push(c));
        proof {
            lemma_strip_push(text@.take(i as int), c);
        }
        if !(c == ' ' || c == '\t' || c == '\n' || c == '\r') {
            if c != prefix.get_char(j) {
                proof {
                    lemma_strip_split(text@, i + 1);
                    assert(strip_layout(text@)[j as int] == c);
                    assert(!prefix@.is_prefix_of(strip_layout(text@))) by {
                        if prefix@.is_prefix_of(strip_layout(text@)) {
                            assert(strip_layout(text@)[j as int] == prefix@[j as int]);
                        }
                    }
                }
                return false;
            }
            assert(prefix@.take(j + 1) =~= prefix@.take(j as int).push(c));
            j = j + 1;
        }
        i = i + 1;
    }
    proof {
        lemma_strip_split(text@, i as int);
        if j < m {
            assert(text@.take(i as int) =~= text@);
            assert(text@.skip(i as int) =~= Seq::<char>::empty());
            assert(strip_layout(text@.skip(i as int)) =~= Seq::<char>::empty()) by {
                reveal_with_fuel(Seq::filter, 1);
            }
        }
        assert(prefix@.take(j as int) =~= prefix@ ==> prefix@.is_prefix_of(strip_layout(text@)));
    }
    j == m
}

/// Removing layout from a text with one more character.
proof fn lemma_strip_push(s: Seq<char>, c: char)
    ensures
        strip_layout(s.push(c)) == if is_layout(c) {
            strip_layout(s)
        } else {
            strip_layout(s).push(c)
        },
{
    s.lemma_filter_push(c, |x: char| !is_layout(x));
}

/// Removing layout from a text removes it from each of its two parts.
proof fn lemma_strip_split(s: Seq<char>, i: int)
    requires
        0 <= i <= s.len(),
    ensures
        strip_layout(s) == strip_layout(s.take(i)) + strip_layout(s.skip(i)),
{
    broadcast use Seq::filter_distributes_over_add;

    assert(s =~= s.take(i) + s.skip(i));
}

} // verus!
