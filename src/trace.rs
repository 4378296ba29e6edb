use vstd::prelude::*;

use crate::error::ScaffoldError;

verus! {

/// The request half of a captured trace.
#[derive(Debug)]
pub struct Request {
    pub method: String,
    pub uri: String,
    pub raw: String,
}

/// The response half of a captured trace; `raw` is the base64 text of the
/// whole HTTP message, head and body.
#[derive(Debug)]
pub struct Response {
    pub status_code: u32,
    pub raw: String,
}

/// One captured request/response pair.
#[derive(Debug)]
pub struct RequestTrace {
    pub id: String,
    pub request: Request,
    pub response: Response,
}

/// The first index at or after `i` where `s` holds `c`, or `s.len()` if none does.
pub open spec fn first_at_or_after(s: Seq<char>, c: char, i: int) -> int
    decreases s.len() - i,
{
    if i >= s.len() {
        s.len() as int
    } else if s[i] == c {
        i
    } else {
        first_at_or_after(s, c, i + 1)
    }
}

/// The route path of a URI: everything before its first `?`.
pub open spec fn route_path_of(uri: Seq<char>) -> Seq<char> {
    uri.take(first_at_or_after(uri, '?', 0))
}

/// The search for `c` from `i` stops inside the text only on a `c`, and
/// passes nothing but other characters on the way.
pub proof fn lemma_first_at_or_after_bounds(s: Seq<char>, c: char, i: int)
    requires
        0 <= i <= s.len(),
    ensures
        i <= first_at_or_after(s, c, i) <= s.len(),
        first_at_or_after(s, c, i) < s.len() ==> s[first_at_or_after(s, c, i)] == c,
        forall|j: int| i <= j < first_at_or_after(s, c, i) ==> s[j] != c,
    decreases s.len() - i,
{
    if i < s.len() && s[i] != c {
        lemma_first_at_or_after_bounds(s, c, i + 1);
    }
}

impl Request {
    /// The URI with its query string, if any, removed.
    pub fn route_path(&self) -> (r: &str)
        ensures
            r@ == route_path_of(self.uri@),
            !self.uri@.contains('?') ==> r@ == self.uri@,
    {
        proof {
            lemma_first_at_or_after_bounds(self.uri@, '?', 0);
            if !self.uri@.contains('?') {
                assert(first_at_or_after(self.uri@, '?', 0) == self.uri@.len());
                assert(self.uri@.take(self.uri@.len() as int) =~= self.uri@);
            }
        }
        let uri = self.uri.as_str();
        let n = uri.unicode_len();
        let mut i: usize = 0;
        while i < n
            invariant
                n == uri@.len(),
                uri@ == self.uri@,
                0 <= i <= n,
                first_at_or_after(uri@, '?', 0) == first_at_or_after(uri@, '?', i as int),
            decreases n - i,
        {
            if uri.get_char(i) == '?' {
                return uri.substring_char(0, i);
            }
            i = i + 1;
        }
        uri.substring_char(0, n)
    }
}

/// Whether a trace's response carries the given status.
pub open spec fn has_status(t: RequestTrace, code: u32) -> bool {
    t.response.status_code == code
}

/// The traces whose response carries `code`, in capture order.
pub open spec fn traces_with_status(traces: Seq<RequestTrace>, code: u32) -> Seq<RequestTrace> {
    traces.filter(|t: RequestTrace| has_status(t, code))
}

/// The traces whose response carries `code`, in the order they were captured.
pub fn traces_for_code(traces: Vec<RequestTrace>, code: u32) -> (r: Vec<RequestTrace>)
    ensures
        r@ == traces_with_status(traces@, code),
{
    let ghost all = traces@;
    let mut rest = traces;
    let mut out: Vec<RequestTrace> = Vec::new();
    let ghost mut taken: int = 0;
    while rest.len() > 0
        invariant
            0 <= taken <= all.len(),
            rest@ == all.skip(taken),
            out@ == traces_with_status(all.take(taken), code),
        decreases rest.len(),
    {
        let t = rest.remove(0);
        proof {
            broadcast use Seq::lemma_filter_push;
            assert(all.take(taken + 1) =~= all.take(taken).push(t));
            taken = taken + 1;
        }
        if t.response.status_code == code {
            out.push(t);
        }
        assert(rest@ =~= all.skip(taken));
    }
    assert(all.take(taken) =~= all);
    out
}

/// The URIs of the traces whose response carries `code`, in capture order.
pub fn list_routes_for_code(traces: &Vec<RequestTrace>, code: u32) -> (r: Vec<String>)
    ensures
        r@.map_values(|u: String| u@) == traces_with_status(traces@, code).map_values(
            |t: RequestTrace| t.request.uri@,
        ),
{
    let mut out: Vec<String> = Vec::new();
    let mut i: usize = 0;
    while i < traces.len()
        invariant
            0 <= i <= traces@.len(),
            out@.map_values(|u: String| u@) == traces_with_status(traces@.take(i as int), code).map_values(
                |t: RequestTrace| t.request.uri@,
            ),
        decreases traces@.len() - i,
    {
        let t = &traces[i];
        proof {
            broadcast use Seq::lemma_filter_push;
            assert(traces@.take(i + 1) =~= traces@.take(i as int).push(*t));
        }
        if t.response.status_code == code {
            let uri = t.request.uri.clone();
            let ghost before = out@;
            out.push(uri);
            proof {
                assert(out@.map_values(|u: String| u@) =~= before.map_values(|u: String| u@).push(uri@));
                let f = traces_with_status(traces@.take(i as int), code);
                assert(f.push(*t).map_values(|t: RequestTrace| t.request.uri@)
                    =~= f.map_values(|t: RequestTrace| t.request.uri@).push(t.request.uri@));
            }
        }
        i = i + 1;
    }
    assert(traces@.take(i as int) =~= traces@);
    out
}

/// The URIs of the captured requests that were answered with 404.
pub fn list_404(traces: &Vec<RequestTrace>) -> (r: Vec<String>)
    ensures
        r@.map_values(|u: String| u@) == traces_with_status(traces@, 404).map_values(
            |t: RequestTrace| t.request.uri@,
        ),
{
    list_routes_for_code(traces, 404)
}

/// The URIs of the captured requests that were answered with 500.
pub fn list_500(traces: &Vec<RequestTrace>) -> (r: Vec<String>)
    ensures
        r@.map_values(|u: String| u@) == traces_with_status(traces@, 500).map_values(
            |t: RequestTrace| t.request.uri@,
        ),
{
    list_routes_for_code(traces, 500)
}

/// The first captured trace, in capture order, whose response carries `code`.
pub fn latest_trace_for_code(traces: Vec<RequestTrace>, code: u32) -> (r: Result<
    RequestTrace,
    ScaffoldError,
>)
    ensures
        traces_with_status(traces@, code).len() == 0 ==> r == Err::<RequestTrace, ScaffoldError>(
            ScaffoldError::NoTraceForStatus { code },
        ),
        traces_with_status(traces@, code).len() > 0 ==> r == Ok::<RequestTrace, ScaffoldError>(
            traces_with_status(traces@, code)[0],
        ),
{
    let mut found = traces_for_code(traces, code);
    if found.len() == 0 {
        Err(ScaffoldError::NoTraceForStatus { code })
    } else {
        Ok(found.remove(0))
    }
}

} // verus!
