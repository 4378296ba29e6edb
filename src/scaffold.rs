use vstd::prelude::*;
use vstd::utf8::encode_utf8;

use crate::error::ScaffoldError;
use crate::locate::{
    locate_attr, locate_call, locate_fn_name, matching_attr_locations, matching_call_locations,
    matching_fn_names, select, exactly_one, Cardinality, SourceScan,
};
use crate::message::{extracted_body, text_result};
use crate::patch::{
    all_splices, apply_edits, edit_fits, edit_views, lemma_single_splice,
    lemma_splices_on_distinct_lines_land_in_place, line_with_splice, lines_of, offset_of,
    on_distinct_lines, patched, Edit, EditMode, EditSpec,
};
use crate::render::{
    derive_identifier, format_handler_fn, format_integration_test, format_regression_test,
    format_service_registration, handler_fn_text, identifier_of, integration_test_text,
    lemma_escaped_round_trip, registration_text, regression_test_text, route_attr, route_attr_text,
    escaped, unescape,
};
use crate::trace::{latest_trace_for_code, route_path_of, traces_with_status, RequestTrace};

verus! {

/// The printed start of the attribute that binds the root handler.
pub open spec fn root_handler_anchor() -> Seq<char> {
    "#[get(\"/\")"@
}

/// The printed attribute that marks an asynchronous test.
pub open spec fn test_anchor() -> Seq<char> {
    "#[actix_rt::test]"@
}

/// The method that registers a handler with the application.
pub open spec fn registration_method() -> Seq<char> {
    "service"@
}

/// The edits that add a handler for `uri`: the handler goes just before the
/// single root handler, a test for it just before the last test, and its
/// registration just after the last registration call.
pub open spec fn handler_edits(uri: Seq<char>, scan: SourceScan) -> Result<Seq<EditSpec>, ScaffoldError> {
    match select(matching_attr_locations(scan.attrs@, root_handler_anchor()), Cardinality::ExactlyOne) {
        Err(e) => Err(e),
        Ok(handler) => match select(matching_attr_locations(scan.attrs@, test_anchor()), Cardinality::MostRecent) {
            Err(e) => Err(e),
            Ok(test) => match select(matching_call_locations(scan.calls@, registration_method()), Cardinality::MostRecent) {
                Err(e) => Err(e),
                Ok(registration) => {
                    let name = identifier_of(uri);
                    Ok(seq![
                        (handler.start, handler_fn_text(name, route_path_of(uri)), EditMode::SpliceAtColumn),
                        (test.start, integration_test_text(name, uri), EditMode::SpliceAtColumn),
                        (registration.end, registration_text(name), EditMode::SpliceAtColumn),
                    ])
                },
            },
        },
    }
}

/// The edit that adds a regression test for `trace`: a test of the single
/// handler bound to the trace's route path, expecting the captured body, just
/// before the last test.
pub open spec fn regression_edits(trace: RequestTrace, scan: SourceScan) -> Result<Seq<EditSpec>, ScaffoldError> {
    let uri = trace.request.uri@;
    match exactly_one(matching_fn_names(scan.fns@, route_attr_text(route_path_of(uri)))) {
        Err(e) => Err(e),
        Ok(name) => match select(matching_attr_locations(scan.attrs@, test_anchor()), Cardinality::MostRecent) {
            Err(e) => Err(e),
            Ok(test) => match extracted_body(encode_utf8(trace.response.raw@)) {
                Err(e) => Err(e),
                Ok(body) => Ok(seq![
                    (test.start, regression_test_text(name, uri, body), EditMode::SpliceAtColumn),
                ]),
            },
        },
    }
}

/// When a handler can be planned and its three anchors lie on three different
/// lines of `content`, the new handler goes in at the start of the single root
/// handler attribute, the test for it at the start of the test attribute that
/// starts last, and its registration right after the registration call that
/// starts last; every line without an anchor stays as it was.
pub proof fn lemma_new_handler_placement(content: Seq<char>, uri: Seq<char>, scan: SourceScan)
    requires
        handler_edits(uri, scan) is Ok,
        on_distinct_lines(handler_edits(uri, scan)->Ok_0),
        forall|k: int|
            0 <= k < handler_edits(uri, scan)->Ok_0.len() ==> edit_fits(
                lines_of(content),
                #[trigger] handler_edits(uri, scan)->Ok_0[k],
            ),
    ensures
        ({
            let handler = select(matching_attr_locations(scan.attrs@, root_handler_anchor()), Cardinality::ExactlyOne)->Ok_0;
            let test = select(matching_attr_locations(scan.attrs@, test_anchor()), Cardinality::MostRecent)->Ok_0;
            let registration = select(matching_call_locations(scan.calls@, registration_method()), Cardinality::MostRecent)->Ok_0;
            let name = identifier_of(uri);
            let plan = handler_edits(uri, scan)->Ok_0;
            let lines = lines_of(content);
            &&& plan == seq![
                (handler.start, handler_fn_text(name, route_path_of(uri)), EditMode::SpliceAtColumn),
                (test.start, integration_test_text(name, uri), EditMode::SpliceAtColumn),
                (registration.end, registration_text(name), EditMode::SpliceAtColumn),
            ]
            &&& patched_by_plan(content, handler_edits(uri, scan)) == Ok::<Seq<char>, ScaffoldError>(
                Seq::new(lines.len(), |l: int| line_with_splice(lines[l], plan, l + 1)).flatten(),
            )
        }),
{
    let plan = handler_edits(uri, scan)->Ok_0;
    assert(all_splices(plan));
    lemma_splices_on_distinct_lines_land_in_place(content, plan);
}

/// When a regression test can be planned, it goes into `content` at the
/// start of the test attribute that starts last, and the rest of the text
/// stays as it was. The test is for the single handler bound to the trace's
/// route path, replays the trace's URI, and expects status 500 and the
/// captured body, written as a byte literal that reads back as exactly the
/// body's bytes.
pub proof fn lemma_regression_test_placement(content: Seq<char>, trace: RequestTrace, scan: SourceScan)
    requires
        regression_edits(trace, scan) is Ok,
        edit_fits(lines_of(content), regression_edits(trace, scan)->Ok_0[0]),
    ensures
        ({
            let uri = trace.request.uri@;
            let name = exactly_one(matching_fn_names(scan.fns@, route_attr_text(route_path_of(uri))))->Ok_0;
            let test = select(matching_attr_locations(scan.attrs@, test_anchor()), Cardinality::MostRecent)->Ok_0;
            let body = extracted_body(encode_utf8(trace.response.raw@))->Ok_0;
            let text = regression_test_text(name, uri, body);
            let at = offset_of(content, test.start);
            &&& patched_by_plan(content, regression_edits(trace, scan)) == Ok::<Seq<char>, ScaffoldError>(
                content.take(at) + text + content.skip(at),
            )
            &&& unescape(escaped(encode_utf8(body))) == encode_utf8(body)
        }),
{
    let plan = regression_edits(trace, scan)->Ok_0;
    lemma_single_splice(content, plan[0]);
    assert(plan =~= seq![plan[0]]);
    lemma_escaped_round_trip(encode_utf8(extracted_body(encode_utf8(trace.response.raw@))->Ok_0));
}

/// The text that a plan of edits, if there is one, makes of `content`.
pub open spec fn patched_by_plan(content: Seq<char>, plan: Result<Seq<EditSpec>, ScaffoldError>) -> Result<
    Seq<char>,
    ScaffoldError,
> {
    match plan {
        Err(e) => Err(e),
        Ok(edits) => patched(content, edits),
    }
}

/// What each edit of a planned batch says.
pub open spec fn plan_result(r: Result<Vec<Edit>, ScaffoldError>) -> Result<Seq<EditSpec>, ScaffoldError> {
    match r {
        Ok(edits) => Ok(edit_views(edits@)),
        Err(e) => Err(e),
    }
}

/// The edits that add a handler, a test and a registration for the request of
/// `trace` to the source that `scan` describes.
pub fn edits_for_new_handler(trace: &RequestTrace, scan: &SourceScan) -> (r: Result<Vec<Edit>, ScaffoldError>)
    ensures
        plan_result(r) == handler_edits(trace.request.uri@, *scan),
{
    let existing_handler = match locate_attr(scan, "#[get(\"/\")", Cardinality::ExactlyOne) {
        Ok(l) => l,
        Err(e) => return Err(e),
    };
    let existing_test = match locate_attr(scan, "#[actix_rt::test]", Cardinality::MostRecent) {
        Ok(l) => l,
        Err(e) => return Err(e),
    };
    let existing_registration = match locate_call(scan, "service", Cardinality::MostRecent) {
        Ok(l) => l,
        Err(e) => return Err(e),
    };
    let uri = trace.request.uri.as_str();
    let name = derive_identifier(uri);
    let handler_fn = format_handler_fn(name.as_str(), trace.request.route_path());
    let integration_test = format_integration_test(name.as_str(), uri);
    let registration = format_service_registration(name.as_str());
    let edits = vec![
        Edit { position: existing_handler.start, text: handler_fn, mode: EditMode::SpliceAtColumn },
        Edit { position: existing_test.start, text: integration_test, mode: EditMode::SpliceAtColumn },
        Edit { position: existing_registration.end, text: registration, mode: EditMode::SpliceAtColumn },
    ];
    assert(edit_views(edits@) =~= handler_edits(trace.request.uri@, *scan)->Ok_0);
    Ok(edits)
}

/// The edit that adds a regression test for `trace` to the source that `scan`
/// describes.
pub fn edits_for_new_test(trace: &RequestTrace, scan: &SourceScan) -> (r: Result<Vec<Edit>, ScaffoldError>)
    ensures
        plan_result(r) == regression_edits(*trace, *scan),
{
    let pattern = route_attr(trace.request.route_path());
    let handler_name = match locate_fn_name(scan, pattern.as_str()) {
        Ok(n) => n,
        Err(e) => return Err(e),
    };
    let existing_test = match locate_attr(scan, "#[actix_rt::test]", Cardinality::MostRecent) {
        Ok(l) => l,
        Err(e) => return Err(e),
    };
    let body = match trace.response.get_body() {
        Ok(b) => b,
        Err(e) => return Err(e),
    };
    let test = format_regression_test(handler_name.as_str(), trace.request.uri.as_str(), body.as_str());
    let edits = vec![Edit { position: existing_test.start, text: test, mode: EditMode::SpliceAtColumn }];
    assert(edit_views(edits@) =~= regression_edits(*trace, *scan)->Ok_0);
    Ok(edits)
}

/// The source `content`, described by `scan`, with a new handler for the
/// latest request that was answered with 404, a test for it, and its
/// registration.
pub fn new_handler(traces: Vec<RequestTrace>, content: &str, scan: &SourceScan) -> (r: Result<String, ScaffoldError>)
    ensures
        traces_with_status(traces@, 404).len() == 0 ==> r == Err::<String, ScaffoldError>(
            ScaffoldError::NoTraceForStatus { code: 404 },
        ),
        traces_with_status(traces@, 404).len() > 0 ==> text_result(r) == patched_by_plan(
            content@,
            handler_edits(traces_with_status(traces@, 404)[0].request.uri@, *scan),
        ),
{
    let trace = match latest_trace_for_code(traces, 404) {
        Ok(t) => t,
        Err(e) => return Err(e),
    };
    let edits = match edits_for_new_handler(&trace, scan) {
        Ok(edits) => edits,
        Err(e) => return Err(e),
    };
    apply_edits(content, &edits)
}

/// The source `content`, described by `scan`, with a regression test for the
/// latest request that was answered with 500.
pub fn new_test(traces: Vec<RequestTrace>, content: &str, scan: &SourceScan) -> (r: Result<String, ScaffoldError>)
    ensures
        traces_with_status(traces@, 500).len() == 0 ==> r == Err::<String, ScaffoldError>(
            ScaffoldError::NoTraceForStatus { code: 500 },
        ),
        traces_with_status(traces@, 500).len() > 0 ==> text_result(r) == patched_by_plan(
            content@,
            regression_edits(traces_with_status(traces@, 500)[0], *scan),
        ),
{
    let trace = match latest_trace_for_code(traces, 500) {
        Ok(t) => t,
        Err(e) => return Err(e),
    };
    let edits = match edits_for_new_test(&trace, scan) {
        Ok(edits) => edits,
        Err(e) => return Err(e),
    };
    apply_edits(content, &edits)
}

} // verus!
