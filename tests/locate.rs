use cargo_ngrok::error::ScaffoldError;
use cargo_ngrok::locate::{
    find_attr_locations, find_call_locations, find_fn_names, highlander, locate_attr, locate_call,
    locate_fn_name, same_text, select_match, starts_with_ignoring_layout, AttrNode, Cardinality,
    CallNode, FnNode, Location, Position, SourceScan,
};

fn loc(l1: usize, c1: usize, l2: usize, c2: usize) -> Location {
    Location { start: Position { line: l1, column: c1 }, end: Position { line: l2, column: c2 } }
}

fn attr(text: &str, at: Location) -> AttrNode {
    AttrNode { text: text.to_string(), location: at }
}

fn scan_with_attrs(attrs: Vec<AttrNode>) -> SourceScan {
    SourceScan { attrs, calls: Vec::new(), fns: Vec::new() }
}

#[test]
fn prefix_match_ignores_layout() {
    assert!(starts_with_ignoring_layout("# [get (\"/\")]", "#[get(\"/\")"));
    assert!(starts_with_ignoring_layout("#[actix_rt :: test]", "#[actix_rt::test]"));
    assert!(starts_with_ignoring_layout("anything", ""));
    assert!(!starts_with_ignoring_layout("# [get (\"/x\")]", "#[get(\"/\")"));
    assert!(!starts_with_ignoring_layout("#[get", "#[get(\"/\")"));
    assert!(!starts_with_ignoring_layout("", "#"));
}

#[test]
fn same_text_compares_characters() {
    assert!(same_text("service", "service"));
    assert!(!same_text("service", "services"));
    assert!(!same_text("servicE", "service"));
    assert!(same_text("", ""));
}

#[test]
fn exactly_one_match_is_found() {
    let scan = scan_with_attrs(vec![
        attr("# [derive (Debug)]", loc(1, 0, 1, 16)),
        attr("# [get (\"/\")]", loc(4, 0, 4, 11)),
    ]);
    assert_eq!(locate_attr(&scan, "#[get(\"/\")", Cardinality::ExactlyOne), Ok(loc(4, 0, 4, 11)));
}

#[test]
fn exactly_one_fails_on_none_or_several() {
    let none = scan_with_attrs(vec![attr("# [derive (Debug)]", loc(1, 0, 1, 16))]);
    assert_eq!(locate_attr(&none, "#[get(\"/\")", Cardinality::ExactlyOne), Err(ScaffoldError::NotFound));
    let two = scan_with_attrs(vec![
        attr("# [get (\"/\")]", loc(4, 0, 4, 11)),
        attr("# [get (\"/\")]", loc(9, 0, 9, 11)),
    ]);
    assert_eq!(
        locate_attr(&two, "#[get(\"/\")", Cardinality::ExactlyOne),
        Err(ScaffoldError::Ambiguous { count: 2 })
    );
}

#[test]
fn most_recent_takes_the_last_match() {
    let scan = scan_with_attrs(vec![
        attr("# [actix_rt :: test]", loc(3, 4, 3, 21)),
        attr("# [test]", loc(8, 4, 8, 11)),
        attr("# [actix_rt :: test]", loc(12, 4, 12, 21)),
    ]);
    assert_eq!(locate_attr(&scan, "#[actix_rt::test]", Cardinality::MostRecent), Ok(loc(12, 4, 12, 21)));
    assert_eq!(
        find_attr_locations(&scan, "#[actix_rt::test]"),
        vec![loc(3, 4, 3, 21), loc(12, 4, 12, 21)]
    );
    let empty = SourceScan::unparsed();
    assert_eq!(locate_attr(&empty, "#[actix_rt::test]", Cardinality::MostRecent), Err(ScaffoldError::NotFound));
}

#[test]
fn calls_are_matched_by_method_name() {
    let scan = SourceScan {
        attrs: Vec::new(),
        calls: vec![
            CallNode { method: "wrap".to_string(), location: loc(10, 38, 10, 62) },
            CallNode { method: "service".to_string(), location: loc(10, 62, 10, 77) },
            CallNode { method: "bind".to_string(), location: loc(11, 8, 11, 30) },
        ],
        fns: Vec::new(),
    };
    assert_eq!(locate_call(&scan, "service", Cardinality::MostRecent), Ok(loc(10, 62, 10, 77)));
    assert_eq!(find_call_locations(&scan, "serv"), Vec::<Location>::new());
    assert_eq!(locate_call(&scan, "run", Cardinality::MostRecent), Err(ScaffoldError::NotFound));
}

#[test]
fn handler_function_is_found_by_route() {
    let scan = SourceScan {
        attrs: Vec::new(),
        calls: Vec::new(),
        fns: vec![
            FnNode { name: "index".to_string(), attrs: vec!["# [get (\"/\")]".to_string()] },
            FnNode { name: "about".to_string(), attrs: vec!["# [get (\"/about\")]".to_string()] },
            FnNode { name: "helper".to_string(), attrs: Vec::new() },
        ],
    };
    assert_eq!(locate_fn_name(&scan, "#[get(\"/\")]"), Ok("index".to_string()));
    assert_eq!(locate_fn_name(&scan, "#[get(\"/about\")]"), Ok("about".to_string()));
    assert_eq!(locate_fn_name(&scan, "#[get(\"/missing\")]"), Err(ScaffoldError::NotFound));
    assert_eq!(find_fn_names(&scan, "#[get("), vec!["index".to_string(), "about".to_string()]);
}

#[test]
fn duplicate_route_handlers_are_ambiguous() {
    let scan = SourceScan {
        attrs: Vec::new(),
        calls: Vec::new(),
        fns: vec![
            FnNode { name: "a".to_string(), attrs: vec!["# [get (\"/\")]".to_string()] },
            FnNode { name: "b".to_string(), attrs: vec!["# [inline]".to_string(), "# [get (\"/\")]".to_string()] },
        ],
    };
    assert_eq!(locate_fn_name(&scan, "#[get(\"/\")]"), Err(ScaffoldError::Ambiguous { count: 2 }));
}

#[test]
fn selection_policies() {
    assert_eq!(highlander(vec![7]), Ok(7));
    assert_eq!(highlander(Vec::<u8>::new()), Err(ScaffoldError::NotFound));
    assert_eq!(highlander(vec![1, 2, 3]), Err(ScaffoldError::Ambiguous { count: 3 }));
    let spans = vec![loc(2, 0, 2, 5), loc(9, 4, 9, 8), loc(5, 1, 5, 3)];
    assert_eq!(select_match(spans, Cardinality::MostRecent), Ok(loc(9, 4, 9, 8)));
    let spans = vec![loc(2, 0, 2, 5), loc(2, 7, 2, 9), loc(2, 3, 2, 4)];
    assert_eq!(select_match(spans, Cardinality::MostRecent), Ok(loc(2, 7, 2, 9)));
    assert_eq!(select_match(Vec::new(), Cardinality::MostRecent), Err(ScaffoldError::NotFound));
    assert_eq!(select_match(vec![loc(1, 0, 1, 1)], Cardinality::ExactlyOne), Ok(loc(1, 0, 1, 1)));
}

#[test]
fn most_recent_goes_by_position_not_by_listing() {
    // A walk lists `.service(b)` of `x.service(a).service(b)` before the
    // `.service(a)` inside its receiver.
    let scan = SourceScan {
        attrs: Vec::new(),
        calls: vec![
            CallNode { method: "service".to_string(), location: loc(3, 13, 3, 24) },
            CallNode { method: "service".to_string(), location: loc(3, 1, 3, 13) },
        ],
        fns: Vec::new(),
    };
    assert_eq!(locate_call(&scan, "service", Cardinality::MostRecent), Ok(loc(3, 13, 3, 24)));
}
