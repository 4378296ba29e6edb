use cargo_ngrok::render::{
    derive_identifier, format_handler_fn, format_integration_test, format_regression_test,
    format_service_registration, route_attr, test_suffix, escape_byte_literal,
};

#[test]
fn test_format_handler_fn() {
    assert_eq!(
        format_handler_fn("faviconico", "/favicon.ico"),
        r#"

#[get("/favicon.ico")]
async fn faviconico() -> impl Responder {
    "TODO: implement this handler"
}

"#
    )
}

#[test]
fn test_format_integration_test() {
    assert_eq!(
        format_integration_test("faviconico", "/favicon.ico"),
        r#"

    #[actix_rt::test]
    async fn test_faviconico() {
        let mut app = atest::init_service(App::new().service(faviconico)).await;

        let req = atest::TestRequest::with_uri("/favicon.ico").to_request();
        let resp = atest::call_service(&mut app, req).await;

        dbg!(resp.status());
        assert!(resp.status().is_success());

        let bytes = atest::read_body(resp).await;
        assert_eq!(
            bytes,
            Bytes::from_static(b"TODO: implement this handler")
        );
    }

"#
    )
}

#[test]
fn test_format_regression_test() {
    assert_eq!(
        format_regression_test("index", "/?param=boom", "Some error message"),
        r#"

    #[actix_rt::test]
    async fn test_index_param_boom() {
        let mut app = atest::init_service(App::new().service(index)).await;

        let req = atest::TestRequest::with_uri("/?param=boom").to_request();
        let resp = atest::call_service(&mut app, req).await;

        assert_eq!(resp.status(), 500);

        let bytes = atest::read_body(resp).await;
        assert_eq!(
            bytes,
            Bytes::from_static(b"Some error message")
        );
    }

"#
    )
}

#[test]
fn identifier_keeps_lowercase_letters_only() {
    assert_eq!(derive_identifier("/favicon.ico"), "faviconico");
    assert_eq!(derive_identifier("/favicon.ico"), derive_identifier("/favicon.ico"));
    assert_eq!(derive_identifier("/Users/42?x=y"), "sersxy");
    assert_eq!(derive_identifier(""), "");
    assert_eq!(derive_identifier("/"), "");
}

#[test]
fn identifiers_of_different_uris_can_collide() {
    // A known limitation: the two URIs are different, their handlers are not.
    assert_ne!("/a_b", "/ab");
    assert_eq!(derive_identifier("/a_b"), derive_identifier("/ab"));
    assert_eq!(derive_identifier("/a_b"), "ab");
}

#[test]
fn test_suffix_replaces_and_trims() {
    assert_eq!(test_suffix("/?param=boom"), "param_boom");
    assert_eq!(test_suffix("/favicon.ico"), "favicon_ico");
    assert_eq!(test_suffix("///"), "");
    assert_eq!(test_suffix("abc"), "abc");
    assert_eq!(test_suffix("/a/B"), "a__");
}

#[test]
fn registration_and_route_attribute_text() {
    assert_eq!(format_service_registration("faviconico"), ".service(faviconico)");
    assert_eq!(route_attr("/users"), "#[get(\"/users\")]");
}

#[test]
fn byte_literal_escapes() {
    assert_eq!(escape_byte_literal("Some error message"), "Some error message");
    assert_eq!(escape_byte_literal("say \"hi\"\\"), "say \\\"hi\\\"\\\\");
    assert_eq!(escape_byte_literal("a\r\nb\tc"), "a\\r\\nb\\tc");
    assert_eq!(escape_byte_literal("\u{e9}\u{1}\u{7f}"), "\\xc3\\xa9\\x01\\x7f");
    assert_eq!(escape_byte_literal(""), "");
}

#[test]
fn regression_test_holds_the_body_escaped() {
    let text = format_regression_test("index", "/", "oops: \"x\"\r\n\u{e9}");
    assert!(text.contains("Bytes::from_static(b\"oops: \\\"x\\\"\\r\\n\\xc3\\xa9\")"));
    assert!(text.contains("async fn test_index_()"));
}
