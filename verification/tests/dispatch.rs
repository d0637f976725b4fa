use typed_dispatch::error::Error;
use typed_dispatch::extract::{BodyBytes, BodyString, Extension, Form, Path, Query};
use typed_dispatch::handler::{HandlerEndpoint, Param};
use typed_dispatch::json::{parse_json, to_json_bytes, JsonObject, JsonValue};
use typed_dispatch::request::{Method, Request};
use typed_dispatch::response::ContentType;
use typed_dispatch::router::Router;
use typed_dispatch::sample::SampleHandler;

fn get(path: &str) -> Request {
    Request {
        method: Method::Get,
        path: path.to_owned(),
        path_params: vec![],
        query: String::new(),
        body: vec![],
        extensions: vec![],
    }
}

fn get_q(path: &str, query: &str) -> Request {
    let mut r = get(path);
    r.query = query.to_owned();
    r
}

fn sample_app() -> Router<SampleHandler> {
    let mut app: Router<SampleHandler> = Router::new();
    app.handle_get("/".to_owned(), SampleHandler::Index, vec![]);
    app.handle_post("/".to_owned(), SampleHandler::IndexAlter, vec![]);
    app.handle_get("/error".to_owned(), SampleHandler::Unauthorized, vec![]);
    app.handle_get(
        "/hello".to_owned(),
        SampleHandler::Hello,
        vec![Param::Query(vec!["name".to_owned()])],
    );
    app.handle_get("/user/:0".to_owned(), SampleHandler::GetUser, vec![Param::PathAt(0)]);
    app.handle_get("/raw".to_owned(), SampleHandler::Raw, vec![Param::FullRequest]);
    app.handle_get("/original".to_owned(), SampleHandler::Original, vec![Param::FullRequest]);
    app
}

#[test]
fn main() {
    let app = sample_app();

    let res = app.respond(get("/"));
    assert_eq!(res.status, 200);

    let res = app.respond(get("/error"));
    assert_eq!(res.status, 401);

    let res = app.respond(get_q("/hello", "name=tom"));
    assert_eq!(res.status, 200);
    let body = parse_json(&res.body).unwrap();
    let expected = JsonObject {
        entries: vec![("hello".to_owned(), JsonValue::Str("tom".to_owned()))],
    };
    assert_eq!(body, expected);

    let res = app.respond(get("/user/1001"));
    assert_eq!(res.status, 200);
    let body = parse_json(&res.body).unwrap();
    let expected = JsonObject {
        entries: vec![("user_id".to_owned(), JsonValue::Int(1001))],
    };
    assert_eq!(body, expected);

    let res = app.respond(get("/raw"));
    assert_eq!(res.status, 200);
    let res = app.respond(get("/original"));
    assert_eq!(res.status, 200);
}

#[test]
fn zero_param_handler_ignores_body_and_query() {
    let app = sample_app();
    let mut req = get_q("/", "junk=%zz&&&=");
    req.body = vec![0xff, 0xfe, 0x00];
    let res = app.respond(req);
    assert_eq!(res.status, 200);
    assert_eq!(res.body, b"Hello world!".to_vec());
    assert_eq!(res.content_type, ContentType::PlainText);
}

#[test]
fn first_extraction_failure_wins() {
    // A missing extension (a 500-class error) declared before a failing
    // path parameter (a 400-class error): the earlier failure is the
    // call's result, and the reverse order yields the reverse result.
    let ep = HandlerEndpoint::new(
        SampleHandler::GetUser,
        vec![Param::Extension(7), Param::PathAt(0)],
    );
    assert_eq!(ep.call(get("/user/abc")), Err(Error::ServerConfiguration));

    let ep = HandlerEndpoint::new(
        SampleHandler::GetUser,
        vec![Param::PathAt(0), Param::Extension(7)],
    );
    assert_eq!(ep.call(get("/user/abc")), Err(Error::ClientInput));
}

#[test]
fn body_consumed_in_declaration_order() {
    // The body can be consumed at most once: the first body extractor
    // drains it and a second one observes an empty body.
    let mut req = get("/");
    req.body = b"abc".to_vec();
    let first = BodyBytes::from_request(&mut req);
    assert_eq!(first.0, b"abc".to_vec());
    let second = BodyBytes::from_request(&mut req);
    assert_eq!(second.0, Vec::<u8>::new());
}

#[test]
fn json_round_trip_through_host_reader() {
    let obj = JsonObject {
        entries: vec![
            ("hello".to_owned(), JsonValue::Str("tom".to_owned())),
            ("n".to_owned(), JsonValue::Int(12345)),
            ("flag".to_owned(), JsonValue::Bool(true)),
            ("z".to_owned(), JsonValue::Null),
        ],
    };
    let bytes = to_json_bytes(&obj).unwrap();
    assert_eq!(bytes, b"{\"hello\":\"tom\",\"n\":12345,\"flag\":true,\"z\":null}".to_vec());

    // Read back through the host's JSON reader.
    let host_value: serde_json::Value = serde_json::from_slice(&bytes).unwrap();
    let mut m = serde_json::Map::new();
    m.insert("hello".to_owned(), serde_json::Value::String("tom".to_owned()));
    m.insert(
        "n".to_owned(),
        serde_json::Value::Number(serde_json::Number::from(12345u64)),
    );
    m.insert("flag".to_owned(), serde_json::Value::Bool(true));
    m.insert("z".to_owned(), serde_json::Value::Null);
    assert_eq!(host_value, serde_json::Value::Object(m));

    // And through this library's own reader.
    assert_eq!(parse_json(&bytes).unwrap(), obj);
}

#[test]
fn path_extraction_scenarios() {
    let mut req = get("/user/1001");
    req.path_params = vec!["1001".to_owned()];
    let p = Path::from_request(&req, 0).unwrap();
    assert_eq!(p.0, 1001);

    let mut req = get("/user/abc");
    req.path_params = vec!["abc".to_owned()];
    assert_eq!(Path::from_request(&req, 0).map(|p| p.0), Err(Error::ClientInput));

    // A slot that was never bound fails the same way.
    let req = get("/user/1001");
    assert_eq!(Path::from_request(&req, 0).map(|p| p.0), Err(Error::ClientInput));

    // Through the router: the same scenario end to end.
    let app = sample_app();
    let res = app.respond(get("/user/abc"));
    assert_eq!(res.status, 400);
}

#[test]
fn query_extraction_scenarios() {
    let req = get_q("/hello", "name=tom");
    let q = Query::from_request(&req, &vec!["name".to_owned()]).unwrap();
    assert_eq!(q.0, vec![("name".to_owned(), "tom".to_owned())]);

    let req = get_q("/hello", "other=tom");
    assert_eq!(
        Query::from_request(&req, &vec!["name".to_owned()]).map(|q| q.0),
        Err(Error::ClientInput)
    );

    // Percent- and plus-decoding.
    let req = get_q("/hello", "a=hello%20world&b=x+y");
    let q = Query::from_request(&req, &vec!["a".to_owned(), "b".to_owned()]).unwrap();
    assert_eq!(
        q.0,
        vec![
            ("a".to_owned(), "hello world".to_owned()),
            ("b".to_owned(), "x y".to_owned()),
        ]
    );

    // A malformed escape is a client error.
    let req = get_q("/hello", "a=%zz");
    assert_eq!(
        Query::from_request(&req, &vec!["a".to_owned()]).map(|q| q.0),
        Err(Error::ClientInput)
    );
}

#[test]
fn method_registration_leaves_other_methods_unmatched() {
    let app = sample_app();

    // GET /error is served...
    let res = app.respond(get("/error"));
    assert_eq!(res.status, 401);

    // ...but POST to the same path falls through to the host's default.
    let mut req = get("/error");
    req.method = Method::Post;
    let res = app.respond(req);
    assert_eq!(res.status, 405);

    // A path nothing matches is not found.
    let res = app.respond(get("/nothing"));
    assert_eq!(res.status, 404);
}

#[test]
fn extension_lookup_scenarios() {
    // A type token never registered fails as a server-configuration
    // error, whatever the request holds.
    let mut req = get_q("/x", "a=b");
    req.body = b"payload".to_vec();
    assert_eq!(
        Extension::from_request(&req, 42).map(|e| e.0),
        Err(Error::ServerConfiguration)
    );
    assert_eq!(Error::ServerConfiguration.status(), 500);

    // A registered one is cloned out.
    req.extensions = vec![(42, "shared state".to_owned())];
    assert_eq!(
        Extension::from_request(&req, 42).map(|e| e.0),
        Ok("shared state".to_owned())
    );
}

#[test]
fn body_string_decodes_utf8() {
    // Multibyte UTF-8 decodes to the text it encodes...
    let mut req = get("/");
    req.body = vec![0x68, 0xc3, 0xa9, 0x21];
    let s = BodyString::from_request(&mut req).unwrap();
    assert_eq!(s.0, "h\u{e9}!".to_owned());

    // ...and bytes that are not UTF-8 fail as a transport error.
    let mut req = get("/");
    req.body = vec![0xff, 0x00];
    assert_eq!(
        BodyString::from_request(&mut req).map(|s| s.0),
        Err(Error::Transport)
    );
}

#[test]
fn form_extraction_scenarios() {
    let mut req = get("/");
    req.body = b"name=tom&age=31".to_vec();
    let f = Form::from_request(&mut req, &vec!["age".to_owned(), "name".to_owned()]).unwrap();
    assert_eq!(
        f.0,
        vec![
            ("age".to_owned(), "31".to_owned()),
            ("name".to_owned(), "tom".to_owned()),
        ]
    );

    let mut req = get("/");
    req.body = b"name=tom".to_vec();
    assert_eq!(
        Form::from_request(&mut req, &vec!["age".to_owned()]).map(|f| f.0),
        Err(Error::ClientInput)
    );
}

#[test]
fn json_extraction_and_conversion_errors() {
    // A malformed body is a client error with a 400 status.
    let ep = HandlerEndpoint::new(SampleHandler::Raw, vec![Param::Json]);
    let mut req = get("/");
    req.body = b"not json".to_vec();
    assert_eq!(ep.call(req), Err(Error::ClientInput));
    assert_eq!(Error::ClientInput.status(), 400);

    // A value the writer cannot emit fails conversion with a 500 status.
    let obj = JsonObject {
        entries: vec![("k".to_owned(), JsonValue::Str("with \" quote".to_owned()))],
    };
    assert_eq!(to_json_bytes(&obj), Err(Error::Conversion));
    assert_eq!(Error::Conversion.status(), 500);
}

#[test]
fn handler_shape_mismatch_is_server_error() {
    // Wiring a handler to parameters it does not declare is a
    // configuration defect, not a client error.
    let ep = HandlerEndpoint::new(SampleHandler::Raw, vec![Param::BodyString]);
    let mut req = get("/");
    req.body = b"text".to_vec();
    assert_eq!(ep.call(req), Err(Error::ServerConfiguration));
}

#[test]
fn binders_fill_their_declared_slots() {
    // `:1` and `:0` bind by their own index, wherever they stand in the
    // pattern: the handler reading slot 1 sees the `:1` segment.
    let mut app: Router<SampleHandler> = Router::new();
    app.handle_get(
        "/a/:1/x/:0".to_owned(),
        SampleHandler::GetUser,
        vec![Param::PathAt(1)],
    );
    let res = app.respond(get("/a/9/x/1001"));
    assert_eq!(res.status, 200);
    let body = parse_json(&res.body).unwrap();
    let expected = JsonObject {
        entries: vec![("user_id".to_owned(), JsonValue::Int(9))],
    };
    assert_eq!(body, expected);
}

#[test]
fn error_statuses_cover_the_taxonomy() {
    assert_eq!(Error::ClientInput.status(), 400);
    assert_eq!(Error::ServerConfiguration.status(), 500);
    assert_eq!(Error::Transport.status(), 500);
    assert_eq!(Error::Conversion.status(), 500);
    assert!(!Error::ClientInput.describe().is_empty());
}
