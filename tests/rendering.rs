use httpie::render::{
    body_format, content_type, decimal_text, format_for, header_line, json_display, names_match, pretty_or_raw,
    raw_display, render, status_line, BodyFormat, ResponseView,
};

fn view(headers: &[(&str, &str)], body: &str) -> ResponseView {
    ResponseView {
        version: "HTTP/1.1".to_string(),
        status: 200,
        headers: headers.iter().map(|(a, b)| (a.to_string(), b.to_string())).collect(),
        body: body.to_string(),
    }
}

#[test]
fn json_response_is_pretty_printed() {
    let r = render(&view(&[("content-type", "application/json")], "{\"a\":1}"));
    assert_eq!(r.status, "HTTP/1.1 200");
    assert_eq!(r.headers, vec!["content-type: application/json".to_string()]);
    assert_eq!(r.format, BodyFormat::Json);
    assert_eq!(r.body, jsonxf::pretty_print("{\"a\":1}").unwrap());
    assert_ne!(r.body, "{\"a\":1}");
    assert!(r.body.contains('\n'));
}

#[test]
fn plain_text_response_is_shown_raw() {
    let r = render(&view(&[("content-type", "text/plain")], "hello {x}"));
    assert_eq!(r.format, BodyFormat::Raw);
    assert_eq!(r.body, "text/plain\nhello {x}");
}

#[test]
fn html_response_is_kept_for_highlighting() {
    let r = render(&view(&[("content-type", "text/html; charset=utf-8")], "<p>hi</p>"));
    assert_eq!(r.format, BodyFormat::Html);
    assert_eq!(r.body, "<p>hi</p>");
}

#[test]
fn json_body_goes_through_the_formatter() {
    let r = render(&view(&[("content-type", "application/json")], "[1,2]"));
    assert_eq!(r.format, BodyFormat::Json);
    assert_eq!(r.body, pretty_or_raw("[1,2]"));
    assert_eq!(r.body, jsonxf::pretty_print("[1,2]").unwrap());
    assert_ne!(r.body, "[1,2]");
}

#[test]
fn json_display_falls_back_to_raw_body() {
    assert_eq!(json_display("{not json", None), "{not json");
}

#[test]
fn missing_content_type_is_raw() {
    let r = render(&view(&[("server", "x")], "data"));
    assert_eq!(r.format, BodyFormat::Raw);
    assert_eq!(r.body, "(no content type)\ndata");
    assert_eq!(r.headers, vec!["server: x".to_string()]);
}

#[test]
fn headers_keep_arrival_order() {
    let r = render(&view(&[("set-cookie", "a=1"), ("set-cookie", "b=2"), ("x", "y")], ""));
    assert_eq!(
        r.headers,
        vec!["set-cookie: a=1".to_string(), "set-cookie: b=2".to_string(), "x: y".to_string()]
    );
}

#[test]
fn first_content_type_wins() {
    let hs = vec![
        ("content-type".to_string(), "text/html".to_string()),
        ("content-type".to_string(), "application/json".to_string()),
    ];
    assert_eq!(content_type(&hs), Some("text/html".to_string()));
    assert_eq!(content_type(&Vec::new()), None);
    let mixed = vec![
        ("X-A".to_string(), "1".to_string()),
        ("Content-TYPE".to_string(), "text/plain".to_string()),
    ];
    assert_eq!(content_type(&mixed), Some("text/plain".to_string()));
    assert!(names_match("Content-Type", "content-type"));
    assert!(!names_match("content-typ", "content-type"));
}

#[test]
fn format_by_subtype() {
    assert_eq!(format_for(&Some("json".to_string())), BodyFormat::Json);
    assert_eq!(format_for(&Some("html".to_string())), BodyFormat::Html);
    assert_eq!(format_for(&Some("plain".to_string())), BodyFormat::Raw);
    assert_eq!(format_for(&None), BodyFormat::Raw);
    assert_eq!(body_format(&Some("Application/JSON".to_string())), BodyFormat::Json);
    assert_eq!(body_format(&Some("application/problem+json".to_string())), BodyFormat::Raw);
    assert_eq!(body_format(&Some("not a mime".to_string())), BodyFormat::Raw);
    assert_eq!(body_format(&None), BodyFormat::Raw);
}

#[test]
fn status_and_header_lines() {
    assert_eq!(status_line("HTTP/2.0", 404), "HTTP/2.0 404");
    assert_eq!(header_line("a", "b c"), "a: b c");
    assert_eq!(decimal_text(0), "0");
    assert_eq!(decimal_text(7), "7");
    assert_eq!(decimal_text(10), "10");
    assert_eq!(decimal_text(65535), "65535");
}

#[test]
fn raw_and_json_display() {
    assert_eq!(raw_display(&Some("text/csv".to_string()), "a,b"), "text/csv\na,b");
    assert_eq!(json_display("{}", None), "{}");
    assert_eq!(json_display("{}", Some("{\n}".to_string())), "{\n}");
}
