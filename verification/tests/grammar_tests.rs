//! Line grammar: parsing, rejection, and the parse/serialize round trip.

use elb_logs::parser::parse_line;
use elb_logs::record::{req_type_from_token, ReqType};
use elb_logs::render::render_line;

const LINE: &str = "https 2018-07-02T22:23:00.186641Z app/my-loadbalancer/50dc6c495c0c9188 192.168.131.39:2817 10.0.0.1:80 0.086 0.048 0.037 200 200 34 366 \"GET https://www.example.com:443/ HTTP/1.1\" \"Mozilla/5.0 (Windows)\" ECDHE-RSA-AES128-GCM-SHA256 TLSv1.2 arn:aws:elasticloadbalancing:us-east-2:123456789012:targetgroup/my-targets/73e2d6bc24d8a067 \"Root=1-58337281-1d84f3d73c47ec4e58577259\" \"www.example.com\" \"arn:aws:acm:us-east-2:123456789012:certificate/12345678-1234-1234-1234-123456789012\" 1 2018-07-02T22:22:48.364000Z \"forward\" \"-\" \"-\"";

#[test]
fn deserialize_types() {
    assert_eq!(req_type_from_token("https"), Some(ReqType::Https));
}

#[test]
fn request_type_tokens() {
    assert_eq!(req_type_from_token("http"), Some(ReqType::Http));
    assert_eq!(req_type_from_token("h2"), Some(ReqType::H2));
    assert_eq!(req_type_from_token("ws"), Some(ReqType::Ws));
    assert_eq!(req_type_from_token("wss"), Some(ReqType::Wss));
    assert_eq!(req_type_from_token("ftp"), None);
    assert_eq!(req_type_from_token("HTTPS"), None);
    assert_eq!(req_type_from_token(""), None);
}

#[test]
fn request_type_default() {
    assert_eq!(ReqType::default(), ReqType::Http);
}

#[test]
fn parses_full_line() {
    let rec = parse_line(LINE).expect("line should parse");
    assert_eq!(rec.request_type, ReqType::Https);
    assert_eq!(rec.timestamp, "2018-07-02T22:23:00.186641Z");
    assert_eq!(rec.elb, "app/my-loadbalancer/50dc6c495c0c9188");
    assert_eq!(rec.client, "192.168.131.39:2817");
    assert_eq!(rec.target, "10.0.0.1:80");
    assert_eq!(rec.request_processing_time, "0.086");
    assert_eq!(rec.target_processing_time, "0.048");
    assert_eq!(rec.response_processing_time, "0.037");
    assert_eq!(rec.elb_status_code, 200);
    assert_eq!(rec.target_status_code, 200);
    assert_eq!(rec.received_bytes, 34);
    assert_eq!(rec.sent_bytes, 366);
    assert_eq!(rec.request, "GET https://www.example.com:443/ HTTP/1.1");
    assert_eq!(rec.ssl_cipher, "ECDHE-RSA-AES128-GCM-SHA256");
    assert_eq!(rec.ssl_protocol, "TLSv1.2");
    assert_eq!(rec.trace_id, "Root=1-58337281-1d84f3d73c47ec4e58577259");
    assert_eq!(rec.domain_name, "www.example.com");
    assert_eq!(rec.matched_rule_priority, 1);
    assert_eq!(rec.request_creation_time, "2018-07-02T22:22:48.364000Z");
    assert_eq!(rec.actions_executed, "forward");
    assert_eq!(rec.redirect_url, "-");
    assert_eq!(rec.error_reason, "-");
}

#[test]
fn quoted_field_keeps_embedded_space() {
    let rec = parse_line(LINE).expect("line should parse");
    assert_eq!(rec.user_agent, "Mozilla/5.0 (Windows)");
    assert_eq!(rec.request, "GET https://www.example.com:443/ HTTP/1.1");
}

#[test]
fn sentinel_time_parses_as_minus_one() {
    let line = LINE.replace(" 0.086 ", " -1 ");
    let rec = parse_line(&line).expect("sentinel -1 must parse");
    assert_eq!(rec.request_processing_time, "-1");
    assert_eq!(rec.request_processing_time.parse::<f32>().unwrap(), -1.0f32);
}

#[test]
fn non_numeric_status_yields_none() {
    let line = LINE.replace(" 200 200 ", " abc 200 ");
    assert!(parse_line(&line).is_none());
}

#[test]
fn non_numeric_time_yields_none() {
    let line = LINE.replace(" 0.048 ", " 0.0.1 ");
    assert!(parse_line(&line).is_none());
    let line = LINE.replace(" 0.048 ", " x.5 ");
    assert!(parse_line(&line).is_none());
}

#[test]
fn status_out_of_range_yields_none() {
    let line = LINE.replace(" 200 200 ", " 65536 200 ");
    assert!(parse_line(&line).is_none());
}

#[test]
fn unknown_request_type_yields_none() {
    let line = LINE.replace("https ", "ftp ");
    assert!(parse_line(&line).is_none());
    let line = LINE.replace("https ", "HTTPS ");
    assert!(parse_line(&line).is_none());
}

#[test]
fn empty_line_yields_none() {
    assert!(parse_line("").is_none());
    assert!(parse_line("   ").is_none());
}

#[test]
fn short_line_yields_none() {
    let line = LINE.replace(" \"-\"", "");
    assert!(parse_line(&line).is_none());
}

#[test]
fn trailing_text_yields_none() {
    let mut line = LINE.to_string();
    line.push_str(" extra");
    assert!(parse_line(&line).is_none());
    let mut line = LINE.to_string();
    line.push(' ');
    assert!(parse_line(&line).is_none());
}

#[test]
fn leading_space_yields_none() {
    let line = format!(" {}", LINE);
    assert!(parse_line(&line).is_none());
}

#[test]
fn unterminated_quote_yields_none() {
    let line = LINE.replace("\"-\"", "\"-");
    assert!(parse_line(&line).is_none());
}

#[test]
fn round_trip_preserves_every_field() {
    let rec = parse_line(LINE).expect("line should parse");
    let written = render_line(&rec);
    let again = parse_line(&written).expect("written line must parse");
    assert_eq!(again, rec);
}

#[test]
fn round_trip_with_sentinel() {
    let line = LINE.replace(" 0.086 ", " -1 ");
    let rec = parse_line(&line).expect("line should parse");
    let written = render_line(&rec);
    let again = parse_line(&written).expect("written line must parse");
    assert_eq!(again, rec);
    assert_eq!(written, line);
}

#[test]
fn render_writes_canonical_numbers() {
    let line = LINE.replace(" 34 366 ", " 034 366 ");
    let rec = parse_line(&line).expect("leading zero should parse");
    assert_eq!(rec.received_bytes, 34);
    let written = render_line(&rec);
    assert_eq!(written, LINE);
}
