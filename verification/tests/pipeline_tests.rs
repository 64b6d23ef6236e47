//! Window selection, body decoding, and path conventions.

use std::io::Write;

use elb_logs::body::{collect_records, records_from_gzipped_body};
use elb_logs::paths::{date_prefix, split_bucket_path};
use elb_logs::record::ReqType;
use elb_logs::window::{in_window, select_in_window, window_bounds, ObjectCandidate, TimeOfDay};

const GOOD_LINE: &str = "https 2018-07-02T22:23:00.186641Z app/my-loadbalancer/50dc6c495c0c9188 192.168.131.39:2817 10.0.0.1:80 0.086 0.048 0.037 200 200 34 366 \"GET https://www.example.com:443/ HTTP/1.1\" \"Mozilla/5.0 (Windows)\" ECDHE-RSA-AES128-GCM-SHA256 TLSv1.2 arn:aws:elasticloadbalancing:us-east-2:123456789012:targetgroup/my-targets/73e2d6bc24d8a067 \"Root=1-58337281-1d84f3d73c47ec4e58577259\" \"www.example.com\" \"arn:aws:acm:us-east-2:123456789012:certificate/12345678-1234-1234-1234-123456789012\" 1 2018-07-02T22:22:48.364000Z \"forward\" \"-\" \"-\"";

fn tod(secs: u32) -> TimeOfDay {
    TimeOfDay { secs, frac_nanos: 0 }
}

fn gzip(data: &[u8]) -> Vec<u8> {
    let mut enc = flate2::write::GzEncoder::new(Vec::new(), flate2::Compression::default());
    enc.write_all(data).unwrap();
    enc.finish().unwrap()
}

#[test]
fn window_bounds_are_exclusive() {
    // Seconds past midnight: the open interval (0, 600).
    assert!(in_window(tod(300), tod(0), tod(600)));
    assert!(!in_window(tod(0), tod(0), tod(600)));
    assert!(!in_window(tod(600), tod(0), tod(600)));
    assert!(in_window(tod(1), tod(0), tod(600)));
    assert!(in_window(tod(599), tod(0), tod(600)));
}

#[test]
fn window_compares_fractions() {
    let t = TimeOfDay { secs: 600, frac_nanos: 1 };
    assert!(!in_window(t, tod(0), tod(600)));
    let t = TimeOfDay { secs: 0, frac_nanos: 1 };
    assert!(in_window(t, tod(0), tod(600)));
}

#[test]
fn window_bounds_trail_the_reference() {
    let now = TimeOfDay { secs: 43200, frac_nanos: 7 };
    let (after, until) = window_bounds(now, 20 * 60, 15 * 60);
    assert_eq!(after, TimeOfDay { secs: 42000, frac_nanos: 7 });
    assert_eq!(until, TimeOfDay { secs: 42300, frac_nanos: 7 });
}

#[test]
fn window_bounds_wrap_past_midnight() {
    let now = TimeOfDay { secs: 600, frac_nanos: 0 };
    let (after, until) = window_bounds(now, 20 * 60, 15 * 60);
    assert_eq!(after.secs, 86400 - 600);
    assert_eq!(until.secs, 86400 - 300);
    // Both exclusive bounds sit above any small time of day: a window that
    // straddles midnight selects nothing, which the selector preserves.
    assert!(!in_window(now, after, until));
}

#[test]
fn selects_only_candidates_inside_window() {
    let candidates = vec![
        ObjectCandidate {
            key: "a.log.gz".to_string(),
            last_modified: "1970-01-01T00:01:40Z".to_string(),
        },
        ObjectCandidate {
            key: "b.log.gz".to_string(),
            last_modified: "1970-01-01T00:05:50Z".to_string(),
        },
        ObjectCandidate {
            key: "c.log.gz".to_string(),
            last_modified: "1970-01-01T00:15:00Z".to_string(),
        },
    ];
    let picked = select_in_window(&candidates, tod(200), tod(600));
    assert_eq!(picked.len(), 1);
    assert_eq!(picked[0].key, "b.log.gz");
}

#[test]
fn unparsable_timestamps_are_excluded() {
    let candidates = vec![
        ObjectCandidate { key: "bad.log.gz".to_string(), last_modified: "yesterday".to_string() },
        ObjectCandidate { key: "none.log.gz".to_string(), last_modified: String::new() },
        ObjectCandidate {
            key: "good.log.gz".to_string(),
            last_modified: "1970-01-01T00:05:00Z".to_string(),
        },
    ];
    let picked = select_in_window(&candidates, tod(0), tod(600));
    assert_eq!(picked.len(), 1);
    assert_eq!(picked[0].key, "good.log.gz");
}

#[test]
fn gzipped_body_yields_records() {
    let text = format!("{}\nnot a log line\n{}\n", GOOD_LINE, GOOD_LINE);
    let body = gzip(text.as_bytes());
    let records = records_from_gzipped_body(&body);
    assert_eq!(records.len(), 2);
    assert_eq!(records[0].request_type, ReqType::Https);
    assert_eq!(records[1].elb_status_code, 200);
}

#[test]
fn corrupt_gzip_yields_no_records() {
    let records = records_from_gzipped_body(b"definitely not gzip");
    assert!(records.is_empty());
}

#[test]
fn non_utf8_body_yields_no_records() {
    let body = gzip(&[0xff, 0xfe, 0x00, 0x41]);
    let records = records_from_gzipped_body(&body);
    assert!(records.is_empty());
}

#[test]
fn end_to_end_single_candidate_two_records() {
    // Listing of three candidates at 100, 350 and 900 seconds past
    // midnight; window (200, 600) keeps exactly the one at 350; its body
    // holds two good lines and one bad one.
    let candidates = vec![
        ObjectCandidate {
            key: "early.log.gz".to_string(),
            last_modified: "1970-01-01T00:01:40Z".to_string(),
        },
        ObjectCandidate {
            key: "fresh.log.gz".to_string(),
            last_modified: "1970-01-01T00:05:50Z".to_string(),
        },
        ObjectCandidate {
            key: "late.log.gz".to_string(),
            last_modified: "1970-01-01T00:15:00Z".to_string(),
        },
    ];
    let picked = select_in_window(&candidates, tod(200), tod(600));
    assert_eq!(picked.len(), 1);
    assert_eq!(picked[0].key, "fresh.log.gz");
    let text = format!("{}\nmalformed line\n{}\n", GOOD_LINE, GOOD_LINE);
    let bodies = vec![gzip(text.as_bytes())];
    let records = collect_records(&bodies);
    assert_eq!(records.len(), 2);
}

#[test]
fn collect_joins_bodies_in_order() {
    let one = gzip(format!("{}\n", GOOD_LINE).as_bytes());
    let bad = b"not gzip at all".to_vec();
    let two = gzip(format!("{}\n{}\n", GOOD_LINE, GOOD_LINE).as_bytes());
    let records = collect_records(&vec![one, bad, two]);
    assert_eq!(records.len(), 3);
}

#[test]
fn date_prefix_pads_month_and_day() {
    assert_eq!(date_prefix("logs/AWSLogs", 2018, 7, 2), "logs/AWSLogs/2018/07/02");
    assert_eq!(date_prefix("p", 987, 11, 30), "p/0987/11/30");
}

#[test]
fn bucket_path_splits_at_first_slash() {
    let (bucket, path) = split_bucket_path("my-bucket/some/prefix").unwrap();
    assert_eq!(bucket, "my-bucket");
    assert_eq!(path, "some/prefix");
    let (bucket, path) = split_bucket_path("my-bucket/").unwrap();
    assert_eq!(bucket, "my-bucket");
    assert_eq!(path, "");
    assert!(split_bucket_path("nobucket").is_none());
    assert!(split_bucket_path("/leading").is_none());
    assert!(split_bucket_path("").is_none());
}

#[test]
fn crlf_lines_are_split_too() {
    let text = format!("{}\r\n{}\r\n", GOOD_LINE, GOOD_LINE);
    let body = gzip(text.as_bytes());
    let records = records_from_gzipped_body(&body);
    assert_eq!(records.len(), 2);
}
