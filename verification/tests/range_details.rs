use std::path::PathBuf;

use quiche_apps::clock::epoch_nanos;
use quiche_apps::header::{header_value, Header};
use quiche_apps::range::boundary::{boundary_at, gen_boundary};
use quiche_apps::range::evaluate::evaluate_specs;
use quiche_apps::range::handle::{handle_range_request, plan_ranges, RangePlan};
use quiche_apps::range::parse::{
    parse_bytes_unit, parse_range_header_only, parse_range_specs, parse_range_text,
};
use quiche_apps::range::response::{build_multipart, build_single, build_unsatisfiable, write_part};
use quiche_apps::range::types::{
    IfRange, RangeConfig, RangeContext, RangeError, RangeResponse, RangeSpec,
};

fn spec(start: Option<u64>, end: Option<u64>) -> RangeSpec {
    RangeSpec { start, end }
}

fn context(total_len: u64) -> RangeContext {
    RangeContext {
        path: PathBuf::from("/srv/file.bin"),
        total_len,
        etag: None,
        last_modified_http_date: None,
        content_type: None,
        if_range: None,
    }
}

fn range(value: &[u8]) -> Vec<Header> {
    vec![Header::new(b"range", value)]
}

fn fields(headers: &[Header]) -> Vec<(String, String)> {
    headers
        .iter()
        .map(|h| {
            (
                String::from_utf8(h.name().to_vec()).unwrap(),
                String::from_utf8(h.value().to_vec()).unwrap(),
            )
        })
        .collect()
}

fn pairs(list: &[(&str, &str)]) -> Vec<(String, String)> {
    list.iter().map(|(a, b)| (a.to_string(), b.to_string())).collect()
}

fn serve(content: &[u8], req: &[Header], ctx: &RangeContext, cfg: &RangeConfig) -> RangeResponse {
    let mut job = match handle_range_request(req, ctx, cfg).unwrap() {
        Some(RangePlan::Read(job)) => job,
        _ => panic!("reads expected"),
    };
    while let Some((offset, length)) = job.next_read() {
        let slice = content[offset as usize..(offset + length) as usize].to_vec();
        job = job.feed(Ok(slice)).unwrap();
    }
    job.finish()
}

#[test]
fn default_configuration() {
    let cfg = RangeConfig::default();
    assert!(cfg.enable_multipart);
    assert_eq!(cfg.max_parts, 16);
}

#[test]
fn header_names_are_looked_up_without_regard_to_case() {
    let headers = vec![
        Header::new(b"Rang", b"no"),
        Header::new(b"RANGE", b"first"),
        Header::new(b"range", b"second"),
    ];
    assert_eq!(header_value(&headers, b"range"), Some(b"first" as &[u8]));
    assert_eq!(header_value(&headers, b"ranges"), None);
}

#[test]
fn fields_of_other_names_do_not_matter() {
    let before = vec![Header::new(b"accept", b"*/*"), Header::new(b"range", b"bytes=1-2")];
    let parsed = parse_range_header_only(&before).unwrap().unwrap();
    assert_eq!(parsed.specs, vec![spec(Some(1), Some(2))]);
    let only = parse_range_header_only(&range(b"bytes=1-2")).unwrap().unwrap();
    assert_eq!(parsed.specs, only.specs);
}

#[test]
fn unit_ignores_case_and_surrounding_space() {
    assert!(parse_bytes_unit("bytes").is_ok());
    assert!(parse_bytes_unit(" BYTES\t").is_ok());
    assert!(matches!(parse_bytes_unit("byte"), Err(RangeError::UnsupportedUnit)));
    assert!(matches!(parse_bytes_unit(""), Err(RangeError::UnsupportedUnit)));
    let parsed = parse_range_header_only(&range(b" ByTes = 1 - 2 , - 3 , 4 - ")).unwrap().unwrap();
    assert_eq!(
        parsed.specs,
        vec![spec(Some(1), Some(2)), spec(None, Some(3)), spec(Some(4), None)]
    );
}

#[test]
fn set_alone_is_read() {
    assert_eq!(
        parse_range_specs("0-499,500-,-500,9500-").unwrap(),
        vec![
            spec(Some(0), Some(499)),
            spec(Some(500), None),
            spec(None, Some(500)),
            spec(Some(9500), None),
        ]
    );
    assert!(matches!(parse_range_specs(""), Err(RangeError::Parse)));
    assert!(matches!(parse_range_specs("1-2,"), Err(RangeError::Parse)));
    assert!(matches!(parse_range_specs("1-2-3"), Err(RangeError::Parse)));
}

#[test]
fn numbers_are_64_bit_and_may_have_a_plus_sign() {
    assert_eq!(
        parse_range_specs("0-18446744073709551615,+7-").unwrap(),
        vec![spec(Some(0), Some(u64::MAX)), spec(Some(7), None)]
    );
    assert!(matches!(parse_range_specs("18446744073709551616-"), Err(RangeError::Parse)));
    assert!(matches!(parse_range_specs("++7-"), Err(RangeError::Parse)));
    assert!(matches!(parse_range_specs("+-"), Err(RangeError::Parse)));
    assert!(matches!(parse_range_specs("0x1-"), Err(RangeError::Parse)));
}

#[test]
fn a_value_without_an_equals_sign_is_malformed() {
    assert!(matches!(parse_range_text("bytes"), Err(RangeError::Parse)));
    assert!(matches!(parse_range_text("items"), Err(RangeError::Parse)));
    assert!(matches!(parse_range_text("=0-1"), Err(RangeError::UnsupportedUnit)));
    assert!(matches!(parse_range_text("bytes==0-1"), Err(RangeError::Parse)));
}

#[test]
fn a_value_that_is_not_utf8_is_malformed() {
    let bad = range(b"bytes=0-1\xff");
    assert!(matches!(parse_range_header_only(&bad), Err(RangeError::Parse)));
    let mut ctx = context(10);
    assert!(matches!(
        handle_range_request(&bad, &ctx, &RangeConfig::default()),
        Err(RangeError::Parse)
    ));
    // Not even a failed validator lets it pass.
    ctx.if_range = Some(IfRange { etag: Some("x".into()), last_modified_http_date: None });
    assert!(matches!(
        handle_range_request(&bad, &ctx, &RangeConfig::default()),
        Err(RangeError::Parse)
    ));
}

#[test]
fn utf8_beyond_ascii_is_read_as_text() {
    // An ideographic space is white space, other characters are not.
    let parsed = parse_range_header_only(&range("bytes=\u{3000}1-2".as_bytes())).unwrap().unwrap();
    assert_eq!(parsed.specs, vec![spec(Some(1), Some(2))]);
    let other = range("bytes=\u{e9}1-2".as_bytes());
    assert!(matches!(parse_range_header_only(&other), Err(RangeError::Parse)));
}

#[test]
fn ranges_resolve_against_a_length() {
    let specs = [
        spec(Some(2), Some(4)),
        spec(Some(8), None),
        spec(None, Some(3)),
        spec(None, Some(99)),
        spec(Some(5), Some(99)),
        spec(Some(10), None),
        spec(Some(10), Some(12)),
        spec(None, Some(0)),
        spec(None, None),
        spec(Some(4), Some(2)),
    ];
    assert_eq!(
        evaluate_specs(&specs, 10).unwrap(),
        vec![(2, 4), (8, 9), (7, 9), (0, 9), (5, 9)]
    );
}

#[test]
fn nothing_that_resolves_is_unsatisfiable() {
    assert!(matches!(evaluate_specs(&[], 10), Err(RangeError::Unsatisfiable)));
    assert!(matches!(evaluate_specs(&[spec(None, Some(0))], 10), Err(RangeError::Unsatisfiable)));
    assert!(matches!(evaluate_specs(&[spec(Some(0), None)], 0), Err(RangeError::Unsatisfiable)));
    assert!(matches!(
        evaluate_specs(&[spec(Some(10), Some(20))], 10),
        Err(RangeError::Unsatisfiable)
    ));
}

#[test]
fn no_parts_allowed_means_nothing_to_satisfy() {
    let cfg = RangeConfig { enable_multipart: true, max_parts: 0 };
    match handle_range_request(&range(b"bytes=0-1"), &context(10), &cfg).unwrap() {
        Some(RangePlan::Complete(r)) => assert_eq!(r.status, 416),
        _ => panic!("refusal expected"),
    }
}

#[test]
fn limit_counts_ranges_before_they_are_resolved() {
    // The first range cannot be satisfied, the second is beyond the limit.
    let cfg = RangeConfig { enable_multipart: true, max_parts: 1 };
    let planned = plan_ranges(&range(b"bytes=50-60,0-1"), &context(10), &cfg).unwrap().unwrap();
    assert!(planned.is_empty());
}

#[test]
fn ranges_beyond_the_limit_are_dropped() {
    let cfg = RangeConfig { enable_multipart: true, max_parts: 2 };
    let few = plan_ranges(&range(b"bytes=0-1,3-4"), &context(10), &cfg).unwrap().unwrap();
    let many = plan_ranges(&range(b"bytes=0-1,3-4,6-7,8-"), &context(10), &cfg).unwrap().unwrap();
    assert_eq!(few, vec![(0, 1), (3, 4)]);
    assert_eq!(few, many);
}

#[test]
fn validators_that_cannot_be_compared_fail() {
    let mut ctx = context(10);
    ctx.if_range = Some(IfRange { etag: Some("\"a\"".into()), last_modified_http_date: None });
    let cfg = RangeConfig::default();
    assert!(handle_range_request(&range(b"bytes=0-1"), &ctx, &cfg).unwrap().is_none());
    ctx.etag = Some("\"a\"".into());
    assert!(handle_range_request(&range(b"bytes=0-1"), &ctx, &cfg).unwrap().is_some());
    ctx.if_range =
        Some(IfRange { etag: Some("\"a\"".into()), last_modified_http_date: Some("d".into()) });
    assert!(handle_range_request(&range(b"bytes=0-1"), &ctx, &cfg).unwrap().is_none());
    ctx.if_range = Some(IfRange { etag: None, last_modified_http_date: None });
    assert!(handle_range_request(&range(b"bytes=0-1"), &ctx, &cfg).unwrap().is_some());
}

#[test]
fn a_failed_validator_hides_a_malformed_set() {
    let mut ctx = context(10);
    ctx.if_range = Some(IfRange { etag: Some("x".into()), last_modified_http_date: None });
    assert!(handle_range_request(&range(b"bytes=abc"), &ctx, &RangeConfig::default())
        .unwrap()
        .is_none());
}

#[test]
fn refusal_has_exactly_its_fields() {
    let r = build_unsatisfiable(1234);
    assert_eq!(r.status, 416);
    assert!(r.body.is_empty());
    assert_eq!(
        fields(&r.headers),
        pairs(&[
            (":status", "416"),
            ("server", "quiche"),
            ("content-range", "bytes */1234"),
            ("content-length", "0"),
        ])
    );
}

#[test]
fn single_answer_has_exactly_its_fields() {
    let with_type = build_single((4, 8), 19, &Some(b"text/plain".to_vec()), b"quick".to_vec());
    assert_eq!(with_type.status, 206);
    assert_eq!(with_type.body, b"quick");
    assert_eq!(
        fields(&with_type.headers),
        pairs(&[
            (":status", "206"),
            ("server", "quiche"),
            ("content-range", "bytes 4-8/19"),
            ("content-length", "5"),
            ("content-type", "text/plain"),
        ])
    );
    let without = build_single((4, 8), 19, &None, b"quick".to_vec());
    assert_eq!(without.headers.len(), 4);
}

#[test]
fn parts_are_written_byte_for_byte() {
    let mut body = Vec::new();
    write_part(&mut body, "B", &None, (0, 2), 17, b"012");
    write_part(&mut body, "B", &Some(b"text/plain".to_vec()), (10, 12), 17, b"ABC");
    let written = "--B\r\nContent-Type: application/octet-stream\r\n\
        Content-Range: bytes 0-2/17\r\n\r\n012\r\n\
        --B\r\nContent-Type: text/plain\r\n\
        Content-Range: bytes 10-12/17\r\n\r\nABC\r\n";
    assert_eq!(body, written.as_bytes());
    let response = build_multipart("B", body);
    assert_eq!(response.body, format!("{}--B--\r\n", written).as_bytes());
    assert_eq!(
        fields(&response.headers),
        pairs(&[
            (":status", "206"),
            ("server", "quiche"),
            ("content-type", "multipart/byteranges; boundary=B"),
            ("content-length", &response.body.len().to_string()),
        ])
    );
}

#[test]
fn a_multipart_answer_carries_every_range() {
    let content = b"0123456789ABCDEFG";
    let r = serve(content, &range(b"bytes=0-0,-2,5-6"), &context(17), &RangeConfig::default());
    let ctype = String::from_utf8(header_value(&r.headers, b"content-type").unwrap().to_vec());
    let ctype = ctype.unwrap();
    let boundary = ctype.strip_prefix("multipart/byteranges; boundary=").unwrap();
    let mut expected = Vec::new();
    write_part(&mut expected, boundary, &None, (0, 0), 17, b"0");
    write_part(&mut expected, boundary, &None, (15, 16), 17, b"FG");
    write_part(&mut expected, boundary, &None, (5, 6), 17, b"56");
    expected.extend_from_slice(format!("--{}--\r\n", boundary).as_bytes());
    assert_eq!(r.body, expected);
}

#[test]
fn a_failed_read_ends_a_multipart_answer() {
    let job = match handle_range_request(
        &range(b"bytes=0-1,3-4"),
        &context(10),
        &RangeConfig::default(),
    ) {
        Ok(Some(RangePlan::Read(job))) => job,
        _ => panic!("reads expected"),
    };
    let job = job.feed(Ok(b"01".to_vec())).unwrap_or_else(|_| panic!("first read works"));
    assert_eq!(job.next_read(), Some((3, 2)));
    let failed = Err(std::io::Error::from(std::io::ErrorKind::UnexpectedEof));
    assert!(matches!(
        job.feed(failed),
        Err(RangeError::Io(e)) if e.kind() == std::io::ErrorKind::UnexpectedEof
    ));
}

#[test]
fn io_errors_convert() {
    let e = RangeError::from(std::io::Error::from(std::io::ErrorKind::PermissionDenied));
    assert!(matches!(e, RangeError::Io(e) if e.kind() == std::io::ErrorKind::PermissionDenied));
}

#[test]
fn written_ranges_are_read_back() {
    let specs =
        vec![spec(Some(0), Some(0)), spec(None, Some(u64::MAX)), spec(Some(42), None)];
    let text = specs
        .iter()
        .map(|s| {
            format!(
                "{}-{}",
                s.start.map(|n| n.to_string()).unwrap_or_default(),
                s.end.map(|n| n.to_string()).unwrap_or_default()
            )
        })
        .collect::<Vec<String>>()
        .join(",");
    assert_eq!(parse_range_text(&format!("bytes={}", text)).unwrap(), specs);
}

#[test]
fn boundaries_are_hexadecimal_times() {
    assert_eq!(boundary_at(0), "quiche_boundary_0");
    assert_eq!(boundary_at(15), "quiche_boundary_f");
    assert_eq!(boundary_at(16), "quiche_boundary_10");
    assert_eq!(boundary_at(0x1234_abcd_ef90), "quiche_boundary_1234abcdef90");
    assert_eq!(boundary_at(u128::MAX), "quiche_boundary_ffffffffffffffffffffffffffffffff");
    assert_ne!(boundary_at(100), boundary_at(101));
    let now = gen_boundary();
    let nanos = u128::from_str_radix(now.strip_prefix("quiche_boundary_").unwrap(), 16).unwrap();
    assert!(nanos > 1_500_000_000_000_000_000);
}

#[test]
fn a_clock_before_the_epoch_counts_as_the_epoch() {
    assert_eq!(epoch_nanos(Some(1_700_000_000_000_000_000)), 1_700_000_000_000_000_000);
    assert_eq!(epoch_nanos(None), 0);
    assert_eq!(boundary_at(epoch_nanos(None)), "quiche_boundary_0");
}

#[test]
fn contexts_clone_with_their_path() {
    let ctx = context(3);
    let copy = ctx.clone();
    assert_eq!(copy.path, ctx.path);
    assert_eq!(copy.total_len, 3);
}
