use std::io::{Read, Seek, SeekFrom, Write};
use std::path::PathBuf;

use quiche_apps::header::Header;
use quiche_apps::range::handle::{handle_range_request, RangePlan};
use quiche_apps::range::parse::parse_range_header_only;
use quiche_apps::range::types::{
    IfRange, RangeConfig, RangeContext, RangeError, RangeResponse, RangeUnit,
};
use tempfile::NamedTempFile;

fn hdr(name: &[u8], value: &[u8]) -> Header {
    Header::new(name, value)
}

fn get_header<'a>(headers: &'a [Header], name: &str) -> Option<&'a [u8]> {
    headers
        .iter()
        .find(|h| h.name().eq_ignore_ascii_case(name.as_bytes()))
        .map(|h| h.value())
}

fn write_temp(bytes: &[u8]) -> (NamedTempFile, PathBuf, u64) {
    let mut tf = NamedTempFile::new().expect("tmp file");
    tf.write_all(bytes).expect("write tmp");
    let len = bytes.len() as u64;
    let path = tf.path().to_path_buf();
    (tf, path, len)
}

fn mk_ctx(
    path: PathBuf,
    total_len: u64,
    etag: Option<&str>,
    last_modified: Option<&str>,
    content_type: Option<&[u8]>,
    if_range: Option<IfRange>,
) -> RangeContext {
    RangeContext {
        path,
        total_len,
        etag: etag.map(|s| s.to_string()),
        last_modified_http_date: last_modified.map(|s| s.to_string()),
        content_type: content_type.map(|b| b.to_vec()),
        if_range,
    }
}

fn cfg_default() -> RangeConfig {
    RangeConfig::default()
}

fn read_slice(tf: &NamedTempFile, offset: u64, length: u64) -> std::io::Result<Vec<u8>> {
    let mut f = tf.as_file();
    f.seek(SeekFrom::Start(offset))?;
    let mut buf = vec![0u8; length as usize];
    f.read_exact(&mut buf)?;
    Ok(buf)
}

fn serve(
    tf: &NamedTempFile,
    req: &[Header],
    ctx: &RangeContext,
    cfg: &RangeConfig,
) -> Result<Option<RangeResponse>, RangeError> {
    let mut job = match handle_range_request(req, ctx, cfg)? {
        None => return Ok(None),
        Some(RangePlan::Complete(response)) => return Ok(Some(response)),
        Some(RangePlan::Read(job)) => job,
    };
    while let Some((offset, length)) = job.next_read() {
        job = job.feed(read_slice(tf, offset, length))?;
    }
    Ok(Some(job.finish()))
}

#[test]
fn parse_only_none_when_absent() {
    let req = vec![hdr(b":method", b"GET")];
    let parsed = parse_range_header_only(&req).unwrap();
    assert!(parsed.is_none());
}

#[test]
fn parse_only_single_and_suffix() {
    let req = vec![hdr(b"range", b"bytes=100-199,-50,300-")];
    let parsed = parse_range_header_only(&req).unwrap().unwrap();
    assert_eq!(parsed.unit, RangeUnit::Bytes);
    assert_eq!(parsed.specs.len(), 3);

    // 100-199
    assert_eq!(parsed.specs[0].start, Some(100));
    assert_eq!(parsed.specs[0].end, Some(199));

    // -50 (suffix)
    assert_eq!(parsed.specs[1].start, None);
    assert_eq!(parsed.specs[1].end, Some(50));

    // 300-
    assert_eq!(parsed.specs[2].start, Some(300));
    assert_eq!(parsed.specs[2].end, None);
}

#[test]
fn parse_only_unsupported_unit() {
    let req = vec![hdr(b"range", b"items=0-1")];
    let err = parse_range_header_only(&req).unwrap_err();
    assert!(matches!(err, RangeError::UnsupportedUnit));
}

#[test]
fn parse_only_malformed() {
    for bad in [
        b"bytes=" as &[u8],
        b"bytes=,",
        b"bytes=100",
        b"bytes=200-100", // end < start
        b"bytes=abc-",
        b"bytes=-",
    ] {
        let req = vec![hdr(b"range", bad)];
        let err = parse_range_header_only(&req).unwrap_err();
        assert!(matches!(err, RangeError::Parse));
    }
}

#[test]
fn handle_no_range_returns_none() {
    let (tf, path, len) = write_temp(b"hello world");
    let ctx = mk_ctx(path, len, None, None, None, None);
    let out = serve(&tf, &[hdr(b":method", b"GET")], &ctx, &cfg_default()).unwrap();
    assert!(out.is_none());
}

#[test]
fn if_range_etag_mismatch_returns_none() {
    let (tf, path, len) = write_temp(b"0123456789");
    let ctx = mk_ctx(
        path,
        len,
        Some("\"etag-a\""),
        None,
        None,
        Some(IfRange { etag: Some("\"etag-b\"".into()), last_modified_http_date: None }),
    );
    let req = vec![hdr(b"range", b"bytes=0-4")];
    let out = serve(&tf, &req, &ctx, &cfg_default()).unwrap();
    assert!(out.is_none(), "mismatch must fall back to full 200 by caller");
}

#[test]
fn if_range_date_mismatch_returns_none() {
    let (tf, path, len) = write_temp(b"0123456789");
    let ctx = mk_ctx(
        path,
        len,
        None,
        Some("Wed, 21 Oct 2015 07:28:00 GMT"),
        None,
        Some(IfRange {
            etag: None,
            last_modified_http_date: Some("Thu, 22 Oct 2015 07:28:00 GMT".into()),
        }),
    );
    let req = vec![hdr(b"range", b"bytes=0-4")];
    let out = serve(&tf, &req, &ctx, &cfg_default()).unwrap();
    assert!(out.is_none());
}

#[test]
fn if_range_match_allows_range() {
    let (tf, path, len) = write_temp(b"ABCDEFGHIJ");
    let ctx = mk_ctx(
        path.clone(),
        len,
        Some("\"same\""),
        Some("Wed, 21 Oct 2015 07:28:00 GMT"),
        Some(b"text/plain"),
        Some(IfRange {
            etag: Some("\"same\"".into()),
            last_modified_http_date: Some("Wed, 21 Oct 2015 07:28:00 GMT".into()),
        }),
    );
    let req = vec![hdr(b"range", b"bytes=1-3")];
    let out = serve(&tf, &req, &ctx, &cfg_default()).unwrap().unwrap();
    assert_eq!(out.status, 206);
    assert_eq!(get_header(&out.headers, "content-range").unwrap(), b"bytes 1-3/10");
    assert_eq!(out.body, b"BCD");
}

#[test]
fn single_range_honors_content_type_and_content_range() {
    let (tf, path, len) = write_temp(b"The quick brown fox");
    let ctx = mk_ctx(path, len, None, None, Some(b"text/plain"), None);
    let req = vec![hdr(b"range", b"bytes=4-8")];
    let out = serve(&tf, &req, &ctx, &cfg_default()).unwrap().unwrap();

    assert_eq!(out.status, 206);
    assert_eq!(out.body, b"quick");
    assert_eq!(get_header(&out.headers, "content-range").unwrap(), b"bytes 4-8/19");
    assert_eq!(get_header(&out.headers, "content-type").unwrap(), b"text/plain");
    assert_eq!(get_header(&out.headers, "content-length").unwrap(), b"5");
}

#[test]
fn single_open_ended_range() {
    let (tf, path, len) = write_temp(b"0123456789");
    let ctx = mk_ctx(path, len, None, None, None, None);
    let req = vec![hdr(b"range", b"bytes=7-")];
    let out = serve(&tf, &req, &ctx, &cfg_default()).unwrap().unwrap();

    assert_eq!(out.status, 206);
    assert_eq!(out.body, b"789");
    assert_eq!(get_header(&out.headers, "content-range").unwrap(), b"bytes 7-9/10");
}

#[test]
fn single_suffix_range() {
    let (tf, path, len) = write_temp(b"abcdef");
    let ctx = mk_ctx(path, len, None, None, None, None);
    let req = vec![hdr(b"range", b"bytes=-3")];
    let out = serve(&tf, &req, &ctx, &cfg_default()).unwrap().unwrap();

    assert_eq!(out.status, 206);
    assert_eq!(out.body, b"def");
    assert_eq!(get_header(&out.headers, "content-range").unwrap(), b"bytes 3-5/6");
}

#[test]
fn unsatisfiable_returns_416_and_star_len() {
    let (tf, path, len) = write_temp(b"abc");
    let ctx = mk_ctx(path, len, None, None, None, None);
    // Start beyond the end
    let req = vec![hdr(b"range", b"bytes=10-20")];
    let out = serve(&tf, &req, &ctx, &cfg_default()).unwrap().unwrap();

    assert_eq!(out.status, 416);
    assert_eq!(out.body.len(), 0);
    assert_eq!(get_header(&out.headers, "content-range").unwrap(), b"bytes */3");
    assert_eq!(get_header(&out.headers, "content-length").unwrap(), b"0");
}

#[test]
fn zero_length_representation_is_416() {
    let (tf, path, _len) = write_temp(b"");
    let ctx = mk_ctx(path, 0, None, None, None, None);
    let req = vec![hdr(b"range", b"bytes=0-0")];
    let out = serve(&tf, &req, &ctx, &cfg_default()).unwrap().unwrap();
    assert_eq!(out.status, 416);
    assert_eq!(get_header(&out.headers, "content-range").unwrap(), b"bytes */0");
}

#[test]
fn malformed_range_yields_parse_error() {
    let (tf, path, len) = write_temp(b"0123");
    let ctx = mk_ctx(path, len, None, None, None, None);
    let req = vec![hdr(b"range", b"bytes=abc-")];
    let err = serve(&tf, &req, &ctx, &cfg_default()).unwrap_err();
    assert!(matches!(err, RangeError::Parse));
}

#[test]
fn unsupported_unit_yields_error() {
    let (tf, path, len) = write_temp(b"0123");
    let ctx = mk_ctx(path, len, None, None, None, None);
    let req = vec![hdr(b"range", b"items=0-1")];
    let err = serve(&tf, &req, &ctx, &cfg_default()).unwrap_err();
    assert!(matches!(err, RangeError::UnsupportedUnit));
}

#[test]
fn io_error_bubbles_up() {
    // A file that does not exist, with a plausible length so that evaluation succeeds.
    let bogus_path = PathBuf::from("/nonexistent/path/file.bin");
    let ctx = mk_ctx(bogus_path, 100, None, None, None, None);
    let req = vec![hdr(b"range", b"bytes=0-5")];
    let job = match handle_range_request(&req, &ctx, &cfg_default()).unwrap() {
        Some(RangePlan::Read(job)) => job,
        _ => panic!("a satisfiable range needs a read"),
    };
    assert_eq!(job.next_read(), Some((0, 6)));
    let failed = ctx.path.metadata().map(|_| Vec::new());
    let err = match job.feed(failed) {
        Err(e) => e,
        Ok(_) => panic!("a failed read must not go on"),
    };
    assert!(matches!(err, RangeError::Io(e) if e.kind() == std::io::ErrorKind::NotFound));
}

#[test]
fn multipart_two_ranges_with_boundary_and_parts() {
    let data = b"0123456789ABCDEFG";
    let (tf, path, len) = write_temp(data);
    let ctx = mk_ctx(path, len, None, None, Some(b"application/octet-stream"), None);
    let req = vec![hdr(b"range", b"bytes=0-2,10-12")];

    let out = serve(&tf, &req, &ctx, &cfg_default()).unwrap().unwrap();
    assert_eq!(out.status, 206);

    // The content type is multipart with a boundary
    let ctype = std::str::from_utf8(get_header(&out.headers, "content-type").unwrap()).unwrap();
    assert!(ctype.starts_with("multipart/byteranges; boundary="));
    let boundary = ctype.split("boundary=").nth(1).unwrap();

    // The body contains both opening and closing boundary lines
    let body_txt = String::from_utf8_lossy(&out.body);
    let open_marker = format!("--{}\r\n", boundary);
    let close_marker = format!("--{}--\r\n", boundary);
    assert!(body_txt.contains(&open_marker));
    assert!(body_txt.contains(&close_marker));

    // Two parts
    let cnt = body_txt.matches("Content-Range: ").count();
    assert_eq!(cnt, 2);

    // Each part carries its own fields and payload
    assert!(body_txt.contains("Content-Type: application/octet-stream\r\n"));
    assert!(body_txt.contains("Content-Range: bytes 0-2/17\r\n\r\n012\r\n"));
    assert!(body_txt.contains("Content-Range: bytes 10-12/17\r\n\r\nABC\r\n"));

    // The declared length is the length of the body
    let declared_len: usize =
        std::str::from_utf8(get_header(&out.headers, "content-length").unwrap())
            .unwrap()
            .parse()
            .unwrap();
    assert_eq!(declared_len, out.body.len());
}

#[test]
fn multipart_disabled_forces_single_first_range() {
    let data = b"Hello Rust ranges!";
    let (tf, path, len) = write_temp(data);
    let ctx = mk_ctx(path, len, None, None, Some(b"text/plain"), None);

    let cfg = RangeConfig { enable_multipart: false, max_parts: 16 };

    // Two ranges are asked for; only the first is served
    let req = vec![hdr(b"range", b"bytes=0-4,6-9")];
    let out = serve(&tf, &req, &ctx, &cfg).unwrap().unwrap();

    assert_eq!(out.status, 206);
    assert_eq!(get_header(&out.headers, "content-type").unwrap(), b"text/plain");
    assert_eq!(get_header(&out.headers, "content-range").unwrap(), b"bytes 0-4/18");
    assert_eq!(out.body, b"Hello");
}

#[test]
fn max_parts_trimming_uses_only_first_n() {
    let data = b"ABCDEFGHIJKLMNOPQRSTUVWXYZ";
    let (tf, path, len) = write_temp(data);
    let ctx = mk_ctx(path, len, None, None, None, None);
    let cfg = RangeConfig { enable_multipart: true, max_parts: 1 };

    let req = vec![hdr(b"range", b"bytes=0-0,2-2,4-4")];
    let out = serve(&tf, &req, &ctx, &cfg).unwrap().unwrap();

    // Multipart is enabled, but one range is left
    assert_eq!(out.status, 206);
    assert_eq!(get_header(&out.headers, "content-range").unwrap(), b"bytes 0-0/26");
    assert_eq!(out.body, b"A");
}

#[test]
fn ranges_partially_out_of_bounds_are_clamped() {
    // 0-999 of a short file ends with the file
    let (tf, path, len) = write_temp(b"short");
    let ctx = mk_ctx(path, len, None, None, None, None);
    let req = vec![hdr(b"range", b"bytes=0-999")];
    let out = serve(&tf, &req, &ctx, &cfg_default()).unwrap().unwrap();

    assert_eq!(out.status, 206);
    assert_eq!(get_header(&out.headers, "content-range").unwrap(), b"bytes 0-4/5");
    assert_eq!(out.body, b"short");
}
