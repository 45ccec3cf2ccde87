use std::io::Read;

use minihttp::context::ServerContext;
use minihttp::encoder::Encoder;
use minihttp::encoder::Encoding;
use minihttp::http::HttpStatus;
use minihttp::request::HttpRequest;
use minihttp::response::prepop_headers;
use minihttp::response::HttpResponse;

#[test]
fn encoding_tokens_map_to_transforms() {
    assert_eq!(Encoding::from_bytes(b"gzip"), Encoding::Gzip);
    assert_eq!(Encoding::from_bytes(b"deflate"), Encoding::Identity);
    assert_eq!(Encoding::from_bytes(b""), Encoding::Identity);
}

#[test]
fn encoder_identity_passes_data_through() {
    let encoder = Encoder::new(b"identity");
    assert_eq!(encoder.encoding, Encoding::Identity);
    assert_eq!(encoder.encode(b"payload"), b"payload".to_vec());
}

#[test]
fn encoder_gzip_round_trips() {
    let encoder = Encoder::new(b"gzip");
    assert_eq!(encoder.encoding, Encoding::Gzip);
    let compressed = encoder.encode(b"some compressible payload payload payload");
    assert_ne!(compressed, b"some compressible payload payload payload".to_vec());
    let mut decoder = flate2::read::GzDecoder::new(compressed.as_slice());
    let mut decoded = Vec::new();
    decoder.read_to_end(&mut decoded).unwrap();
    assert_eq!(decoded, b"some compressible payload payload payload".to_vec());
}

fn request_with(raw: &[u8]) -> HttpRequest {
    HttpRequest::new(raw, ServerContext::new()).unwrap()
}

#[test]
fn prepop_keeps_supported_encodings_in_client_order() {
    let req = request_with(b"GET / HTTP/1.1\r\nAccept-Encoding: deflate, gzip, br\r\n\r\n");
    let headers = prepop_headers(&req);
    assert_eq!(headers, vec![(b"content-encoding".to_vec(), b"gzip".to_vec())]);

    let req = request_with(b"GET / HTTP/1.1\r\nAccept-Encoding: gzip, gzip\r\n\r\n");
    let headers = prepop_headers(&req);
    assert_eq!(
        headers,
        vec![(b"content-encoding".to_vec(), b"gzip, gzip".to_vec())]
    );
}

#[test]
fn prepop_is_empty_without_supported_encodings() {
    let req = request_with(b"GET / HTTP/1.1\r\n\r\n");
    assert!(prepop_headers(&req).is_empty());

    let req = request_with(b"GET / HTTP/1.1\r\nAccept-Encoding: deflate, br\r\n\r\n");
    assert!(prepop_headers(&req).is_empty());
}

#[test]
fn headers_builder_stores_in_order_and_replaces() {
    let resp = HttpResponse::empty().headers(&[
        (b"A".to_vec(), b"1".to_vec()),
        (b"B".to_vec(), b"2".to_vec()),
        (b"A".to_vec(), b"3".to_vec()),
    ]);
    assert_eq!(
        resp.headers,
        vec![(b"A".to_vec(), b"3".to_vec()), (b"B".to_vec(), b"2".to_vec())]
    );
    assert_eq!(resp.status, HttpStatus::OK);
}

#[test]
fn context_stores_and_replaces_values() {
    let mut ctx = ServerContext::new();
    assert!(ctx.get(b"workdir").is_none());
    assert!(ctx.workdir().is_none());
    ctx.add_context(b"workdir", b"/tmp/a");
    assert_eq!(ctx.workdir(), Some(&b"/tmp/a".to_vec()));
    ctx.add_context(b"workdir", b"/tmp/b");
    assert_eq!(ctx.workdir(), Some(&b"/tmp/b".to_vec()));
    ctx.add_context(b"other", b"x");
    assert_eq!(ctx.get(b"other"), Some(&b"x".to_vec()));
    assert_eq!(ctx.workdir(), Some(&b"/tmp/b".to_vec()));
}
