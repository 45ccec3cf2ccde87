use std::io::Read;

use minihttp::connection::default_routes;
use minihttp::connection::handle_request;
use minihttp::connection::Dispatch;
use minihttp::context::ServerContext;
use minihttp::endpoints::files_get_finish;
use minihttp::endpoints::files_post_finish;
use minihttp::endpoints::FileReadResult;
use minihttp::http::HttpMethod;
use minihttp::http::HttpStatus;
use minihttp::response::HttpResponse;

fn resp_header(resp: &HttpResponse, name: &[u8]) -> Option<Vec<u8>> {
    for (k, v) in resp.headers.iter() {
        if k.as_slice() == name {
            return Some(v.clone());
        }
    }
    None
}

fn run_done(raw: &[u8], ctx: ServerContext) -> HttpResponse {
    let routes = default_routes();
    match handle_request(&routes, ctx, raw) {
        Some(Dispatch::Done(resp)) => resp,
        other => panic!("expected a finished response, got {:?}", other),
    }
}

#[test]
fn echo_returns_the_segment() {
    let resp = run_done(b"GET /echo/hello HTTP/1.1\r\n\r\n", ServerContext::new());
    assert_eq!(resp.status, HttpStatus::OK);
    assert_eq!(resp.body, b"hello".to_vec());
    assert_eq!(resp_header(&resp, b"Content-Type"), Some(b"text/plain".to_vec()));
    assert_eq!(resp_header(&resp, b"content-length"), Some(b"5".to_vec()));
    assert_eq!(resp_header(&resp, b"content-encoding"), None);
}

#[test]
fn echo_compresses_when_gzip_is_accepted() {
    let resp = run_done(
        b"GET /echo/hello HTTP/1.1\r\nAccept-Encoding: gzip\r\n\r\n",
        ServerContext::new(),
    );
    assert_eq!(resp.status, HttpStatus::OK);
    assert_eq!(resp_header(&resp, b"content-encoding"), Some(b"gzip".to_vec()));
    assert_eq!(
        resp_header(&resp, b"content-length"),
        Some(resp.body.len().to_string().into_bytes())
    );
    let mut decoder = flate2::read::GzDecoder::new(resp.body.as_slice());
    let mut decoded = Vec::new();
    decoder.read_to_end(&mut decoded).unwrap();
    assert_eq!(decoded, b"hello".to_vec());
}

#[test]
fn unsupported_encoding_passes_body_through() {
    let resp = run_done(
        b"GET /echo/hi HTTP/1.1\r\nAccept-Encoding: identity\r\n\r\n",
        ServerContext::new(),
    );
    assert_eq!(resp.status, HttpStatus::OK);
    assert_eq!(resp_header(&resp, b"content-encoding"), None);
    assert_eq!(resp.body, b"hi".to_vec());
}

#[test]
fn encoding_list_keeps_supported_names_in_client_order() {
    let resp = run_done(
        b"GET /echo/hi HTTP/1.1\r\nAccept-Encoding: deflate, gzip, br\r\n\r\n",
        ServerContext::new(),
    );
    assert_eq!(resp_header(&resp, b"content-encoding"), Some(b"gzip".to_vec()));
    let mut decoder = flate2::read::GzDecoder::new(resp.body.as_slice());
    let mut decoded = Vec::new();
    decoder.read_to_end(&mut decoded).unwrap();
    assert_eq!(decoded, b"hi".to_vec());
}

#[test]
fn user_agent_is_reflected() {
    let resp = run_done(
        b"GET /user-agent HTTP/1.1\r\nUser-Agent: test-client\r\n\r\n",
        ServerContext::new(),
    );
    assert_eq!(resp.status, HttpStatus::OK);
    assert_eq!(resp.body, b"test-client".to_vec());
}

#[test]
fn missing_user_agent_is_a_bad_request() {
    let resp = run_done(b"GET /user-agent HTTP/1.1\r\n\r\n", ServerContext::new());
    assert_eq!(resp.status, HttpStatus::BadRequest);
    assert!(resp.body.is_empty());
}

#[test]
fn unregistered_path_is_not_found_regardless_of_method() {
    let get = run_done(b"GET /unregistered-path HTTP/1.1\r\n\r\n", ServerContext::new());
    assert_eq!(get.status, HttpStatus::NotFound);
    let post = run_done(b"POST /unregistered-path HTTP/1.1\r\n\r\n", ServerContext::new());
    assert_eq!(post.status, HttpStatus::NotFound);
    let put = run_done(b"PUT / HTTP/1.1\r\n\r\n", ServerContext::new());
    assert_eq!(put.status, HttpStatus::NotFound);
}

#[test]
fn root_returns_empty_ok() {
    let resp = run_done(b"GET / HTTP/1.1\r\n\r\n", ServerContext::new());
    assert_eq!(resp.status, HttpStatus::OK);
    assert!(resp.headers.is_empty());
    assert!(resp.body.is_empty());
}

#[test]
fn unparseable_buffer_yields_no_response() {
    let routes = default_routes();
    assert!(handle_request(&routes, ServerContext::new(), b"").is_none());
    assert!(handle_request(&routes, ServerContext::new(), b"garbage").is_none());
}

fn ctx_with_dir(dir: &[u8]) -> ServerContext {
    let mut ctx = ServerContext::new();
    ctx.add_context(b"workdir", dir);
    ctx
}

#[test]
fn file_write_then_read_round_trip() {
    let routes = default_routes();

    // A dot is not a word character, so a name like `data.txt` is outside
    // the wildcard contract and misses the route entirely.
    assert_eq!(routes.resolve(b"/files/data.txt", HttpMethod::Post), None);

    let write = handle_request(
        &routes,
        ctx_with_dir(b"/srv/data"),
        b"POST /files/data_txt HTTP/1.1\r\nContent-Length: 3\r\n\r\nabc",
    );
    let (path, contents) = match write {
        Some(Dispatch::WriteFile { path, contents }) => (path, contents),
        other => panic!("expected a file write, got {:?}", other),
    };
    assert_eq!(path, b"/srv/data/data_txt".to_vec());
    assert_eq!(contents, b"abc".to_vec());
    let created = files_post_finish(true);
    assert_eq!(created.status, HttpStatus::Created);

    let read = handle_request(
        &routes,
        ctx_with_dir(b"/srv/data"),
        b"GET /files/data_txt HTTP/1.1\r\n\r\n",
    );
    let (path, req) = match read {
        Some(Dispatch::ReadFile { path, req }) => (path, req),
        other => panic!("expected a file read, got {:?}", other),
    };
    assert_eq!(path, b"/srv/data/data_txt".to_vec());
    let resp = files_get_finish(&req, FileReadResult::Found(contents));
    assert_eq!(resp.status, HttpStatus::OK);
    assert_eq!(resp.body, b"abc".to_vec());
    assert_eq!(
        resp_header(&resp, b"Content-Type"),
        Some(b"application/octet-stream".to_vec())
    );
    assert_eq!(resp_header(&resp, b"content-length"), Some(b"3".to_vec()));
}

#[test]
fn missing_file_is_not_found() {
    let routes = default_routes();
    let read = handle_request(
        &routes,
        ctx_with_dir(b"/srv/data"),
        b"GET /files/missing HTTP/1.1\r\n\r\n",
    );
    let req = match read {
        Some(Dispatch::ReadFile { req, .. }) => req,
        other => panic!("expected a file read, got {:?}", other),
    };
    let resp = files_get_finish(&req, FileReadResult::Missing);
    assert_eq!(resp.status, HttpStatus::NotFound);
}

#[test]
fn file_routes_without_directory_are_server_errors() {
    let get = run_done(b"GET /files/x HTTP/1.1\r\n\r\n", ServerContext::new());
    assert_eq!(get.status, HttpStatus::InternalServerError);
    let post = run_done(b"POST /files/x HTTP/1.1\r\n\r\nbody", ServerContext::new());
    assert_eq!(post.status, HttpStatus::InternalServerError);
    let failed_write = files_post_finish(false);
    assert_eq!(failed_write.status, HttpStatus::InternalServerError);
}
