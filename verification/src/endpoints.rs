//! The business endpoints: the empty root response, echoing a path segment,
//! reflecting the `User-Agent` header, and building the responses of the
//! file-serving routes. The filesystem itself stays outside this crate: the
//! file handlers are split into a verified decision (which path to read or
//! write) and a verified response built from the outcome.

use vstd::prelude::*;

verus! {

use crate::assoc::assoc_lookup;
use crate::bytes::ascii_seq;
use crate::bytes::spec_lower;
use crate::bytes::str_bytes;
use crate::bytes::SLASH;
use crate::http::HttpStatus;
use crate::request::HttpRequest;
use crate::request::ReqModel;
use crate::response::spec_empty_resp;
use crate::response::spec_new_resp;
use crate::response::spec_with_body;
use crate::response::spec_with_header;
use crate::response::spec_with_status;
use crate::response::HttpResponse;
use crate::utils::spec_url_parts;
use crate::utils::split_url_into_parts;
use crate::bytes::views;

/// The header under which a response names its body type.
pub open spec fn spec_content_type_key() -> Seq<u8> {
    ascii_seq("Content-Type"@)
}

/// The header under which a request names its client.
pub open spec fn spec_user_agent_key() -> Seq<u8> {
    ascii_seq("user-agent"@)
}

/// What the echo endpoint returns: a 200 whose body is the last path
/// segment, typed `text/plain`, under the negotiated headers.
pub open spec fn spec_echo_resp(m: ReqModel) -> crate::response::RespModel {
    spec_with_body(
        spec_with_header(spec_new_resp(m), spec_content_type_key(), ascii_seq("text/plain"@)),
        spec_url_parts(m.url).last(),
    )
}

/// What the user-agent endpoint returns: a 200 whose body is the value of
/// the `User-Agent` header, or a bare 400 when the request sent none.
pub open spec fn spec_user_agent_resp(m: ReqModel) -> crate::response::RespModel {
    match assoc_lookup(m.headers, spec_user_agent_key()) {
        Some(v) => spec_with_body(
            spec_with_header(spec_new_resp(m), spec_content_type_key(), ascii_seq("text/plain"@)),
            v,
        ),
        None => spec_with_status(spec_empty_resp(), HttpStatus::BadRequest),
    }
}

/// The root endpoint: a bare 200.
pub fn root(_req: HttpRequest) -> (r: HttpResponse)
    ensures
        r@ == spec_empty_resp(),
{
    HttpResponse::empty()
}

/// The echo endpoint: returns the wildcard segment of the path. Routing
/// guarantees the path has a segment.
pub fn echo(req: HttpRequest) -> (r: HttpResponse)
    requires
        spec_url_parts(req@.url).len() > 0,
    ensures
        r@ == spec_echo_resp(req@),
{
    proof {
        reveal_strlit("Content-Type");
        reveal_strlit("text/plain");
    }
    let parts = split_url_into_parts(req.url.as_slice());
    let arg = &parts[parts.len() - 1];
    proof {
        assert(views(parts@)[parts@.len() - 1] == parts@[parts@.len() - 1]@);
    }
    let ct = str_bytes("Content-Type");
    let tp = str_bytes("text/plain");
    let response = HttpResponse::new(&req).header((ct.as_slice(), tp.as_slice())).body(
        arg.as_slice(),
    );
    response
}

/// The user-agent endpoint: reflects the `User-Agent` header, or answers a
/// bare 400 when the request sent none.
pub fn user_agent(req: HttpRequest) -> (r: HttpResponse)
    ensures
        r@ == spec_user_agent_resp(req@),
{
    proof {
        reveal_strlit("User-Agent");
        reveal_strlit("user-agent");
        reveal_strlit("Content-Type");
        reveal_strlit("text/plain");
    }
    let key = str_bytes("User-Agent");
    proof {
        assert(spec_lower(key@) =~= spec_user_agent_key());
    }
    let ua = match req.get_header(key.as_slice()) {
        Some(v) => vstd::slice::slice_to_vec(v.as_slice()),
        None => {
            return HttpResponse::empty().status(HttpStatus::BadRequest);
        },
    };
    let ct = str_bytes("Content-Type");
    let tp = str_bytes("text/plain");
    let response = HttpResponse::new(&req).header((ct.as_slice(), tp.as_slice())).body(
        ua.as_slice(),
    );
    response
}

/// What a file read outside the library came back with: the file's bytes,
/// no file under that path, or a failure that was neither.
#[derive(Debug)]
pub enum FileReadResult {
    Found(Vec<u8>),
    Missing,
    Failed,
}

/// The path of a served file: the configured directory, a separator, the
/// file name.
pub open spec fn spec_file_path(workdir: Seq<u8>, name: Seq<u8>) -> Seq<u8> {
    workdir + seq![SLASH] + name
}

/// Joins the configured directory and a file name.
pub fn file_path(workdir: &[u8], name: &[u8]) -> (r: Vec<u8>)
    ensures
        r@ == spec_file_path(workdir@, name@),
{
    let mut out = vstd::slice::slice_to_vec(workdir);
    out.push(SLASH);
    let mut n = vstd::slice::slice_to_vec(name);
    out.append(&mut n);
    proof {
        assert(out@ =~= spec_file_path(workdir@, name@));
    }
    out
}

/// Builds the response of `GET /files/{name}` from the read outcome: the
/// bytes as `application/octet-stream` under a 200, a bare 404 when the
/// file is absent, a bare 500 when the read failed otherwise.
pub fn files_get_finish(req: &HttpRequest, file: FileReadResult) -> (r: HttpResponse)
    ensures
        match file {
            FileReadResult::Found(buf) => r@ == spec_with_body(
                spec_with_header(
                    spec_new_resp(req@),
                    spec_content_type_key(),
                    ascii_seq("application/octet-stream"@),
                ),
                buf@,
            ),
            FileReadResult::Missing => r@ == spec_with_status(
                spec_empty_resp(),
                HttpStatus::NotFound,
            ),
            FileReadResult::Failed => r@ == spec_with_status(
                spec_empty_resp(),
                HttpStatus::InternalServerError,
            ),
        },
{
    proof {
        reveal_strlit("Content-Type");
        reveal_strlit("application/octet-stream");
    }
    match file {
        FileReadResult::Found(buf) => {
            let ct = str_bytes("Content-Type");
            let os = str_bytes("application/octet-stream");
            HttpResponse::new(req).header((ct.as_slice(), os.as_slice())).body(buf.as_slice())
        },
        FileReadResult::Missing => HttpResponse::empty().status(HttpStatus::NotFound),
        FileReadResult::Failed => HttpResponse::empty().status(HttpStatus::InternalServerError),
    }
}

/// Builds the response of `POST /files/{name}` from the write outcome: a
/// bare 201 when the write went through, a bare 500 otherwise.
pub fn files_post_finish(ok: bool) -> (r: HttpResponse)
    ensures
        ok ==> r@ == spec_with_status(spec_empty_resp(), HttpStatus::Created),
        !ok ==> r@ == spec_with_status(spec_empty_resp(), HttpStatus::InternalServerError),
{
    if ok {
        HttpResponse::empty().status(HttpStatus::Created)
    } else {
        HttpResponse::empty().status(HttpStatus::InternalServerError)
    }
}

} // verus!
