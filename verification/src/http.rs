//! Common HTTP vocabulary: methods, statuses, and the set of content
//! encodings the server supports.

use vstd::prelude::*;

verus! {

use crate::bytes::ascii_seq;
use crate::bytes::str_bytes;
use crate::bytes::bytes_eq;

/// The request methods the server distinguishes. Any method token other than
/// `GET` or `POST` parses to `Invalid`, which no route ever matches.
#[derive(Clone, Copy, PartialEq, Eq, Structural, Debug, Hash)]
pub enum HttpMethod {
    Get,
    Post,
    Invalid,
}

/// The statuses a response can carry.
#[derive(Clone, Copy, PartialEq, Eq, Structural, Debug)]
pub enum HttpStatus {
    OK,
    Created,
    NotFound,
    BadRequest,
    InternalServerError,
}

/// The method named by a request-line token.
pub open spec fn spec_method_of(tok: Seq<u8>) -> HttpMethod {
    if tok == ascii_seq("GET"@) {
        HttpMethod::Get
    } else if tok == ascii_seq("POST"@) {
        HttpMethod::Post
    } else {
        HttpMethod::Invalid
    }
}

impl HttpMethod {
    /// Maps a request-line token to a method.
    pub fn from_bytes(tok: &[u8]) -> (r: HttpMethod)
        ensures
            r == spec_method_of(tok@),
    {
        proof {
            reveal_strlit("GET");
            reveal_strlit("POST");
        }
        let get = str_bytes("GET");
        if bytes_eq(tok, get.as_slice()) {
            return HttpMethod::Get;
        }
        let post = str_bytes("POST");
        if bytes_eq(tok, post.as_slice()) {
            return HttpMethod::Post;
        }
        HttpMethod::Invalid
    }
}

/// The numeric code of a status.
pub open spec fn spec_status_code(s: HttpStatus) -> u16 {
    match s {
        HttpStatus::OK => 200,
        HttpStatus::Created => 201,
        HttpStatus::NotFound => 404,
        HttpStatus::BadRequest => 400,
        HttpStatus::InternalServerError => 500,
    }
}

/// The status line fragment of a status: numeric code and reason phrase.
pub open spec fn spec_status_text(s: HttpStatus) -> Seq<char> {
    match s {
        HttpStatus::OK => "200 OK"@,
        HttpStatus::Created => "201 Created"@,
        HttpStatus::NotFound => "404 Not Found"@,
        HttpStatus::BadRequest => "400 Bad Request"@,
        HttpStatus::InternalServerError => "500 Internal Server Error"@,
    }
}

/// The status line fragment of a status, as bytes.
pub open spec fn spec_status_bytes(s: HttpStatus) -> Seq<u8> {
    ascii_seq(spec_status_text(s))
}

impl HttpStatus {
    /// The numeric code of this status.
    pub fn to_code(self) -> (r: u16)
        ensures
            r == spec_status_code(self),
    {
        match self {
            HttpStatus::OK => 200,
            HttpStatus::Created => 201,
            HttpStatus::NotFound => 404,
            HttpStatus::BadRequest => 400,
            HttpStatus::InternalServerError => 500,
        }
    }

    /// The status line fragment of this status: numeric code and reason
    /// phrase.
    pub fn to_string(self) -> (r: String)
        ensures
            r@ == spec_status_text(self),
    {
        match self {
            HttpStatus::OK => String::from_str("200 OK"),
            HttpStatus::Created => String::from_str("201 Created"),
            HttpStatus::NotFound => String::from_str("404 Not Found"),
            HttpStatus::BadRequest => String::from_str("400 Bad Request"),
            HttpStatus::InternalServerError => String::from_str("500 Internal Server Error"),
        }
    }

    /// The status line fragment of this status, as bytes.
    pub fn to_bytes(self) -> (r: Vec<u8>)
        ensures
            r@ == spec_status_bytes(self),
    {
        proof {
            reveal_strlit("200 OK");
            reveal_strlit("201 Created");
            reveal_strlit("404 Not Found");
            reveal_strlit("400 Bad Request");
            reveal_strlit("500 Internal Server Error");
        }
        match self {
            HttpStatus::OK => str_bytes("200 OK"),
            HttpStatus::Created => str_bytes("201 Created"),
            HttpStatus::NotFound => str_bytes("404 Not Found"),
            HttpStatus::BadRequest => str_bytes("400 Bad Request"),
            HttpStatus::InternalServerError => str_bytes("500 Internal Server Error"),
        }
    }
}

/// The name of the one content encoding the server supports.
pub open spec fn spec_gzip_name() -> Seq<u8> {
    ascii_seq("gzip"@)
}

/// Whether the server supports a requested content encoding name.
pub open spec fn spec_supported_encoding(name: Seq<u8>) -> bool {
    name == spec_gzip_name()
}

/// Decides whether the server supports a requested content encoding name.
pub fn supported_encoding(name: &[u8]) -> (r: bool)
    ensures
        r == spec_supported_encoding(name@),
{
    proof {
        reveal_strlit("gzip");
    }
    let gzip = str_bytes("gzip");
    bytes_eq(name, gzip.as_slice())
}

} // verus!
