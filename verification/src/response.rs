//! Response-side wire codec: a builder that accumulates status, headers and
//! body, negotiates the content encoding advertised by the request, and
//! serializes the finished response into raw bytes.
//!
//! Once a body is attached, a `content-length` header reflects the final
//! (possibly encoded) body length; if a `content-encoding` header is present
//! when the body is attached, the body runs through the encoder for the
//! first listed encoding before the length is computed.

use vstd::prelude::*;

verus! {

use crate::assoc::assoc_insert;
use crate::assoc::assoc_lookup;
use crate::assoc::pair_views;
use crate::assoc::pairs_insert;
use crate::assoc::pairs_lookup;
use crate::bytes::ascii_seq;
use crate::bytes::decimal_bytes;
use crate::bytes::lemma_split_len;
use crate::bytes::spec_decimal;
use crate::bytes::spec_lower;
use crate::bytes::spec_split;
use crate::bytes::split_bytes;
use crate::bytes::str_bytes;
use crate::bytes::views;
use crate::bytes::CR;
use crate::bytes::LF;
use crate::encoder::spec_encode;
use crate::encoder::spec_encoding_of;
use crate::encoder::Encoder;
use crate::http::spec_status_bytes;
use crate::http::spec_supported_encoding;
use crate::http::supported_encoding;
use crate::http::HttpStatus;
use crate::request::spec_colon_space;
use crate::request::HttpRequest;
use crate::request::ReqModel;

/// The mathematical shape of a response under construction.
pub ghost struct RespModel {
    pub status: HttpStatus,
    pub headers: Seq<(Seq<u8>, Seq<u8>)>,
    pub body: Seq<u8>,
}

/// The request header consulted for encoding negotiation.
pub open spec fn spec_accept_encoding_key() -> Seq<u8> {
    ascii_seq("accept-encoding"@)
}

/// The response header that names the encodings applied to the body.
pub open spec fn spec_content_encoding_key() -> Seq<u8> {
    ascii_seq("content-encoding"@)
}

/// The response header that carries the final body length.
pub open spec fn spec_content_length_key() -> Seq<u8> {
    ascii_seq("content-length"@)
}

/// The list separator `", "` used in encoding lists.
pub open spec fn spec_comma_space() -> Seq<u8> {
    ascii_seq(", "@)
}

/// The encoding names the server keeps from a client's list, in the
/// client's preference order.
pub open spec fn spec_keep_supported(parts: Seq<Seq<u8>>) -> Seq<Seq<u8>>
    decreases parts.len(),
{
    if parts.len() == 0 {
        Seq::empty()
    } else {
        let rest = spec_keep_supported(parts.drop_last());
        if spec_supported_encoding(parts.last()) {
            rest.push(parts.last())
        } else {
            rest
        }
    }
}

/// Pieces joined back with a separator between each two.
pub open spec fn spec_join(parts: Seq<Seq<u8>>, sep: Seq<u8>) -> Seq<u8>
    decreases parts.len(),
{
    if parts.len() == 0 {
        Seq::empty()
    } else if parts.len() == 1 {
        parts[0]
    } else {
        spec_join(parts.drop_last(), sep) + sep + parts.last()
    }
}

/// The headers a fresh response starts with, negotiated from the request: a
/// `content-encoding` header listing the supported encodings the client
/// asked for, or no headers at all when it asked for none.
pub open spec fn spec_prepop(headers: Seq<(Seq<u8>, Seq<u8>)>) -> Seq<(Seq<u8>, Seq<u8>)> {
    match assoc_lookup(headers, spec_accept_encoding_key()) {
        None => Seq::empty(),
        Some(v) => {
            let kept = spec_keep_supported(spec_split(v, spec_comma_space()));
            if kept.len() == 0 {
                Seq::empty()
            } else {
                seq![(spec_content_encoding_key(), spec_join(kept, spec_comma_space()))]
            }
        },
    }
}

/// A response with status 200, no headers, no body.
pub open spec fn spec_empty_resp() -> RespModel {
    RespModel { status: HttpStatus::OK, headers: Seq::empty(), body: Seq::empty() }
}

/// A fresh response for a request: status 200, the negotiated headers, no
/// body yet.
pub open spec fn spec_new_resp(req: ReqModel) -> RespModel {
    RespModel { status: HttpStatus::OK, headers: spec_prepop(req.headers), body: Seq::empty() }
}

/// The same response under another status.
pub open spec fn spec_with_status(m: RespModel, status: HttpStatus) -> RespModel {
    RespModel { status, headers: m.headers, body: m.body }
}

/// The same response with one header stored.
pub open spec fn spec_with_header(m: RespModel, key: Seq<u8>, value: Seq<u8>) -> RespModel {
    RespModel { status: m.status, headers: assoc_insert(m.headers, key, value), body: m.body }
}

/// The same response with a list of headers stored in order.
pub open spec fn spec_with_headers(m: RespModel, hs: Seq<(Seq<u8>, Seq<u8>)>) -> RespModel
    decreases hs.len(),
{
    if hs.len() == 0 {
        m
    } else {
        spec_with_headers(spec_with_header(m, hs[0].0, hs[0].1), hs.drop_first())
    }
}

/// The same response with the body attached: the body runs through the
/// encoder for the first listed `content-encoding` entry if that header is
/// present, and `content-length` records the final length.
pub open spec fn spec_with_body(m: RespModel, body: Seq<u8>) -> RespModel {
    let encoded = match assoc_lookup(m.headers, spec_content_encoding_key()) {
        None => body,
        Some(enc) => spec_encode(
            spec_encoding_of(spec_split(enc, spec_comma_space())[0]),
            body,
        ),
    };
    RespModel {
        status: m.status,
        headers: assoc_insert(m.headers, spec_content_length_key(), spec_decimal(encoded.len())),
        body: encoded,
    }
}

/// The header block on the wire: each header as `name: value` followed by a
/// carriage return and line feed, in table order.
pub open spec fn spec_header_block(hs: Seq<(Seq<u8>, Seq<u8>)>) -> Seq<u8>
    decreases hs.len(),
{
    if hs.len() == 0 {
        Seq::empty()
    } else {
        spec_header_block(hs.drop_last()) + hs.last().0 + spec_colon_space() + hs.last().1 + seq![
            CR,
            LF,
        ]
    }
}

/// The response on the wire: status line, header block, blank line, body.
pub open spec fn spec_serialize(m: RespModel) -> Seq<u8> {
    ascii_seq("HTTP/1.1 "@) + spec_status_bytes(m.status) + seq![CR, LF] + spec_header_block(
        m.headers,
    ) + seq![CR, LF] + m.body
}

/// Builds the negotiated starting headers for a response to `req`.
pub fn prepop_headers(req: &HttpRequest) -> (r: Vec<(Vec<u8>, Vec<u8>)>)
    ensures
        pair_views(r@) == spec_prepop(req@.headers),
{
    proof {
        reveal_strlit("accept-encoding");
        reveal_strlit("content-encoding");
        reveal_strlit(", ");
    }
    let key = str_bytes("accept-encoding");
    proof {
        assert(spec_lower(key@) =~= spec_accept_encoding_key());
    }
    let accept = match req.get_header(key.as_slice()) {
        None => {
            let r: Vec<(Vec<u8>, Vec<u8>)> = Vec::new();
            proof {
                assert(pair_views(r@) =~= Seq::<(Seq<u8>, Seq<u8>)>::empty());
            }
            return r;
        },
        Some(v) => v,
    };
    let sep = str_bytes(", ");
    proof {
        assert(sep@.len() == 2);
    }
    let parts = split_bytes(accept.as_slice(), sep.as_slice());
    let ghost pv = spec_split(accept@, spec_comma_space());
    let n = parts.len();
    let mut kept: Vec<Vec<u8>> = Vec::new();
    proof {
        assert(pv.take(0) =~= Seq::<Seq<u8>>::empty());
        assert(views(kept@) =~= spec_keep_supported(pv.take(0)));
    }
    for i in 0..n
        invariant
            n == parts@.len(),
            views(parts@) == pv,
            views(kept@) == spec_keep_supported(pv.take(i as int)),
    {
        proof {
            assert(views(parts@)[i as int] == parts@[i as int]@);
        }
        let ghost prev = kept@;
        if supported_encoding(parts[i].as_slice()) {
            kept.push(vstd::slice::slice_to_vec(parts[i].as_slice()));
        }
        proof {
            assert(pv.take(i + 1).drop_last() =~= pv.take(i as int));
            assert(pv.take(i + 1).last() == pv[i as int]);
            if spec_supported_encoding(pv[i as int]) {
                assert(views(kept@) =~= views(prev).push(pv[i as int]));
            } else {
                assert(views(kept@) =~= views(prev));
            }
            assert(views(kept@) == spec_keep_supported(pv.take(i + 1)));
        }
    }
    proof {
        assert(pv.take(n as int) =~= pv);
    }
    if kept.len() == 0 {
        let r: Vec<(Vec<u8>, Vec<u8>)> = Vec::new();
        proof {
            assert(pair_views(r@) =~= Seq::<(Seq<u8>, Seq<u8>)>::empty());
        }
        return r;
    }
    let ghost kv = views(kept@);
    let mut joined = vstd::slice::slice_to_vec(kept[0].as_slice());
    proof {
        assert(kv.take(1) =~= seq![kv[0]]);
        assert(spec_join(kv.take(1), spec_comma_space()) == kv[0]);
        assert(views(kept@)[0] == kept@[0]@);
    }
    let m = kept.len();
    for i in 1..m
        invariant
            m == kept@.len(),
            views(kept@) == kv,
            1 <= i <= m,
            joined@ == spec_join(kv.take(i as int), spec_comma_space()),
    {
        proof {
            reveal_strlit(", ");
        }
        let mut s = str_bytes(", ");
        joined.append(&mut s);
        let mut p = vstd::slice::slice_to_vec(kept[i].as_slice());
        joined.append(&mut p);
        proof {
            assert(views(kept@)[i as int] == kept@[i as int]@);
            assert(kv.take(i + 1).drop_last() =~= kv.take(i as int));
            assert(kv.take(i + 1).last() == kv[i as int]);
            assert(joined@ == spec_join(kv.take(i + 1), spec_comma_space()));
        }
    }
    proof {
        assert(kv.take(m as int) =~= kv);
    }
    let name = str_bytes("content-encoding");
    let mut r: Vec<(Vec<u8>, Vec<u8>)> = Vec::new();
    r.push((name, joined));
    proof {
        assert(pair_views(r@) =~= seq![
            (spec_content_encoding_key(), spec_join(kv, spec_comma_space())),
        ]);
    }
    r
}

/// A response being built: status, header table, body bytes.
#[derive(Debug)]
pub struct HttpResponse {
    pub status: HttpStatus,
    pub headers: Vec<(Vec<u8>, Vec<u8>)>,
    pub body: Vec<u8>,
}

impl View for HttpResponse {
    type V = RespModel;

    open spec fn view(&self) -> RespModel {
        RespModel { status: self.status, headers: pair_views(self.headers@), body: self.body@ }
    }
}

impl HttpResponse {
    /// A fresh response to `req`: status 200 and the negotiated headers.
    pub fn new(req: &HttpRequest) -> (r: HttpResponse)
        ensures
            r@ == spec_new_resp(req@),
    {
        let headers = prepop_headers(req);
        HttpResponse { status: HttpStatus::OK, headers, body: Vec::new() }
    }

    /// A response with status 200 and nothing else.
    pub fn empty() -> (r: HttpResponse)
        ensures
            r@ == spec_empty_resp(),
    {
        let r = HttpResponse { status: HttpStatus::OK, headers: Vec::new(), body: Vec::new() };
        proof {
            assert(pair_views(r.headers@) =~= Seq::<(Seq<u8>, Seq<u8>)>::empty());
        }
        r
    }

    /// Replaces the status.
    pub fn status(self, status: HttpStatus) -> (r: HttpResponse)
        ensures
            r@ == spec_with_status(self@, status),
    {
        HttpResponse { status, headers: self.headers, body: self.body }
    }

    /// Stores one header.
    pub fn header(self, header: (&[u8], &[u8])) -> (r: HttpResponse)
        ensures
            r@ == spec_with_header(self@, header.0@, header.1@),
    {
        let mut hs = self.headers;
        let k = vstd::slice::slice_to_vec(header.0);
        let v = vstd::slice::slice_to_vec(header.1);
        pairs_insert(&mut hs, k, v);
        HttpResponse { status: self.status, headers: hs, body: self.body }
    }

    /// Stores a list of headers in order.
    pub fn headers(self, headers: &[(Vec<u8>, Vec<u8>)]) -> (r: HttpResponse)
        ensures
            r@ == spec_with_headers(self@, pair_views(headers@)),
    {
        let ghost m0 = self@;
        let ghost hv = pair_views(headers@);
        let mut hs = self.headers;
        let status = self.status;
        let body = self.body;
        let n = headers.len();
        proof {
            assert(hv.skip(0) =~= hv);
            assert(m0 == RespModel { status, headers: pair_views(hs@), body: body@ });
        }
        for i in 0..n
            invariant
                n == headers@.len(),
                hv == pair_views(headers@),
                m0.status == status,
                m0.body == body@,
                spec_with_headers(m0, hv) == spec_with_headers(
                    RespModel { status, headers: pair_views(hs@), body: body@ },
                    hv.skip(i as int),
                ),
        {
            proof {
                assert(pair_views(headers@)[i as int] == (
                    headers@[i as int].0@,
                    headers@[i as int].1@,
                ));
            }
            let ghost before = RespModel { status, headers: pair_views(hs@), body: body@ };
            let k = vstd::slice::slice_to_vec(headers[i].0.as_slice());
            let v = vstd::slice::slice_to_vec(headers[i].1.as_slice());
            pairs_insert(&mut hs, k, v);
            proof {
                let after = RespModel { status, headers: pair_views(hs@), body: body@ };
                assert(after == spec_with_header(before, hv[i as int].0, hv[i as int].1));
                assert(hv.skip(i as int).drop_first() =~= hv.skip(i + 1));
                assert(hv.skip(i as int)[0] == hv[i as int]);
            }
        }
        proof {
            assert(hv.skip(n as int) =~= Seq::<(Seq<u8>, Seq<u8>)>::empty());
        }
        HttpResponse { status, headers: hs, body }
    }

    /// Attaches the body: encodes it for the first listed `content-encoding`
    /// entry if that header is present, and records the final length under
    /// `content-length`.
    pub fn body(self, body: &[u8]) -> (r: HttpResponse)
        ensures
            r@ == spec_with_body(self@, body@),
    {
        proof {
            reveal_strlit("content-encoding");
            reveal_strlit("content-length");
            reveal_strlit(", ");
        }
        let ghost m0 = self@;
        let key = str_bytes("content-encoding");
        let encoded: Vec<u8> = match pairs_lookup(&self.headers, key.as_slice()) {
            None => vstd::slice::slice_to_vec(body),
            Some(enc) => {
                let sep = str_bytes(", ");
                proof {
                    assert(sep@.len() == 2);
                }
                let parts = split_bytes(enc.as_slice(), sep.as_slice());
                proof {
                    lemma_split_len(enc@, spec_comma_space());
                    assert(views(parts@)[0] == parts@[0]@);
                }
                let encoder = Encoder::new(parts[0].as_slice());
                encoder.encode(body)
            },
        };
        let mut hs = self.headers;
        let len_bytes = decimal_bytes(encoded.len());
        let lkey = str_bytes("content-length");
        pairs_insert(&mut hs, lkey, len_bytes);
        HttpResponse { status: self.status, headers: hs, body: encoded }
    }

    /// Serializes the response: status line, header block, blank line, body.
    pub fn into_bytes(self) -> (r: Vec<u8>)
        ensures
            r@ == spec_serialize(self@),
    {
        proof {
            reveal_strlit("HTTP/1.1 ");
        }
        let ghost m = self@;
        let mut buf = str_bytes("HTTP/1.1 ");
        let mut st = self.status.to_bytes();
        buf.append(&mut st);
        buf.push(CR);
        buf.push(LF);
        let ghost head = ascii_seq("HTTP/1.1 "@) + spec_status_bytes(m.status) + seq![CR, LF];
        proof {
            assert(buf@ =~= head);
            assert(m.headers.take(0) =~= Seq::<(Seq<u8>, Seq<u8>)>::empty());
        }
        let n = self.headers.len();
        for i in 0..n
            invariant
                n == self.headers@.len(),
                m.headers == pair_views(self.headers@),
                m.status == self.status,
                head == ascii_seq("HTTP/1.1 "@) + spec_status_bytes(m.status) + seq![CR, LF],
                buf@ == head + spec_header_block(m.headers.take(i as int)),
        {
            proof {
                reveal_strlit(": ");
                assert(pair_views(self.headers@)[i as int] == (
                    self.headers@[i as int].0@,
                    self.headers@[i as int].1@,
                ));
            }
            let ghost prev = buf@;
            let mut k = vstd::slice::slice_to_vec(self.headers[i].0.as_slice());
            buf.append(&mut k);
            let mut cs = str_bytes(": ");
            buf.append(&mut cs);
            let mut v = vstd::slice::slice_to_vec(self.headers[i].1.as_slice());
            buf.append(&mut v);
            buf.push(CR);
            buf.push(LF);
            proof {
                assert(m.headers.take(i + 1).drop_last() =~= m.headers.take(i as int));
                assert(m.headers.take(i + 1).last() == m.headers[i as int]);
                assert(buf@ =~= prev + m.headers[i as int].0 + spec_colon_space()
                    + m.headers[i as int].1 + seq![CR, LF]);
                assert(buf@ =~= head + spec_header_block(m.headers.take(i + 1)));
            }
        }
        proof {
            assert(m.headers.take(n as int) =~= m.headers);
        }
        buf.push(CR);
        buf.push(LF);
        let mut b = self.body;
        buf.append(&mut b);
        proof {
            assert(buf@ =~= spec_serialize(m));
        }
        buf
    }
}

} // verus!
