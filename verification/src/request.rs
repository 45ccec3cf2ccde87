//! Request-side wire codec: turns one raw socket buffer into a structured
//! request. The buffer splits on line feeds (a trailing carriage return per
//! line is dropped); line 0 is the request line, the lines before the final
//! one are headers, and the final line is the body. Header names fold to
//! lower case on insertion, the last occurrence of a name winning; header
//! values stay as given.

use vstd::prelude::*;

verus! {

use crate::assoc::assoc_insert;
use crate::assoc::assoc_lookup;
use crate::assoc::pair_views;
use crate::assoc::pairs_insert;
use crate::assoc::pairs_lookup;
use crate::bytes::ascii_seq;
use crate::bytes::one_byte;
use crate::bytes::spec_find_sub;
use crate::bytes::spec_lower;
use crate::bytes::spec_split;
use crate::bytes::spec_strip_cr;
use crate::bytes::split_bytes;
use crate::bytes::str_bytes;
use crate::bytes::strip_cr;
use crate::bytes::to_lower;
use crate::bytes::views;
use crate::bytes::LF;
use crate::bytes::SP;
use crate::bytes::find_sub;
use crate::bytes::lemma_find_sub_some;
use crate::context::ServerContext;
use crate::http::spec_method_of;
use crate::http::HttpMethod;

/// Why a buffer failed to parse: no usable request line, or a header line
/// without the `": "` separator.
#[derive(Clone, Copy, PartialEq, Eq, Structural, Debug)]
pub enum ParseError {
    RequestLine,
    Header,
}

/// The mathematical shape of a parsed request line.
pub ghost struct RequestLineModel {
    pub method: HttpMethod,
    pub url: Seq<u8>,
    pub version: Seq<u8>,
}

/// The mathematical shape of a parsed request.
pub ghost struct ReqModel {
    pub method: HttpMethod,
    pub url: Seq<u8>,
    pub version: Seq<u8>,
    pub headers: Seq<(Seq<u8>, Seq<u8>)>,
    pub body: Seq<u8>,
}

/// The buffer cut into lines: split on line feeds, each line stripped of a
/// trailing carriage return.
pub open spec fn spec_lines(buf: Seq<u8>) -> Seq<Seq<u8>> {
    spec_split(buf, seq![LF]).map_values(|l: Seq<u8>| spec_strip_cr(l))
}

/// The header separator `": "`.
pub open spec fn spec_colon_space() -> Seq<u8> {
    ascii_seq(": "@)
}

/// A request line split on single spaces into method, target and version.
/// Fewer than two tokens fail; a missing version token reads as empty, and
/// tokens past the third are ignored.
pub open spec fn spec_request_line(line: Seq<u8>) -> Result<RequestLineModel, ParseError> {
    let toks = spec_split(line, seq![SP]);
    if toks.len() < 2 {
        Err(ParseError::RequestLine)
    } else {
        Ok(
            RequestLineModel {
                method: spec_method_of(toks[0]),
                url: toks[1],
                version: if toks.len() >= 3 {
                    toks[2]
                } else {
                    Seq::empty()
                },
            },
        )
    }
}

/// A header line cut at the first `": "`: name before it, value after it.
/// A line without the separator is malformed.
pub open spec fn spec_header_pair(line: Seq<u8>) -> Option<(Seq<u8>, Seq<u8>)> {
    match spec_find_sub(line, spec_colon_space()) {
        None => None,
        Some(i) => Some((line.take(i), line.skip(i + 2))),
    }
}

/// The header table built from the header lines, in order: names fold to
/// lower case, and a later line under the same name replaces the earlier
/// value. One malformed line fails the whole table.
pub open spec fn spec_headers(hlines: Seq<Seq<u8>>) -> Option<Seq<(Seq<u8>, Seq<u8>)>>
    decreases hlines.len(),
{
    if hlines.len() == 0 {
        Some(Seq::empty())
    } else {
        match spec_headers(hlines.drop_last()) {
            None => None,
            Some(acc) => match spec_header_pair(hlines.last()) {
                None => None,
                Some(kv) => Some(assoc_insert(acc, spec_lower(kv.0), kv.1)),
            },
        }
    }
}

/// What parsing a raw buffer yields: the request model, or the first error.
/// A buffer of fewer than three lines (request line, blank separator, body
/// line) has no usable request line.
pub open spec fn spec_parse(buf: Seq<u8>) -> Result<ReqModel, ParseError> {
    let lines = spec_lines(buf);
    if lines.len() < 3 {
        Err(ParseError::RequestLine)
    } else {
        match spec_request_line(lines[0]) {
            Err(e) => Err(e),
            Ok(rl) => match spec_headers(lines.subrange(1, lines.len() - 2)) {
                None => Err(ParseError::Header),
                Some(hs) => Ok(
                    ReqModel {
                        method: rl.method,
                        url: rl.url,
                        version: rl.version,
                        headers: hs,
                        body: lines.last(),
                    },
                ),
            },
        }
    }
}

/// Cuts a raw buffer into lines.
pub fn split_lines(buf: &[u8]) -> (r: Vec<Vec<u8>>)
    ensures
        views(r@) == spec_lines(buf@),
{
    let pat = one_byte(LF);
    let pieces = split_bytes(buf, pat.as_slice());
    let mut out: Vec<Vec<u8>> = Vec::new();
    let n = pieces.len();
    for i in 0..n
        invariant
            n == pieces@.len(),
            views(pieces@) == spec_split(buf@, seq![LF]),
            views(out@) =~= spec_lines(buf@).take(i as int),
    {
        let mut line = vstd::slice::slice_to_vec(pieces[i].as_slice());
        strip_cr(&mut line);
        proof {
            assert(views(pieces@)[i as int] == pieces@[i as int]@);
            assert(line@ == spec_strip_cr(spec_split(buf@, seq![LF])[i as int]));
            assert(line@ == spec_lines(buf@)[i as int]);
        }
        let ghost prev = out@;
        out.push(line);
        proof {
            assert(views(out@) =~= views(prev).push(spec_lines(buf@)[i as int]));
            assert(views(prev).push(spec_lines(buf@)[i as int]) =~= spec_lines(buf@).take(i + 1));
        }
    }
    proof {
        assert(spec_lines(buf@).take(n as int) =~= spec_lines(buf@));
    }
    out
}

/// A parsed request line: method, raw target path, protocol version.
pub struct RequestLine {
    pub method: HttpMethod,
    pub url: Vec<u8>,
    pub version: Vec<u8>,
}

impl View for RequestLine {
    type V = RequestLineModel;

    open spec fn view(&self) -> RequestLineModel {
        RequestLineModel { method: self.method, url: self.url@, version: self.version@ }
    }
}

impl RequestLine {
    /// Parses a request line.
    pub fn new(line: &[u8]) -> (r: Result<RequestLine, ParseError>)
        ensures
            match r {
                Ok(rl) => spec_request_line(line@) == Ok::<RequestLineModel, ParseError>(rl@),
                Err(e) => spec_request_line(line@) == Err::<RequestLineModel, ParseError>(e),
            },
    {
        let pat = one_byte(SP);
        let toks = split_bytes(line, pat.as_slice());
        if toks.len() < 2 {
            return Err(ParseError::RequestLine);
        }
        let method = HttpMethod::from_bytes(toks[0].as_slice());
        let url = vstd::slice::slice_to_vec(toks[1].as_slice());
        let version = if toks.len() >= 3 {
            vstd::slice::slice_to_vec(toks[2].as_slice())
        } else {
            Vec::new()
        };
        Ok(RequestLine { method, url, version })
    }
}

/// A parsed request, together with the server-wide configuration the
/// handlers read.
#[derive(Debug)]
pub struct HttpRequest {
    pub method: HttpMethod,
    pub url: Vec<u8>,
    pub version: Vec<u8>,
    pub headers: Vec<(Vec<u8>, Vec<u8>)>,
    pub body: Vec<u8>,
    pub ctx: ServerContext,
}

impl View for HttpRequest {
    type V = ReqModel;

    open spec fn view(&self) -> ReqModel {
        ReqModel {
            method: self.method,
            url: self.url@,
            version: self.version@,
            headers: pair_views(self.headers@),
            body: self.body@,
        }
    }
}

/// A well-formed header-line prefix that fails to parse fails the whole
/// header table.
proof fn lemma_headers_prefix_none(hlines: Seq<Seq<u8>>, k: int)
    requires
        0 <= k <= hlines.len(),
        spec_headers(hlines.take(k)) is None,
    ensures
        spec_headers(hlines) is None,
    decreases hlines.len() - k,
{
    if k == hlines.len() {
        assert(hlines.take(k) =~= hlines);
    } else {
        assert(hlines.take(k + 1).drop_last() =~= hlines.take(k));
        lemma_headers_prefix_none(hlines, k + 1);
    }
}

impl HttpRequest {
    /// Parses one raw socket buffer into a request, which then carries the
    /// given server configuration to the handlers.
    pub fn new(req: &[u8], ctx: ServerContext) -> (r: Result<HttpRequest, ParseError>)
        ensures
            match r {
                Ok(q) => spec_parse(req@) == Ok::<ReqModel, ParseError>(q@) && q.ctx@ == ctx@,
                Err(e) => spec_parse(req@) == Err::<ReqModel, ParseError>(e),
            },
    {
        proof {
            reveal_strlit(": ");
        }
        let lines = split_lines(req);
        let ghost lv = spec_lines(req@);
        if lines.len() < 3 {
            return Err(ParseError::RequestLine);
        }
        let rl = match RequestLine::new(lines[0].as_slice()) {
            Ok(rl) => rl,
            Err(e) => {
                return Err(e);
            },
        };
        let cs = str_bytes(": ");
        let hcount = lines.len() - 2;
        let mut headers: Vec<(Vec<u8>, Vec<u8>)> = Vec::new();
        proof {
            assert(cs@.len() == 2);
            assert(lv.subrange(1, 1) =~= Seq::<Seq<u8>>::empty());
            assert(pair_views(headers@) =~= Seq::<(Seq<u8>, Seq<u8>)>::empty());
        }
        for i in 1..hcount
            invariant
                views(lines@) == lv,
                lv == spec_lines(req@),
                lv.len() >= 3,
                hcount == lines@.len() - 2,
                hcount == lv.len() - 2,
                cs@ == spec_colon_space(),
                cs@.len() == 2,
                spec_request_line(lv[0]) == Ok::<RequestLineModel, ParseError>(rl@),
                spec_headers(lv.subrange(1, i as int)) == Some(pair_views(headers@)),
        {
            let line = lines[i].as_slice();
            proof {
                assert(views(lines@)[i as int] == lines@[i as int]@);
                assert(line@ == lv[i as int]);
            }
            match find_sub(line, cs.as_slice()) {
                None => {
                    proof {
                        assert(lv.subrange(1, i + 1).drop_last() =~= lv.subrange(1, i as int));
                        assert(lv.subrange(1, i + 1).last() == lv[i as int]);
                        assert(spec_headers(lv.subrange(1, i + 1)) is None);
                        assert(lv.subrange(1, hcount as int).take(i as int) =~= lv.subrange(
                            1,
                            i + 1,
                        ));
                        lemma_headers_prefix_none(lv.subrange(1, hcount as int), i as int);
                    }
                    return Err(ParseError::Header);
                },
                Some(p) => {
                    proof {
                        lemma_find_sub_some(line@, spec_colon_space());
                    }
                    let llen = line.len();
                    let name = to_lower(vstd::slice::slice_subrange(line, 0, p));
                    let value = vstd::slice::slice_to_vec(
                        vstd::slice::slice_subrange(line, p + 2, llen),
                    );
                    proof {
                        assert(line@.subrange(0, p as int) =~= line@.take(p as int));
                        assert(line@.subrange(p + 2, line@.len() as int) =~= line@.skip(p + 2));
                        assert(spec_header_pair(lv[i as int]) == Some(
                            (line@.take(p as int), line@.skip(p + 2)),
                        ));
                    }
                    pairs_insert(&mut headers, name, value);
                    proof {
                        assert(lv.subrange(1, i + 1).drop_last() =~= lv.subrange(1, i as int));
                        assert(lv.subrange(1, i + 1).last() == lv[i as int]);
                        assert(spec_headers(lv.subrange(1, i + 1)) == Some(pair_views(headers@)));
                    }
                },
            }
        }
        let body = vstd::slice::slice_to_vec(lines[lines.len() - 1].as_slice());
        let q = HttpRequest {
            method: rl.method,
            url: rl.url,
            version: rl.version,
            headers,
            body,
            ctx,
        };
        proof {
            assert(lv.subrange(1, lv.len() - 2) == lv.subrange(1, hcount as int));
        }
        Ok(q)
    }

    /// The value of a header, looked up case-insensitively.
    pub fn get_header<'a>(&'a self, header: &[u8]) -> (r: Option<&'a Vec<u8>>)
        ensures
            match r {
                Some(v) => assoc_lookup(self@.headers, spec_lower(header@)) == Some(v@),
                None => assoc_lookup(self@.headers, spec_lower(header@)) is None,
            },
    {
        let key = to_lower(header);
        pairs_lookup(&self.headers, key.as_slice())
    }
}

/// The value of the last well-formed header line whose lower-cased name is
/// `key`, scanning the lines as sent.
pub open spec fn spec_last_header_value(hlines: Seq<Seq<u8>>, key: Seq<u8>) -> Option<Seq<u8>>
    decreases hlines.len(),
{
    if hlines.len() == 0 {
        None
    } else {
        match spec_header_pair(hlines.last()) {
            Some(kv) => if spec_lower(kv.0) == key {
                Some(kv.1)
            } else {
                spec_last_header_value(hlines.drop_last(), key)
            },
            None => spec_last_header_value(hlines.drop_last(), key),
        }
    }
}

/// In a successfully parsed header table, each name maps to the value of the
/// last header line sent under that name.
proof fn lemma_headers_last_wins(hlines: Seq<Seq<u8>>, key: Seq<u8>)
    requires
        spec_headers(hlines) is Some,
    ensures
        assoc_lookup(spec_headers(hlines)->Some_0, key) == spec_last_header_value(hlines, key),
    decreases hlines.len(),
{
    if hlines.len() == 0 {
    } else {
        let acc = spec_headers(hlines.drop_last())->Some_0;
        let kv = spec_header_pair(hlines.last())->Some_0;
        lemma_headers_last_wins(hlines.drop_last(), key);
        crate::assoc::lemma_assoc_insert_lookup(acc, spec_lower(kv.0), kv.1, key);
    }
}

/// Header lookup is case-insensitive and last-wins: after a successful
/// parse, looking a name up under any case variant returns the value of the
/// last header line sent under that name.
pub proof fn lemma_header_lookup_case_insensitive(buf: Seq<u8>, name1: Seq<u8>, name2: Seq<u8>)
    requires
        spec_parse(buf) is Ok,
        spec_lower(name1) == spec_lower(name2),
    ensures
        ({
            let m = spec_parse(buf)->Ok_0;
            let hlines = spec_lines(buf).subrange(1, spec_lines(buf).len() - 2);
            &&& assoc_lookup(m.headers, spec_lower(name1)) == assoc_lookup(
                m.headers,
                spec_lower(name2),
            )
            &&& assoc_lookup(m.headers, spec_lower(name1)) == spec_last_header_value(
                hlines,
                spec_lower(name1),
            )
        }),
{
    let hlines = spec_lines(buf).subrange(1, spec_lines(buf).len() - 2);
    lemma_headers_last_wins(hlines, spec_lower(name1));
}

} // verus!
