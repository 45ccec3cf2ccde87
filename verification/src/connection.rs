//! The per-connection pipeline, minus the socket: parse one raw buffer,
//! resolve the route, and either finish the response or hand back the file
//! action the caller must perform. The caller reads one buffer from the
//! socket, calls [`handle_request`], performs a returned file action, and
//! writes the serialized response; a parse failure closes the connection
//! with no response.

use vstd::prelude::*;

verus! {

use crate::assoc::assoc_lookup;
use crate::bytes::ascii_seq;
use crate::bytes::spec_find_sub;
use crate::bytes::str_bytes;
use crate::bytes::SLASH;
use crate::bytes::views;
use crate::context::spec_workdir_key;
use crate::context::ServerContext;
use crate::endpoints::echo;
use crate::endpoints::root;
use crate::endpoints::spec_echo_resp;
use crate::endpoints::spec_file_path;
use crate::endpoints::spec_user_agent_resp;
use crate::endpoints::file_path;
use crate::endpoints::user_agent;
use crate::http::HttpMethod;
use crate::http::HttpStatus;
use crate::request::spec_parse;
use crate::request::HttpRequest;
use crate::request::ReqModel;
use crate::response::spec_empty_resp;
use crate::response::spec_with_status;
use crate::response::HttpResponse;
use crate::response::RespModel;
use crate::router::spec_entry_lookup;
use crate::router::spec_pattern_matches;
use crate::router::spec_placeholder;
use crate::router::spec_register;
use crate::router::spec_resolve;
use crate::router::EntryModel;
use crate::router::HandlerKind;
use crate::router::Router;
use crate::utils::lemma_url_parts_nonempty;
use crate::utils::spec_url_parts;
use crate::utils::split_url_into_parts;

/// The mathematical shape of a dispatch outcome.
pub ghost enum DispatchModel {
    Done(RespModel),
    Read { path: Seq<u8>, req: ReqModel },
    Write { path: Seq<u8>, contents: Seq<u8> },
}

/// What handling a parsed request yields: a finished response, or a file
/// action the caller must perform before finishing.
#[derive(Debug)]
pub enum Dispatch {
    Done(HttpResponse),
    ReadFile { path: Vec<u8>, req: HttpRequest },
    WriteFile { path: Vec<u8>, contents: Vec<u8> },
}

impl View for Dispatch {
    type V = DispatchModel;

    open spec fn view(&self) -> DispatchModel {
        match self {
            Dispatch::Done(resp) => DispatchModel::Done(resp@),
            Dispatch::ReadFile { path, req } => DispatchModel::Read { path: path@, req: req@ },
            Dispatch::WriteFile { path, contents } => DispatchModel::Write {
                path: path@,
                contents: contents@,
            },
        }
    }
}

/// What each handler decides for a request under a given configuration.
pub open spec fn spec_dispatch(
    h: HandlerKind,
    m: ReqModel,
    ctx: Seq<(Seq<u8>, Seq<u8>)>,
) -> DispatchModel {
    match h {
        HandlerKind::Root => DispatchModel::Done(spec_empty_resp()),
        HandlerKind::Echo => DispatchModel::Done(spec_echo_resp(m)),
        HandlerKind::UserAgent => DispatchModel::Done(spec_user_agent_resp(m)),
        HandlerKind::FilesGet => match assoc_lookup(ctx, spec_workdir_key()) {
            None => DispatchModel::Done(
                spec_with_status(spec_empty_resp(), HttpStatus::InternalServerError),
            ),
            Some(wd) => DispatchModel::Read {
                path: spec_file_path(wd, spec_url_parts(m.url).last()),
                req: m,
            },
        },
        HandlerKind::FilesPost => match assoc_lookup(ctx, spec_workdir_key()) {
            None => DispatchModel::Done(
                spec_with_status(spec_empty_resp(), HttpStatus::InternalServerError),
            ),
            Some(wd) => DispatchModel::Write {
                path: spec_file_path(wd, spec_url_parts(m.url).last()),
                contents: m.body,
            },
        },
    }
}

/// The server's fixed route table.
pub open spec fn spec_default_routes() -> Seq<EntryModel> {
    spec_register(
        spec_register(
            spec_register(
                spec_register(
                    spec_register(
                        Seq::empty(),
                        ascii_seq("/"@),
                        HttpMethod::Get,
                        HandlerKind::Root,
                    ),
                    ascii_seq("/echo/[str]"@),
                    HttpMethod::Get,
                    HandlerKind::Echo,
                ),
                ascii_seq("/user-agent"@),
                HttpMethod::Get,
                HandlerKind::UserAgent,
            ),
            ascii_seq("/files/[str]"@),
            HttpMethod::Get,
            HandlerKind::FilesGet,
        ),
        ascii_seq("/files/[str]"@),
        HttpMethod::Post,
        HandlerKind::FilesPost,
    )
}

/// Builds the server's fixed route table.
pub fn default_routes() -> (r: Router)
    ensures
        r@ == spec_default_routes(),
{
    proof {
        reveal_strlit("/");
        reveal_strlit("/echo/[str]");
        reveal_strlit("/user-agent");
        reveal_strlit("/files/[str]");
    }
    let root_pat = str_bytes("/");
    let echo_pat = str_bytes("/echo/[str]");
    let ua_pat = str_bytes("/user-agent");
    let files_pat = str_bytes("/files/[str]");
    Router::new().register(root_pat.as_slice(), HttpMethod::Get, HandlerKind::Root).register(
        echo_pat.as_slice(),
        HttpMethod::Get,
        HandlerKind::Echo,
    ).register(ua_pat.as_slice(), HttpMethod::Get, HandlerKind::UserAgent).register(
        files_pat.as_slice(),
        HttpMethod::Get,
        HandlerKind::FilesGet,
    ).register(files_pat.as_slice(), HttpMethod::Post, HandlerKind::FilesPost)
}

/// The fixed route table, written out entry by entry.
proof fn lemma_default_table()
    ensures
        ({
            let t = spec_default_routes();
            &&& t.len() == 4
            &&& t[0] == EntryModel {
                pattern: ascii_seq("/"@),
                methods: seq![(HttpMethod::Get, HandlerKind::Root)],
            }
            &&& t[1] == EntryModel {
                pattern: ascii_seq("/echo/[str]"@),
                methods: seq![(HttpMethod::Get, HandlerKind::Echo)],
            }
            &&& t[2] == EntryModel {
                pattern: ascii_seq("/user-agent"@),
                methods: seq![(HttpMethod::Get, HandlerKind::UserAgent)],
            }
            &&& t[3] == EntryModel {
                pattern: ascii_seq("/files/[str]"@),
                methods: seq![
                    (HttpMethod::Get, HandlerKind::FilesGet),
                    (HttpMethod::Post, HandlerKind::FilesPost),
                ],
            }
        }),
{
    reveal_strlit("/");
    reveal_strlit("/echo/[str]");
    reveal_strlit("/user-agent");
    reveal_strlit("/files/[str]");
    let p_root = ascii_seq("/"@);
    let p_echo = ascii_seq("/echo/[str]"@);
    let p_ua = ascii_seq("/user-agent"@);
    let p_files = ascii_seq("/files/[str]"@);
    assert(p_root.len() == 1);
    assert(p_echo.len() == 11);
    assert(p_ua.len() == 11);
    assert(p_files.len() == 12);
    assert(p_echo[1] != p_ua[1]);
    let e_root = EntryModel { pattern: p_root, methods: seq![(HttpMethod::Get, HandlerKind::Root)] };
    let e_echo = EntryModel { pattern: p_echo, methods: seq![(HttpMethod::Get, HandlerKind::Echo)] };
    let e_ua = EntryModel {
        pattern: p_ua,
        methods: seq![(HttpMethod::Get, HandlerKind::UserAgent)],
    };
    let e_files = EntryModel {
        pattern: p_files,
        methods: seq![(HttpMethod::Get, HandlerKind::FilesGet)],
    };
    let t1 = spec_register(Seq::empty(), p_root, HttpMethod::Get, HandlerKind::Root);
    assert(t1 =~= seq![e_root]);
    let t2 = spec_register(t1, p_echo, HttpMethod::Get, HandlerKind::Echo);
    assert(t1[0].pattern != p_echo);
    assert(t1.drop_first() =~= Seq::<EntryModel>::empty());
    assert(spec_register(Seq::<EntryModel>::empty(), p_echo, HttpMethod::Get, HandlerKind::Echo)
        =~= seq![e_echo]);
    assert(t2 =~= seq![e_root, e_echo]);
    let t3 = spec_register(t2, p_ua, HttpMethod::Get, HandlerKind::UserAgent);
    assert(t2.drop_first() =~= seq![e_echo]);
    assert(seq![e_echo].drop_first() =~= Seq::<EntryModel>::empty());
    assert(spec_register(Seq::<EntryModel>::empty(), p_ua, HttpMethod::Get, HandlerKind::UserAgent)
        =~= seq![e_ua]);
    assert(spec_register(seq![e_echo], p_ua, HttpMethod::Get, HandlerKind::UserAgent) =~= seq![
        e_echo,
        e_ua,
    ]);
    assert(t3 =~= seq![e_root, e_echo, e_ua]);
    let t4 = spec_register(t3, p_files, HttpMethod::Get, HandlerKind::FilesGet);
    assert(t3.drop_first() =~= seq![e_echo, e_ua]);
    assert(seq![e_echo, e_ua].drop_first() =~= seq![e_ua]);
    assert(seq![e_ua].drop_first() =~= Seq::<EntryModel>::empty());
    assert(spec_register(Seq::<EntryModel>::empty(), p_files, HttpMethod::Get, HandlerKind::FilesGet)
        =~= seq![e_files]);
    assert(spec_register(seq![e_ua], p_files, HttpMethod::Get, HandlerKind::FilesGet) =~= seq![
        e_ua,
        e_files,
    ]);
    assert(spec_register(seq![e_echo, e_ua], p_files, HttpMethod::Get, HandlerKind::FilesGet)
        =~= seq![e_echo, e_ua, e_files]);
    assert(t4 =~= seq![e_root, e_echo, e_ua, e_files]);
    let t5 = spec_register(t4, p_files, HttpMethod::Post, HandlerKind::FilesPost);
    assert(t4.drop_first() =~= seq![e_echo, e_ua, e_files]);
    assert(seq![e_echo, e_ua, e_files].drop_first() =~= seq![e_ua, e_files]);
    assert(seq![e_ua, e_files].drop_first() =~= seq![e_files]);
    let ms = crate::assoc::assoc_insert(
        seq![(HttpMethod::Get, HandlerKind::FilesGet)],
        HttpMethod::Post,
        HandlerKind::FilesPost,
    );
    assert(seq![(HttpMethod::Get, HandlerKind::FilesGet)].drop_first() =~= Seq::<
        (HttpMethod, HandlerKind),
    >::empty());
    assert(crate::assoc::assoc_insert(
        Seq::<(HttpMethod, HandlerKind)>::empty(),
        HttpMethod::Post,
        HandlerKind::FilesPost,
    ) =~= seq![(HttpMethod::Post, HandlerKind::FilesPost)]);
    assert(ms =~= seq![
        (HttpMethod::Get, HandlerKind::FilesGet),
        (HttpMethod::Post, HandlerKind::FilesPost),
    ]);
    let e_files2 = EntryModel { pattern: p_files, methods: ms };
    assert(spec_register(seq![e_files], p_files, HttpMethod::Post, HandlerKind::FilesPost)
        =~= seq![e_files2]);
    assert(spec_register(seq![e_ua, e_files], p_files, HttpMethod::Post, HandlerKind::FilesPost)
        =~= seq![e_ua, e_files2]);
    assert(spec_register(
        seq![e_echo, e_ua, e_files],
        p_files,
        HttpMethod::Post,
        HandlerKind::FilesPost,
    ) =~= seq![e_echo, e_ua, e_files2]);
    assert(t5 =~= seq![e_root, e_echo, e_ua, e_files2]);
    assert(spec_default_routes() == t5);
}

/// Some entry of the table yields what the table resolves to.
proof fn lemma_resolve_some_witness(entries: Seq<EntryModel>, path: Seq<u8>, m: HttpMethod)
    requires
        spec_resolve(entries, path, m) is Some,
    ensures
        exists|j: int|
            0 <= j < entries.len() && #[trigger] spec_entry_lookup(entries[j], path, m)
                == spec_resolve(entries, path, m),
    decreases entries.len(),
{
    if spec_entry_lookup(entries[0], path, m) is Some {
        assert(spec_entry_lookup(entries[0], path, m) == spec_resolve(entries, path, m));
    } else {
        lemma_resolve_some_witness(entries.drop_first(), path, m);
        let j1 = choose|j1: int|
            0 <= j1 < entries.drop_first().len() && #[trigger] spec_entry_lookup(
                entries.drop_first()[j1],
                path,
                m,
            ) == spec_resolve(entries.drop_first(), path, m);
        assert(entries.drop_first()[j1] == entries[j1 + 1]);
        assert(spec_entry_lookup(entries[j1 + 1], path, m) == spec_resolve(entries, path, m));
    }
}

/// A path that matches a pattern holding any byte other than `/` has at
/// least one segment: either the path is the pattern itself, or the matched
/// wildcard run starts with a word character.
proof fn lemma_match_gives_segment(pat: Seq<u8>, url: Seq<u8>, k: int)
    requires
        spec_pattern_matches(pat, url),
        0 <= k < pat.len(),
        pat[k] != SLASH,
    ensures
        spec_url_parts(url).len() > 0,
{
    reveal_strlit("[str]");
    match spec_find_sub(pat, spec_placeholder()) {
        None => {
            lemma_url_parts_nonempty(url, k);
        },
        Some(i) => {
            crate::bytes::lemma_find_sub_some(pat, spec_placeholder());
            let pre = pat.take(i);
            let post = pat.skip(i + 5);
            let mid = url.subrange(pre.len() as int, url.len() - post.len());
            assert(mid.len() > 0);
            assert(mid[0] == url[pre.len() as int]);
            assert(crate::bytes::is_word_byte(mid[0]));
            lemma_url_parts_nonempty(url, pre.len() as int);
        },
    }
}

/// When the fixed table resolves to a wildcard-backed handler, the path has
/// at least one segment; the handlers may therefore read its last segment.
proof fn lemma_resolve_needs_segment(url: Seq<u8>, m: HttpMethod)
    requires
        ({
            let r = spec_resolve(spec_default_routes(), url, m);
            ||| r == Some(HandlerKind::Echo)
            ||| r == Some(HandlerKind::FilesGet)
            ||| r == Some(HandlerKind::FilesPost)
        }),
    ensures
        spec_url_parts(url).len() > 0,
{
    reveal_strlit("/echo/[str]");
    reveal_strlit("/files/[str]");
    lemma_default_table();
    let t = spec_default_routes();
    let r = spec_resolve(t, url, m);
    lemma_resolve_some_witness(t, url, m);
    let j = choose|j: int|
        0 <= j < t.len() && #[trigger] spec_entry_lookup(t[j], url, m) == r;
    let ghost empty_methods = Seq::<(HttpMethod, HandlerKind)>::empty();
    assert(assoc_lookup(empty_methods, m) is None);
    assert(t[0].methods.drop_first() =~= empty_methods);
    assert(t[1].methods.drop_first() =~= empty_methods);
    assert(t[2].methods.drop_first() =~= empty_methods);
    assert(t[3].methods.drop_first() =~= seq![(HttpMethod::Post, HandlerKind::FilesPost)]);
    assert(seq![(HttpMethod::Post, HandlerKind::FilesPost)].drop_first() =~= empty_methods);
    assert(assoc_lookup(t[0].methods, m) == Some(HandlerKind::Root) || assoc_lookup(
        t[0].methods,
        m,
    ) is None);
    assert(assoc_lookup(t[1].methods, m) == Some(HandlerKind::Echo) || assoc_lookup(
        t[1].methods,
        m,
    ) is None);
    assert(assoc_lookup(t[2].methods, m) == Some(HandlerKind::UserAgent) || assoc_lookup(
        t[2].methods,
        m,
    ) is None);
    assert(assoc_lookup(seq![(HttpMethod::Post, HandlerKind::FilesPost)], m) == Some(
        HandlerKind::FilesPost,
    ) || assoc_lookup(seq![(HttpMethod::Post, HandlerKind::FilesPost)], m) is None);
    assert(assoc_lookup(t[3].methods, m) == Some(HandlerKind::FilesGet) || assoc_lookup(
        t[3].methods,
        m,
    ) == Some(HandlerKind::FilesPost) || assoc_lookup(t[3].methods, m) is None);
    if r == Some(HandlerKind::Echo) {
        assert(j == 1);
        assert(spec_pattern_matches(t[1].pattern, url));
        assert(t[1].pattern[1] != SLASH);
        lemma_match_gives_segment(t[1].pattern, url, 1);
    } else {
        assert(j == 3);
        assert(spec_pattern_matches(t[3].pattern, url));
        assert(t[3].pattern[1] != SLASH);
        lemma_match_gives_segment(t[3].pattern, url, 1);
    }
}

/// Runs one handler on a parsed request: the pure handlers finish the
/// response, the file handlers decide between a bare 500 (no configured
/// directory) and a file action on the joined path.
pub fn dispatch_handler(h: HandlerKind, req: HttpRequest) -> (d: Dispatch)
    requires
        (h == HandlerKind::Echo || h == HandlerKind::FilesGet || h == HandlerKind::FilesPost)
            ==> spec_url_parts(req@.url).len() > 0,
    ensures
        d@ == spec_dispatch(h, req@, req.ctx@),
        match d {
            Dispatch::ReadFile { req: q, .. } => q@ == req@ && q.ctx@ == req.ctx@,
            _ => true,
        },
{
    match h {
        HandlerKind::Root => Dispatch::Done(root(req)),
        HandlerKind::Echo => Dispatch::Done(echo(req)),
        HandlerKind::UserAgent => Dispatch::Done(user_agent(req)),
        HandlerKind::FilesGet => {
            let parts = split_url_into_parts(req.url.as_slice());
            proof {
                assert(views(parts@)[parts@.len() - 1] == parts@[parts@.len() - 1]@);
            }
            let path = match req.ctx.workdir() {
                None => {
                    return Dispatch::Done(
                        HttpResponse::empty().status(HttpStatus::InternalServerError),
                    );
                },
                Some(wd) => file_path(wd.as_slice(), parts[parts.len() - 1].as_slice()),
            };
            Dispatch::ReadFile { path, req }
        },
        HandlerKind::FilesPost => {
            let parts = split_url_into_parts(req.url.as_slice());
            proof {
                assert(views(parts@)[parts@.len() - 1] == parts@[parts@.len() - 1]@);
            }
            let path = match req.ctx.workdir() {
                None => {
                    return Dispatch::Done(
                        HttpResponse::empty().status(HttpStatus::InternalServerError),
                    );
                },
                Some(wd) => file_path(wd.as_slice(), parts[parts.len() - 1].as_slice()),
            };
            Dispatch::WriteFile { path, contents: req.body }
        },
    }
}

/// Handles one raw request buffer against the fixed route table: parses it,
/// resolves the route, and either finishes the response (a bare 404 when no
/// route matches) or returns the file action to perform. A buffer that does
/// not parse yields nothing, and the connection closes without a response.
pub fn handle_request(routes: &Router, ctx: ServerContext, buf: &[u8]) -> (r: Option<Dispatch>)
    requires
        routes@ == spec_default_routes(),
    ensures
        match spec_parse(buf@) {
            Err(_) => r is None,
            Ok(m) => match r {
                None => false,
                Some(d) => {
                    &&& match spec_resolve(spec_default_routes(), m.url, m.method) {
                        None => d@ == DispatchModel::Done(
                            spec_with_status(spec_empty_resp(), HttpStatus::NotFound),
                        ),
                        Some(h) => d@ == spec_dispatch(h, m, ctx@),
                    }
                    &&& match d {
                        Dispatch::ReadFile { req: q, .. } => q.ctx@ == ctx@,
                        _ => true,
                    }
                },
            },
        },
{
    let req = match HttpRequest::new(buf, ctx) {
        Ok(q) => q,
        Err(_) => {
            return None;
        },
    };
    let h = match routes.resolve(req.url.as_slice(), req.method) {
        None => {
            return Some(Dispatch::Done(HttpResponse::empty().status(HttpStatus::NotFound)));
        },
        Some(h) => h,
    };
    proof {
        if h == HandlerKind::Echo || h == HandlerKind::FilesGet || h == HandlerKind::FilesPost {
            lemma_resolve_needs_segment(req@.url, req@.method);
        }
    }
    Some(dispatch_handler(h, req))
}

} // verus!
