//! The route table and its matching engine. A pattern is a literal path in
//! which the placeholder `[str]` stands for one run of one or more word
//! characters; a request path matches a pattern only as a whole string.
//! Entries are scanned in registration order, and the first entry whose
//! pattern matches the path and whose method table holds the request method
//! wins; an entry that matches the path without the method does not stop the
//! scan.

use vstd::prelude::*;

verus! {

use crate::assoc::assoc_insert;
use crate::assoc::assoc_lookup;
use crate::assoc::lemma_assoc_insert_is_push;
use crate::assoc::lemma_assoc_insert_is_update;
use crate::assoc::lemma_assoc_lookup_at;
use crate::assoc::lemma_assoc_lookup_none;
use crate::bytes::all_word_bytes;
use crate::bytes::ascii_seq;
use crate::bytes::bytes_eq;
use crate::bytes::find_sub;
use crate::bytes::lemma_find_sub_some;
use crate::bytes::spec_find_sub;
use crate::bytes::str_bytes;
use crate::bytes::word_byte;
use crate::http::HttpMethod;

/// The handlers a route can name.
#[derive(Clone, Copy, PartialEq, Eq, Structural, Debug)]
pub enum HandlerKind {
    Root,
    Echo,
    UserAgent,
    FilesGet,
    FilesPost,
}

/// The mathematical shape of one route entry.
pub ghost struct EntryModel {
    pub pattern: Seq<u8>,
    pub methods: Seq<(HttpMethod, HandlerKind)>,
}

/// One route entry: a path pattern and its method table.
#[derive(Debug)]
pub struct RouteEntry {
    pub pattern: Vec<u8>,
    pub methods: Vec<(HttpMethod, HandlerKind)>,
}

impl View for RouteEntry {
    type V = EntryModel;

    open spec fn view(&self) -> EntryModel {
        EntryModel { pattern: self.pattern@, methods: self.methods@ }
    }
}

/// The wildcard placeholder written in patterns.
pub open spec fn spec_placeholder() -> Seq<u8> {
    ascii_seq("[str]"@)
}

/// Whole-string pattern matching. A pattern without the placeholder matches
/// exactly itself. A pattern with the placeholder matches paths made of the
/// literal prefix, one or more word characters, and the literal suffix.
pub open spec fn spec_pattern_matches(pat: Seq<u8>, path: Seq<u8>) -> bool {
    match spec_find_sub(pat, spec_placeholder()) {
        None => path == pat,
        Some(i) => {
            let pre = pat.take(i);
            let post = pat.skip(i + 5);
            &&& path.len() > pre.len() + post.len()
            &&& path.take(pre.len() as int) == pre
            &&& path.skip(path.len() - post.len()) == post
            &&& all_word_bytes(path.subrange(pre.len() as int, path.len() - post.len()))
        },
    }
}

/// Decides whole-string pattern matching.
pub fn pattern_matches(pat: &[u8], path: &[u8]) -> (r: bool)
    ensures
        r == spec_pattern_matches(pat@, path@),
{
    proof {
        reveal_strlit("[str]");
    }
    let ph = str_bytes("[str]");
    proof {
        assert(ph@.len() == 5);
    }
    match find_sub(pat, ph.as_slice()) {
        None => bytes_eq(path, pat),
        Some(i) => {
            proof {
                lemma_find_sub_some(pat@, spec_placeholder());
            }
            let ghost pre = pat@.take(i as int);
            let ghost post = pat@.skip(i + 5);
            let pat_len = pat.len();
            let path_len = path.len();
            let pre_len = i;
            let post_len = pat_len - (i + 5);
            if path_len < pre_len + post_len + 1 {
                return false;
            }
            let pre_ok = bytes_eq(
                vstd::slice::slice_subrange(path, 0, pre_len),
                vstd::slice::slice_subrange(pat, 0, pre_len),
            );
            proof {
                assert(path@.subrange(0, pre_len as int) =~= path@.take(pre.len() as int));
                assert(pat@.subrange(0, pre_len as int) =~= pre);
            }
            if !pre_ok {
                return false;
            }
            let post_ok = bytes_eq(
                vstd::slice::slice_subrange(path, path_len - post_len, path_len),
                vstd::slice::slice_subrange(pat, i + 5, pat_len),
            );
            proof {
                assert(path@.subrange(path_len - post_len, path_len as int) =~= path@.skip(
                    path@.len() - post.len(),
                ));
                assert(pat@.subrange(i + 5, pat_len as int) =~= post);
            }
            if !post_ok {
                return false;
            }
            let end = path_len - post_len;
            let ghost mid = path@.subrange(pre.len() as int, path@.len() - post.len());
            for j in pre_len..end
                invariant
                    pre_len <= j <= end <= path@.len(),
                    spec_find_sub(pat@, spec_placeholder()) == Some(pre_len as int),
                    pre == pat@.take(pre_len as int),
                    post == pat@.skip(pre_len + 5),
                    pre_len == pre.len(),
                    end == path@.len() - post.len(),
                    path@.len() > pre.len() + post.len(),
                    path@.take(pre.len() as int) == pre,
                    path@.skip(path@.len() - post.len()) == post,
                    mid == path@.subrange(pre.len() as int, path@.len() - post.len()),
                    forall|k: int| 0 <= k < j - pre_len ==> crate::bytes::is_word_byte(#[trigger] mid[k]),
            {
                if !word_byte(path[j]) {
                    proof {
                        assert(mid[j - pre_len] == path@[j as int]);
                        assert(!all_word_bytes(mid));
                    }
                    return false;
                }
                proof {
                    assert(mid[j - pre_len] == path@[j as int]);
                }
            }
            proof {
                assert(all_word_bytes(mid));
            }
            true
        },
    }
}

/// What one entry yields for a path and method: its handler when both the
/// pattern and the method table agree, nothing otherwise.
pub open spec fn spec_entry_lookup(e: EntryModel, path: Seq<u8>, m: HttpMethod) -> Option<
    HandlerKind,
> {
    if spec_pattern_matches(e.pattern, path) {
        assoc_lookup(e.methods, m)
    } else {
        None
    }
}

/// The handler the table resolves a path and method to: the first entry, in
/// registration order, that yields one.
pub open spec fn spec_resolve(entries: Seq<EntryModel>, path: Seq<u8>, m: HttpMethod) -> Option<
    HandlerKind,
>
    decreases entries.len(),
{
    if entries.len() == 0 {
        None
    } else {
        match spec_entry_lookup(entries[0], path, m) {
            Some(h) => Some(h),
            None => spec_resolve(entries.drop_first(), path, m),
        }
    }
}

/// Entries that yield nothing can be skipped without changing the result.
proof fn lemma_resolve_skip(entries: Seq<EntryModel>, path: Seq<u8>, m: HttpMethod, i: int)
    requires
        0 <= i <= entries.len(),
        forall|j: int| 0 <= j < i ==> spec_entry_lookup(#[trigger] entries[j], path, m) is None,
    ensures
        spec_resolve(entries, path, m) == spec_resolve(entries.skip(i), path, m),
    decreases i,
{
    if i > 0 {
        assert(spec_entry_lookup(entries[0], path, m) is None);
        assert forall|j: int| 0 <= j < i - 1 implies spec_entry_lookup(
            #[trigger] entries.drop_first()[j],
            path,
            m,
        ) is None by {
            assert(entries.drop_first()[j] == entries[j + 1]);
        }
        lemma_resolve_skip(entries.drop_first(), path, m, i - 1);
        assert(entries.drop_first().skip(i - 1) =~= entries.skip(i));
    } else {
        assert(entries.skip(0) =~= entries);
    }
}

/// What a table stored under a new registration looks like: the first entry
/// with the same pattern gains the method, or a new entry joins at the end.
pub open spec fn spec_register(
    entries: Seq<EntryModel>,
    pat: Seq<u8>,
    m: HttpMethod,
    h: HandlerKind,
) -> Seq<EntryModel>
    decreases entries.len(),
{
    if entries.len() == 0 {
        seq![EntryModel { pattern: pat, methods: seq![(m, h)] }]
    } else if entries[0].pattern == pat {
        seq![EntryModel { pattern: pat, methods: assoc_insert(entries[0].methods, m, h) }]
            + entries.drop_first()
    } else {
        seq![entries[0]] + spec_register(entries.drop_first(), pat, m, h)
    }
}

/// When the first entry with pattern `pat` stands at `i`, registration is an
/// update in place.
proof fn lemma_register_is_update(
    entries: Seq<EntryModel>,
    pat: Seq<u8>,
    m: HttpMethod,
    h: HandlerKind,
    i: int,
)
    requires
        0 <= i < entries.len(),
        entries[i].pattern == pat,
        forall|j: int| 0 <= j < i ==> (#[trigger] entries[j]).pattern != pat,
    ensures
        spec_register(entries, pat, m, h) == entries.update(
            i,
            EntryModel { pattern: pat, methods: assoc_insert(entries[i].methods, m, h) },
        ),
    decreases entries.len(),
{
    if i == 0 {
        assert(spec_register(entries, pat, m, h) =~= entries.update(
            0,
            EntryModel { pattern: pat, methods: assoc_insert(entries[0].methods, m, h) },
        ));
    } else {
        assert(entries[0].pattern != pat);
        assert forall|j: int| 0 <= j < i - 1 implies (#[trigger] entries.drop_first()[j]).pattern
            != pat by {
            assert(entries.drop_first()[j] == entries[j + 1]);
        }
        lemma_register_is_update(entries.drop_first(), pat, m, h, i - 1);
        assert(spec_register(entries, pat, m, h) =~= entries.update(
            i,
            EntryModel { pattern: pat, methods: assoc_insert(entries[i].methods, m, h) },
        ));
    }
}

/// When no entry carries pattern `pat`, registration is an append.
proof fn lemma_register_is_push(entries: Seq<EntryModel>, pat: Seq<u8>, m: HttpMethod, h: HandlerKind)
    requires
        forall|j: int| 0 <= j < entries.len() ==> (#[trigger] entries[j]).pattern != pat,
    ensures
        spec_register(entries, pat, m, h) == entries.push(
            EntryModel { pattern: pat, methods: seq![(m, h)] },
        ),
    decreases entries.len(),
{
    if entries.len() == 0 {
        assert(spec_register(entries, pat, m, h) =~= entries.push(
            EntryModel { pattern: pat, methods: seq![(m, h)] },
        ));
    } else {
        assert forall|j: int| 0 <= j < entries.drop_first().len() implies (
        #[trigger] entries.drop_first()[j]).pattern != pat by {
            assert(entries.drop_first()[j] == entries[j + 1]);
        }
        lemma_register_is_push(entries.drop_first(), pat, m, h);
        assert(spec_register(entries, pat, m, h) =~= entries.push(
            EntryModel { pattern: pat, methods: seq![(m, h)] },
        ));
    }
}

/// The views of a vector of route entries.
pub open spec fn entry_views(es: Seq<RouteEntry>) -> Seq<EntryModel> {
    es.map_values(|e: RouteEntry| e@)
}

/// Looks a method up in a method table.
fn method_lookup(methods: &Vec<(HttpMethod, HandlerKind)>, m: HttpMethod) -> (r: Option<
    HandlerKind,
>)
    ensures
        r == assoc_lookup(methods@, m),
{
    let n = methods.len();
    for i in 0..n
        invariant
            n == methods@.len(),
            forall|j: int| 0 <= j < i ==> (#[trigger] methods@[j]).0 != m,
    {
        if methods[i].0 == m {
            proof {
                lemma_assoc_lookup_at(methods@, m, i as int);
            }
            return Some(methods[i].1);
        }
    }
    proof {
        lemma_assoc_lookup_none(methods@, m);
    }
    None
}

/// Stores a handler under a method in a method table.
fn method_insert(methods: &mut Vec<(HttpMethod, HandlerKind)>, m: HttpMethod, h: HandlerKind)
    ensures
        final(methods)@ == assoc_insert(old(methods)@, m, h),
{
    let n = methods.len();
    for i in 0..n
        invariant
            n == methods@.len(),
            methods@ == old(methods)@,
            forall|j: int| 0 <= j < i ==> (#[trigger] methods@[j]).0 != m,
    {
        if methods[i].0 == m {
            proof {
                lemma_assoc_insert_is_update(methods@, m, h, i as int);
            }
            methods.remove(i);
            methods.insert(i, (m, h));
            proof {
                assert(methods@ =~= assoc_insert(old(methods)@, m, h));
            }
            return ;
        }
    }
    proof {
        lemma_assoc_insert_is_push(methods@, m, h);
    }
    methods.push((m, h));
}

/// The route table: entries in registration order.
#[derive(Debug)]
pub struct Router {
    pub entries: Vec<RouteEntry>,
}

impl View for Router {
    type V = Seq<EntryModel>;

    open spec fn view(&self) -> Seq<EntryModel> {
        entry_views(self.entries@)
    }
}

/// Finds the first entry whose pattern equals `pattern`.
fn find_pattern(entries: &Vec<RouteEntry>, pattern: &[u8]) -> (r: Option<usize>)
    ensures
        match r {
            Some(i) => {
                &&& (i as int) < entries@.len()
                &&& entry_views(entries@)[i as int].pattern == pattern@
                &&& forall|j: int| 0 <= j < i ==> (#[trigger] entry_views(entries@)[j]).pattern
                    != pattern@
            },
            None => forall|j: int| 0 <= j < entries@.len() ==> (
            #[trigger] entry_views(entries@)[j]).pattern != pattern@,
        },
{
    let n = entries.len();
    for i in 0..n
        invariant
            n == entries@.len(),
            forall|j: int| 0 <= j < i ==> (#[trigger] entry_views(entries@)[j]).pattern
                != pattern@,
    {
        proof {
            assert(entry_views(entries@)[i as int] == entries@[i as int]@);
        }
        if bytes_eq(entries[i].pattern.as_slice(), pattern) {
            return Some(i);
        }
    }
    None
}

impl Router {
    /// An empty route table.
    pub fn new() -> (r: Router)
        ensures
            r@ == Seq::<EntryModel>::empty(),
    {
        let r = Router { entries: Vec::new() };
        proof {
            assert(r@ =~= Seq::<EntryModel>::empty());
        }
        r
    }

    /// Registers a handler under a pattern and method. Patterns hold at most
    /// one `[str]` placeholder.
    pub fn register(self, pattern: &[u8], method: HttpMethod, handler: HandlerKind) -> (r: Router)
        ensures
            r@ == spec_register(self@, pattern@, method, handler),
    {
        let mut entries = self.entries;
        match find_pattern(&entries, pattern) {
            Some(i) => {
                proof {
                    lemma_register_is_update(
                        entry_views(entries@),
                        pattern@,
                        method,
                        handler,
                        i as int,
                    );
                }
                let ghost before = entry_views(entries@);
                let mut e = entries.remove(i);
                method_insert(&mut e.methods, method, handler);
                entries.insert(i, e);
                proof {
                    assert(entry_views(entries@) =~= before.update(
                        i as int,
                        EntryModel {
                            pattern: pattern@,
                            methods: assoc_insert(before[i as int].methods, method, handler),
                        },
                    ));
                }
                Router { entries }
            },
            None => {
                proof {
                    lemma_register_is_push(entry_views(entries@), pattern@, method, handler);
                }
                let ghost before = entry_views(entries@);
                let pat = vstd::slice::slice_to_vec(pattern);
                let mut methods: Vec<(HttpMethod, HandlerKind)> = Vec::new();
                methods.push((method, handler));
                proof {
                    assert(methods@ =~= seq![(method, handler)]);
                }
                entries.push(RouteEntry { pattern: pat, methods });
                proof {
                    assert(entry_views(entries@) =~= before.push(
                        EntryModel { pattern: pattern@, methods: seq![(method, handler)] },
                    ));
                }
                Router { entries }
            },
        }
    }

    /// Resolves a path and method to the first matching handler.
    pub fn resolve(&self, path: &[u8], method: HttpMethod) -> (r: Option<HandlerKind>)
        ensures
            r == spec_resolve(self@, path@, method),
    {
        let n = self.entries.len();
        for i in 0..n
            invariant
                n == self.entries@.len(),
                forall|j: int| 0 <= j < i ==> spec_entry_lookup(
                    #[trigger] entry_views(self.entries@)[j],
                    path@,
                    method,
                ) is None,
        {
            proof {
                assert(entry_views(self.entries@)[i as int] == self.entries@[i as int]@);
            }
            if pattern_matches(self.entries[i].pattern.as_slice(), path) {
                if let Some(h) = method_lookup(&self.entries[i].methods, method) {
                    proof {
                        lemma_resolve_skip(self@, path@, method, i as int);
                        assert(self@.skip(i as int)[0] == self@[i as int]);
                    }
                    return Some(h);
                }
            }
        }
        proof {
            lemma_resolve_skip(self@, path@, method, n as int);
            assert(self@.skip(n as int) =~= Seq::<EntryModel>::empty());
        }
        None
    }
}

/// Route matching is order-stable: when some entry yields a handler for a
/// path and method, the table resolves to the handler of the earliest entry
/// that yields one, and no earlier entry yields any.
pub proof fn lemma_resolve_order_stable(
    entries: Seq<EntryModel>,
    path: Seq<u8>,
    m: HttpMethod,
    i: int,
)
    requires
        0 <= i < entries.len(),
        spec_entry_lookup(entries[i], path, m) is Some,
    ensures
        spec_resolve(entries, path, m) is Some,
        exists|j: int|
            {
                &&& 0 <= j <= i
                &&& spec_resolve(entries, path, m) == spec_entry_lookup(
                    #[trigger] entries[j],
                    path,
                    m,
                )
                &&& spec_entry_lookup(entries[j], path, m) is Some
                &&& forall|k: int| 0 <= k < j ==> spec_entry_lookup(
                    #[trigger] entries[k],
                    path,
                    m,
                ) is None
            },
    decreases entries.len(),
{
    if spec_entry_lookup(entries[0], path, m) is Some {
        assert(spec_resolve(entries, path, m) == spec_entry_lookup(entries[0], path, m));
    } else {
        assert(i > 0);
        assert(entries.drop_first()[i - 1] == entries[i]);
        lemma_resolve_order_stable(entries.drop_first(), path, m, i - 1);
        let j1 = choose|j1: int|
            {
                &&& 0 <= j1 <= i - 1
                &&& spec_resolve(entries.drop_first(), path, m) == spec_entry_lookup(
                    #[trigger] entries.drop_first()[j1],
                    path,
                    m,
                )
                &&& spec_entry_lookup(entries.drop_first()[j1], path, m) is Some
                &&& forall|k: int| 0 <= k < j1 ==> spec_entry_lookup(
                    #[trigger] entries.drop_first()[k],
                    path,
                    m,
                ) is None
            };
        assert(entries.drop_first()[j1] == entries[j1 + 1]);
        assert forall|k: int| 0 <= k < j1 + 1 implies spec_entry_lookup(
            #[trigger] entries[k],
            path,
            m,
        ) is None by {
            if k > 0 {
                assert(entries.drop_first()[k - 1] == entries[k]);
            }
        }
        assert(spec_resolve(entries, path, m) == spec_entry_lookup(entries[j1 + 1], path, m));
    }
}

} // verus!
