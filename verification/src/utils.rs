//! Path utilities: cutting a request path into its non-empty segments.

use vstd::prelude::*;

verus! {

use crate::bytes::spec_split;
use crate::bytes::split_bytes;
use crate::bytes::one_byte;
use crate::bytes::views;
use crate::bytes::SLASH;

/// The non-empty pieces of a list, in order.
pub open spec fn spec_keep_nonempty(parts: Seq<Seq<u8>>) -> Seq<Seq<u8>>
    decreases parts.len(),
{
    if parts.len() == 0 {
        Seq::empty()
    } else {
        let rest = spec_keep_nonempty(parts.drop_last());
        if parts.last().len() > 0 {
            rest.push(parts.last())
        } else {
            rest
        }
    }
}

/// The segments of a path: split on `/`, empty pieces dropped.
pub open spec fn spec_url_parts(url: Seq<u8>) -> Seq<Seq<u8>> {
    spec_keep_nonempty(spec_split(url, seq![SLASH]))
}

/// Keeping the non-empty pieces distributes over concatenation.
proof fn lemma_keep_nonempty_add(a: Seq<Seq<u8>>, b: Seq<Seq<u8>>)
    ensures
        spec_keep_nonempty(a + b) == spec_keep_nonempty(a) + spec_keep_nonempty(b),
    decreases b.len(),
{
    if b.len() == 0 {
        assert(a + b =~= a);
        assert(spec_keep_nonempty(a) + spec_keep_nonempty(b) =~= spec_keep_nonempty(a));
    } else {
        assert((a + b).drop_last() =~= a + b.drop_last());
        assert((a + b).last() == b.last());
        lemma_keep_nonempty_add(a, b.drop_last());
        if b.last().len() > 0 {
            assert(spec_keep_nonempty(a + b) =~= spec_keep_nonempty(a) + spec_keep_nonempty(b));
        } else {
            assert(spec_keep_nonempty(a + b) =~= spec_keep_nonempty(a) + spec_keep_nonempty(b));
        }
    }
}

/// A path that holds any byte other than `/` has at least one segment.
pub proof fn lemma_url_parts_nonempty(url: Seq<u8>, k: int)
    requires
        0 <= k < url.len(),
        url[k] != SLASH,
    ensures
        spec_url_parts(url).len() > 0,
    decreases url.len(),
{
    let pat = seq![SLASH];
    assert(url.take(1)[0] == url[0]);
    assert(pat[0] == SLASH);
    if url.take(1) == pat {
        assert(url[0] == SLASH);
        assert(k >= 1);
        assert(spec_split(url, pat) == seq![Seq::<u8>::empty()] + spec_split(url.skip(1), pat));
        assert(url.skip(1)[k - 1] == url[k]);
        lemma_url_parts_nonempty(url.skip(1), k - 1);
        lemma_keep_nonempty_add(seq![Seq::<u8>::empty()], spec_split(url.skip(1), pat));
        assert(seq![Seq::<u8>::empty()].drop_last() =~= Seq::<Seq<u8>>::empty());
        assert(spec_keep_nonempty(Seq::<Seq<u8>>::empty()) == Seq::<Seq<u8>>::empty());
        assert(spec_keep_nonempty(seq![Seq::<u8>::empty()]) =~= Seq::<Seq<u8>>::empty());
    } else {
        if url[0] == SLASH {
            assert(url.take(1) =~= pat);
        }
        assert(url[0] != SLASH);
        let rest = spec_split(url.drop_first(), pat);
        crate::bytes::lemma_split_len(url.drop_first(), pat);
        let first = seq![url[0]] + rest[0];
        assert(spec_split(url, pat) == seq![first] + rest.drop_first());
        lemma_keep_nonempty_add(seq![first], rest.drop_first());
        assert(first.len() > 0);
        assert(seq![first].drop_last() =~= Seq::<Seq<u8>>::empty());
        assert(spec_keep_nonempty(Seq::<Seq<u8>>::empty()) == Seq::<Seq<u8>>::empty());
        assert(spec_keep_nonempty(seq![first]) =~= seq![first]);
    }
}

/// Cuts a path into its non-empty segments.
pub fn split_url_into_parts(url: &[u8]) -> (r: Vec<Vec<u8>>)
    ensures
        views(r@) == spec_url_parts(url@),
{
    let pat = one_byte(SLASH);
    let pieces = split_bytes(url, pat.as_slice());
    let ghost pv = spec_split(url@, seq![SLASH]);
    let n = pieces.len();
    let mut out: Vec<Vec<u8>> = Vec::new();
    proof {
        assert(pv.take(0) =~= Seq::<Seq<u8>>::empty());
        assert(views(out@) =~= spec_keep_nonempty(pv.take(0)));
    }
    for i in 0..n
        invariant
            n == pieces@.len(),
            views(pieces@) == pv,
            views(out@) == spec_keep_nonempty(pv.take(i as int)),
    {
        proof {
            assert(views(pieces@)[i as int] == pieces@[i as int]@);
        }
        let ghost prev = out@;
        if pieces[i].len() > 0 {
            out.push(vstd::slice::slice_to_vec(pieces[i].as_slice()));
        }
        proof {
            assert(pv.take(i + 1).drop_last() =~= pv.take(i as int));
            assert(pv.take(i + 1).last() == pv[i as int]);
            if pv[i as int].len() > 0 {
                assert(views(out@) =~= views(prev).push(pv[i as int]));
            } else {
                assert(views(out@) =~= views(prev));
            }
            assert(views(out@) == spec_keep_nonempty(pv.take(i + 1)));
        }
    }
    proof {
        assert(pv.take(n as int) =~= pv);
    }
    out
}

} // verus!
