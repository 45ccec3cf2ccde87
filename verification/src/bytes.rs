//! Byte-level helpers shared by the parser, the router and the serializer:
//! ASCII case folding, the word-character class used by route wildcards,
//! substring search, splitting on a separator, and decimal rendering of
//! lengths.

use vstd::prelude::*;

verus! {

use vstd::string::StringSliceAdditionalSpecFns;

/// Carriage return.
pub const CR: u8 = 13;

/// Line feed.
pub const LF: u8 = 10;

/// Space.
pub const SP: u8 = 32;

/// Forward slash, the path segment separator.
pub const SLASH: u8 = 47;

/// ASCII lower-casing of a single byte, at the spec level.
pub open spec fn spec_lower_byte(b: u8) -> u8 {
    if 65 <= b && b <= 90 {
        (b + 32) as u8
    } else {
        b
    }
}

/// ASCII lower-casing of a byte sequence, at the spec level.
pub open spec fn spec_lower(s: Seq<u8>) -> Seq<u8> {
    s.map_values(|b: u8| spec_lower_byte(b))
}

/// Folds one ASCII upper-case byte to lower case; other bytes pass through.
pub fn to_lower_byte(b: u8) -> (r: u8)
    ensures
        r == spec_lower_byte(b),
{
    if 65 <= b && b <= 90 {
        b + 32
    } else {
        b
    }
}

/// Folds a whole byte string to ASCII lower case.
pub fn to_lower(s: &[u8]) -> (r: Vec<u8>)
    ensures
        r@ == spec_lower(s@),
{
    let mut out: Vec<u8> = Vec::new();
    let n = s.len();
    for i in 0..n
        invariant
            n == s@.len(),
            out@ =~= spec_lower(s@).take(i as int),
    {
        out.push(to_lower_byte(s[i]));
        assert(out@ =~= spec_lower(s@).take(i + 1));
    }
    assert(spec_lower(s@).take(n as int) =~= spec_lower(s@));
    out
}

/// A word byte in the sense of route wildcards: an ASCII letter, digit, or
/// underscore.
pub open spec fn is_word_byte(b: u8) -> bool {
    (48 <= b && b <= 57) || (65 <= b && b <= 90) || (97 <= b && b <= 122) || b == 95
}

/// Every byte of the sequence is a word byte.
pub open spec fn all_word_bytes(s: Seq<u8>) -> bool {
    forall|i: int| 0 <= i < s.len() ==> is_word_byte(#[trigger] s[i])
}

/// Decides whether a byte is a word byte.
pub fn word_byte(b: u8) -> (r: bool)
    ensures
        r == is_word_byte(b),
{
    (48 <= b && b <= 57) || (65 <= b && b <= 90) || (97 <= b && b <= 122) || b == 95
}

/// The bytes of an ASCII character sequence, one byte per character.
pub open spec fn ascii_seq(cs: Seq<char>) -> Seq<u8> {
    Seq::new(cs.len(), |i: int| cs[i] as u8)
}

/// Turns an ASCII string into its byte vector. The contracts of this crate
/// state wire constants (header names, status phrases, method tokens) as
/// `ascii_seq` of string literals, and this is the bridge that produces the
/// matching runtime bytes.
pub fn str_bytes(s: &str) -> (r: Vec<u8>)
    requires
        vstd::string::is_ascii(s),
    ensures
        r@ == ascii_seq(s@),
{
    proof {
        vstd::string::is_ascii_spec_bytes(s);
        assert(s.spec_bytes() =~= ascii_seq(s@));
    }
    vstd::slice::slice_to_vec(s.as_bytes())
}

/// Byte-string equality, decided element by element.
pub fn bytes_eq(a: &[u8], b: &[u8]) -> (r: bool)
    ensures
        r == (a@ == b@),
{
    if a.len() != b.len() {
        proof {
            assert(a@.len() != b@.len());
        }
        return false;
    }
    let n = a.len();
    for i in 0..n
        invariant
            n == a@.len() && n == b@.len(),
            forall|j: int| 0 <= j < i ==> a@[j] == b@[j],
    {
        if a[i] != b[i] {
            return false;
        }
    }
    proof {
        assert(a@ =~= b@);
    }
    true
}

/// A one-byte vector, used as a split pattern.
pub fn one_byte(b: u8) -> (r: Vec<u8>)
    ensures
        r@ == seq![b],
{
    let mut out: Vec<u8> = Vec::new();
    out.push(b);
    assert(out@ =~= seq![b]);
    out
}

/// Drops a trailing carriage return, if the line ends in one.
pub open spec fn spec_strip_cr(line: Seq<u8>) -> Seq<u8> {
    if line.len() > 0 && line.last() == CR {
        line.drop_last()
    } else {
        line
    }
}

/// Drops a trailing carriage return in place, if the line ends in one.
pub fn strip_cr(line: &mut Vec<u8>)
    ensures
        final(line)@ == spec_strip_cr(old(line)@),
{
    let n = line.len();
    if n > 0 && line[n - 1] == CR {
        line.pop();
        assert(line@ =~= old(line)@.drop_last());
    }
}

/// Index of the first occurrence of `pat` inside `s`, if any.
pub open spec fn spec_find_sub(s: Seq<u8>, pat: Seq<u8>) -> Option<int>
    decreases s.len(),
{
    if s.len() < pat.len() {
        None
    } else if s.take(pat.len() as int) == pat {
        Some(0)
    } else if s.len() == 0 {
        None
    } else {
        match spec_find_sub(s.drop_first(), pat) {
            None => None,
            Some(i) => Some(i + 1),
        }
    }
}

/// What a found index means: it is in range, the pattern sits there, and no
/// earlier index carries the pattern.
pub proof fn lemma_find_sub_some(s: Seq<u8>, pat: Seq<u8>)
    requires
        spec_find_sub(s, pat) is Some,
    ensures
        ({
            let i = spec_find_sub(s, pat)->Some_0;
            &&& 0 <= i
            &&& i + pat.len() <= s.len()
            &&& s.subrange(i, i + pat.len() as int) == pat
            &&& forall|j: int|
                0 <= j < i ==> #[trigger] s.subrange(j, j + pat.len() as int) != pat
        }),
    decreases s.len(),
{
    let i = spec_find_sub(s, pat)->Some_0;
    if s.len() >= pat.len() && s.take(pat.len() as int) == pat {
        assert(s.subrange(0, pat.len() as int) == s.take(pat.len() as int));
    } else {
        lemma_find_sub_some(s.drop_first(), pat);
        let i1 = spec_find_sub(s.drop_first(), pat)->Some_0;
        assert(s.subrange(i, i + pat.len() as int) =~= s.drop_first().subrange(
            i1,
            i1 + pat.len() as int,
        ));
        assert forall|j: int| 0 <= j < i implies #[trigger] s.subrange(j, j + pat.len() as int)
            != pat by {
            if j == 0 {
                assert(s.take(pat.len() as int) =~= s.subrange(0, pat.len() as int));
            } else {
                assert(s.subrange(j, j + pat.len() as int) =~= s.drop_first().subrange(
                    j - 1,
                    j - 1 + pat.len() as int,
                ));
            }
        }
    }
}

/// The first match position determines the result of the search.
pub proof fn lemma_find_sub_at(s: Seq<u8>, pat: Seq<u8>, i: int)
    requires
        0 <= i,
        i + pat.len() <= s.len(),
        s.subrange(i, i + pat.len() as int) == pat,
        forall|j: int| 0 <= j < i ==> #[trigger] s.subrange(j, j + pat.len() as int) != pat,
    ensures
        spec_find_sub(s, pat) == Some(i),
    decreases s.len(),
{
    if i == 0 {
        assert(s.take(pat.len() as int) =~= s.subrange(0, pat.len() as int));
    } else {
        assert(s.subrange(0, 0 + pat.len() as int) != pat);
        assert(s.take(pat.len() as int) =~= s.subrange(0, 0 + pat.len() as int));
        assert forall|j: int| 0 <= j < i - 1 implies #[trigger] s.drop_first().subrange(
            j,
            j + pat.len() as int,
        ) != pat by {
            assert(s.drop_first().subrange(j, j + pat.len() as int) =~= s.subrange(
                j + 1,
                j + 1 + pat.len() as int,
            ));
        }
        assert(s.drop_first().subrange(i - 1, i - 1 + pat.len() as int) =~= s.subrange(
            i,
            i + pat.len() as int,
        ));
        lemma_find_sub_at(s.drop_first(), pat, i - 1);
    }
}

/// Finds the first occurrence of `pat` in `s`.
pub fn find_sub(s: &[u8], pat: &[u8]) -> (r: Option<usize>)
    requires
        pat@.len() >= 1,
    ensures
        match r {
            Some(i) => spec_find_sub(s@, pat@) == Some(i as int),
            None => spec_find_sub(s@, pat@) is None,
        },
{
    let n = s.len();
    let p = pat.len();
    if n < p {
        proof {
            if spec_find_sub(s@, pat@) is Some {
                lemma_find_sub_some(s@, pat@);
            }
        }
        return None;
    }
    let end = n - p;
    let mut i: usize = 0;
    loop
        invariant
            n == s@.len(),
            p == pat@.len(),
            p >= 1,
            end == n - p,
            0 <= i <= end + 1,
            forall|j: int| 0 <= j < i ==> #[trigger] s@.subrange(j, j + p) != pat@,
        decreases end + 1 - i,
    {
        if i > end {
            proof {
                if spec_find_sub(s@, pat@) is Some {
                    lemma_find_sub_some(s@, pat@);
                }
            }
            return None;
        }
        let window = vstd::slice::slice_subrange(s, i, i + p);
        if bytes_eq(window, pat) {
            proof {
                lemma_find_sub_at(s@, pat@, i as int);
            }
            return Some(i);
        }
        i = i + 1;
    }
}

/// Splits `s` on each non-overlapping, leftmost occurrence of `pat`. The
/// result always holds at least one piece; none of the pieces contains the
/// separator.
pub open spec fn spec_split(s: Seq<u8>, pat: Seq<u8>) -> Seq<Seq<u8>>
    decreases s.len(),
{
    if pat.len() == 0 {
        seq![s]
    } else if s.len() < pat.len() {
        seq![s]
    } else if s.take(pat.len() as int) == pat {
        seq![Seq::<u8>::empty()] + spec_split(s.skip(pat.len() as int), pat)
    } else {
        let rest = spec_split(s.drop_first(), pat);
        seq![seq![s[0]] + rest[0]] + rest.drop_first()
    }
}

/// A split has at least one piece.
pub proof fn lemma_split_len(s: Seq<u8>, pat: Seq<u8>)
    ensures
        spec_split(s, pat).len() >= 1,
    decreases s.len(),
{
    if pat.len() == 0 || s.len() < pat.len() {
    } else if s.take(pat.len() as int) == pat {
        lemma_split_len(s.skip(pat.len() as int), pat);
    } else {
        lemma_split_len(s.drop_first(), pat);
    }
}

/// Unfolds a split at the first separator occurrence: everything before it is
/// the first piece, and the rest splits on its own.
pub proof fn lemma_split_step(s: Seq<u8>, pat: Seq<u8>)
    requires
        pat.len() >= 1,
    ensures
        match spec_find_sub(s, pat) {
            None => spec_split(s, pat) == seq![s],
            Some(i) => spec_split(s, pat) == seq![s.take(i)] + spec_split(
                s.skip(i + pat.len() as int),
                pat,
            ),
        },
    decreases s.len(),
{
    if s.len() < pat.len() {
    } else if s.take(pat.len() as int) == pat {
        assert(spec_find_sub(s, pat) == Some(0int));
        assert(s.take(0) =~= Seq::<u8>::empty());
    } else {
        lemma_split_step(s.drop_first(), pat);
        lemma_split_len(s.drop_first(), pat);
        match spec_find_sub(s.drop_first(), pat) {
            None => {
                assert(spec_find_sub(s, pat) is None);
                let rest = spec_split(s.drop_first(), pat);
                assert(rest == seq![s.drop_first()]);
                assert(seq![s[0]] + rest[0] =~= s);
                assert(spec_split(s, pat) =~= seq![s]);
            },
            Some(i1) => {
                assert(spec_find_sub(s, pat) == Some(i1 + 1));
                lemma_find_sub_some(s.drop_first(), pat);
                let rest = spec_split(s.drop_first(), pat);
                assert(rest == seq![s.drop_first().take(i1)] + spec_split(
                    s.drop_first().skip(i1 + pat.len() as int),
                    pat,
                ));
                assert(seq![s[0]] + rest[0] =~= s.take(i1 + 1));
                assert(s.drop_first().skip(i1 + pat.len() as int) =~= s.skip(
                    i1 + 1 + pat.len() as int,
                ));
                assert(spec_split(s, pat) =~= seq![s.take(i1 + 1)] + spec_split(
                    s.skip(i1 + 1 + pat.len() as int),
                    pat,
                ));
            },
        }
    }
}

/// The views of a vector of byte vectors.
pub open spec fn views(vs: Seq<Vec<u8>>) -> Seq<Seq<u8>> {
    vs.map_values(|v: Vec<u8>| v@)
}

/// Splits a byte string on each leftmost occurrence of `pat`.
pub fn split_bytes(s: &[u8], pat: &[u8]) -> (r: Vec<Vec<u8>>)
    requires
        pat@.len() >= 1,
    ensures
        views(r@) == spec_split(s@, pat@),
{
    let mut out: Vec<Vec<u8>> = Vec::new();
    let mut start: usize = 0;
    let n = s.len();
    let p = pat.len();
    proof {
        assert(s@.skip(0) =~= s@);
        assert(views(out@) =~= Seq::<Seq<u8>>::empty());
    }
    loop
        invariant
            n == s@.len(),
            p == pat@.len(),
            p >= 1,
            0 <= start <= n,
            spec_split(s@, pat@) =~= views(out@) + spec_split(s@.skip(start as int), pat@),
        decreases n - start,
    {
        let tail = vstd::slice::slice_subrange(s, start, n);
        proof {
            lemma_split_step(s@.skip(start as int), pat@);
        }
        match find_sub(tail, pat) {
            None => {
                let piece = vstd::slice::slice_to_vec(tail);
                out.push(piece);
                proof {
                    assert(views(out@) =~= views(out@.drop_last()) + seq![s@.skip(start as int)]);
                    assert(views(out@) =~= spec_split(s@, pat@));
                }
                return out;
            },
            Some(i) => {
                proof {
                    lemma_find_sub_some(s@.skip(start as int), pat@);
                }
                let piece = vstd::slice::slice_to_vec(
                    vstd::slice::slice_subrange(s, start, start + i),
                );
                out.push(piece);
                proof {
                    assert(s@.subrange(start as int, start + i) =~= s@.skip(start as int).take(
                        i as int,
                    ));
                    assert(s@.skip(start as int).skip(i + p) =~= s@.skip(start + i + p));
                    assert(views(out@) =~= views(out@.drop_last()) + seq![
                        s@.skip(start as int).take(i as int),
                    ]);
                }
                start = start + i + p;
            },
        }
    }
}

/// Decimal digits of a natural number, most significant first.
pub open spec fn spec_decimal(n: nat) -> Seq<u8>
    decreases n,
{
    if n < 10 {
        seq![(48 + n) as u8]
    } else {
        spec_decimal(n / 10) + seq![(48 + n % 10) as u8]
    }
}

/// Renders a length as decimal digits.
pub fn decimal_bytes(n: usize) -> (r: Vec<u8>)
    ensures
        r@ == spec_decimal(n as nat),
    decreases n,
{
    if n < 10 {
        let mut out: Vec<u8> = Vec::new();
        out.push(48 + n as u8);
        assert(out@ =~= spec_decimal(n as nat));
        out
    } else {
        let mut out = decimal_bytes(n / 10);
        out.push(48 + (n % 10) as u8);
        assert(out@ =~= spec_decimal(n as nat));
        out
    }
}

} // verus!
