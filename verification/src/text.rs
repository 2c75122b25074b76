//! Character-level text helpers shared by the pattern matchers and the
//! pipelines: case folding, whitespace trimming, comma splitting, suffix
//! tests and path-separator arithmetic.

use vstd::prelude::*;
use vstd::std_specs::iter::IteratorSpec;

verus! {

/// The character sequence that `str::to_lowercase` produces for `s`.
pub uninterp spec fn lower_of(s: Seq<char>) -> Seq<char>;

/// `s` unchanged when matching case-sensitively, otherwise its lowercase
/// folding.
pub open spec fn fold_case(cs: bool, s: Seq<char>) -> Seq<char> {
    if cs {
        s
    } else {
        lower_of(s)
    }
}

/// Whether `char::is_whitespace` holds of `c`.
pub uninterp spec fn unicode_ws(c: char) -> bool;

pub assume_specification[ char::is_whitespace ](c: char) -> (r: bool)
    ensures
        r == unicode_ws(c),
;

/// Collects a string's characters into a vector.
pub fn str_chars(s: &str) -> (r: Vec<char>)
    ensures
        r@ == s@,
{
    broadcast use vstd::string::axiom_spec_iter;
    broadcast use vstd::string::next_postcondition;

    let mut it = s.chars();
    let mut out: Vec<char> = Vec::new();
    loop
        invariant
            it.obeys_prophetic_iter_laws(),
            it.decrease() is Some,
            out@ + it.remaining() == s@,
        decreases it.decrease()->0,
    {
        match it.next() {
            Some(c) => {
                out.push(c);
            },
            None => {
                proof {
                    assert(it.remaining().len() == 0);
                    assert(out@ =~= s@);
                }
                return out;
            },
        }
    }
}

/// Relies on str::to_lowercase: the result is a function of the input
/// characters alone (each character maps to one or more lowercased
/// characters), so it is empty exactly when the input is empty.
#[verifier::external_body]
fn to_lowercase_string(s: &str) -> (r: String)
    ensures
        r@ == lower_of(s@),
        s@.len() == 0 ==> r@.len() == 0,
        s@.len() > 0 ==> r@.len() > 0,
{
    s.to_lowercase()
}

/// The lowercase folding of a string, as a character vector.
pub fn lower_chars(s: &str) -> (r: Vec<char>)
    ensures
        r@ == lower_of(s@),
        s@.len() == 0 ==> r@.len() == 0,
        s@.len() > 0 ==> r@.len() > 0,
{
    let lowered = to_lowercase_string(s);
    str_chars(lowered.as_str())
}

/// Relies on String::from_iter over chars: the collected string's view is
/// exactly the character sequence it was built from.
#[verifier::external_body]
pub fn chars_to_string(v: &Vec<char>) -> (r: String)
    ensures
        r@ == v@,
{
    v.iter().collect()
}

/// `s` with leading whitespace characters removed.
pub open spec fn trim_start_spec(s: Seq<char>) -> Seq<char>
    decreases s.len(),
{
    if s.len() > 0 && unicode_ws(s[0]) {
        trim_start_spec(s.drop_first())
    } else {
        s
    }
}

/// `s` with trailing whitespace characters removed.
pub open spec fn trim_end_spec(s: Seq<char>) -> Seq<char>
    decreases s.len(),
{
    if s.len() > 0 && unicode_ws(s.last()) {
        trim_end_spec(s.drop_last())
    } else {
        s
    }
}

/// `s` with whitespace removed from both ends, as `str::trim` does.
pub open spec fn trim_spec(s: Seq<char>) -> Seq<char> {
    trim_end_spec(trim_start_spec(s))
}

/// Every character of `s` is whitespace (so `str::trim` leaves nothing).
pub open spec fn all_whitespace(s: Seq<char>) -> bool {
    forall|i: int| 0 <= i < s.len() ==> unicode_ws(s[i])
}

proof fn lemma_trim_start_subrange(s: Seq<char>, i: int)
    requires
        0 <= i <= s.len(),
        forall|j: int| 0 <= j < i ==> unicode_ws(s[j]),
    ensures
        trim_start_spec(s) == trim_start_spec(s.subrange(i, s.len() as int)),
    decreases i,
{
    if i > 0 {
        assert(s.subrange(1, s.len() as int) == s.drop_first());
        lemma_trim_start_subrange(s.drop_first(), i - 1);
        assert(s.drop_first().subrange(i - 1, s.drop_first().len() as int) == s.subrange(
            i,
            s.len() as int,
        ));
    } else {
        assert(s.subrange(0, s.len() as int) == s);
    }
}

/// Tests whether every character of `s` is whitespace, i.e. whether the
/// string trims to nothing.
pub fn is_blank(s: &str) -> (r: bool)
    ensures
        r == all_whitespace(s@),
{
    let chars = str_chars(s);
    let n = chars.len();
    let mut i: usize = 0;
    while i < n
        invariant
            n == chars.len(),
            chars@ == s@,
            0 <= i <= n,
            forall|j: int| 0 <= j < i ==> unicode_ws(s@[j]),
        decreases n - i,
    {
        if !chars[i].is_whitespace() {
            return false;
        }
        i += 1;
    }
    true
}

/// Removes leading and trailing whitespace from a character vector, exactly
/// as `str::trim` would.
pub fn trim_chars(v: &Vec<char>) -> (r: Vec<char>)
    ensures
        r@ == trim_spec(v@),
{
    let n = v.len();
    let mut a: usize = 0;
    while a < n && v[a].is_whitespace()
        invariant
            n == v.len(),
            0 <= a <= n,
            forall|j: int| 0 <= j < a ==> unicode_ws(v@[j]),
        decreases n - a,
    {
        a += 1;
    }
    proof {
        lemma_trim_start_subrange(v@, a as int);
    }
    let ghost t: Seq<char> = v@.subrange(a as int, n as int);
    proof {
        if a < n {
            assert(trim_start_spec(t) == t);
        } else {
            assert(t.len() == 0);
            assert(trim_start_spec(t) == t);
        }
        assert(trim_start_spec(v@) == t);
    }
    // Scan back from the end over the remaining range.
    let mut b: usize = n;
    while b > a && v[b - 1].is_whitespace()
        invariant
            n == v.len(),
            0 <= a <= b <= n,
            t == v@.subrange(a as int, n as int),
            forall|j: int| 0 <= j < a ==> unicode_ws(v@[j]),
            trim_end_spec(t) == trim_end_spec(v@.subrange(a as int, b as int)),
        decreases b,
    {
        proof {
            let cur = v@.subrange(a as int, b as int);
            assert(cur.len() > 0);
            assert(cur.last() == v@[b - 1]);
            assert(cur.drop_last() == v@.subrange(a as int, b - 1));
        }
        b -= 1;
    }
    let ghost res: Seq<char> = v@.subrange(a as int, b as int);
    proof {
        if b > a {
            assert(res.last() == v@[b - 1]);
            assert(!unicode_ws(res.last()));
            assert(trim_end_spec(res) == res);
        } else {
            assert(res.len() == 0);
            assert(trim_end_spec(res) == res);
        }
        assert(trim_spec(v@) == res);
    }
    let mut out: Vec<char> = Vec::new();
    let mut i: usize = a;
    while i < b
        invariant
            n == v.len(),
            a <= i <= b <= n,
            out@ == v@.subrange(a as int, i as int),
        decreases b - i,
    {
        out.push(v[i]);
        proof {
            assert(v@.subrange(a as int, i + 1) == v@.subrange(a as int, i as int).push(v@[i as int]));
        }
        i += 1;
    }
    proof {
        assert(out@ == res);
    }
    out
}

/// Index of the first comma in `s`, or `s.len()` if there is none.
pub open spec fn first_comma_idx(s: Seq<char>) -> int
    decreases s.len(),
{
    if s.len() == 0 {
        0
    } else if s[0] == ',' {
        0
    } else {
        1 + first_comma_idx(s.drop_first())
    }
}

proof fn lemma_first_comma_idx_char(s: Seq<char>, k: int)
    requires
        0 <= k <= s.len(),
        forall|j: int| 0 <= j < k ==> s[j] != ',',
        k < s.len() ==> s[k] == ',',
    ensures
        first_comma_idx(s) == k,
    decreases k,
{
    if k > 0 {
        assert forall|j: int| 0 <= j < k - 1 implies s.drop_first()[j] != ',' by {
            assert(s.drop_first()[j] == s[j + 1]);
        }
        if k - 1 < s.drop_first().len() {
            assert(s.drop_first()[k - 1] == s[k]);
        }
        lemma_first_comma_idx_char(s.drop_first(), k - 1);
    }
}

/// The comma-separated segments of `s`, as `str::split(',')` yields them:
/// empty segments are kept, and the empty string yields one empty segment.
pub open spec fn split_comma(s: Seq<char>) -> Seq<Seq<char>>
    decreases s.len(),
{
    let k = first_comma_idx(s);
    if !(0 <= k <= s.len()) {
        // Unreachable: the index is always in range.
        Seq::empty()
    } else if k == s.len() {
        seq![s]
    } else {
        seq![s.subrange(0, k)] + split_comma(s.subrange(k + 1, s.len() as int))
    }
}

proof fn lemma_deep_view_push(pre: Seq<Seq<char>>, v: &Vec<Vec<char>>, seg: &Vec<char>)
    requires
        v@.len() > 0,
        pre.len() == v@.len() - 1,
        forall|i: int| 0 <= i < v@.len() - 1 ==> pre[i] == #[trigger] v@[i].deep_view(),
        v@.last() == seg,
    ensures
        v.deep_view() == pre.push(seg@),
{
    assert(seg.deep_view() =~= seg@);
    assert forall|i: int| 0 <= i < v@.len() implies v.deep_view()[i] == pre.push(seg@)[i] by {
        if i < v@.len() - 1 {
            assert(v.deep_view()[i] == v@[i].deep_view());
        } else {
            assert(v.deep_view()[i] == seg.deep_view());
        }
    }
    assert(v.deep_view() =~= pre.push(seg@));
}

/// Splits a character vector at commas, keeping empty segments.
pub fn split_comma_chars(v: &Vec<char>) -> (r: Vec<Vec<char>>)
    ensures
        r.deep_view() == split_comma(v@),
{
    let n = v.len();
    let mut out: Vec<Vec<char>> = Vec::new();
    let mut pos: usize = 0;
    proof {
        assert(v@.subrange(0, n as int) == v@);
    }
    loop
        invariant
            n == v.len(),
            0 <= pos <= n,
            out.deep_view() + split_comma(v@.subrange(pos as int, n as int)) == split_comma(v@),
        decreases n - pos,
    {
        let ghost rest: Seq<char> = v@.subrange(pos as int, n as int);
        // Find the next comma at or after pos.
        let mut k: usize = pos;
        while k < n && v[k] != ','
            invariant
                n == v.len(),
                pos <= k <= n,
                forall|j: int| pos <= j < k ==> v@[j] != ',',
            decreases n - k,
        {
            k += 1;
        }
        proof {
            assert forall|j: int| 0 <= j < k - pos implies rest[j] != ',' by {
                assert(rest[j] == v@[pos + j]);
            }
            if k < n {
                assert(rest[k - pos] == v@[k as int]);
            }
            lemma_first_comma_idx_char(rest, k - pos);
        }
        // Copy the segment v[pos..k].
        let mut seg: Vec<char> = Vec::new();
        let mut i: usize = pos;
        while i < k
            invariant
                n == v.len(),
                pos <= i <= k <= n,
                seg@ == v@.subrange(pos as int, i as int),
            decreases k - i,
        {
            seg.push(v[i]);
            proof {
                assert(v@.subrange(pos as int, i + 1) == v@.subrange(pos as int, i as int).push(
                    v@[i as int],
                ));
            }
            i += 1;
        }
        if k == n {
            proof {
                assert(seg@ == rest);
                assert(split_comma(rest) == seq![rest]);
            }
            let ghost pre = out.deep_view();
            out.push(seg);
            proof {
                lemma_deep_view_push(pre, &out, &seg);
                assert(pre.push(seg@) =~= pre + seq![rest]);
                assert(out.deep_view() =~= split_comma(v@));
            }
            return out;
        } else {
            proof {
                assert(rest.subrange(0, k - pos) == v@.subrange(pos as int, k as int));
                assert(seg@ == rest.subrange(0, k - pos));
                assert(rest.subrange(k - pos + 1, rest.len() as int) == v@.subrange(
                    k + 1,
                    n as int,
                ));
                assert(split_comma(rest) == seq![seg@] + split_comma(v@.subrange(k + 1, n as int)));
            }
            let ghost pre = out.deep_view();
            out.push(seg);
            proof {
                lemma_deep_view_push(pre, &out, &seg);
                assert(pre.push(seg@) + split_comma(v@.subrange(k + 1, n as int)) =~= pre + (seq![
                    seg@,
                ] + split_comma(v@.subrange(k + 1, n as int))));
                assert(out.deep_view() + split_comma(v@.subrange(k + 1, n as int)) =~= split_comma(
                    v@,
                ));
            }
            pos = k + 1;
        }
    }
}

/// `hay` ends with `suffix`.
pub open spec fn ends_with_spec(hay: Seq<char>, suffix: Seq<char>) -> bool {
    hay.len() >= suffix.len() && hay.subrange(
        hay.len() - suffix.len(),
        hay.len() as int,
    ) == suffix
}

/// Suffix test over character vectors.
pub fn chars_end_with(hay: &Vec<char>, suffix: &Vec<char>) -> (r: bool)
    ensures
        r == ends_with_spec(hay@, suffix@),
{
    let hn = hay.len();
    let sn = suffix.len();
    if sn > hn {
        return false;
    }
    let off = hn - sn;
    let mut i: usize = 0;
    while i < sn
        invariant
            hn == hay.len(),
            sn == suffix.len(),
            sn <= hn,
            off == hn - sn,
            0 <= i <= sn,
            forall|j: int| 0 <= j < i ==> hay@[off + j] == suffix@[j],
        decreases sn - i,
    {
        if hay[off + i] != suffix[i] {
            proof {
                let tail = hay@.subrange(hn - sn, hn as int);
                assert(tail[i as int] == hay@[off + i]);
            }
            return false;
        }
        i += 1;
    }
    proof {
        let tail = hay@.subrange(hn - sn, hn as int);
        assert forall|j: int| 0 <= j < sn implies tail[j] == suffix@[j] by {
            assert(tail[j] == hay@[off + j]);
        }
        assert(tail =~= suffix@);
    }
    true
}

/// Number of path separators (`'/'`) in `s`.
pub open spec fn sep_count(s: Seq<char>) -> int
    decreases s.len(),
{
    if s.len() == 0 {
        0
    } else {
        sep_count(s.drop_last()) + if s.last() == '/' {
            1int
        } else {
            0int
        }
    }
}

/// Counts the path separators in a string.
pub fn count_separators(s: &str) -> (r: usize)
    ensures
        r == sep_count(s@),
{
    let chars = str_chars(s);
    let n = chars.len();
    let mut count: usize = 0;
    let mut i: usize = 0;
    proof {
        assert(chars@.subrange(0, 0) == Seq::<char>::empty());
    }
    while i < n
        invariant
            n == chars.len(),
            chars@ == s@,
            0 <= i <= n,
            count == sep_count(s@.subrange(0, i as int)),
            count <= i,
        decreases n - i,
    {
        proof {
            let pre = s@.subrange(0, i + 1);
            assert(pre.drop_last() == s@.subrange(0, i as int));
            assert(pre.last() == s@[i as int]);
        }
        if chars[i] == '/' {
            count += 1;
        }
        i += 1;
    }
    proof {
        assert(s@.subrange(0, n as int) == s@);
    }
    count
}

/// The directory part of a path: everything before the last separator, or
/// `None` for a path with no separator.
pub open spec fn parent_dir_spec(p: Seq<char>) -> Option<Seq<char>> {
    if exists|i: int| 0 <= i < p.len() && p[i] == '/' {
        let k = last_sep_idx(p);
        Some(p.subrange(0, k))
    } else {
        None
    }
}

/// Index of the last separator in `p` (meaningful only when one exists).
pub open spec fn last_sep_idx(p: Seq<char>) -> int
    decreases p.len(),
{
    if p.len() == 0 {
        0
    } else if p.last() == '/' {
        p.len() - 1
    } else {
        last_sep_idx(p.drop_last())
    }
}

proof fn lemma_last_sep_idx(p: Seq<char>)
    requires
        exists|i: int| 0 <= i < p.len() && p[i] == '/',
    ensures
        0 <= last_sep_idx(p) < p.len(),
        p[last_sep_idx(p)] == '/',
        forall|j: int| last_sep_idx(p) < j < p.len() ==> p[j] != '/',
    decreases p.len(),
{
    if p.len() > 0 && p.last() != '/' {
        let w = choose|i: int| 0 <= i < p.len() && p[i] == '/';
        assert(w < p.len() - 1);
        assert(p.drop_last()[w] == p[w]);
        lemma_last_sep_idx(p.drop_last());
        let k = last_sep_idx(p.drop_last());
        assert(p[k] == p.drop_last()[k]);
        assert forall|j: int| k < j < p.len() implies p[j] != '/' by {
            if j < p.len() - 1 {
                assert(p.drop_last()[j] == p[j]);
            }
        }
    }
}

proof fn lemma_last_sep_idx_char(p: Seq<char>, k: int)
    requires
        0 <= k < p.len(),
        p[k] == '/',
        forall|j: int| k < j < p.len() ==> p[j] != '/',
    ensures
        last_sep_idx(p) == k,
    decreases p.len(),
{
    if p.last() != '/' {
        assert(k < p.len() - 1);
        assert(p.drop_last()[k] == p[k]);
        assert forall|j: int| k < j < p.drop_last().len() implies p.drop_last()[j] != '/' by {
            assert(p.drop_last()[j] == p[j]);
        }
        lemma_last_sep_idx_char(p.drop_last(), k);
    }
}

/// Computes the directory part of a path string, as everything before the
/// last separator.
pub fn parent_dir(p: &str) -> (r: Option<String>)
    ensures
        r is Some <==> parent_dir_spec(p@) is Some,
        r matches Some(d) ==> parent_dir_spec(p@) == Some(d@),
{
    let chars = str_chars(p);
    let n = chars.len();
    let mut k: usize = n;
    // Scan from the end for the last separator.
    while k > 0
        invariant
            n == chars.len(),
            chars@ == p@,
            0 <= k <= n,
            forall|j: int| k <= j < n ==> p@[j] != '/',
        decreases k,
    {
        if chars[k - 1] == '/' {
            proof {
                lemma_last_sep_idx_char(p@, k - 1);
            }
            let mut out: Vec<char> = Vec::new();
            let mut i: usize = 0;
            while i < k - 1
                invariant
                    n == chars.len(),
                    chars@ == p@,
                    1 <= k <= n,
                    0 <= i <= k - 1,
                    out@ == p@.subrange(0, i as int),
                decreases k - 1 - i,
            {
                out.push(chars[i]);
                proof {
                    assert(p@.subrange(0, i + 1) == p@.subrange(0, i as int).push(p@[i as int]));
                }
                i += 1;
            }
            return Some(chars_to_string(&out));
        }
        k -= 1;
    }
    proof {
        assert(forall|j: int| 0 <= j < n ==> p@[j] != '/');
    }
    None
}

} // verus!

