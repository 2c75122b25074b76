//! The three filename matchers used by the search pipeline: substring,
//! extension-list and regular-expression matching.
//!
//! Ranges are character indices into the case-folded name (for the regular
//! expression matcher, the byte ranges that the regex engine reports).

use vstd::prelude::*;

use crate::text::{
    chars_end_with, chars_to_string, ends_with_spec, fold_case, lower_chars, split_comma,
    split_comma_chars, str_chars, trim_chars, trim_spec,
};

verus! {

// ==================== Substring matching ====================

/// `needle` occurs in `hay` at position `i`.
pub open spec fn occurs_at(hay: Seq<char>, needle: Seq<char>, i: int) -> bool {
    0 <= i && i + needle.len() <= hay.len() && hay.subrange(i, i + needle.len()) == needle
}

/// The positions found by the left-to-right non-overlapping scan for
/// `needle` in `hay`, starting at `from`: after a hit at `i` the scan
/// resumes at `i + needle.len()`, so no two reported occurrences overlap.
pub open spec fn positions_from(hay: Seq<char>, needle: Seq<char>, from: int) -> Seq<int>
    decreases hay.len() - from,
{
    if needle.len() <= 0 || from < 0 || from + needle.len() > hay.len() {
        Seq::empty()
    } else if occurs_at(hay, needle, from) {
        seq![from] + positions_from(hay, needle, from + needle.len())
    } else {
        positions_from(hay, needle, from + 1)
    }
}

/// The non-overlapping occurrence positions of `needle` in `hay`, in
/// ascending order.
pub open spec fn match_positions(hay: Seq<char>, needle: Seq<char>) -> Seq<int> {
    positions_from(hay, needle, 0)
}

/// Every collected position lies at or after `from` and marks a real
/// occurrence.
pub proof fn lemma_positions_props(hay: Seq<char>, needle: Seq<char>, from: int)
    ensures
        forall|t: int|
            0 <= t < positions_from(hay, needle, from).len() ==> {
                let p = #[trigger] positions_from(hay, needle, from)[t];
                from <= p && occurs_at(hay, needle, p)
            },
    decreases hay.len() - from,
{
    if !(needle.len() <= 0 || from < 0 || from + needle.len() > hay.len()) {
        let cur = positions_from(hay, needle, from);
        if occurs_at(hay, needle, from) {
            lemma_positions_props(hay, needle, from + needle.len());
            let rest = positions_from(hay, needle, from + needle.len());
            assert forall|t: int| 0 <= t < cur.len() implies {
                let p = #[trigger] cur[t];
                from <= p && occurs_at(hay, needle, p)
            } by {
                if t > 0 {
                    assert(cur[t] == rest[t - 1]);
                }
            }
        } else {
            lemma_positions_props(hay, needle, from + 1);
            let rest = positions_from(hay, needle, from + 1);
            assert forall|t: int| 0 <= t < cur.len() implies {
                let p = #[trigger] cur[t];
                from <= p && occurs_at(hay, needle, p)
            } by {
                assert(cur[t] == rest[t]);
            }
        }
    }
}

/// Finds the left-to-right non-overlapping occurrences of `pattern` in
/// `name`: after each hit the scan resumes past it. Each range covers one
/// occurrence in the case-folded name. Returns `None` when there is no
/// occurrence.
pub fn match_simple(name: &str, pattern: &str, case_sensitive: bool) -> (r: Option<
    Vec<(usize, usize)>,
>)
    requires
        pattern@.len() > 0,
    ensures
        ({
            let hay = fold_case(case_sensitive, name@);
            let needle = fold_case(case_sensitive, pattern@);
            let ps = match_positions(hay, needle);
            &&& (r is Some <==> ps.len() > 0)
            &&& (r matches Some(v) ==> v@.len() == ps.len() && (forall|t: int|
                0 <= t < ps.len() ==> (#[trigger] v@[t]).0 == ps[t] && v@[t].1 == ps[t]
                    + needle.len()))
        }),
{
    let hay = if case_sensitive {
        str_chars(name)
    } else {
        lower_chars(name)
    };
    let needle = if case_sensitive {
        str_chars(pattern)
    } else {
        lower_chars(pattern)
    };
    let n = hay.len();
    let m = needle.len();
    assert(m > 0);
    if m > n {
        return None;
    }
    let ghost full = match_positions(hay@, needle@);
    let mut res: Vec<(usize, usize)> = Vec::new();
    let mut i: usize = 0;
    while i <= n - m
        invariant
            n == hay.len(),
            m == needle.len(),
            0 < m <= n,
            full == match_positions(hay@, needle@),
            0 <= i <= n,
            full == Seq::new(res@.len() as nat, |t: int| res@[t].0 as int) + positions_from(
                hay@,
                needle@,
                i as int,
            ),
            forall|t: int| 0 <= t < res@.len() ==> (#[trigger] res@[t]).1 == res@[t].0 + m,
        decreases n - i,
    {
        // Compare the window hay[i .. i + m] with the needle.
        let mut j: usize = 0;
        let mut window_eq = true;
        while j < m
            invariant
                n == hay.len(),
                m == needle.len(),
                0 <= i <= n - m,
                0 <= j <= m,
                window_eq <==> (forall|t: int| 0 <= t < j ==> hay@[i + t] == needle@[t]),
            decreases m - j,
        {
            if hay[i + j] != needle[j] {
                window_eq = false;
                proof {
                    assert(hay@[i + j] != needle@[j as int]);
                }
                j = m;
            } else {
                j += 1;
            }
        }
        proof {
            let w = hay@.subrange(i as int, i + m);
            if window_eq {
                assert forall|t: int| 0 <= t < m implies w[t] == needle@[t] by {
                    assert(w[t] == hay@[i + t]);
                }
                assert(w =~= needle@);
                assert(occurs_at(hay@, needle@, i as int));
            } else {
                let t = choose|t: int| 0 <= t < m && hay@[i + t] != needle@[t];
                assert(w[t] == hay@[i + t]);
                assert(w != needle@);
                assert(!occurs_at(hay@, needle@, i as int));
            }
        }
        let ghost res_pre = res@;
        if window_eq {
            res.push((i, i + m));
            proof {
                assert(positions_from(hay@, needle@, i as int) == seq![i as int]
                    + positions_from(hay@, needle@, i + m));
                assert(Seq::new(res@.len() as nat, |t: int| res@[t].0 as int) =~= Seq::new(
                    res_pre.len() as nat,
                    |t: int| res_pre[t].0 as int,
                ) + seq![i as int]);
                assert(full =~= Seq::new(res@.len() as nat, |t: int| res@[t].0 as int)
                    + positions_from(hay@, needle@, i + m));
            }
            i += m;
        } else {
            proof {
                assert(positions_from(hay@, needle@, i as int) == positions_from(
                    hay@,
                    needle@,
                    i + 1,
                ));
            }
            i += 1;
        }
    }
    proof {
        assert(positions_from(hay@, needle@, i as int) == Seq::<int>::empty());
        assert(full =~= Seq::new(res@.len() as nat, |t: int| res@[t].0 as int));
        assert forall|t: int| 0 <= t < full.len() implies (#[trigger] res@[t]).0 == full[t]
            && res@[t].1 == full[t] + m by {
            assert(full[t] == res@[t].0 as int);
        }
    }
    if res.len() == 0 {
        None
    } else {
        Some(res)
    }
}

// ==================== Extension matching ====================

/// An extension normalized to carry a leading dot.
pub open spec fn normalize_ext(e: Seq<char>) -> Seq<char> {
    if e.len() > 0 && e[0] == '.' {
        e
    } else {
        seq!['.'] + e
    }
}

/// The case-folded form of one comma-separated extension segment, after
/// trimming and dot-normalization.
pub open spec fn folded_ext(seg: Seq<char>, cs: bool) -> Seq<char> {
    fold_case(cs, normalize_ext(trim_spec(seg)))
}

/// The folded name ends with the folded, normalized form of `seg`.
pub open spec fn ext_matches(name: Seq<char>, seg: Seq<char>, cs: bool) -> bool {
    ends_with_spec(fold_case(cs, name), folded_ext(seg, cs))
}

/// Index of the first segment (at or after `i`) whose extension matches.
pub open spec fn first_ext_from(name: Seq<char>, segs: Seq<Seq<char>>, cs: bool, i: int) -> Option<
    int,
>
    decreases segs.len() - i,
{
    if !(0 <= i < segs.len()) {
        None
    } else if ext_matches(name, segs[i], cs) {
        Some(i)
    } else {
        first_ext_from(name, segs, cs, i + 1)
    }
}

/// The single range reported for an extension match: it covers the matched
/// suffix of the case-folded name. `None` when no listed extension matches.
pub open spec fn extension_range(name: Seq<char>, extensions: Seq<char>, cs: bool) -> Option<
    (int, int),
> {
    let segs = split_comma(extensions);
    match first_ext_from(name, segs, cs, 0) {
        None => None,
        Some(i) => {
            let nf = fold_case(cs, name);
            Some((nf.len() - folded_ext(segs[i], cs).len(), nf.len() as int))
        },
    }
}

proof fn lemma_first_ext_found(name: Seq<char>, segs: Seq<Seq<char>>, cs: bool, e: int)
    requires
        0 <= e < segs.len(),
        forall|j: int| 0 <= j < e ==> !ext_matches(name, segs[j], cs),
        ext_matches(name, segs[e], cs),
    ensures
        first_ext_from(name, segs, cs, 0) == Some(e),
    decreases e,
{
    lemma_first_ext_step(name, segs, cs, 0, e);
}

proof fn lemma_first_ext_step(name: Seq<char>, segs: Seq<Seq<char>>, cs: bool, i: int, e: int)
    requires
        0 <= i <= e < segs.len(),
        forall|j: int| i <= j < e ==> !ext_matches(name, segs[j], cs),
        ext_matches(name, segs[e], cs),
    ensures
        first_ext_from(name, segs, cs, i) == Some(e),
    decreases e - i,
{
    if i < e {
        lemma_first_ext_step(name, segs, cs, i + 1, e);
    }
}

proof fn lemma_first_ext_none(name: Seq<char>, segs: Seq<Seq<char>>, cs: bool, i: int)
    requires
        0 <= i,
        forall|j: int| i <= j < segs.len() ==> !ext_matches(name, segs[j], cs),
    ensures
        first_ext_from(name, segs, cs, i) is None,
    decreases segs.len() - i,
{
    if i < segs.len() {
        lemma_first_ext_none(name, segs, cs, i + 1);
    }
}

proof fn lemma_first_ext_some(name: Seq<char>, segs: Seq<Seq<char>>, cs: bool, i: int)
    requires
        0 <= i <= segs.len(),
        first_ext_from(name, segs, cs, i) is Some,
    ensures
        ({
            let e = first_ext_from(name, segs, cs, i)->Some_0;
            i <= e < segs.len() && ext_matches(name, segs[e], cs)
        }),
    decreases segs.len() - i,
{
    if i < segs.len() && !ext_matches(name, segs[i], cs) {
        lemma_first_ext_some(name, segs, cs, i + 1);
    }
}

/// A reported extension range lies within the case-folded name and ends at
/// its end.
pub proof fn lemma_extension_range_bounds(name: Seq<char>, extensions: Seq<char>, cs: bool)
    ensures
        extension_range(name, extensions, cs) matches Some(p) ==> 0 <= p.0 <= p.1 && p.1
            == fold_case(cs, name).len(),
{
    if extension_range(name, extensions, cs) is Some {
        let segs = split_comma(extensions);
        lemma_first_ext_some(name, segs, cs, 0);
    }
}

/// Checks whether `name` ends with one of the comma-separated extensions,
/// in list order; reports a single range covering the matched suffix of the
/// case-folded name.
pub fn match_extension(name: &str, extensions: &str, case_sensitive: bool) -> (r: Option<
    Vec<(usize, usize)>,
>)
    ensures
        ({
            let er = extension_range(name@, extensions@, case_sensitive);
            &&& (r is Some <==> er is Some)
            &&& (r matches Some(v) ==> er matches Some(p) && v@.len() == 1 && v@[0].0 == p.0
                && v@[0].1 == p.1)
        }),
{
    let name_f = if case_sensitive {
        str_chars(name)
    } else {
        lower_chars(name)
    };
    let ext_chars = str_chars(extensions);
    let segs = split_comma_chars(&ext_chars);
    let count = segs.len();
    let mut e: usize = 0;
    while e < count
        invariant
            count == segs.len(),
            segs.deep_view() == split_comma(extensions@),
            name_f@ == fold_case(case_sensitive, name@),
            0 <= e <= count,
            forall|j: int|
                0 <= j < e ==> !ext_matches(name@, #[trigger] segs.deep_view()[j], case_sensitive),
        decreases count - e,
    {
        let trimmed = trim_chars(&segs[e]);
        let mut norm: Vec<char>;
        if trimmed.len() > 0 && trimmed[0] == '.' {
            norm = trimmed;
        } else {
            norm = Vec::new();
            norm.push('.');
            let mut t: usize = 0;
            let tn = trimmed.len();
            while t < tn
                invariant
                    tn == trimmed.len(),
                    0 <= t <= tn,
                    norm@ == seq!['.'] + trimmed@.subrange(0, t as int),
                decreases tn - t,
            {
                norm.push(trimmed[t]);
                proof {
                    assert(trimmed@.subrange(0, t + 1) == trimmed@.subrange(0, t as int).push(
                        trimmed@[t as int],
                    ));
                    assert(seq!['.'] + trimmed@.subrange(0, t + 1) == (seq!['.']
                        + trimmed@.subrange(0, t as int)).push(trimmed@[t as int]));
                }
                t += 1;
            }
            proof {
                assert(trimmed@.subrange(0, tn as int) == trimmed@);
            }
        }
        proof {
            assert(segs[e as int].deep_view() =~= segs[e as int]@);
            assert(segs.deep_view()[e as int] == segs[e as int]@);
            assert(norm@ == normalize_ext(trim_spec(segs.deep_view()[e as int])));
        }
        let ext_check = if case_sensitive {
            norm
        } else {
            let norm_str = chars_to_string(&norm);
            lower_chars(&norm_str)
        };
        proof {
            assert(ext_check@ == folded_ext(segs.deep_view()[e as int], case_sensitive));
        }
        if chars_end_with(&name_f, &ext_check) {
            proof {
                assert(ext_matches(name@, segs.deep_view()[e as int], case_sensitive));
                lemma_first_ext_found(
                    name@,
                    segs.deep_view(),
                    case_sensitive,
                    e as int,
                );
            }
            let start = name_f.len() - ext_check.len();
            let stop = name_f.len();
            let v = vec![(start, stop)];
            return Some(v);
        }
        e += 1;
    }
    proof {
        lemma_first_ext_none(name@, segs.deep_view(), case_sensitive, 0);
    }
    None
}

// ==================== Regular-expression matching ====================

/// Whether the regex engine accepts `pat` as a valid pattern.
pub uninterp spec fn regex_ok(pat: Seq<char>) -> bool;

/// The byte ranges of the successive non-overlapping matches that the
/// compiled pattern `pat` finds in `text`.
pub uninterp spec fn regex_ranges(pat: Seq<char>, text: Seq<char>) -> Seq<(usize, usize)>;

/// Relies on regex::Regex::new and regex::Regex::find_iter: compilation
/// succeeds exactly on valid patterns (a function of the pattern alone), and
/// `find_iter` yields the byte ranges of successive non-overlapping matches,
/// a function of the pattern and the haystack alone.
#[verifier::external_body]
fn regex_find_ranges(pattern: &str, text: &str) -> (r: Result<Vec<(usize, usize)>, String>)
    ensures
        r is Ok <==> regex_ok(pattern@),
        r matches Ok(v) ==> v@ == regex_ranges(pattern@, text@),
{
    match regex::Regex::new(pattern) {
        Ok(re) => Ok(re.find_iter(text).map(|m| (m.start(), m.end())).collect()),
        Err(e) => Err(e.to_string()),
    }
}

/// The pattern handed to the regex engine: unchanged when case-sensitive,
/// otherwise prefixed with the case-insensitivity flag.
pub open spec fn effective_pattern(cs: bool, pat: Seq<char>) -> Seq<char> {
    if cs {
        pat
    } else {
        seq!['(', '?', 'i', ')'] + pat
    }
}

/// Builds the pattern string handed to the regex engine.
pub fn build_effective_pattern(pattern: &str, case_sensitive: bool) -> (r: String)
    ensures
        r@ == effective_pattern(case_sensitive, pattern@),
{
    if case_sensitive {
        pattern.to_owned()
    } else {
        proof {
            reveal_strlit("(?i)");
        }
        let prefix = <String as vstd::string::StringExecFns>::from_str("(?i)");
        <String as vstd::string::StringExecFns>::concat(prefix, pattern)
    }
}

/// Finds all matches of the regex `pattern` in `name`. Fails exactly when
/// the (possibly case-insensitivity-prefixed) pattern does not compile;
/// returns `None` when the pattern compiles but nothing matches.
pub fn match_regex(name: &str, pattern: &str, case_sensitive: bool) -> (r: Result<
    Option<Vec<(usize, usize)>>,
    String,
>)
    ensures
        ({
            let ep = effective_pattern(case_sensitive, pattern@);
            &&& (r is Ok <==> regex_ok(ep))
            &&& (r matches Ok(o) ==> {
                let rs = regex_ranges(ep, name@);
                (o is Some <==> rs.len() > 0) && (o matches Some(v) ==> v@ == rs)
            })
        }),
{
    let ep = build_effective_pattern(pattern, case_sensitive);
    match regex_find_ranges(ep.as_str(), name) {
        Ok(v) => {
            if v.len() == 0 {
                Ok(None)
            } else {
                Ok(Some(v))
            }
        },
        Err(e) => Err(e),
    }
}

} // verus!
