//! Character-diff and regex-highlight utilities: computing a chunked diff
//! of two strings, and segmenting a string around the capture groups of a
//! regular expression.

use vstd::prelude::*;
use vstd::string::StringSliceAdditionalSpecFns;

use crate::matching::regex_ok;

verus! {

// ==================== Diff ====================

/// Type of change in a diff segment.
#[derive(Debug, Clone, Copy, PartialEq, Eq, Structural)]
pub enum DiffSegmentType {
    Added,
    Removed,
    Unchanged,
}

/// A run of text together with its diff classification.
#[derive(Debug, Clone, PartialEq)]
pub struct DiffSegment {
    pub segment_type: DiffSegmentType,
    pub text: String,
}

/// The first input, reassembled from a diff: the concatenation of every
/// segment that is not an insertion.
pub open spec fn diff_left_text(s: Seq<DiffSegment>) -> Seq<char>
    decreases s.len(),
{
    if s.len() == 0 {
        Seq::empty()
    } else {
        (if s.first().segment_type is Added {
            Seq::<char>::empty()
        } else {
            s.first().text@
        }) + diff_left_text(s.drop_first())
    }
}

/// The second input, reassembled from a diff: the concatenation of every
/// segment that is not a deletion.
pub open spec fn diff_right_text(s: Seq<DiffSegment>) -> Seq<char>
    decreases s.len(),
{
    if s.len() == 0 {
        Seq::empty()
    } else {
        (if s.first().segment_type is Removed {
            Seq::<char>::empty()
        } else {
            s.first().text@
        }) + diff_right_text(s.drop_first())
    }
}

/// Relies on dissimilar::diff: the chunks partition both inputs — the Equal
/// and Delete chunks concatenate to the first string, and the Equal and
/// Insert chunks to the second. The body only relabels each chunk kind.
#[verifier::external_body]
fn diff_chunks(original: &str, modified: &str) -> (r: Vec<DiffSegment>)
    ensures
        diff_left_text(r@) == original@,
        diff_right_text(r@) == modified@,
{
    dissimilar::diff(original, modified).into_iter().map(
        |chunk| {
            let (segment_type, s) = match chunk {
                dissimilar::Chunk::Equal(s) => (DiffSegmentType::Unchanged, s),
                dissimilar::Chunk::Delete(s) => (DiffSegmentType::Removed, s),
                dissimilar::Chunk::Insert(s) => (DiffSegmentType::Added, s),
            };
            DiffSegment { segment_type, text: s.to_string() }
        },
    ).collect()
}

/// Computes a character-level diff between two strings. The returned
/// segments reassemble `original` (ignoring additions) and `modified`
/// (ignoring removals).
pub fn compute_diff(original: &str, modified: &str) -> (r: Vec<DiffSegment>)
    ensures
        diff_left_text(r@) == original@,
        diff_right_text(r@) == modified@,
{
    diff_chunks(original, modified)
}

// ==================== Regex highlights ====================

/// Segment of text for regex highlighting: plain text, or the text of one
/// capture group (id 0 is the whole match).
#[derive(Debug, Clone, PartialEq)]
pub enum RegexSegment {
    /// Text that is not part of any highlighted group.
    Text(String),
    /// Highlighted group text.
    Group { id: usize, text: String },
}

/// Ghost model of a highlight segment.
pub struct SegModel {
    pub group: Option<usize>,
    pub text: Seq<char>,
}

impl View for RegexSegment {
    type V = SegModel;

    open spec fn view(&self) -> SegModel {
        match self {
            RegexSegment::Text(s) => SegModel { group: None, text: s@ },
            RegexSegment::Group { id, text } => SegModel { group: Some(*id), text: text@ },
        }
    }
}

/// The models of a sequence of highlight segments.
pub open spec fn seg_models(s: Seq<RegexSegment>) -> Seq<SegModel> {
    s.map_values(|x: RegexSegment| x@)
}

/// The characters that lossy UTF-8 decoding produces for `b`.
pub uninterp spec fn string_of_bytes(b: Seq<u8>) -> Seq<char>;

/// Relies on String::from_utf8_lossy: the decoded characters are a function
/// of the selected bytes alone.
#[verifier::external_body]
fn bytes_to_string(b: &[u8], start: usize, end: usize) -> (r: String)
    requires
        start <= end <= b@.len(),
    ensures
        r@ == string_of_bytes(b@.subrange(start as int, end as int)),
{
    String::from_utf8_lossy(&b[start..end]).into_owned()
}

/// For each successive match of the compiled pattern `pat` in `text`: the
/// byte range of every capture group (index 0 the whole match), or `None`
/// for a group that did not participate.
pub uninterp spec fn regex_caps(pat: Seq<char>, text: Seq<char>) -> Seq<Seq<Option<(usize, usize)>>>;

/// The capture ranges are structurally sound: every capture has a group 0,
/// and every reported range lies within the haystack with start at or
/// before end.
pub open spec fn caps_wf(caps: Seq<Seq<Option<(usize, usize)>>>, blen: int) -> bool {
    forall|k: int|
        0 <= k < caps.len() ==> {
            let c = #[trigger] caps[k];
            &&& c.len() >= 1
            &&& c[0] is Some
            &&& (forall|i: int|
                0 <= i < c.len() ==> (#[trigger] c[i] matches Some(g) ==> g.0 <= g.1 <= blen))
        }
}

/// Successive matches come in order without overlapping — each match's
/// start lies at or after the previous match's end — and every capture
/// group's range lies within its match's overall range.
pub open spec fn caps_ordered(caps: Seq<Seq<Option<(usize, usize)>>>) -> bool {
    &&& (forall|k: int|
        0 < k < caps.len() ==> (#[trigger] caps[k])[0]->Some_0.0 >= caps[k - 1][0]->Some_0.1)
    &&& (forall|k: int, i: int|
        0 <= k < caps.len() && 0 <= i < caps[k].len() ==> ((#[trigger] caps[k][i]) matches Some(g)
            ==> caps[k][0]->Some_0.0 <= g.0 && g.1 <= caps[k][0]->Some_0.1))
}

/// Relies on regex::Regex::new and regex::Regex::captures_iter: compilation
/// succeeds exactly on valid patterns; the captures of the successive
/// non-overlapping matches are a function of the pattern and haystack
/// alone; group 0 of each match is always present; the matches come in
/// order without overlapping; every group's byte range lies within the
/// haystack — and within its own match's span — with start <= end.
#[verifier::external_body]
fn regex_capture_ranges(pattern: &str, text: &str) -> (r: Result<
    Vec<Vec<Option<(usize, usize)>>>,
    String,
>)
    ensures
        r is Ok <==> regex_ok(pattern@),
        r matches Ok(v) ==> {
            &&& v@.len() == regex_caps(pattern@, text@).len()
            &&& (forall|k: int|
                0 <= k < v@.len() ==> (#[trigger] v@[k])@ == regex_caps(pattern@, text@)[k])
            &&& caps_wf(regex_caps(pattern@, text@), text.spec_bytes().len() as int)
            &&& caps_ordered(regex_caps(pattern@, text@))
        },
{
    match regex::Regex::new(pattern) {
        Ok(re) => Ok(
            re.captures_iter(text).map(
                |cap| (0..cap.len()).map(|i| cap.get(i).map(|g| (g.start(), g.end()))).collect(),
            ).collect(),
        ),
        Err(e) => Err(e.to_string()),
    }
}

/// A plain-text segment covering `bytes[a..b]`.
pub open spec fn text_seg(bytes: Seq<u8>, a: int, b: int) -> SegModel {
    SegModel { group: None, text: string_of_bytes(bytes.subrange(a, b)) }
}

/// A group segment with id `id` covering `bytes[a..b]`.
pub open spec fn group_seg(bytes: Seq<u8>, id: int, a: int, b: int) -> SegModel {
    SegModel { group: Some(id as usize), text: string_of_bytes(bytes.subrange(a, b)) }
}

/// The segments produced inside one match from its capture groups `1..`,
/// starting at group `i` with text consumed up to `inner_last`: groups that
/// are absent or would step back over already-consumed text are skipped;
/// gaps between groups, and the tail of the match after the last group,
/// become plain text.
pub open spec fn group_segs(
    c: Seq<Option<(usize, usize)>>,
    bytes: Seq<u8>,
    i: int,
    inner_last: int,
    wend: int,
) -> Seq<SegModel>
    decreases c.len() - i,
{
    if i < 0 || i >= c.len() {
        if inner_last < wend {
            seq![text_seg(bytes, inner_last, wend)]
        } else {
            Seq::empty()
        }
    } else {
        match c[i] {
            None => group_segs(c, bytes, i + 1, inner_last, wend),
            Some(g) => {
                if g.0 < inner_last {
                    group_segs(c, bytes, i + 1, inner_last, wend)
                } else {
                    (if g.0 > inner_last {
                        seq![text_seg(bytes, inner_last, g.0 as int)]
                    } else {
                        Seq::empty()
                    }) + seq![group_seg(bytes, i, g.0 as int, g.1 as int)] + group_segs(
                        c,
                        bytes,
                        i + 1,
                        g.1 as int,
                        wend,
                    )
                }
            },
        }
    }
}

/// The segments produced from match `k` on, with text consumed up to
/// `last`: text before each match becomes a plain segment; a match with
/// explicit capture groups contributes its group segments, one without is
/// highlighted whole as group 0; text after the final match becomes a
/// closing plain segment.
pub open spec fn segs_from(
    caps: Seq<Seq<Option<(usize, usize)>>>,
    bytes: Seq<u8>,
    k: int,
    last: int,
) -> Seq<SegModel>
    decreases caps.len() - k,
{
    if k < 0 || k >= caps.len() {
        if last < bytes.len() {
            seq![text_seg(bytes, last, bytes.len() as int)]
        } else {
            Seq::empty()
        }
    } else {
        let c = caps[k];
        let w = c[0]->Some_0;
        (if w.0 > last {
            seq![text_seg(bytes, last, w.0 as int)]
        } else {
            Seq::empty()
        }) + (if c.len() > 1 {
            group_segs(c, bytes, 1, w.0 as int, w.1 as int)
        } else {
            seq![group_seg(bytes, 0, w.0 as int, w.1 as int)]
        }) + segs_from(caps, bytes, k + 1, w.1 as int)
    }
}

/// The full segmentation of a haystack by a pattern's captures.
pub open spec fn highlight_segments(
    caps: Seq<Seq<Option<(usize, usize)>>>,
    bytes: Seq<u8>,
) -> Seq<SegModel> {
    segs_from(caps, bytes, 0, 0)
}

// The reassembly guarantee: the segmentation neither loses nor duplicates
// any part of the haystack. Each segment's text decodes one byte slice of
// the input, and those slices — mirrored below, structurally parallel to
// the segment specs — concatenate, in order, back to the input's bytes.

/// The byte slices the group segments of one match draw on, in order
/// (structurally parallel to `group_segs`).
pub open spec fn group_srcs(
    c: Seq<Option<(usize, usize)>>,
    bytes: Seq<u8>,
    i: int,
    inner_last: int,
    wend: int,
) -> Seq<Seq<u8>>
    decreases c.len() - i,
{
    if i < 0 || i >= c.len() {
        if inner_last < wend {
            seq![bytes.subrange(inner_last, wend)]
        } else {
            Seq::empty()
        }
    } else {
        match c[i] {
            None => group_srcs(c, bytes, i + 1, inner_last, wend),
            Some(g) => {
                if g.0 < inner_last {
                    group_srcs(c, bytes, i + 1, inner_last, wend)
                } else {
                    (if g.0 > inner_last {
                        seq![bytes.subrange(inner_last, g.0 as int)]
                    } else {
                        Seq::empty()
                    }) + seq![bytes.subrange(g.0 as int, g.1 as int)] + group_srcs(
                        c,
                        bytes,
                        i + 1,
                        g.1 as int,
                        wend,
                    )
                }
            },
        }
    }
}

/// The byte slices the segmentation draws on from match `k` on, in order
/// (structurally parallel to `segs_from`).
pub open spec fn srcs_from(
    caps: Seq<Seq<Option<(usize, usize)>>>,
    bytes: Seq<u8>,
    k: int,
    last: int,
) -> Seq<Seq<u8>>
    decreases caps.len() - k,
{
    if k < 0 || k >= caps.len() {
        if last < bytes.len() {
            seq![bytes.subrange(last, bytes.len() as int)]
        } else {
            Seq::empty()
        }
    } else {
        let c = caps[k];
        let w = c[0]->Some_0;
        (if w.0 > last {
            seq![bytes.subrange(last, w.0 as int)]
        } else {
            Seq::empty()
        }) + (if c.len() > 1 {
            group_srcs(c, bytes, 1, w.0 as int, w.1 as int)
        } else {
            seq![bytes.subrange(w.0 as int, w.1 as int)]
        }) + srcs_from(caps, bytes, k + 1, w.1 as int)
    }
}

/// The byte slice each segment of the full segmentation draws on.
pub open spec fn highlight_sources(
    caps: Seq<Seq<Option<(usize, usize)>>>,
    bytes: Seq<u8>,
) -> Seq<Seq<u8>> {
    srcs_from(caps, bytes, 0, 0)
}

/// The concatenation of a sequence of byte slices.
pub open spec fn concat_slices(ss: Seq<Seq<u8>>) -> Seq<u8>
    decreases ss.len(),
{
    if ss.len() == 0 {
        Seq::empty()
    } else {
        ss.first() + concat_slices(ss.drop_first())
    }
}

proof fn lemma_concat_slices_singleton(x: Seq<u8>)
    ensures
        concat_slices(seq![x]) == x,
{
    assert(seq![x].drop_first() =~= Seq::<Seq<u8>>::empty());
    assert(concat_slices(seq![x].drop_first()) == Seq::<u8>::empty());
    assert(concat_slices(seq![x]) =~= x);
}

proof fn lemma_concat_slices_append(a: Seq<Seq<u8>>, b: Seq<Seq<u8>>)
    ensures
        concat_slices(a + b) == concat_slices(a) + concat_slices(b),
    decreases a.len(),
{
    if a.len() == 0 {
        assert(a + b =~= b);
        assert(concat_slices(a) + concat_slices(b) =~= concat_slices(b));
    } else {
        assert((a + b).drop_first() =~= a.drop_first() + b);
        assert((a + b).first() == a.first());
        lemma_concat_slices_append(a.drop_first(), b);
        assert(concat_slices(a + b) =~= concat_slices(a) + concat_slices(b));
    }
}

proof fn lemma_group_link(
    c: Seq<Option<(usize, usize)>>,
    bytes: Seq<u8>,
    i: int,
    inner_last: int,
    wend: int,
)
    ensures
        group_segs(c, bytes, i, inner_last, wend).len() == group_srcs(
            c,
            bytes,
            i,
            inner_last,
            wend,
        ).len(),
        forall|t: int|
            0 <= t < group_segs(c, bytes, i, inner_last, wend).len() ==> (
            #[trigger] group_segs(c, bytes, i, inner_last, wend)[t]).text == string_of_bytes(
                group_srcs(c, bytes, i, inner_last, wend)[t],
            ),
    decreases c.len() - i,
{
    let segs = group_segs(c, bytes, i, inner_last, wend);
    let srcs = group_srcs(c, bytes, i, inner_last, wend);
    if !(i < 0 || i >= c.len()) {
        match c[i] {
            None => {
                lemma_group_link(c, bytes, i + 1, inner_last, wend);
            },
            Some(g) => {
                if g.0 < inner_last {
                    lemma_group_link(c, bytes, i + 1, inner_last, wend);
                } else {
                    lemma_group_link(c, bytes, i + 1, g.1 as int, wend);
                    let rsegs = group_segs(c, bytes, i + 1, g.1 as int, wend);
                    let rsrcs = group_srcs(c, bytes, i + 1, g.1 as int, wend);
                    let pl: int = if g.0 > inner_last {
                        1int
                    } else {
                        0int
                    };
                    assert forall|t: int| 0 <= t < segs.len() implies (#[trigger] segs[t]).text
                        == string_of_bytes(srcs[t]) by {
                        if t < pl {
                            assert(segs[t] == text_seg(bytes, inner_last, g.0 as int));
                            assert(srcs[t] == bytes.subrange(inner_last, g.0 as int));
                        } else if t == pl {
                            assert(segs[t] == group_seg(bytes, i, g.0 as int, g.1 as int));
                            assert(srcs[t] == bytes.subrange(g.0 as int, g.1 as int));
                        } else {
                            assert(segs[t] == rsegs[t - pl - 1]);
                            assert(srcs[t] == rsrcs[t - pl - 1]);
                        }
                    }
                }
            },
        }
    }
}

proof fn lemma_segs_link(caps: Seq<Seq<Option<(usize, usize)>>>, bytes: Seq<u8>, k: int, last: int)
    ensures
        segs_from(caps, bytes, k, last).len() == srcs_from(caps, bytes, k, last).len(),
        forall|t: int|
            0 <= t < segs_from(caps, bytes, k, last).len() ==> (#[trigger] segs_from(
                caps,
                bytes,
                k,
                last,
            )[t]).text == string_of_bytes(srcs_from(caps, bytes, k, last)[t]),
    decreases caps.len() - k,
{
    let segs = segs_from(caps, bytes, k, last);
    let srcs = srcs_from(caps, bytes, k, last);
    if !(k < 0 || k >= caps.len()) {
        let c = caps[k];
        let w = c[0]->Some_0;
        lemma_segs_link(caps, bytes, k + 1, w.1 as int);
        let rsegs = segs_from(caps, bytes, k + 1, w.1 as int);
        let rsrcs = srcs_from(caps, bytes, k + 1, w.1 as int);
        let pl: int = if w.0 > last {
            1int
        } else {
            0int
        };
        if c.len() > 1 {
            lemma_group_link(c, bytes, 1, w.0 as int, w.1 as int);
            let gsegs = group_segs(c, bytes, 1, w.0 as int, w.1 as int);
            let gsrcs = group_srcs(c, bytes, 1, w.0 as int, w.1 as int);
            assert forall|t: int| 0 <= t < segs.len() implies (#[trigger] segs[t]).text
                == string_of_bytes(srcs[t]) by {
                if t < pl {
                    assert(segs[t] == text_seg(bytes, last, w.0 as int));
                    assert(srcs[t] == bytes.subrange(last, w.0 as int));
                } else if t < pl + gsegs.len() {
                    assert(segs[t] == gsegs[t - pl]);
                    assert(srcs[t] == gsrcs[t - pl]);
                } else {
                    assert(segs[t] == rsegs[t - pl - gsegs.len()]);
                    assert(srcs[t] == rsrcs[t - pl - gsegs.len()]);
                }
            }
        } else {
            assert forall|t: int| 0 <= t < segs.len() implies (#[trigger] segs[t]).text
                == string_of_bytes(srcs[t]) by {
                if t < pl {
                    assert(segs[t] == text_seg(bytes, last, w.0 as int));
                    assert(srcs[t] == bytes.subrange(last, w.0 as int));
                } else if t == pl {
                    assert(segs[t] == group_seg(bytes, 0, w.0 as int, w.1 as int));
                    assert(srcs[t] == bytes.subrange(w.0 as int, w.1 as int));
                } else {
                    assert(segs[t] == rsegs[t - pl - 1]);
                    assert(srcs[t] == rsrcs[t - pl - 1]);
                }
            }
        }
    }
}

proof fn lemma_group_srcs_concat(
    c: Seq<Option<(usize, usize)>>,
    bytes: Seq<u8>,
    i: int,
    inner_last: int,
    wend: int,
)
    requires
        0 <= i,
        0 <= inner_last <= wend <= bytes.len(),
        forall|j: int|
            i <= j < c.len() ==> ((#[trigger] c[j]) matches Some(g) ==> g.0 <= g.1 <= wend),
    ensures
        concat_slices(group_srcs(c, bytes, i, inner_last, wend)) == bytes.subrange(
            inner_last,
            wend,
        ),
    decreases c.len() - i,
{
    if i >= c.len() {
        if inner_last < wend {
            lemma_concat_slices_singleton(bytes.subrange(inner_last, wend));
        } else {
            assert(bytes.subrange(inner_last, wend) =~= Seq::<u8>::empty());
        }
    } else {
        match c[i] {
            None => {
                lemma_group_srcs_concat(c, bytes, i + 1, inner_last, wend);
            },
            Some(g) => {
                if g.0 < inner_last {
                    lemma_group_srcs_concat(c, bytes, i + 1, inner_last, wend);
                } else {
                    assert(g.0 <= g.1 <= wend);
                    lemma_group_srcs_concat(c, bytes, i + 1, g.1 as int, wend);
                    let pre: Seq<Seq<u8>> = if g.0 > inner_last {
                        seq![bytes.subrange(inner_last, g.0 as int)]
                    } else {
                        Seq::empty()
                    };
                    let mid: Seq<Seq<u8>> = seq![bytes.subrange(g.0 as int, g.1 as int)];
                    let rest = group_srcs(c, bytes, i + 1, g.1 as int, wend);
                    lemma_concat_slices_append(pre + mid, rest);
                    lemma_concat_slices_append(pre, mid);
                    lemma_concat_slices_singleton(bytes.subrange(g.0 as int, g.1 as int));
                    if g.0 > inner_last {
                        lemma_concat_slices_singleton(bytes.subrange(inner_last, g.0 as int));
                    } else {
                        assert(concat_slices(pre) =~= Seq::<u8>::empty());
                    }
                    assert(concat_slices(group_srcs(c, bytes, i, inner_last, wend))
                        =~= bytes.subrange(inner_last, wend));
                }
            },
        }
    }
}

proof fn lemma_srcs_from_concat(
    caps: Seq<Seq<Option<(usize, usize)>>>,
    bytes: Seq<u8>,
    k: int,
    last: int,
)
    requires
        caps_wf(caps, bytes.len() as int),
        caps_ordered(caps),
        0 <= k,
        0 <= last <= bytes.len(),
        k < caps.len() ==> last <= caps[k][0]->Some_0.0,
    ensures
        concat_slices(srcs_from(caps, bytes, k, last)) == bytes.subrange(
            last,
            bytes.len() as int,
        ),
    decreases caps.len() - k,
{
    if k >= caps.len() {
        if last < bytes.len() {
            lemma_concat_slices_singleton(bytes.subrange(last, bytes.len() as int));
        } else {
            assert(bytes.subrange(last, bytes.len() as int) =~= Seq::<u8>::empty());
        }
    } else {
        let c = caps[k];
        let w = c[0]->Some_0;
        assert(c[0] matches Some(g) && g.0 <= g.1 <= bytes.len());
        assert(last <= w.0 && w.0 <= w.1 <= bytes.len());
        let pre: Seq<Seq<u8>> = if w.0 > last {
            seq![bytes.subrange(last, w.0 as int)]
        } else {
            Seq::empty()
        };
        let body: Seq<Seq<u8>> = if c.len() > 1 {
            group_srcs(c, bytes, 1, w.0 as int, w.1 as int)
        } else {
            seq![bytes.subrange(w.0 as int, w.1 as int)]
        };
        if c.len() > 1 {
            assert forall|j: int| 1 <= j < c.len() implies ((#[trigger] c[j]) matches Some(g)
                ==> g.0 <= g.1 <= w.1) by {
                if c[j] is Some {
                    assert(caps[k][j] matches Some(g) ==> caps[k][0]->Some_0.0 <= g.0 && g.1
                        <= caps[k][0]->Some_0.1);
                }
            }
            lemma_group_srcs_concat(c, bytes, 1, w.0 as int, w.1 as int);
        } else {
            lemma_concat_slices_singleton(bytes.subrange(w.0 as int, w.1 as int));
        }
        if k + 1 < caps.len() {
            assert(caps[k + 1][0]->Some_0.0 >= caps[k][0]->Some_0.1);
        }
        lemma_srcs_from_concat(caps, bytes, k + 1, w.1 as int);
        let rest = srcs_from(caps, bytes, k + 1, w.1 as int);
        lemma_concat_slices_append(pre + body, rest);
        lemma_concat_slices_append(pre, body);
        if w.0 > last {
            lemma_concat_slices_singleton(bytes.subrange(last, w.0 as int));
        } else {
            assert(concat_slices(pre) =~= Seq::<u8>::empty());
        }
        assert(concat_slices(srcs_from(caps, bytes, k, last)) =~= bytes.subrange(
            last,
            bytes.len() as int,
        ));
    }
}

/// The reassembly law: for well-formed, ordered captures, the segmentation
/// loses and duplicates nothing. Each segment's text is the decoding of its
/// own byte slice, and those slices concatenate, in order, to exactly the
/// haystack's bytes. The trusted capture wrapper supplies both hypotheses
/// for every compiled pattern.
pub proof fn lemma_highlights_partition_input(
    caps: Seq<Seq<Option<(usize, usize)>>>,
    bytes: Seq<u8>,
)
    requires
        caps_wf(caps, bytes.len() as int),
        caps_ordered(caps),
    ensures
        highlight_segments(caps, bytes).len() == highlight_sources(caps, bytes).len(),
        forall|t: int|
            0 <= t < highlight_segments(caps, bytes).len() ==> (#[trigger] highlight_segments(
                caps,
                bytes,
            )[t]).text == string_of_bytes(highlight_sources(caps, bytes)[t]),
        concat_slices(highlight_sources(caps, bytes)) == bytes,
{
    lemma_segs_link(caps, bytes, 0, 0);
    lemma_srcs_from_concat(caps, bytes, 0, 0);
    assert(bytes.subrange(0, bytes.len() as int) =~= bytes);
}

proof fn lemma_seg_models_push(pre: Seq<RegexSegment>, post: Seq<RegexSegment>)
    requires
        post == pre.push(post.last()),
        post.len() == pre.len() + 1,
    ensures
        seg_models(post) == seg_models(pre).push(post.last()@),
{
    assert forall|i: int| 0 <= i < post.len() implies seg_models(post)[i] == seg_models(pre).push(
        post.last()@,
    )[i] by {
        if i < pre.len() {
            assert(post[i] == pre[i]);
        }
    }
    assert(seg_models(post) =~= seg_models(pre).push(post.last()@));
}

/// Returns the fully segmented haystack with every regex match highlighted:
/// non-matching text as plain segments, and each capture group (or, when
/// the pattern has none, the whole match) as a group segment. Fails exactly
/// when the pattern does not compile. The segments cover the whole haystack
/// with nothing lost or duplicated: [`lemma_highlights_partition_input`]
/// derives this from the capture wrapper's ordering guarantees.
pub fn get_regex_highlights(text: &str, pattern: &str) -> (r: Result<Vec<RegexSegment>, String>)
    ensures
        r is Ok <==> regex_ok(pattern@),
        r matches Ok(v) ==> seg_models(v@) == highlight_segments(
            regex_caps(pattern@, text@),
            text.spec_bytes(),
        ),
{
    let caps = match regex_capture_ranges(pattern, text) {
        Ok(c) => c,
        Err(e) => {
            return Err(e);
        },
    };
    let ghost cv = regex_caps(pattern@, text@);
    let bytes = text.as_bytes();
    let blen = bytes.len();
    let total = caps.len();
    let mut out: Vec<RegexSegment> = Vec::new();
    let mut last: usize = 0;
    let mut k: usize = 0;
    proof {
        assert(seg_models(out@) =~= Seq::<SegModel>::empty());
    }
    while k < total
        invariant
            total == caps@.len(),
            cv == regex_caps(pattern@, text@),
            caps@.len() == cv.len(),
            forall|t: int| 0 <= t < caps@.len() ==> (#[trigger] caps@[t])@ == cv[t],
            caps_wf(cv, blen as int),
            bytes@ == text.spec_bytes(),
            blen == bytes@.len(),
            0 <= k <= total,
            last <= blen,
            seg_models(out@) + segs_from(cv, bytes@, k as int, last as int) == segs_from(
                cv,
                bytes@,
                0,
                0,
            ),
        decreases total - k,
    {
        let c = &caps[k];
        proof {
            assert(c@ == cv[k as int]);
        }
        let w = match c[0] {
            Some(w) => w,
            None => {
                proof {
                    assert(cv[k as int][0] is Some);
                    assert(false);
                }
                (0, 0)
            },
        };
        let ghost entry_suffix = segs_from(cv, bytes@, k as int, last as int);
        // Text before the match.
        if w.0 > last {
            let ghost pre = out@;
            out.push(RegexSegment::Text(bytes_to_string(bytes, last, w.0)));
            proof {
                lemma_seg_models_push(pre, out@);
                assert(out@.last()@ == text_seg(bytes@, last as int, w.0 as int));
            }
        }
        let clen = c.len();
        if clen > 1 {
            // Explicit capture groups: highlight each in turn.
            let mut inner_last: usize = w.0;
            let mut i: usize = 1;
            while i < clen
                invariant
                    total == caps@.len(),
                    cv == regex_caps(pattern@, text@),
                    caps@.len() == cv.len(),
                    forall|t: int| 0 <= t < caps@.len() ==> (#[trigger] caps@[t])@ == cv[t],
                    caps_wf(cv, blen as int),
                    bytes@ == text.spec_bytes(),
                    blen == bytes@.len(),
                    0 <= k < total,
                    c@ == cv[k as int],
                    clen == c@.len(),
                    clen > 1,
                    w == cv[k as int][0]->Some_0,
                    1 <= i <= clen,
                    inner_last <= blen,
                    seg_models(out@) + group_segs(
                        cv[k as int],
                        bytes@,
                        i as int,
                        inner_last as int,
                        w.1 as int,
                    ) + segs_from(cv, bytes@, k + 1, w.1 as int) == segs_from(cv, bytes@, 0, 0),
                decreases clen - i,
            {
                match c[i] {
                    Some(g) => {
                        if g.0 >= inner_last {
                            if g.0 > inner_last {
                                let ghost pre = out@;
                                out.push(
                                    RegexSegment::Text(bytes_to_string(bytes, inner_last, g.0)),
                                );
                                proof {
                                    lemma_seg_models_push(pre, out@);
                                    assert(out@.last()@ == text_seg(
                                        bytes@,
                                        inner_last as int,
                                        g.0 as int,
                                    ));
                                }
                            }
                            let ghost pre = out@;
                            out.push(
                                RegexSegment::Group { id: i, text: bytes_to_string(bytes, g.0, g.1) },
                            );
                            proof {
                                lemma_seg_models_push(pre, out@);
                                assert(out@.last()@ == group_seg(
                                    bytes@,
                                    i as int,
                                    g.0 as int,
                                    g.1 as int,
                                ));
                            }
                            inner_last = g.1;
                        }
                    },
                    None => {},
                }
                i += 1;
            }
            // Remaining text inside the whole match, after all groups.
            if inner_last < w.1 {
                let ghost pre = out@;
                out.push(RegexSegment::Text(bytes_to_string(bytes, inner_last, w.1)));
                proof {
                    lemma_seg_models_push(pre, out@);
                    assert(out@.last()@ == text_seg(bytes@, inner_last as int, w.1 as int));
                }
            }
        } else {
            // No capture groups: the whole match is group 0.
            let ghost pre = out@;
            out.push(RegexSegment::Group { id: 0, text: bytes_to_string(bytes, w.0, w.1) });
            proof {
                lemma_seg_models_push(pre, out@);
                assert(out@.last()@ == group_seg(bytes@, 0, w.0 as int, w.1 as int));
            }
        }
        last = w.1;
        k += 1;
    }
    // Text after the final match.
    if last < blen {
        let ghost pre = out@;
        out.push(RegexSegment::Text(bytes_to_string(bytes, last, blen)));
        proof {
            lemma_seg_models_push(pre, out@);
            assert(out@.last()@ == text_seg(bytes@, last as int, blen as int));
            assert(segs_from(cv, bytes@, k as int, last as int) == seq![
                text_seg(bytes@, last as int, blen as int),
            ]);
            assert(seg_models(out@) =~= seg_models(pre) + segs_from(
                cv,
                bytes@,
                k as int,
                last as int,
            ));
        }
    } else {
        proof {
            assert(segs_from(cv, bytes@, k as int, last as int) =~= Seq::<SegModel>::empty());
            assert(seg_models(out@) + segs_from(cv, bytes@, k as int, last as int) =~= seg_models(
                out@,
            ));
        }
    }
    proof {
        assert(seg_models(out@) =~= highlight_segments(cv, bytes@));
    }
    Ok(out)
}

// ==================== Capture-group detection ====================

/// The number of capture groups of the compiled pattern, counting the
/// implicit whole-match group 0.
pub uninterp spec fn regex_group_count(pat: Seq<char>) -> nat;

/// Relies on regex::Regex::new and regex::Regex::captures_len: the group
/// count of a compiled pattern is a function of the pattern alone, and is
/// at least 1 (the implicit whole-match group).
#[verifier::external_body]
fn regex_captures_len(pattern: &str) -> (r: Option<usize>)
    ensures
        r is Some <==> regex_ok(pattern@),
        r matches Some(n) ==> n == regex_group_count(pattern@) && n >= 1,
{
    match regex::Regex::new(pattern) {
        Ok(re) => Some(re.captures_len()),
        Err(_) => None,
    }
}

/// Whether the pattern contains at least one explicit capture group.
/// Returns `false` for an invalid pattern.
pub fn has_capture_groups(pattern: &str) -> (r: bool)
    ensures
        r == (regex_ok(pattern@) && regex_group_count(pattern@) > 1),
{
    match regex_captures_len(pattern) {
        Some(n) => n > 1,
        None => false,
    }
}

} // verus!
