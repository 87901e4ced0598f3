//! Whitespace normalization and sentence segmentation.
//!
//! The text handed over by the extractor is first normalized: line breaks
//! and tabs become plain spaces, runs of whitespace collapse to one space,
//! and surrounding whitespace is trimmed.  The normalized text is then cut
//! at every boundary marker — a maximal run of terminal punctuation
//! followed by whitespace — and the punctuation of each marker is attached
//! to the sentence that precedes it.

use vstd::prelude::*;

verus! {

/// The whitespace characters that normalization collapses: the Unicode
/// white-space code points.
pub open spec fn is_space_char(c: char) -> bool {
    ||| c == ' '
    ||| c == '\t'
    ||| c == '\n'
    ||| c == '\r'
    ||| c == '\u{b}'
    ||| c == '\u{c}'
    ||| c == '\u{85}'
    ||| c == '\u{a0}'
    ||| c == '\u{1680}'
    ||| (0x2000 <= (c as u32) && (c as u32) <= 0x200a)
    ||| c == '\u{2028}'
    ||| c == '\u{2029}'
    ||| c == '\u{202f}'
    ||| c == '\u{205f}'
    ||| c == '\u{3000}'
}

/// The sentence-terminal punctuation characters.
pub open spec fn is_terminal_char(c: char) -> bool {
    c == '.' || c == '!' || c == '?'
}

/// Whitespace collapsing: every maximal run of whitespace characters
/// becomes a single space.  Of a run, only its last character emits the
/// space, so each recursive step drops exactly one character.
pub open spec fn collapse_spaces(s: Seq<char>) -> Seq<char>
    decreases s.len(),
{
    if s.len() == 0 {
        Seq::empty()
    } else if is_space_char(s[0]) {
        if s.len() >= 2 && is_space_char(s[1]) {
            collapse_spaces(s.drop_first())
        } else {
            seq![' '] + collapse_spaces(s.drop_first())
        }
    } else {
        seq![s[0]] + collapse_spaces(s.drop_first())
    }
}

/// Leading and trailing whitespace removed.
pub open spec fn trim_spaces(s: Seq<char>) -> Seq<char>
    decreases s.len(),
{
    if s.len() == 0 {
        s
    } else if is_space_char(s[0]) {
        trim_spaces(s.drop_first())
    } else if is_space_char(s.last()) {
        trim_spaces(s.drop_last())
    } else {
        s
    }
}

/// The normalization pass: collapse whitespace runs, then trim.
pub open spec fn normalize_spec(s: Seq<char>) -> Seq<char> {
    trim_spaces(collapse_spaces(s))
}

/// A sequence is in collapsed form when every whitespace character in it is
/// a plain space with no other whitespace character right after it.
pub open spec fn is_collapsed(s: Seq<char>) -> bool {
    forall|i: int|
        0 <= i < s.len() && is_space_char(#[trigger] s[i]) ==> s[i] == ' ' && (i + 1 < s.len()
            ==> !is_space_char(s[i + 1]))
}

/// The first position at or after `i` whose character is not terminal
/// punctuation; the run `[i, run_end)` is the punctuation run at `i`.
pub open spec fn run_end(s: Seq<char>, i: int) -> int
    decreases s.len() - i,
    when 0 <= i <= s.len()
{
    if i < s.len() && is_terminal_char(s[i]) {
        run_end(s, i + 1)
    } else {
        i
    }
}

/// A boundary marker starts at `i`: a maximal run of terminal punctuation
/// that is followed by a whitespace character.
pub open spec fn is_marker_at(s: Seq<char>, i: int) -> bool {
    &&& 0 <= i < s.len()
    &&& is_terminal_char(s[i])
    &&& (i == 0 || !is_terminal_char(s[i - 1]))
    &&& run_end(s, i) < s.len()
    &&& is_space_char(s[run_end(s, i)])
}

/// The first boundary marker at or after `i`, or `s.len()` if none is left.
pub open spec fn next_marker(s: Seq<char>, i: int) -> int
    decreases s.len() - i,
    when 0 <= i <= s.len()
{
    if i >= s.len() {
        s.len() as int
    } else if is_marker_at(s, i) {
        i
    } else {
        next_marker(s, i + 1)
    }
}

pub proof fn lemma_run_end_props(s: Seq<char>, i: int)
    requires
        0 <= i <= s.len(),
    ensures
        i <= run_end(s, i) <= s.len(),
        forall|p: int| i <= p < run_end(s, i) ==> is_terminal_char(#[trigger] s[p]),
        run_end(s, i) < s.len() ==> !is_terminal_char(s[run_end(s, i)]),
    decreases s.len() - i,
{
    if i < s.len() && is_terminal_char(s[i]) {
        lemma_run_end_props(s, i + 1);
    }
}

pub proof fn lemma_next_marker_props(s: Seq<char>, i: int)
    requires
        0 <= i <= s.len(),
    ensures
        i <= next_marker(s, i) <= s.len(),
        next_marker(s, i) < s.len() ==> is_marker_at(s, next_marker(s, i)),
        forall|p: int| i <= p < next_marker(s, i) ==> !is_marker_at(s, p),
    decreases s.len() - i,
{
    if i >= s.len() {
    } else if is_marker_at(s, i) {
    } else {
        lemma_next_marker_props(s, i + 1);
    }
}

/// The sentences cut from `s` starting at segment position `i`.  Each
/// boundary marker closes the candidate segment before it; the segment is
/// trimmed, dropped when empty, and otherwise given the marker's
/// punctuation.  The final candidate keeps only its own characters.
pub open spec fn segments_from(s: Seq<char>, i: int) -> Seq<Seq<char>>
    decreases s.len() - i,
    when 0 <= i <= s.len()
    via segments_from_decreases
{
    let m = next_marker(s, i);
    if m == s.len() {
        let tail = trim_spaces(s.subrange(i, s.len() as int));
        if tail.len() == 0 {
            seq![]
        } else {
            seq![tail]
        }
    } else {
        let e = run_end(s, m);
        let core = trim_spaces(s.subrange(i, m));
        let rest = segments_from(s, e + 1);
        if core.len() == 0 {
            rest
        } else {
            seq![core + s.subrange(m, e)] + rest
        }
    }
}

#[via_fn]
proof fn segments_from_decreases(s: Seq<char>, i: int) {
    lemma_next_marker_props(s, i);
    let m = next_marker(s, i);
    if m < s.len() {
        lemma_run_end_props(s, m);
        assert(is_terminal_char(s[m]));
        assert(run_end(s, m) == run_end(s, m + 1));
        lemma_run_end_props(s, m + 1);
    }
}

/// The full segmentation: normalize, then cut at the boundary markers.
pub open spec fn sentences_spec(text: Seq<char>) -> Seq<Seq<char>> {
    segments_from(normalize_spec(text), 0)
}

/// How many boundary markers the segmentation pass meets from position
/// `i` on.  Markers are counted the way the pass walks them: after one is
/// consumed, counting resumes past its punctuation and whitespace.
pub open spec fn marker_count_from(s: Seq<char>, i: int) -> nat
    decreases s.len() - i,
    when 0 <= i <= s.len()
    via marker_count_from_decreases
{
    let m = next_marker(s, i);
    if m == s.len() {
        0
    } else {
        1 + marker_count_from(s, run_end(s, m) + 1)
    }
}

#[via_fn]
proof fn marker_count_from_decreases(s: Seq<char>, i: int) {
    lemma_next_marker_props(s, i);
    let m = next_marker(s, i);
    if m < s.len() {
        lemma_run_end_props(s, m);
        assert(run_end(s, m) == run_end(s, m + 1));
        lemma_run_end_props(s, m + 1);
    }
}

/// Whether every candidate segment from position `i` on, the final one
/// included, still holds a character once trimmed.
pub open spec fn no_segment_trims_empty(s: Seq<char>, i: int) -> bool
    decreases s.len() - i,
    when 0 <= i <= s.len()
    via no_segment_trims_empty_decreases
{
    let m = next_marker(s, i);
    if m == s.len() {
        trim_spaces(s.subrange(i, s.len() as int)).len() > 0
    } else {
        trim_spaces(s.subrange(i, m)).len() > 0 && no_segment_trims_empty(s, run_end(s, m) + 1)
    }
}

#[via_fn]
proof fn no_segment_trims_empty_decreases(s: Seq<char>, i: int) {
    lemma_next_marker_props(s, i);
    let m = next_marker(s, i);
    if m < s.len() {
        lemma_run_end_props(s, m);
        assert(run_end(s, m) == run_end(s, m + 1));
        lemma_run_end_props(s, m + 1);
    }
}

/// Round-trip coverage: segmentation never yields more sentences than
/// boundary markers plus the final candidate; it yields exactly one
/// sentence per marker plus the final candidate when no candidate trims
/// to nothing; every sentence is non-empty; and every sentence but the
/// last ends in terminal punctuation, taken from the marker that closed
/// it.
pub proof fn lemma_round_trip_coverage(s: Seq<char>, i: int)
    requires
        0 <= i <= s.len(),
    ensures
        segments_from(s, i).len() <= marker_count_from(s, i) + 1,
        no_segment_trims_empty(s, i) ==> segments_from(s, i).len() == marker_count_from(s, i)
            + 1,
        forall|k: int|
            0 <= k < segments_from(s, i).len() ==> (#[trigger] segments_from(s, i)[k]).len() > 0,
        forall|k: int|
            0 <= k < segments_from(s, i).len() - 1 ==> is_terminal_char(
                (#[trigger] segments_from(s, i)[k]).last(),
            ),
    decreases s.len() - i,
{
    lemma_next_marker_props(s, i);
    let m = next_marker(s, i);
    let segs = segments_from(s, i);
    if m == s.len() {
    } else {
        lemma_run_end_props(s, m);
        assert(run_end(s, m) == run_end(s, m + 1));
        lemma_run_end_props(s, m + 1);
        let e = run_end(s, m);
        lemma_round_trip_coverage(s, e + 1);
        let core = trim_spaces(s.subrange(i, m));
        let rest = segments_from(s, e + 1);
        if core.len() == 0 {
        } else {
            let punct = s.subrange(m, e);
            let sent = core + punct;
            assert(m < e);
            assert(is_terminal_char(punct.last()));
            assert(sent.last() == punct.last());
            assert(segs == seq![sent] + rest);
            assert(segs[0] == sent);
            assert forall|k: int| 0 <= k < segs.len() implies (#[trigger] segs[k]).len() > 0 by {
                if k > 0 {
                    assert(segs[k] == rest[k - 1]);
                }
            }
            assert forall|k: int| 0 <= k < segs.len() - 1 implies is_terminal_char(
                (#[trigger] segs[k]).last(),
            ) by {
                if k > 0 {
                    assert(segs[k] == rest[k - 1]);
                }
            }
        }
    }
}

/// The trailing run of `t` from position `j` on is whole terminal
/// punctuation: non-empty, all terminal characters, and not preceded by
/// another terminal character — it is a complete run, not the tail of a
/// longer one.
pub open spec fn is_whole_terminal_tail(t: Seq<char>, j: int) -> bool {
    &&& 0 <= j < t.len()
    &&& (forall|p: int| j <= p < t.len() ==> is_terminal_char(#[trigger] t[p]))
    &&& (j == 0 || !is_terminal_char(t[j - 1]))
}

/// The sequence ends in a whole run of terminal punctuation.
pub open spec fn ends_with_whole_terminal_run(t: Seq<char>) -> bool {
    exists|j: int| is_whole_terminal_tail(t, j)
}

/// `trim_spaces(x)` is the contiguous slice of `x` between indices `a`
/// and `b`, with only whitespace outside it.
spec fn trim_slice_at(x: Seq<char>, a: int, b: int) -> bool {
    &&& 0 <= a <= b <= x.len()
    &&& trim_spaces(x) == x.subrange(a, b)
    &&& (forall|q: int| 0 <= q < a ==> is_space_char(#[trigger] x[q]))
    &&& (forall|q: int| b <= q < x.len() ==> is_space_char(#[trigger] x[q]))
}

#[verifier::rlimit(60)]
proof fn lemma_trim_structure(x: Seq<char>)
    ensures
        exists|a: int, b: int| trim_slice_at(x, a, b),
    decreases x.len(),
{
    if x.len() == 0 {
        assert(trim_spaces(x) =~= x.subrange(0, 0));
        assert(trim_slice_at(x, 0, 0));
    } else if is_space_char(x[0]) {
        lemma_trim_structure(x.drop_first());
        let (a0, b0) = choose|a: int, b: int| trim_slice_at(x.drop_first(), a, b);
        assert(x.drop_first().subrange(a0, b0) =~= x.subrange(a0 + 1, b0 + 1));
        assert forall|q: int| 0 <= q < a0 + 1 implies is_space_char(#[trigger] x[q]) by {
            if q > 0 {
                assert(is_space_char(x.drop_first()[q - 1]));
            }
        }
        assert forall|q: int| b0 + 1 <= q < x.len() implies is_space_char(#[trigger] x[q]) by {
            assert(is_space_char(x.drop_first()[q - 1]));
        }
        assert(trim_slice_at(x, a0 + 1, b0 + 1));
    } else if is_space_char(x.last()) {
        lemma_trim_structure(x.drop_last());
        let (a0, b0) = choose|a: int, b: int| trim_slice_at(x.drop_last(), a, b);
        assert(x.drop_last().subrange(a0, b0) =~= x.subrange(a0, b0));
        assert forall|q: int| b0 <= q < x.len() implies is_space_char(#[trigger] x[q]) by {
            if q < x.len() - 1 {
                assert(is_space_char(x.drop_last()[q]));
            }
        }
        assert(trim_slice_at(x, a0, b0));
    } else {
        assert(x.subrange(0, x.len() as int) =~= x);
        assert(trim_slice_at(x, 0, x.len() as int));
    }
}

/// `rs` starts the maximal terminal run that reaches `p`, looking back
/// no further than `i`.
spec fn is_run_start_for(s: Seq<char>, i: int, p: int, rs: int) -> bool {
    &&& i <= rs <= p
    &&& (rs == 0 || !is_terminal_char(s[rs - 1]))
    &&& (forall|q: int| rs <= q <= p ==> is_terminal_char(#[trigger] s[q]))
}

proof fn lemma_run_start(s: Seq<char>, i: int, p: int)
    requires
        0 <= i <= p < s.len(),
        is_terminal_char(s[p]),
        i == 0 || !is_terminal_char(s[i - 1]),
    ensures
        exists|rs: int| is_run_start_for(s, i, p, rs),
    decreases p - i,
{
    if p == i {
        assert(is_run_start_for(s, i, p, i));
    } else if !is_terminal_char(s[p - 1]) {
        assert(is_run_start_for(s, i, p, p));
    } else {
        lemma_run_start(s, i, p - 1);
        let prev = p - 1;
        let rs = choose|rs: int| is_run_start_for(s, i, prev, rs);
        assert(is_run_start_for(s, i, p, rs));
    }
}

proof fn lemma_run_end_value(s: Seq<char>, rs: int, q: int)
    requires
        0 <= rs <= q <= s.len(),
        forall|t: int| rs <= t < q ==> is_terminal_char(#[trigger] s[t]),
        q == s.len() || !is_terminal_char(s[q]),
    ensures
        run_end(s, rs) == q,
    decreases q - rs,
{
    if rs < q {
        lemma_run_end_value(s, rs + 1, q);
    }
}

/// The trimmed candidate segment before the next boundary marker never
/// ends in terminal punctuation: a terminal character at its end would
/// head a punctuation run followed by whitespace — a marker before the
/// next marker.
proof fn lemma_core_last_not_terminal(s: Seq<char>, i: int)
    requires
        0 <= i <= s.len(),
        i == 0 || !is_terminal_char(s[i - 1]),
        next_marker(s, i) < s.len(),
    ensures
        trim_spaces(s.subrange(i, next_marker(s, i))).len() > 0 ==> !is_terminal_char(
            trim_spaces(s.subrange(i, next_marker(s, i))).last(),
        ),
{
    let m = next_marker(s, i);
    lemma_next_marker_props(s, i);
    assert(is_marker_at(s, m));
    let x = s.subrange(i, m);
    let core = trim_spaces(x);
    if core.len() > 0 {
        lemma_trim_structure(x);
        let (a, b) = choose|aa: int, bb: int| trim_slice_at(x, aa, bb);
        assert(core.last() == x[b - 1]);
        let p = i + b - 1;
        assert(x[b - 1] == s[p]);
        if is_terminal_char(s[p]) {
            assert forall|q: int| p + 1 <= q < m implies is_space_char(#[trigger] s[q]) by {
                assert(is_space_char(x[q - i]));
            }
            if p + 1 == m {
                assert(!is_terminal_char(s[m - 1]));
                assert(false);
            } else {
                assert(is_space_char(s[p + 1]));
                lemma_run_start(s, i, p);
                let rs = choose|r: int| is_run_start_for(s, i, p, r);
                lemma_run_end_value(s, rs, p + 1);
                assert(is_marker_at(s, rs));
                assert(false);
            }
        }
    }
}

/// Every sentence but the last ends with the whole punctuation run of
/// the boundary marker that closed it: the sentence splits into a core
/// whose last character is not terminal punctuation and the marker's
/// non-empty, all-terminal run.  The position `i` must stand at a
/// segment start, not inside a punctuation run.
pub proof fn lemma_whole_marker_run_attached(s: Seq<char>, i: int)
    requires
        0 <= i <= s.len(),
        i == 0 || !is_terminal_char(s[i - 1]),
    ensures
        forall|k: int|
            0 <= k < segments_from(s, i).len() - 1 ==> ends_with_whole_terminal_run(
                #[trigger] segments_from(s, i)[k],
            ),
    decreases s.len() - i,
{
    lemma_next_marker_props(s, i);
    let m = next_marker(s, i);
    let segs = segments_from(s, i);
    if m < s.len() {
        lemma_run_end_props(s, m);
        assert(run_end(s, m) == run_end(s, m + 1));
        lemma_run_end_props(s, m + 1);
        let e = run_end(s, m);
        assert(is_space_char(s[e]));
        lemma_whole_marker_run_attached(s, e + 1);
        let core = trim_spaces(s.subrange(i, m));
        let rest = segments_from(s, e + 1);
        if core.len() == 0 {
        } else {
            lemma_core_last_not_terminal(s, i);
            let punct = s.subrange(m, e);
            let sent = core + punct;
            assert(segs == seq![sent] + rest);
            assert forall|p: int| core.len() <= p < sent.len() implies is_terminal_char(
                #[trigger] sent[p],
            ) by {
                assert(sent[p] == s[m + p - core.len()]);
            }
            assert(sent[core.len() - 1] == core.last());
            assert(is_whole_terminal_tail(sent, core.len() as int));
            assert forall|k: int|
                0 <= k < segs.len() - 1 implies ends_with_whole_terminal_run(
                #[trigger] segs[k],
            ) by {
                if k == 0 {
                    assert(segs[0] == sent);
                } else {
                    assert(segs[k] == rest[k - 1]);
                }
            }
        }
    }
}

/// Round-trip coverage for the whole pipeline, stated over the
/// segmentation of a text.
pub proof fn lemma_sentences_round_trip(text: Seq<char>)
    ensures
        sentences_spec(text).len() <= marker_count_from(normalize_spec(text), 0) + 1,
        no_segment_trims_empty(normalize_spec(text), 0) ==> sentences_spec(text).len()
            == marker_count_from(normalize_spec(text), 0) + 1,
        forall|k: int|
            0 <= k < sentences_spec(text).len() ==> (#[trigger] sentences_spec(text)[k]).len()
                > 0,
        forall|k: int|
            0 <= k < sentences_spec(text).len() - 1 ==> is_terminal_char(
                (#[trigger] sentences_spec(text)[k]).last(),
            ),
        forall|k: int|
            0 <= k < sentences_spec(text).len() - 1 ==> ends_with_whole_terminal_run(
                #[trigger] sentences_spec(text)[k],
            ),
{
    lemma_round_trip_coverage(normalize_spec(text), 0);
    lemma_whole_marker_run_attached(normalize_spec(text), 0);
}

proof fn lemma_collapse_first(s: Seq<char>)
    requires
        s.len() > 0,
    ensures
        collapse_spaces(s).len() > 0,
        is_space_char(s[0]) ==> collapse_spaces(s)[0] == ' ',
        !is_space_char(s[0]) ==> collapse_spaces(s)[0] == s[0],
    decreases s.len(),
{
    if is_space_char(s[0]) && s.len() >= 2 && is_space_char(s[1]) {
        lemma_collapse_first(s.drop_first());
    }
}

proof fn lemma_collapse_is_collapsed(s: Seq<char>)
    ensures
        is_collapsed(collapse_spaces(s)),
    decreases s.len(),
{
    if s.len() == 0 {
    } else {
        lemma_collapse_is_collapsed(s.drop_first());
        let c = collapse_spaces(s);
        let rest = collapse_spaces(s.drop_first());
        if is_space_char(s[0]) {
            if s.len() >= 2 && is_space_char(s[1]) {
            } else {
                assert(c == seq![' '] + rest);
                if s.len() >= 2 {
                    lemma_collapse_first(s.drop_first());
                    assert(rest[0] == s[1]);
                }
                assert forall|i: int|
                    0 <= i < c.len() && is_space_char(#[trigger] c[i]) implies c[i] == ' ' && (i + 1
                    < c.len() ==> !is_space_char(c[i + 1])) by {
                    if i == 0 {
                        if 1 < c.len() {
                            assert(c[1] == rest[0]);
                        }
                    } else {
                        assert(c[i] == rest[i - 1]);
                        if i + 1 < c.len() {
                            assert(c[i + 1] == rest[i]);
                        }
                    }
                }
            }
        } else {
            assert(c == seq![s[0]] + rest);
            assert forall|i: int|
                0 <= i < c.len() && is_space_char(#[trigger] c[i]) implies c[i] == ' ' && (i + 1
                < c.len() ==> !is_space_char(c[i + 1])) by {
                if i > 0 {
                    assert(c[i] == rest[i - 1]);
                    if i + 1 < c.len() {
                        assert(c[i + 1] == rest[i]);
                    }
                }
            }
        }
    }
}

proof fn lemma_drop_first_collapsed(s: Seq<char>)
    requires
        is_collapsed(s),
        s.len() > 0,
    ensures
        is_collapsed(s.drop_first()),
{
    let t = s.drop_first();
    assert forall|i: int|
        0 <= i < t.len() && is_space_char(#[trigger] t[i]) implies t[i] == ' ' && (i + 1 < t.len()
        ==> !is_space_char(t[i + 1])) by {
        assert(t[i] == s[i + 1]);
        if i + 1 < t.len() {
            assert(t[i + 1] == s[i + 2]);
        }
    }
}

proof fn lemma_collapse_of_collapsed(s: Seq<char>)
    requires
        is_collapsed(s),
    ensures
        collapse_spaces(s) == s,
    decreases s.len(),
{
    if s.len() == 0 {
        assert(collapse_spaces(s) =~= s);
    } else {
        lemma_drop_first_collapsed(s);
        lemma_collapse_of_collapsed(s.drop_first());
        if is_space_char(s[0]) {
            assert(s[0] == ' ');
            if s.len() >= 2 {
                assert(!is_space_char(s[1]));
            }
            assert(collapse_spaces(s) =~= s);
        } else {
            assert(collapse_spaces(s) =~= s);
        }
    }
}

/// Whitespace collapsing is idempotent: collapsing a second time gives the
/// same string as collapsing once.
pub proof fn lemma_collapse_idempotent(s: Seq<char>)
    ensures
        collapse_spaces(collapse_spaces(s)) == collapse_spaces(s),
{
    lemma_collapse_is_collapsed(s);
    lemma_collapse_of_collapsed(collapse_spaces(s));
}

proof fn lemma_trim_preserves_collapsed(s: Seq<char>)
    requires
        is_collapsed(s),
    ensures
        is_collapsed(trim_spaces(s)),
    decreases s.len(),
{
    if s.len() == 0 {
    } else if is_space_char(s[0]) {
        lemma_drop_first_collapsed(s);
        lemma_trim_preserves_collapsed(s.drop_first());
    } else if is_space_char(s.last()) {
        let t = s.drop_last();
        assert forall|i: int|
            0 <= i < t.len() && is_space_char(#[trigger] t[i]) implies t[i] == ' ' && (i + 1
            < t.len() ==> !is_space_char(t[i + 1])) by {
            assert(t[i] == s[i]);
            if i + 1 < t.len() {
                assert(t[i + 1] == s[i + 1]);
            }
        }
        lemma_trim_preserves_collapsed(t);
    }
}

/// A trimmed sequence has no whitespace at either edge.
pub proof fn lemma_trim_no_edge_spaces(s: Seq<char>)
    ensures
        trim_spaces(s).len() > 0 ==> !is_space_char(trim_spaces(s)[0]) && !is_space_char(
            trim_spaces(s).last(),
        ),
        trim_spaces(s).len() <= s.len(),
    decreases s.len(),
{
    if s.len() == 0 {
    } else if is_space_char(s[0]) {
        lemma_trim_no_edge_spaces(s.drop_first());
    } else if is_space_char(s.last()) {
        lemma_trim_no_edge_spaces(s.drop_last());
    }
}

proof fn lemma_next_marker_skip_range(s: Seq<char>, i: int, j: int)
    requires
        0 <= i <= j <= s.len(),
        forall|p: int| i <= p < j ==> !is_marker_at(s, p),
    ensures
        next_marker(s, i) == next_marker(s, j),
    decreases j - i,
{
    if i < j {
        lemma_next_marker_skip_range(s, i + 1, j);
    }
}

/// Whether `c` is one of the whitespace characters that normalization
/// collapses.
pub fn is_space(c: char) -> (r: bool)
    ensures
        r == is_space_char(c),
{
    c == ' ' || c == '\t' || c == '\n' || c == '\r' || c == '\u{b}' || c == '\u{c}' || c == '\u{85}'
        || c == '\u{a0}' || c == '\u{1680}' || (0x2000 <= (c as u32) && (c as u32) <= 0x200a)
        || c == '\u{2028}' || c == '\u{2029}' || c == '\u{202f}' || c == '\u{205f}'
        || c == '\u{3000}'
}

/// Whether `c` is sentence-terminal punctuation.
pub fn is_terminal(c: char) -> (r: bool)
    ensures
        r == is_terminal_char(c),
{
    c == '.' || c == '!' || c == '?'
}

/// Collapses every maximal whitespace run into a single space.
pub fn collapse_whitespace(text: &str) -> (r: String)
    ensures
        r@ == collapse_spaces(text@),
{
    let n = text.unicode_len();
    let mut out = String::new();
    let mut i: usize = 0;
    proof {
        assert(text@.subrange(0, n as int) =~= text@);
    }
    while i < n
        invariant
            i <= n,
            n == text@.len(),
            out@ + collapse_spaces(text@.subrange(i as int, n as int)) == collapse_spaces(text@),
        decreases n - i,
    {
        let ghost suf = text@.subrange(i as int, n as int);
        proof {
            assert(suf[0] == text@[i as int]);
            assert(suf.drop_first() =~= text@.subrange(i as int + 1, n as int));
            if suf.len() >= 2 {
                assert(suf[1] == text@[i as int + 1]);
            }
        }
        let c = text.get_char(i);
        if is_space(c) {
            if i + 1 < n && is_space(text.get_char(i + 1)) {
                proof {
                    assert(collapse_spaces(suf) == collapse_spaces(suf.drop_first()));
                }
            } else {
                out.append(" ");
                proof {
                    reveal_strlit(" ");
                    assert(" "@ =~= seq![' ']);
                    assert(collapse_spaces(suf) == seq![' '] + collapse_spaces(suf.drop_first()));
                    assert(out@ + collapse_spaces(suf.drop_first()) =~= collapse_spaces(text@));
                }
            }
        } else {
            let piece = text.substring_char(i, i + 1);
            out.append(piece);
            proof {
                assert(piece@ =~= seq![text@[i as int]]);
                assert(collapse_spaces(suf) == seq![suf[0]] + collapse_spaces(suf.drop_first()));
                assert(out@ + collapse_spaces(suf.drop_first()) =~= collapse_spaces(text@));
            }
        }
        i = i + 1;
    }
    proof {
        assert(text@.subrange(n as int, n as int) =~= Seq::<char>::empty());
        assert(out@ + Seq::<char>::empty() =~= out@);
    }
    out
}

/// The slice of `s` with surrounding whitespace removed.
pub fn trimmed<'a>(s: &'a str) -> (r: &'a str)
    ensures
        r@ == trim_spaces(s@),
{
    let n = s.unicode_len();
    let mut lo: usize = 0;
    let mut hi: usize = n;
    proof {
        assert(s@.subrange(0, n as int) =~= s@);
    }
    while lo < hi && is_space(s.get_char(lo))
        invariant
            lo <= hi <= n,
            n == s@.len(),
            trim_spaces(s@.subrange(lo as int, hi as int)) == trim_spaces(s@),
        decreases hi - lo,
    {
        proof {
            let sub = s@.subrange(lo as int, hi as int);
            assert(sub[0] == s@[lo as int]);
            assert(sub.drop_first() =~= s@.subrange(lo as int + 1, hi as int));
        }
        lo = lo + 1;
    }
    while hi > lo && is_space(s.get_char(hi - 1))
        invariant
            lo <= hi <= n,
            n == s@.len(),
            trim_spaces(s@.subrange(lo as int, hi as int)) == trim_spaces(s@),
            lo == hi || !is_space_char(s@[lo as int]),
        decreases hi,
    {
        proof {
            let sub = s@.subrange(lo as int, hi as int);
            assert(sub[0] == s@[lo as int]);
            assert(sub.last() == s@[hi as int - 1]);
            assert(sub.drop_last() =~= s@.subrange(lo as int, hi as int - 1));
        }
        hi = hi - 1;
    }
    let r = s.substring_char(lo, hi);
    proof {
        let sub = s@.subrange(lo as int, hi as int);
        if lo == hi {
            assert(sub =~= Seq::<char>::empty());
        } else {
            assert(sub[0] == s@[lo as int]);
            assert(sub.last() == s@[hi as int - 1]);
            assert(trim_spaces(sub) == sub);
        }
    }
    r
}

/// The normalization pass in one call: collapse whitespace runs and
/// trim the surrounding whitespace.
pub fn normalize_whitespace(text: &str) -> (r: String)
    ensures
        r@ == normalize_spec(text@),
{
    let collapsed = collapse_whitespace(text);
    let t = trimmed(collapsed.as_str());
    t.to_owned()
}

/// Finds the first boundary marker at or after `start`.  Returns the pair
/// of the marker's start and the end of its punctuation run; when no
/// marker is left, both are the text's character length.
pub fn find_marker(s: &str, start: usize) -> (r: (usize, usize))
    requires
        start as int <= s@.len(),
    ensures
        r.0 as int == next_marker(s@, start as int),
        (r.0 as int) < s@.len() ==> r.1 as int == run_end(s@, r.0 as int),
        r.0 as int == s@.len() ==> r.1 == r.0,
{
    let n = s.unicode_len();
    let mut j = start;
    while j < n
        invariant
            start <= j <= n,
            n == s@.len(),
            next_marker(s@, start as int) == next_marker(s@, j as int),
        decreases n - j,
    {
        let c = s.get_char(j);
        let prev_sep = j == 0 || !is_terminal(s.get_char(j - 1));
        if is_terminal(c) && prev_sep {
            let mut k = j + 1;
            proof {
                assert(run_end(s@, j as int) == run_end(s@, j as int + 1));
            }
            while k < n && is_terminal(s.get_char(k))
                invariant
                    j < k <= n,
                    n == s@.len(),
                    run_end(s@, j as int) == run_end(s@, k as int),
                    forall|p: int| j <= p < k ==> is_terminal_char(#[trigger] s@[p]),
                decreases n - k,
            {
                proof {
                    assert(run_end(s@, k as int) == run_end(s@, k as int + 1));
                }
                k = k + 1;
            }
            proof {
                assert(run_end(s@, k as int) == k as int);
            }
            if k < n && is_space(s.get_char(k)) {
                proof {
                    assert(is_marker_at(s@, j as int));
                    assert(next_marker(s@, j as int) == j as int);
                }
                return (j, k);
            } else {
                proof {
                    assert(!is_marker_at(s@, j as int));
                    assert forall|p: int| j as int <= p < k as int implies !is_marker_at(
                        s@,
                        p,
                    ) by {
                        if p > j as int {
                            assert(is_terminal_char(s@[p - 1]));
                        }
                    }
                    lemma_next_marker_skip_range(s@, j as int, k as int);
                }
                j = k;
            }
        } else {
            proof {
                assert(!is_marker_at(s@, j as int));
            }
            j = j + 1;
        }
    }
    (n, n)
}

/// Segmentation: normalize the text, then cut it at every boundary
/// marker, attaching each marker's punctuation to the trimmed candidate
/// segment before it, dropping candidates that trim to nothing, and
/// keeping the final candidate as it stands.
pub fn split_sentences(text: &str) -> (r: Vec<String>)
    ensures
        r.deep_view() == sentences_spec(text@),
{
    let nt = normalize_whitespace(text);
    let ns = nt.as_str();
    let ghost t = ns@;
    let n = ns.unicode_len();
    let mut out: Vec<String> = Vec::new();
    let mut i: usize = 0;
    loop
        invariant_except_break
            out.deep_view() + segments_from(t, i as int) =~~= segments_from(t, 0),
        invariant
            i <= n,
            n == t.len(),
            ns@ == t,
            t == normalize_spec(text@),
        ensures
            out.deep_view() =~~= segments_from(t, 0),
        decreases n - i,
    {
        let ghost out0 = out.deep_view();
        let (m, e) = find_marker(ns, i);
        proof {
            lemma_next_marker_props(t, i as int);
        }
        if m == n {
            let tail = trimmed(ns.substring_char(i, n));
            if !tail.is_empty() {
                let owned = tail.to_owned();
                out.push(owned);
                proof {
                    assert(out.deep_view() =~~= out0.push(tail@));
                    assert(segments_from(t, i as int) =~~= seq![tail@]);
                    assert(out.deep_view() =~~= out0 + seq![tail@]);
                }
            } else {
                proof {
                    assert(segments_from(t, i as int) =~~= Seq::<Seq<char>>::empty());
                }
            }
            proof {
                assert(out.deep_view() =~~= segments_from(t, 0));
            }
            break;
        } else {
            proof {
                assert(is_marker_at(t, m as int));
                lemma_run_end_props(t, m as int);
                assert(run_end(t, m as int) == run_end(t, m as int + 1));
                lemma_run_end_props(t, m as int + 1);
                assert(m < e < n);
            }
            let core = trimmed(ns.substring_char(i, m));
            if !core.is_empty() {
                let mut sent = core.to_owned();
                sent.append(ns.substring_char(m, e));
                out.push(sent);
                proof {
                    let core_s = trim_spaces(t.subrange(i as int, m as int));
                    let punct = t.subrange(m as int, e as int);
                    assert(out.deep_view() =~~= out0.push(core_s + punct));
                    assert(segments_from(t, i as int) == seq![core_s + punct] + segments_from(
                        t,
                        e as int + 1,
                    ));
                    assert(out.deep_view() + segments_from(t, e as int + 1) =~~= out0 + (seq![
                        core_s + punct,
                    ] + segments_from(t, e as int + 1)));
                }
            } else {
                proof {
                    assert(segments_from(t, i as int) == segments_from(t, e as int + 1));
                }
            }
            i = e + 1;
        }
    }
    proof {
        assert(out.deep_view() =~~= sentences_spec(text@));
    }
    out
}

/// Normalization is idempotent as a whole.
pub proof fn lemma_normalize_idempotent(s: Seq<char>)
    ensures
        normalize_spec(normalize_spec(s)) == normalize_spec(s),
{
    let n = normalize_spec(s);
    lemma_collapse_is_collapsed(s);
    lemma_trim_preserves_collapsed(collapse_spaces(s));
    lemma_collapse_of_collapsed(n);
    lemma_trim_no_edge_spaces(collapse_spaces(s));
    if n.len() > 0 {
        assert(trim_spaces(n) == n);
    } else {
        assert(trim_spaces(n) =~= n);
    }
}

} // verus!
