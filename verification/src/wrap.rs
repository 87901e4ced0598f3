//! Greedy line wrapping for display.
//!
//! The sentence viewer shows each sentence inside a fixed-width box; the
//! text is cut into lines at word boundaries.  Words are packed left to
//! right: a word joins the current line when it fits after one joining
//! space, otherwise it opens the next line.  A word longer than the
//! width is broken: its first `width` characters become a line of their
//! own and the remainder carries on as the current line.

use vstd::prelude::*;

use crate::segment::is_space;
use crate::segment::is_space_char;

verus! {

/// The first position at or after `i` that holds a non-whitespace
/// character, or the length when only whitespace is left.
pub open spec fn next_word_start(s: Seq<char>, i: int) -> int
    decreases s.len() - i,
    when 0 <= i <= s.len()
{
    if i < s.len() && is_space_char(s[i]) {
        next_word_start(s, i + 1)
    } else {
        i
    }
}

/// The first position at or after `i` that holds a whitespace character,
/// or the length when the word runs to the end.
pub open spec fn word_end(s: Seq<char>, i: int) -> int
    decreases s.len() - i,
    when 0 <= i <= s.len()
{
    if i < s.len() && !is_space_char(s[i]) {
        word_end(s, i + 1)
    } else {
        i
    }
}

pub proof fn lemma_next_word_start_props(s: Seq<char>, i: int)
    requires
        0 <= i <= s.len(),
    ensures
        i <= next_word_start(s, i) <= s.len(),
        next_word_start(s, i) < s.len() ==> !is_space_char(s[next_word_start(s, i)]),
    decreases s.len() - i,
{
    if i < s.len() && is_space_char(s[i]) {
        lemma_next_word_start_props(s, i + 1);
    }
}

pub proof fn lemma_word_end_props(s: Seq<char>, i: int)
    requires
        0 <= i <= s.len(),
    ensures
        i <= word_end(s, i) <= s.len(),
        word_end(s, i) < s.len() ==> is_space_char(s[word_end(s, i)]),
    decreases s.len() - i,
{
    if i < s.len() && !is_space_char(s[i]) {
        lemma_word_end_props(s, i + 1);
    }
}

/// The words of `s` from position `i` on: the maximal runs of
/// non-whitespace characters.
pub open spec fn words_from(s: Seq<char>, i: int) -> Seq<Seq<char>>
    decreases s.len() - i,
    when 0 <= i <= s.len()
    via words_from_decreases
{
    let w = next_word_start(s, i);
    if w == s.len() {
        seq![]
    } else {
        seq![s.subrange(w, word_end(s, w))] + words_from(s, word_end(s, w))
    }
}

#[via_fn]
proof fn words_from_decreases(s: Seq<char>, i: int) {
    lemma_next_word_start_props(s, i);
    let w = next_word_start(s, i);
    if w < s.len() {
        assert(word_end(s, w) == word_end(s, w + 1));
        lemma_word_end_props(s, w + 1);
    }
}

/// One step of greedy packing: the state is the closed lines and the
/// line under construction; the word either joins the current line after
/// one space, opens a fresh line, or — when longer than the width — is
/// broken at the width.
pub open spec fn pack_word(
    lines: Seq<Seq<char>>,
    current: Seq<char>,
    word: Seq<char>,
    width: int,
) -> (Seq<Seq<char>>, Seq<char>) {
    if current.len() + word.len() + 1 <= width {
        if current.len() == 0 {
            (lines, word)
        } else {
            (lines, current + seq![' '] + word)
        }
    } else {
        let closed = if current.len() == 0 {
            lines
        } else {
            lines.push(current)
        };
        if word.len() <= width {
            (closed, word)
        } else {
            (closed.push(word.subrange(0, width)), word.subrange(width, word.len() as int))
        }
    }
}

/// Greedy packing of a whole word sequence, starting from no closed
/// lines and an empty current line.
pub open spec fn pack_words(words: Seq<Seq<char>>, width: int) -> (Seq<Seq<char>>, Seq<char>)
    decreases words.len(),
{
    if words.len() == 0 {
        (seq![], seq![])
    } else {
        let prev = pack_words(words.drop_last(), width);
        pack_word(prev.0, prev.1, words.last(), width)
    }
}

/// The wrapped lines of a text: its words greedily packed, the last
/// open line closed, and one empty line where no word produced any.
pub open spec fn wrap_spec(s: Seq<char>, width: int) -> Seq<Seq<char>> {
    let packed = pack_words(words_from(s, 0), width);
    let all = if packed.1.len() == 0 {
        packed.0
    } else {
        packed.0.push(packed.1)
    };
    if all.len() == 0 {
        seq![Seq::<char>::empty()]
    } else {
        all
    }
}

/// The words of the text, in order, as owned strings.
pub fn split_words(text: &str) -> (r: Vec<String>)
    ensures
        r.deep_view() == words_from(text@, 0),
{
    let ghost t = text@;
    let n = text.unicode_len();
    let mut out: Vec<String> = Vec::new();
    let mut i: usize = 0;
    proof {
        assert(out.deep_view() =~~= Seq::<Seq<char>>::empty());
        assert(out.deep_view() + words_from(t, 0) =~~= words_from(t, 0));
    }
    while i < n
        invariant
            i <= n,
            n == t.len(),
            text@ == t,
            out.deep_view() + words_from(t, i as int) =~~= words_from(t, 0),
        decreases n - i,
    {
        let c = text.get_char(i);
        if is_space(c) {
            proof {
                assert(next_word_start(t, i as int) == next_word_start(t, i as int + 1));
                assert(words_from(t, i as int) == words_from(t, i as int + 1));
            }
            i = i + 1;
        } else {
            let mut k = i + 1;
            proof {
                assert(word_end(t, i as int) == word_end(t, i as int + 1));
            }
            while k < n && !is_space(text.get_char(k))
                invariant
                    i < k <= n,
                    n == t.len(),
                    text@ == t,
                    word_end(t, i as int) == word_end(t, k as int),
                decreases n - k,
            {
                proof {
                    assert(word_end(t, k as int) == word_end(t, k as int + 1));
                }
                k = k + 1;
            }
            proof {
                assert(word_end(t, k as int) == k as int);
                assert(next_word_start(t, i as int) == i as int);
            }
            let ghost out0 = out.deep_view();
            let word = text.substring_char(i, k).to_owned();
            out.push(word);
            proof {
                assert(out.deep_view() =~~= out0.push(t.subrange(i as int, k as int)));
                assert(words_from(t, i as int) == seq![t.subrange(i as int, k as int)]
                    + words_from(t, k as int));
                assert(out.deep_view() + words_from(t, k as int) =~~= out0 + (seq![
                    t.subrange(i as int, k as int),
                ] + words_from(t, k as int)));
            }
            i = k;
        }
    }
    proof {
        assert(next_word_start(t, n as int) == n as int);
        assert(words_from(t, n as int) =~~= Seq::<Seq<char>>::empty());
        assert(out.deep_view() =~~= words_from(t, 0));
    }
    out
}

/// Greedy line wrapping of `text` at `width` characters.  Lines are cut
/// at word boundaries; a word longer than the width is broken at the
/// width.  The result is never empty: a text without words wraps to one
/// empty line.
pub fn wrap_text(text: &str, width: usize) -> (r: Vec<String>)
    ensures
        r.deep_view() == wrap_spec(text@, width as int),
        r.len() > 0,
{
    let words = split_words(text);
    let ghost ws = words.deep_view();
    let mut lines: Vec<String> = Vec::new();
    let mut current = String::new();
    let mut k: usize = 0;
    proof {
        assert(ws.subrange(0, 0) =~~= Seq::<Seq<char>>::empty());
        assert(lines.deep_view() =~~= Seq::<Seq<char>>::empty());
        assert(current@ =~= Seq::<char>::empty());
    }
    while k < words.len()
        invariant
            k <= words.len(),
            ws == words.deep_view(),
            (lines.deep_view(), current@) == pack_words(ws.subrange(0, k as int), width as int),
        decreases words.len() - k,
    {
        let ghost lines0 = lines.deep_view();
        let ghost current0 = current@;
        let word = &words[k];
        let word_len = word.as_str().unicode_len();
        let cur_len = current.as_str().unicode_len();
        proof {
            assert(ws.subrange(0, k as int + 1).drop_last() =~~= ws.subrange(0, k as int));
            assert(ws.subrange(0, k as int + 1).last() == word@);
        }
        if word_len < width && cur_len <= width - 1 - word_len {
            if cur_len == 0 {
                current = word.clone();
                proof {
                    assert(current0.len() == 0);
                    assert(current@ == word@);
                }
            } else {
                current.append(" ");
                current.append(word.as_str());
                proof {
                    reveal_strlit(" ");
                    assert(" "@ =~= seq![' ']);
                    assert(current@ =~= current0 + seq![' '] + word@);
                }
            }
        } else {
            proof {
                assert(current0.len() + word@.len() + 1 > width);
            }
            if cur_len > 0 {
                lines.push(current);
                current = String::new();
                proof {
                    assert(lines.deep_view() =~~= lines0.push(current0));
                }
            }
            if word_len <= width {
                current = word.clone();
            } else {
                let head = word.as_str().substring_char(0, width);
                let rest = word.as_str().substring_char(width, word_len);
                let ghost closed = lines.deep_view();
                lines.push(head.to_owned());
                current = rest.to_owned();
                proof {
                    assert(lines.deep_view() =~~= closed.push(word@.subrange(0, width as int)));
                }
            }
        }
        proof {
            assert((lines.deep_view(), current@) == pack_word(
                lines0,
                current0,
                word@,
                width as int,
            ));
        }
        k = k + 1;
    }
    proof {
        assert(ws.subrange(0, words.len() as int) =~~= ws);
    }
    let ghost packed_lines = lines.deep_view();
    let ghost packed_current = current@;
    if !current.as_str().is_empty() {
        lines.push(current);
        proof {
            assert(lines.deep_view() =~~= packed_lines.push(packed_current));
        }
    }
    if lines.len() == 0 {
        lines.push(String::new());
        proof {
            assert(lines.deep_view() =~~= seq![Seq::<char>::empty()]);
        }
    }
    proof {
        assert(lines.deep_view() =~~= wrap_spec(text@, width as int));
    }
    lines
}

} // verus!
