use crate::icrc21_types::Icrc21Page;
use vstd::prelude::*;
use vstd::seq_lib::lemma_flatten_concat;
use vstd::string::*;

verus! {

// Mathematical model of the line-display layout: a text is split into
// whitespace-delimited words, overlong words are cut into width-sized chunks,
// the resulting tokens are packed greedily into lines, and the lines are
// grouped into pages.

/// Characters treated as whitespace when splitting text into words.
pub open spec fn is_space(c: char) -> bool {
    c == ' ' || c == '\n' || c == '\t' || c == '\r'
}

/// Length of the leading run of non-whitespace characters of `s`.
pub open spec fn word_prefix_len(s: Seq<char>) -> nat
    decreases s.len(),
{
    if s.len() == 0 || is_space(s[0]) {
        0
    } else {
        1 + word_prefix_len(s.drop_first())
    }
}

pub proof fn lemma_word_prefix_len_le(s: Seq<char>)
    ensures
        word_prefix_len(s) <= s.len(),
    decreases s.len(),
{
    if s.len() == 0 || is_space(s[0]) {
    } else {
        lemma_word_prefix_len_le(s.drop_first());
    }
}

/// The leading word consists of non-whitespace characters and is maximal.
pub proof fn lemma_word_prefix_len_chars(s: Seq<char>)
    ensures
        word_prefix_len(s) <= s.len(),
        forall|i: int| 0 <= i < word_prefix_len(s) ==> !is_space(s[i]),
        word_prefix_len(s) < s.len() ==> is_space(s[word_prefix_len(s) as int]),
    decreases s.len(),
{
    if s.len() == 0 || is_space(s[0]) {
    } else {
        lemma_word_prefix_len_chars(s.drop_first());
        assert forall|i: int| 0 <= i < word_prefix_len(s) implies !is_space(s[i]) by {
            if i > 0 {
                assert(s.drop_first()[i - 1] == s[i]);
            }
        }
    }
}

/// A run of characters wholly non-whitespace, ended by the end of `s` or a
/// whitespace character, is exactly the leading word.
pub proof fn lemma_word_prefix_len_exact(s: Seq<char>, k: int)
    requires
        0 <= k <= s.len(),
        forall|i: int| 0 <= i < k ==> !is_space(s[i]),
        k < s.len() ==> is_space(s[k]),
    ensures
        word_prefix_len(s) == k,
    decreases s.len(),
{
    if s.len() == 0 {
    } else if is_space(s[0]) {
        assert(k == 0);
    } else {
        assert(k >= 1);
        let t = s.drop_first();
        assert forall|i: int| 0 <= i < k - 1 implies !is_space(t[i]) by {
            assert(t[i] == s[i + 1]);
        }
        lemma_word_prefix_len_exact(t, k - 1);
    }
}

/// The whitespace-delimited words of a text, in order.
pub open spec fn words_of(s: Seq<char>) -> Seq<Seq<char>>
    decreases s.len(),
    via words_of_decreases
{
    if s.len() == 0 {
        seq![]
    } else if is_space(s[0]) {
        words_of(s.drop_first())
    } else {
        seq![s.take(word_prefix_len(s) as int)] + words_of(s.skip(word_prefix_len(s) as int))
    }
}

#[via_fn]
proof fn words_of_decreases(s: Seq<char>) {
    lemma_word_prefix_len_le(s);
}

/// An overlong word cut into consecutive chunks of exactly `width` characters,
/// the last chunk possibly shorter; a word of at most `width` characters is a
/// single chunk.
pub open spec fn chunks_of(w: Seq<char>, width: int) -> Seq<Seq<char>>
    decreases w.len(),
    when width >= 1
{
    if w.len() == 0 {
        seq![]
    } else if w.len() <= width {
        seq![w]
    } else {
        seq![w.take(width)] + chunks_of(w.skip(width), width)
    }
}

/// The token sequence of a text under a given width: its words, each cut into
/// chunks of at most `width` characters, in original order.
pub open spec fn tokens_of(s: Seq<char>, width: int) -> Seq<Seq<char>> {
    words_of(s).map_values(|w: Seq<char>| chunks_of(w, width)).flatten()
}

/// Greedy packing of the remaining tokens, `cur` being the line under
/// construction. A token is appended (after a single space) only while the
/// joined line stays strictly below `width`; otherwise the line is closed and
/// the token opens the next one.
pub open spec fn pack_lines(toks: Seq<Seq<char>>, cur: Seq<char>, width: int) -> Seq<Seq<char>>
    decreases toks.len(),
{
    if toks.len() == 0 {
        seq![cur]
    } else if cur.len() + 1 + toks.first().len() < width {
        pack_lines(toks.drop_first(), cur + seq![' '] + toks.first(), width)
    } else {
        seq![cur] + pack_lines(toks.drop_first(), toks.first(), width)
    }
}

/// The lines produced by greedy packing of a token sequence.
pub open spec fn packed_lines(toks: Seq<Seq<char>>, width: int) -> Seq<Seq<char>> {
    if toks.len() == 0 {
        seq![]
    } else {
        pack_lines(toks.drop_first(), toks.first(), width)
    }
}

/// The line sequence partitioned into consecutive pages of exactly `height`
/// lines, the last page holding between one and `height` lines.
pub open spec fn pages_of(lines: Seq<Seq<char>>, height: int) -> Seq<Seq<Seq<char>>>
    decreases lines.len(),
    when height >= 1
{
    if lines.len() == 0 {
        seq![]
    } else if lines.len() <= height {
        seq![lines]
    } else {
        seq![lines.take(height)] + pages_of(lines.skip(height), height)
    }
}

/// The complete layout pipeline: tokenize, pack into lines, group into pages.
pub open spec fn paged_layout(s: Seq<char>, width: int, height: int) -> Seq<Seq<Seq<char>>> {
    pages_of(packed_lines(tokens_of(s, width), width), height)
}

/// Holds when no character of `t` is whitespace.
pub open spec fn space_free(t: Seq<char>) -> bool {
    forall|k: int| 0 <= k < t.len() ==> !is_space(#[trigger] t[k])
}

/// Holds when `t` is a valid token under `width`: non-empty, free of
/// whitespace, and at most `width` characters long.
pub open spec fn wellformed_token(t: Seq<char>, width: int) -> bool {
    1 <= t.len() <= width && space_free(t)
}

/// Every chunk of a non-empty whitespace-free word is a wellformed token.
pub proof fn lemma_chunks_wellformed(w: Seq<char>, width: int)
    requires
        width >= 1,
        w.len() >= 1,
        space_free(w),
    ensures
        forall|i: int|
            0 <= i < chunks_of(w, width).len() ==> wellformed_token(
                #[trigger] chunks_of(w, width)[i],
                width,
            ),
    decreases w.len(),
{
    if w.len() <= width {
    } else {
        let head = w.take(width);
        assert forall|m: int| 0 <= m < head.len() implies !is_space(head[m]) by {
            assert(head[m] == w[m]);
        }
        let tail = w.skip(width);
        assert forall|m: int| 0 <= m < tail.len() implies !is_space(tail[m]) by {
            assert(tail[m] == w[m + width]);
        }
        lemma_chunks_wellformed(tail, width);
        assert forall|i: int|
            0 <= i < chunks_of(w, width).len() implies wellformed_token(
            #[trigger] chunks_of(w, width)[i],
            width,
        ) by {
            if i > 0 {
                assert(chunks_of(w, width)[i] == chunks_of(tail, width)[i - 1]);
            }
        }
    }
}

/// Decomposition of the token sequence along the structure of the text.
pub proof fn lemma_tokens_decomp(s: Seq<char>, width: int)
    requires
        width >= 1,
    ensures
        s.len() == 0 ==> tokens_of(s, width) == Seq::<Seq<char>>::empty(),
        s.len() > 0 && is_space(s[0]) ==> tokens_of(s, width) == tokens_of(s.drop_first(), width),
        s.len() > 0 && !is_space(s[0]) ==> tokens_of(s, width) == chunks_of(
            s.take(word_prefix_len(s) as int),
            width,
        ) + tokens_of(s.skip(word_prefix_len(s) as int), width),
{
    let f = |w: Seq<char>| chunks_of(w, width);
    if s.len() == 0 {
        assert(words_of(s).map_values(f) =~= Seq::<Seq<Seq<char>>>::empty());
        assert(tokens_of(s, width) =~= Seq::<Seq<char>>::empty());
    } else if is_space(s[0]) {
    } else {
        let k = word_prefix_len(s) as int;
        let w = s.take(k);
        let rest = words_of(s.skip(k));
        assert(words_of(s).map_values(f) =~= seq![f(w)] + rest.map_values(f));
        lemma_flatten_concat(seq![f(w)], rest.map_values(f));
        seq![f(w)].lemma_flatten_one_element();
        assert(tokens_of(s, width) =~= chunks_of(w, width) + tokens_of(s.skip(k), width));
    }
}

/// Every token of a text is wellformed: non-empty, free of whitespace, and
/// at most `width` characters long.
pub proof fn lemma_tokens_wellformed(s: Seq<char>, width: int)
    requires
        width >= 1,
    ensures
        forall|i: int|
            0 <= i < tokens_of(s, width).len() ==> wellformed_token(
                #[trigger] tokens_of(s, width)[i],
                width,
            ),
    decreases s.len(),
{
    lemma_tokens_decomp(s, width);
    if s.len() == 0 {
    } else if is_space(s[0]) {
        lemma_tokens_wellformed(s.drop_first(), width);
    } else {
        lemma_word_prefix_len_chars(s);
        let k = word_prefix_len(s) as int;
        let w = s.take(k);
        assert forall|m: int| 0 <= m < w.len() implies !is_space(w[m]) by {
            assert(w[m] == s[m]);
        }
        lemma_chunks_wellformed(w, width);
        lemma_tokens_wellformed(s.skip(k), width);
        assert forall|i: int|
            0 <= i < tokens_of(s, width).len() implies wellformed_token(
            #[trigger] tokens_of(s, width)[i],
            width,
        ) by {
            if i < chunks_of(w, width).len() {
                assert(tokens_of(s, width)[i] == chunks_of(w, width)[i]);
            } else {
                assert(tokens_of(s, width)[i] == tokens_of(s.skip(k), width)[i - chunks_of(
                    w,
                    width,
                ).len()]);
            }
        }
    }
}

/// Width bound for greedy packing: every produced line is strictly shorter
/// than `width`, except a line holding a single oversized token, which is
/// one of the input tokens and exactly `width` characters long.
pub proof fn lemma_pack_lines_width(
    toks: Seq<Seq<char>>,
    cur: Seq<char>,
    width: int,
    all: Seq<Seq<char>>,
)
    requires
        width >= 1,
        forall|i: int|
            0 <= i < toks.len() ==> (#[trigger] toks[i]).len() <= width && all.contains(toks[i]),
        cur.len() <= width,
        cur.len() < width || all.contains(cur),
    ensures
        forall|i: int|
            0 <= i < pack_lines(toks, cur, width).len() ==> {
                (#[trigger] pack_lines(toks, cur, width)[i]).len() < width || (pack_lines(
                    toks,
                    cur,
                    width,
                )[i].len() == width && all.contains(pack_lines(toks, cur, width)[i]))
            },
    decreases toks.len(),
{
    if toks.len() == 0 {
    } else {
        assert forall|i: int|
            0 <= i < toks.drop_first().len() implies (#[trigger] toks.drop_first()[i]).len()
            <= width && all.contains(toks.drop_first()[i]) by {
            assert(toks.drop_first()[i] == toks[i + 1]);
        }
        if cur.len() + 1 + toks.first().len() < width {
            let cur2 = cur + seq![' '] + toks.first();
            lemma_pack_lines_width(toks.drop_first(), cur2, width, all);
            assert(pack_lines(toks, cur, width) == pack_lines(toks.drop_first(), cur2, width));
            assert forall|i: int|
                0 <= i < pack_lines(toks, cur, width).len() implies {
                (#[trigger] pack_lines(toks, cur, width)[i]).len() < width || (pack_lines(
                    toks,
                    cur,
                    width,
                )[i].len() == width && all.contains(pack_lines(toks, cur, width)[i]))
            } by {
                assert(pack_lines(toks, cur, width)[i] == pack_lines(
                    toks.drop_first(),
                    cur2,
                    width,
                )[i]);
            }
        } else {
            assert(all.contains(toks[0]));
            lemma_pack_lines_width(toks.drop_first(), toks.first(), width, all);
            let rest = pack_lines(toks.drop_first(), toks.first(), width);
            assert forall|i: int|
                0 <= i < pack_lines(toks, cur, width).len() implies {
                (#[trigger] pack_lines(toks, cur, width)[i]).len() < width || (pack_lines(
                    toks,
                    cur,
                    width,
                )[i].len() == width && all.contains(pack_lines(toks, cur, width)[i]))
            } by {
                if i == 0 {
                    assert(pack_lines(toks, cur, width)[0] == cur);
                } else {
                    assert(pack_lines(toks, cur, width)[i] == rest[i - 1]);
                }
            }
        }
    }
}

/// Width bound for the layout: every line is strictly shorter than `width`,
/// or is a single unsplit token of exactly `width` characters.
pub proof fn lemma_width_bound(s: Seq<char>, width: int)
    requires
        width >= 1,
    ensures
        forall|i: int|
            0 <= i < packed_lines(tokens_of(s, width), width).len() ==> {
                (#[trigger] packed_lines(tokens_of(s, width), width)[i]).len() < width || (
                packed_lines(tokens_of(s, width), width)[i].len() == width && tokens_of(
                    s,
                    width,
                ).contains(packed_lines(tokens_of(s, width), width)[i]))
            },
{
    let toks = tokens_of(s, width);
    lemma_tokens_wellformed(s, width);
    if toks.len() > 0 {
        assert forall|i: int|
            0 <= i < toks.drop_first().len() implies (#[trigger] toks.drop_first()[i]).len()
            <= width && toks.contains(toks.drop_first()[i]) by {
            assert(toks.drop_first()[i] == toks[i + 1]);
        }
        assert(toks.contains(toks[0]));
        lemma_pack_lines_width(toks.drop_first(), toks.first(), width, toks);
    }
}

/// Height bound: every page holds between one and `height` lines, and every
/// page except possibly the last holds exactly `height` lines.
pub proof fn lemma_height_bound(lines: Seq<Seq<char>>, height: int)
    requires
        height >= 1,
    ensures
        forall|i: int|
            0 <= i < pages_of(lines, height).len() ==> 1 <= (#[trigger] pages_of(
                lines,
                height,
            )[i]).len() <= height,
        forall|i: int|
            0 <= i < pages_of(lines, height).len() - 1 ==> (#[trigger] pages_of(
                lines,
                height,
            )[i]).len() == height,
    decreases lines.len(),
{
    if lines.len() == 0 {
    } else if lines.len() <= height {
    } else {
        lemma_height_bound(lines.skip(height), height);
        assert forall|i: int|
            0 <= i < pages_of(lines, height).len() implies 1 <= (#[trigger] pages_of(
            lines,
            height,
        )[i]).len() <= height by {
            if i > 0 {
                assert(pages_of(lines, height)[i] == pages_of(lines.skip(height), height)[i - 1]);
            }
        }
        assert forall|i: int|
            0 <= i < pages_of(lines, height).len() - 1 implies (#[trigger] pages_of(
            lines,
            height,
        )[i]).len() == height by {
            if i > 0 {
                assert(pages_of(lines, height)[i] == pages_of(lines.skip(height), height)[i - 1]);
            }
        }
    }
}

/// Grouping into pages neither reorders, splits, nor drops lines:
/// concatenating the pages gives back exactly the packed line sequence.
pub proof fn lemma_pages_flatten(lines: Seq<Seq<char>>, height: int)
    requires
        height >= 1,
    ensures
        pages_of(lines, height).flatten() == lines,
    decreases lines.len(),
{
    if lines.len() == 0 {
        assert(pages_of(lines, height).flatten() =~= lines);
    } else if lines.len() <= height {
        pages_of(lines, height).lemma_flatten_one_element();
    } else {
        let head = seq![lines.take(height)];
        let rest = pages_of(lines.skip(height), height);
        lemma_flatten_concat(head, rest);
        head.lemma_flatten_one_element();
        lemma_pages_flatten(lines.skip(height), height);
        assert(lines.take(height) + lines.skip(height) =~= lines);
    }
}

/// Every line of every page is one of the packed lines.
pub proof fn lemma_pages_elements(lines: Seq<Seq<char>>, height: int)
    requires
        height >= 1,
    ensures
        forall|i: int, j: int|
            0 <= i < pages_of(lines, height).len() && 0 <= j < pages_of(lines, height)[i].len()
                ==> lines.contains(#[trigger] pages_of(lines, height)[i][j]),
    decreases lines.len(),
{
    if lines.len() == 0 {
    } else if lines.len() <= height {
    } else {
        lemma_pages_elements(lines.skip(height), height);
        assert forall|i: int, j: int|
            0 <= i < pages_of(lines, height).len() && 0 <= j < pages_of(
            lines,
            height,
        )[i].len() implies lines.contains(#[trigger] pages_of(lines, height)[i][j]) by {
            if i == 0 {
                assert(pages_of(lines, height)[0][j] == lines[j]);
            } else {
                assert(pages_of(lines, height)[i] == pages_of(lines.skip(height), height)[i - 1]);
                let e = pages_of(lines, height)[i][j];
                assert(lines.skip(height).contains(e));
                let m = choose|m: int| 0 <= m < lines.skip(height).len() && lines.skip(height)[m]
                    == e;
                assert(lines[m + height] == e);
            }
        }
    }
}

pub proof fn lemma_word_prefix_len_append(u: Seq<char>, v: Seq<char>)
    requires
        v.len() == 0 || is_space(v[0]),
    ensures
        word_prefix_len(u + v) == word_prefix_len(u),
    decreases u.len(),
{
    if u.len() == 0 {
        assert(u + v =~= v);
    } else if is_space(u[0]) {
        assert((u + v)[0] == u[0]);
    } else {
        assert((u + v).drop_first() =~= u.drop_first() + v);
        lemma_word_prefix_len_append(u.drop_first(), v);
    }
}

/// Word splitting distributes over concatenation at a whitespace boundary.
pub proof fn lemma_words_append(u: Seq<char>, v: Seq<char>)
    requires
        v.len() == 0 || is_space(v[0]),
    ensures
        words_of(u + v) == words_of(u) + words_of(v),
    decreases u.len(),
{
    if u.len() == 0 {
        assert(u + v =~= v);
        assert(words_of(u) + words_of(v) =~= words_of(v));
    } else if is_space(u[0]) {
        assert((u + v).drop_first() =~= u.drop_first() + v);
        lemma_words_append(u.drop_first(), v);
    } else {
        lemma_word_prefix_len_append(u, v);
        lemma_word_prefix_len_le(u);
        let k = word_prefix_len(u) as int;
        assert((u + v).take(k) =~= u.take(k));
        assert((u + v).skip(k) =~= u.skip(k) + v);
        lemma_words_append(u.skip(k), v);
        assert(seq![u.take(k)] + (words_of(u.skip(k)) + words_of(v)) =~= (seq![u.take(k)]
            + words_of(u.skip(k))) + words_of(v));
    }
}

/// A non-empty whitespace-free text is a single word.
pub proof fn lemma_words_single(t: Seq<char>)
    requires
        t.len() >= 1,
        space_free(t),
    ensures
        words_of(t) == seq![t],
{
    lemma_word_prefix_len_exact(t, t.len() as int);
    assert(t.take(t.len() as int) =~= t);
    assert(t.skip(t.len() as int) =~= Seq::<char>::empty());
    assert(seq![t] + words_of(Seq::<char>::empty()) =~= seq![t]);
}

/// Splitting each greedily packed line back into words and concatenating the
/// results gives back the current line's words followed by the remaining
/// tokens, in order.
pub proof fn lemma_pack_lines_words(toks: Seq<Seq<char>>, cur: Seq<char>, width: int)
    requires
        forall|i: int|
            0 <= i < toks.len() ==> (#[trigger] toks[i]).len() >= 1 && space_free(toks[i]),
    ensures
        pack_lines(toks, cur, width).map_values(|l: Seq<char>| words_of(l)).flatten() == words_of(
            cur,
        ) + toks,
    decreases toks.len(),
{
    let f = |l: Seq<char>| words_of(l);
    if toks.len() == 0 {
        assert(pack_lines(toks, cur, width).map_values(f) =~= seq![words_of(cur)]);
        seq![words_of(cur)].lemma_flatten_one_element();
        assert(words_of(cur) + toks =~= words_of(cur));
    } else {
        let t = toks.first();
        assert(toks.contains(t));
        assert forall|i: int|
            0 <= i < toks.drop_first().len() implies (#[trigger] toks.drop_first()[i]).len() >= 1
            && space_free(toks.drop_first()[i]) by {
            assert(toks.drop_first()[i] == toks[i + 1]);
        }
        lemma_words_single(t);
        if cur.len() + 1 + t.len() < width {
            let joint = seq![' '] + t;
            let cur2 = cur + seq![' '] + t;
            assert(cur2 =~= cur + joint);
            assert(is_space(joint[0]));
            lemma_words_append(cur, joint);
            assert(joint.drop_first() =~= t);
            assert(words_of(joint) == words_of(t));
            lemma_pack_lines_words(toks.drop_first(), cur2, width);
            assert(pack_lines(toks, cur, width) == pack_lines(toks.drop_first(), cur2, width));
            assert(words_of(cur) + seq![t] + toks.drop_first() =~= words_of(cur) + toks);
            assert(words_of(cur2) + toks.drop_first() =~= words_of(cur) + toks);
        } else {
            lemma_pack_lines_words(toks.drop_first(), t, width);
            let rest = pack_lines(toks.drop_first(), t, width);
            assert(pack_lines(toks, cur, width).map_values(f) =~= seq![f(cur)] + rest.map_values(
                f,
            ));
            lemma_flatten_concat(seq![f(cur)], rest.map_values(f));
            seq![f(cur)].lemma_flatten_one_element();
            assert(words_of(cur) + (seq![t] + toks.drop_first()) =~= words_of(cur) + toks);
            assert(words_of(cur) + (words_of(t) + toks.drop_first()) =~= words_of(cur) + (seq![t]
                + toks.drop_first()));
        }
    }
}

/// Losslessness of packing: splitting the packed lines back into words and
/// concatenating the results gives back exactly the token sequence.
pub proof fn lemma_packed_lines_words(toks: Seq<Seq<char>>, width: int)
    requires
        forall|i: int|
            0 <= i < toks.len() ==> (#[trigger] toks[i]).len() >= 1 && space_free(toks[i]),
    ensures
        packed_lines(toks, width).map_values(|l: Seq<char>| words_of(l)).flatten() == toks,
{
    let f = |l: Seq<char>| words_of(l);
    if toks.len() == 0 {
        assert(packed_lines(toks, width).map_values(f) =~= Seq::<Seq<Seq<char>>>::empty());
        assert(packed_lines(toks, width).map_values(f).flatten() =~= toks);
    } else {
        let t = toks.first();
        assert(toks.contains(t));
        assert forall|i: int|
            0 <= i < toks.drop_first().len() implies (#[trigger] toks.drop_first()[i]).len() >= 1
            && space_free(toks.drop_first()[i]) by {
            assert(toks.drop_first()[i] == toks[i + 1]);
        }
        lemma_pack_lines_words(toks.drop_first(), t, width);
        lemma_words_single(t);
        assert(seq![t] + toks.drop_first() =~= toks);
    }
}

/// Losslessness and order preservation of the whole layout: concatenating
/// the pages into lines, splitting every line back into words (undoing the
/// single spaces, line breaks and page breaks the layout inserted), and
/// concatenating those words reconstructs exactly the token sequence of the
/// input text, in its original order.
pub proof fn lemma_layout_lossless(s: Seq<char>, width: int, height: int)
    requires
        width >= 1,
        height >= 1,
    ensures
        paged_layout(s, width, height).flatten().map_values(
            |l: Seq<char>| words_of(l),
        ).flatten() == tokens_of(s, width),
{
    let toks = tokens_of(s, width);
    lemma_tokens_wellformed(s, width);
    assert forall|i: int|
        0 <= i < toks.len() implies (#[trigger] toks[i]).len() >= 1 && space_free(toks[i]) by {
        assert(wellformed_token(toks[i], width));
    }
    lemma_packed_lines_words(toks, width);
    lemma_pages_flatten(packed_lines(toks, width), height);
}

/// Width bound over the finished layout: every line of every page is
/// strictly shorter than `width`, or is a single unsplit token of exactly
/// `width` characters.
pub proof fn lemma_layout_width_bound(s: Seq<char>, width: int, height: int)
    requires
        width >= 1,
        height >= 1,
    ensures
        forall|i: int, j: int|
            0 <= i < paged_layout(s, width, height).len() && 0 <= j < paged_layout(
                s,
                width,
                height,
            )[i].len() ==> {
                (#[trigger] paged_layout(s, width, height)[i][j]).len() < width || (paged_layout(
                    s,
                    width,
                    height,
                )[i][j].len() == width && tokens_of(s, width).contains(
                    paged_layout(s, width, height)[i][j],
                ))
            },
{
    let lines = packed_lines(tokens_of(s, width), width);
    lemma_width_bound(s, width);
    lemma_pages_elements(lines, height);
    assert forall|i: int, j: int|
        0 <= i < paged_layout(s, width, height).len() && 0 <= j < paged_layout(
        s,
        width,
        height,
    )[i].len() implies {
        (#[trigger] paged_layout(s, width, height)[i][j]).len() < width || (paged_layout(
            s,
            width,
            height,
        )[i][j].len() == width && tokens_of(s, width).contains(paged_layout(s, width, height)[i][j]))
    } by {
        let l = paged_layout(s, width, height)[i][j];
        assert(lines.contains(l));
        let m = choose|m: int| 0 <= m < lines.len() && lines[m] == l;
        assert(lines[m].len() < width || (lines[m].len() == width && tokens_of(s, width).contains(
            lines[m],
        )));
    }
}

/// Height bound over the finished layout: every page holds between one and
/// `height` lines, and only the last page may hold fewer than `height`.
pub proof fn lemma_layout_height_bound(s: Seq<char>, width: int, height: int)
    requires
        width >= 1,
        height >= 1,
    ensures
        forall|i: int|
            0 <= i < paged_layout(s, width, height).len() ==> 1 <= (#[trigger] paged_layout(
                s,
                width,
                height,
            )[i]).len() <= height,
        forall|i: int|
            0 <= i < paged_layout(s, width, height).len() - 1 ==> (#[trigger] paged_layout(
                s,
                width,
                height,
            )[i]).len() == height,
{
    lemma_height_bound(packed_lines(tokens_of(s, width), width), height);
}

/// Decides whether a character counts as whitespace for word splitting.
pub fn is_space_char(c: char) -> (b: bool)
    ensures
        b == is_space(c),
{
    c == ' ' || c == '\n' || c == '\t' || c == '\r'
}

/// Splits `text` into whitespace-delimited words and cuts each word longer
/// than `width` into chunks of exactly `width` characters (the last chunk
/// possibly shorter), preserving character order.
pub fn tokenize(text: &str, width: usize) -> (tokens: Vec<String>)
    requires
        width >= 1,
    ensures
        tokens.deep_view() == tokens_of(text@, width as int),
{
    let n = text.unicode_len();
    let mut tokens: Vec<String> = Vec::new();
    let mut i: usize = 0;
    proof {
        assert(text@.skip(0) =~= text@);
        assert(tokens.deep_view() =~= Seq::<Seq<char>>::empty());
        assert(tokens.deep_view() + tokens_of(text@, width as int) =~= tokens_of(
            text@,
            width as int,
        ));
    }
    while i < n
        invariant
            width >= 1,
            n == text@.len(),
            i <= n,
            tokens.deep_view() + tokens_of(text@.skip(i as int), width as int) == tokens_of(
                text@,
                width as int,
            ),
        decreases n - i,
    {
        let c = text.get_char(i);
        if is_space_char(c) {
            proof {
                let rest = text@.skip(i as int);
                assert(rest.drop_first() =~= text@.skip(i + 1));
                assert(words_of(rest) == words_of(text@.skip(i + 1)));
            }
            i = i + 1;
        } else {
            let mut j: usize = i + 1;
            while j < n && !is_space_char(text.get_char(j))
                invariant
                    n == text@.len(),
                    i < j <= n,
                    forall|m: int| i <= m < j ==> !is_space(text@[m]),
                decreases n - j,
            {
                j = j + 1;
            }
            proof {
                let rest = text@.skip(i as int);
                let word = text@.subrange(i as int, j as int);
                assert forall|m: int| 0 <= m < j - i implies !is_space(rest[m]) by {
                    assert(rest[m] == text@[i + m]);
                }
                lemma_word_prefix_len_exact(rest, j - i);
                lemma_tokens_decomp(rest, width as int);
                assert(rest.take(j - i) =~= word);
                assert(rest.skip(j - i) =~= text@.skip(j as int));
                assert(tokens.deep_view() + chunks_of(
                    text@.subrange(i as int, j as int),
                    width as int,
                ) + tokens_of(text@.skip(j as int), width as int) =~= tokens.deep_view()
                    + tokens_of(rest, width as int));
            }
            let mut k: usize = i;
            while k < j
                invariant
                    width >= 1,
                    n == text@.len(),
                    i <= k <= j <= n,
                    tokens.deep_view() + chunks_of(text@.subrange(k as int, j as int), width as int)
                        + tokens_of(text@.skip(j as int), width as int) == tokens_of(
                        text@,
                        width as int,
                    ),
                decreases j - k,
            {
                let end = if j - k <= width {
                    j
                } else {
                    k + width
                };
                let chunk_slice = text.substring_char(k, end);
                let chunk = chunk_slice.to_owned();
                let ghost prev = tokens.deep_view();
                let ghost piece = text@.subrange(k as int, end as int);
                tokens.push(chunk);
                proof {
                    let whole = text@.subrange(k as int, j as int);
                    let tail = text@.subrange(end as int, j as int);
                    assert(tokens.deep_view() =~= prev + seq![piece]);
                    if j - k <= width {
                        assert(piece =~= whole);
                        assert(tail =~= Seq::<char>::empty());
                        assert(chunks_of(whole, width as int) == seq![whole]);
                        assert(prev + seq![piece] + chunks_of(tail, width as int) =~= prev
                            + chunks_of(whole, width as int));
                    } else {
                        assert(whole.take(width as int) =~= piece);
                        assert(whole.skip(width as int) =~= tail);
                        assert(chunks_of(whole, width as int) == seq![piece] + chunks_of(
                            tail,
                            width as int,
                        ));
                        assert(prev + seq![piece] + chunks_of(tail, width as int) =~= prev
                            + chunks_of(whole, width as int));
                    }
                    assert(prev + seq![piece] + chunks_of(tail, width as int) + tokens_of(
                        text@.skip(j as int),
                        width as int,
                    ) =~= prev + chunks_of(whole, width as int) + tokens_of(
                        text@.skip(j as int),
                        width as int,
                    ));
                }
                k = end;
            }
            proof {
                assert(text@.subrange(j as int, j as int) =~= Seq::<char>::empty());
                assert(tokens.deep_view() + chunks_of(
                    text@.subrange(j as int, j as int),
                    width as int,
                ) + tokens_of(text@.skip(j as int), width as int) =~= tokens.deep_view()
                    + tokens_of(text@.skip(j as int), width as int));
            }
            i = j;
        }
    }
    proof {
        assert(text@.skip(n as int) =~= Seq::<char>::empty());
        assert(tokens.deep_view() + tokens_of(Seq::<char>::empty(), width as int)
            =~= tokens.deep_view());
    }
    tokens
}

/// Packs tokens greedily into lines: a token joins the current line only if
/// the joined length (one space inserted) stays strictly below `width`;
/// otherwise it opens a new line. The token order is kept.
pub fn pack_into_lines(tokens: &Vec<String>, width: usize) -> (lines: Vec<String>)
    requires
        width >= 1,
    ensures
        lines.deep_view() == packed_lines(tokens.deep_view(), width as int),
{
    let mut lines: Vec<String> = Vec::new();
    if tokens.len() == 0 {
        proof {
            assert(lines.deep_view() =~= Seq::<Seq<char>>::empty());
            assert(packed_lines(tokens.deep_view(), width as int) =~= Seq::<Seq<char>>::empty());
        }
        return lines;
    }
    let mut buf: String = tokens[0].clone();
    let mut idx: usize = 1;
    proof {
        assert(tokens.deep_view().skip(1) =~= tokens.deep_view().drop_first());
        assert(buf@ == tokens.deep_view().first());
        assert(lines.deep_view() =~= Seq::<Seq<char>>::empty());
        assert(lines.deep_view() + pack_lines(
            tokens.deep_view().drop_first(),
            buf@,
            width as int,
        ) =~= pack_lines(tokens.deep_view().drop_first(), buf@, width as int));
    }
    while idx < tokens.len()
        invariant
            width >= 1,
            1 <= idx <= tokens.len(),
            lines.deep_view() + pack_lines(
                tokens.deep_view().skip(idx as int),
                buf@,
                width as int,
            ) == packed_lines(tokens.deep_view(), width as int),
        decreases tokens.len() - idx,
    {
        let bl = buf.as_str().unicode_len();
        let tl = tokens[idx].as_str().unicode_len();
        let fits = bl < width && tl < width - bl - 1;
        proof {
            let toks = tokens.deep_view().skip(idx as int);
            assert(toks.first() == tokens.deep_view()[idx as int]);
            assert(toks.drop_first() =~= tokens.deep_view().skip(idx + 1));
            assert(fits == (buf@.len() + 1 + toks.first().len() < width));
        }
        if fits {
            let ghost b0 = buf@;
            buf.append(" ");
            buf.append(tokens[idx].as_str());
            proof {
                reveal_strlit(" ");
                assert(" "@ =~= seq![' ']);
                assert(buf@ == b0 + seq![' '] + tokens.deep_view()[idx as int]);
            }
        } else {
            let ghost closed = buf@;
            let ghost prev = lines.deep_view();
            lines.push(buf);
            buf = tokens[idx].clone();
            proof {
                assert(lines.deep_view() =~= prev + seq![closed]);
                assert(prev + seq![closed] + pack_lines(
                    tokens.deep_view().skip(idx + 1),
                    buf@,
                    width as int,
                ) =~= prev + (seq![closed] + pack_lines(
                    tokens.deep_view().skip(idx + 1),
                    buf@,
                    width as int,
                )));
            }
        }
        idx = idx + 1;
    }
    let ghost prev = lines.deep_view();
    let ghost last = buf@;
    lines.push(buf);
    proof {
        assert(tokens.deep_view().skip(idx as int) =~= Seq::<Seq<char>>::empty());
        assert(lines.deep_view() =~= prev + seq![last]);
    }
    lines
}

/// Groups the lines into consecutive pages of exactly `height` lines, the
/// last page holding between one and `height` lines, keeping the line order.
pub fn group_into_pages(lines: &Vec<String>, height: usize) -> (pages: Vec<Icrc21Page>)
    requires
        height >= 1,
    ensures
        pages.deep_view() == pages_of(lines.deep_view(), height as int),
{
    let mut pages: Vec<Icrc21Page> = Vec::new();
    let mut i: usize = 0;
    proof {
        assert(lines.deep_view().skip(0) =~= lines.deep_view());
        assert(pages.deep_view() =~= Seq::<Seq<Seq<char>>>::empty());
        assert(pages.deep_view() + pages_of(lines.deep_view(), height as int) =~= pages_of(
            lines.deep_view(),
            height as int,
        ));
    }
    while i < lines.len()
        invariant
            height >= 1,
            i <= lines.len(),
            pages.deep_view() + pages_of(lines.deep_view().skip(i as int), height as int)
                == pages_of(lines.deep_view(), height as int),
        decreases lines.len() - i,
    {
        let end = if lines.len() - i <= height {
            lines.len()
        } else {
            i + height
        };
        let mut page_lines: Vec<String> = Vec::new();
        let mut k: usize = i;
        proof {
            assert(page_lines.deep_view() =~= lines.deep_view().subrange(i as int, i as int));
        }
        while k < end
            invariant
                i <= k <= end <= lines.len(),
                page_lines.deep_view() == lines.deep_view().subrange(i as int, k as int),
            decreases end - k,
        {
            let ghost prev_page = page_lines.deep_view();
            let line = lines[k].clone();
            page_lines.push(line);
            proof {
                assert(page_lines.deep_view() =~= prev_page + seq![lines.deep_view()[k as int]]);
                assert(page_lines.deep_view() =~= lines.deep_view().subrange(i as int, k + 1));
            }
            k = k + 1;
        }
        let ghost prev = pages.deep_view();
        let ghost page_view = page_lines.deep_view();
        pages.push(Icrc21Page { lines: page_lines });
        proof {
            let rem = lines.deep_view().skip(i as int);
            assert(pages.deep_view() =~= prev + seq![page_view]);
            if lines.len() - i <= height {
                assert(page_view =~= rem);
                assert(pages_of(rem, height as int) == seq![rem]);
                assert(lines.deep_view().skip(end as int) =~= Seq::<Seq<char>>::empty());
                assert(prev + seq![page_view] + pages_of(
                    lines.deep_view().skip(end as int),
                    height as int,
                ) =~= prev + pages_of(rem, height as int));
            } else {
                assert(rem.take(height as int) =~= page_view);
                assert(rem.skip(height as int) =~= lines.deep_view().skip(end as int));
                assert(pages_of(rem, height as int) == seq![page_view] + pages_of(
                    lines.deep_view().skip(end as int),
                    height as int,
                ));
                assert(prev + seq![page_view] + pages_of(
                    lines.deep_view().skip(end as int),
                    height as int,
                ) =~= prev + pages_of(rem, height as int));
            }
        }
        i = end;
    }
    proof {
        assert(lines.deep_view().skip(i as int) =~= Seq::<Seq<char>>::empty());
        assert(pages.deep_view() + pages_of(Seq::<Seq<char>>::empty(), height as int)
            =~= pages.deep_view());
    }
    pages
}

/// The complete layout engine: splits `text` into tokens of at most `width`
/// characters, packs them greedily into lines, and groups the lines into
/// pages of at most `height` lines.
pub fn layout_paged(text: &str, width: usize, height: usize) -> (pages: Vec<Icrc21Page>)
    requires
        width >= 1,
        height >= 1,
    ensures
        pages.deep_view() == paged_layout(text@, width as int, height as int),
{
    let tokens = tokenize(text, width);
    let lines = pack_into_lines(&tokens, width);
    group_into_pages(&lines, height)
}

} // verus!
