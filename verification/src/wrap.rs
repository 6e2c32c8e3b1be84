//! Breaking text into lines that fit the width of the terminal.

use crate::article::{ArticleKind, ArticleLine, LineData};
use crate::text::{
    chars_of, extend_chars, is_space, is_word, lemma_run, lemma_run_is, lemma_words, not_space,
    other_than, run, split_at_char, split_on, split_words, string_of, words,
};
use vstd::prelude::*;
use vstd::slice::slice_subrange;

verus! {

// ---------------------------------------------------------------------------
// The text of a prompt
// ---------------------------------------------------------------------------

/// `s` in pieces of `width` characters, of which the last may be shorter.
pub open spec fn chunks(s: Seq<char>, width: nat) -> Seq<Seq<char>>
    decreases s.len(),
{
    if s.len() == 0 || width == 0 {
        seq![]
    } else if s.len() <= width {
        seq![s]
    } else {
        seq![s.take(width as int)] + chunks(s.skip(width as int), width)
    }
}

/// The rows in which one line of a prompt is shown: an empty line takes one
/// row.
pub open spec fn prompt_rows(line: Seq<char>, width: nat) -> Seq<Seq<char>> {
    if line.len() == 0 {
        seq![seq![]]
    } else {
        chunks(line, width)
    }
}

/// The rows of several lines of a prompt, one line after the other.
pub open spec fn prompt_rows_all(ls: Seq<Seq<char>>, width: nat) -> Seq<Seq<char>>
    decreases ls.len(),
{
    if ls.len() == 0 {
        seq![]
    } else {
        prompt_rows_all(ls.drop_last(), width) + prompt_rows(ls.last(), width)
    }
}

/// The rows in which the text of a prompt is shown.
pub open spec fn wrapped_prompt(s: Seq<char>, width: nat) -> Seq<Seq<char>> {
    if width == 0 {
        seq![seq![]]
    } else {
        prompt_rows_all(split_on(s, '\n'), width)
    }
}

/// Appends the pieces of `width` characters of `s` to `out`.
fn push_chunks(s: &[char], width: usize, out: &mut Vec<String>)
    requires
        width > 0,
    ensures
        final(out).deep_view() == old(out).deep_view() + chunks(s@, width as nat),
{
    let ghost before = out.deep_view();
    let ghost all = chunks(s@, width as nat);
    let mut i: usize = 0;
    assert(s@.skip(0) == s@);
    assert(before + all =~= out.deep_view() + chunks(s@.skip(0), width as nat));
    while i < s.len()
        invariant
            width > 0,
            i <= s@.len(),
            before + all == out.deep_view() + chunks(s@.skip(i as int), width as nat),
        decreases s@.len() - i,
    {
        let ghost rest = s@.skip(i as int);
        let ghost done = out.deep_view();
        let j: usize = if s.len() - i <= width {
            s.len()
        } else {
            i + width
        };
        let ghost piece = s@.subrange(i as int, j as int);
        out.push(string_of(slice_subrange(s, i, j)));
        assert(out.deep_view() =~= done.push(piece));
        proof {
            if rest.len() <= width {
                assert(piece == rest);
                assert(s@.skip(j as int).len() == 0);
            } else {
                assert(piece == rest.take(width as int));
                assert(rest.skip(width as int) == s@.skip(j as int));
            }
            assert(chunks(rest, width as nat) =~= seq![piece] + chunks(
                s@.skip(j as int),
                width as nat,
            ));
            assert(done + (seq![piece] + chunks(s@.skip(j as int), width as nat))
                =~= out.deep_view() + chunks(s@.skip(j as int), width as nat));
        }
        i = j;
    }
    assert(s@.skip(i as int).len() == 0);
    assert(out.deep_view() =~= before + all);
}

/// The rows in which the text of a prompt is shown: its lines in pieces of
/// `width` characters. A terminal without columns shows one empty row.
pub fn wrap_prompt_text(s: &str, width: usize) -> (out: Vec<String>)
    ensures
        out.deep_view() == wrapped_prompt(s@, width as nat),
        out@.len() >= 1,
{
    let mut out: Vec<String> = Vec::new();
    if width == 0 {
        out.push(String::new());
        assert(out.deep_view() =~= seq![Seq::<char>::empty()]);
        return out;
    }
    let parts: Vec<String> = split_at_char(&chars_of(s), '\n');
    let ghost ls = split_on(s@, '\n');
    assert(ls.len() == parts@.len());
    let mut i: usize = 0;
    while i < parts.len()
        invariant
            width > 0,
            i <= parts@.len(),
            ls == parts.deep_view(),
            ls.len() == parts@.len(),
            out.deep_view() == prompt_rows_all(ls.take(i as int), width as nat),
        decreases parts@.len() - i,
    {
        let ghost done = out.deep_view();
        assert(ls[i as int] == parts@[i as int]@);
        assert(ls.take(i + 1).drop_last() == ls.take(i as int));
        let raw: Vec<char> = chars_of(parts[i].as_str());
        if raw.is_empty() {
            out.push(String::new());
            assert(out.deep_view() =~= done + seq![Seq::<char>::empty()]);
        } else {
            push_chunks(&raw, width, &mut out);
        }
        i = i + 1;
    }
    assert(ls.take(i as int) == ls);
    proof {
        lemma_prompt_rows_nonempty(s@, width as nat);
        assert(out.deep_view().len() == out@.len());
    }
    out
}

/// A prompt takes at least one row.
pub proof fn lemma_prompt_rows_nonempty(s: Seq<char>, width: nat)
    ensures
        wrapped_prompt(s, width).len() >= 1,
{
    if width > 0 {
        let ls = split_on(s, '\n');
        assert(ls.len() >= 1);
        lemma_chunks(ls.last(), width);
    }
}

/// No piece is longer than `width`, and the pieces make up the text.
pub proof fn lemma_chunks(s: Seq<char>, width: nat)
    requires
        width > 0,
    ensures
        forall|i: int|
            0 <= i < chunks(s, width).len() ==> (#[trigger] chunks(s, width)[i]).len() <= width,
        chunks(s, width).flatten() == s,
        s.len() > 0 ==> chunks(s, width).len() > 0,
    decreases s.len(),
{
    let all = chunks(s, width);
    if s.len() == 0 {
        assert(all.flatten() =~= s);
    } else if s.len() <= width {
        all.lemma_flatten_one_element();
        assert(all.flatten() =~= s);
    } else {
        let rest = s.skip(width as int);
        lemma_chunks(rest, width);
        assert(all.drop_first() =~= chunks(rest, width));
        assert(all.flatten() =~= s.take(width as int) + rest);
        assert forall|i: int| 0 <= i < all.len() implies (#[trigger] all[i]).len() <= width by {
            if i > 0 {
                assert(all[i] == chunks(rest, width)[i - 1]);
            }
        }
    }
}

/// No row of a prompt is wider than the terminal, and the rows show every
/// character of the text but the line feeds, in order.
pub proof fn law_prompt_rows(s: Seq<char>, width: nat)
    requires
        width > 0,
    ensures
        forall|i: int|
            0 <= i < wrapped_prompt(s, width).len() ==> (#[trigger] wrapped_prompt(
                s,
                width,
            )[i]).len() <= width,
        wrapped_prompt(s, width).flatten() == s.filter(|c: char| c != '\n'),
{
    let ls = split_on(s, '\n');
    lemma_prompt_rows_all(ls, width);
    lemma_split_flatten(s, '\n');
}

/// The same of the rows of several lines: they show the lines, one after the
/// other.
proof fn lemma_prompt_rows_all(ls: Seq<Seq<char>>, width: nat)
    requires
        width > 0,
    ensures
        forall|i: int|
            0 <= i < prompt_rows_all(ls, width).len() ==> (#[trigger] prompt_rows_all(
                ls,
                width,
            )[i]).len() <= width,
        prompt_rows_all(ls, width).flatten() == ls.flatten(),
    decreases ls.len(),
{
    let all = prompt_rows_all(ls, width);
    if ls.len() == 0 {
        assert(all.flatten() =~= ls.flatten());
    } else {
        let init = ls.drop_last();
        lemma_prompt_rows_all(init, width);
        let row = prompt_rows(ls.last(), width);
        if ls.last().len() == 0 {
            row.lemma_flatten_one_element();
            assert(row.flatten() =~= ls.last());
        } else {
            lemma_chunks(ls.last(), width);
        }
        vstd::seq_lib::lemma_flatten_concat(prompt_rows_all(init, width), row);
        vstd::seq_lib::lemma_flatten_concat(init, seq![ls.last()]);
        assert(init + seq![ls.last()] =~= ls);
        seq![ls.last()].lemma_flatten_one_element();
        assert forall|i: int| 0 <= i < all.len() implies (#[trigger] all[i]).len() <= width by {
            let k = prompt_rows_all(init, width).len();
            if i >= k {
                assert(all[i] == row[i - k]);
            } else {
                assert(all[i] == prompt_rows_all(init, width)[i]);
            }
        }
    }
}

/// The pieces between the characters `x` are the text without them.
proof fn lemma_split_flatten(s: Seq<char>, x: char)
    ensures
        split_on(s, x).flatten() == s.filter(|c: char| c != x),
    decreases s.len(),
{
    let p = |c: char| c != x;
    let n = run(s, other_than(x));
    lemma_run(s, other_than(x));
    if n >= s.len() {
        seq![s].lemma_flatten_one_element();
        lemma_filter_all(s, p);
    } else {
        let head = s.take(n as int);
        let rest = s.skip((n + 1) as int);
        lemma_split_flatten(rest, x);
        vstd::seq_lib::lemma_flatten_concat(seq![head], split_on(rest, x));
        seq![head].lemma_flatten_one_element();
        assert(s =~= head + (seq![x] + rest));
        Seq::filter_distributes_over_add(head, seq![x] + rest, p);
        Seq::filter_distributes_over_add(seq![x], rest, p);
        lemma_filter_all(head, p);
        assert(seq![x].filter(p) =~= Seq::empty()) by {
            seq![x].lemma_all_neg_filter_empty(p);
        }
        assert(s.filter(p) =~= head + rest.filter(p));
    }
}

/// A filter that lets every element pass changes nothing.
pub proof fn lemma_filter_all(s: Seq<char>, p: spec_fn(char) -> bool)
    requires
        forall|i: int| 0 <= i < s.len() ==> p(#[trigger] s[i]),
    ensures
        s.filter(p) == s,
    decreases s.len(),
{
    reveal(Seq::filter);
    if s.len() > 0 {
        let init = s.drop_last();
        assert forall|i: int| 0 <= i < init.len() implies p(#[trigger] init[i]) by {
            assert(init[i] == s[i]);
        }
        lemma_filter_all(init, p);
        assert(s.filter(p) =~= s);
    } else {
        assert(s.filter(p) =~= s);
    }
}

// ---------------------------------------------------------------------------
// The lines of an article
// ---------------------------------------------------------------------------

/// The pieces of exactly `width` characters that a word is cut into.
pub open spec fn full_pieces(word: Seq<char>, width: nat) -> Seq<Seq<char>>
    decreases word.len(),
{
    if width == 0 || word.len() < width {
        seq![]
    } else {
        seq![word.take(width as int)] + full_pieces(word.skip(width as int), width)
    }
}

/// What is left of a word when the pieces of exactly `width` characters are
/// cut off.
pub open spec fn last_piece(word: Seq<char>, width: nat) -> Seq<char>
    decreases word.len(),
{
    if width == 0 || word.len() < width {
        word
    } else {
        last_piece(word.skip(width as int), width)
    }
}

/// The lines that end before `word` does when it starts a new line: none for
/// a word that fits.
pub open spec fn placed(word: Seq<char>, width: nat) -> Seq<Seq<char>> {
    if word.len() <= width {
        seq![]
    } else {
        full_pieces(word, width)
    }
}

/// The beginning of the next line after `word` has started a new line.
pub open spec fn carried(word: Seq<char>, width: nat) -> Seq<char> {
    if word.len() <= width {
        word
    } else {
        last_piece(word, width)
    }
}

/// The lines into which the words `ws` flow after the line `cur` that has
/// begun. As many words as fit share a line, with one blank between them; a
/// word longer than a whole line is cut.
pub open spec fn flow(ws: Seq<Seq<char>>, width: nat, cur: Seq<char>) -> Seq<Seq<char>>
    decreases ws.len(),
{
    if ws.len() == 0 {
        if cur.len() == 0 {
            seq![]
        } else {
            seq![cur]
        }
    } else {
        let w = ws[0];
        let rest = ws.drop_first();
        if cur.len() == 0 {
            placed(w, width) + flow(rest, width, carried(w, width))
        } else if cur.len() + 1 + w.len() <= width {
            flow(rest, width, cur + seq![' '] + w)
        } else {
            seq![cur] + (placed(w, width) + flow(rest, width, carried(w, width)))
        }
    }
}

/// The lines into which a text is broken. A text without words is one empty
/// line.
pub open spec fn broken(text: Seq<char>, width: nat) -> Seq<Seq<char>> {
    let ws = words(text);
    if ws.len() == 0 {
        seq![seq![]]
    } else {
        flow(ws, width, seq![])
    }
}

/// The texts as lines of one kind.
pub open spec fn of_kind(kind: ArticleKind, texts: Seq<Seq<char>>) -> Seq<LineData> {
    texts.map_values(|text: Seq<char>| LineData { kind, text })
}

/// The lines into which several lines are broken, each in its own kind.
pub open spec fn broken_all(ls: Seq<LineData>, width: nat) -> Seq<LineData>
    decreases ls.len(),
{
    if ls.len() == 0 {
        seq![]
    } else {
        broken_all(ls.drop_last(), width) + of_kind(ls.last().kind, broken(ls.last().text, width))
    }
}

/// The lines of an article as they are shown on a terminal of the given
/// width. There is always at least one.
pub open spec fn wrapped_lines(ls: Seq<LineData>, width: nat) -> Seq<LineData> {
    if width == 0 || ls.len() == 0 {
        seq![LineData { kind: ArticleKind::Blank, text: seq![] }]
    } else {
        broken_all(ls, width)
    }
}

/// Lines of one kind, taken together.
proof fn lemma_of_kind_add(kind: ArticleKind, a: Seq<Seq<char>>, b: Seq<Seq<char>>)
    ensures
        of_kind(kind, a + b) == of_kind(kind, a) + of_kind(kind, b),
{
    assert(of_kind(kind, a + b) =~= of_kind(kind, a) + of_kind(kind, b));
}

/// Starts a new line with `word`: appends the lines that end before the word
/// does, and returns the beginning of the next one.
fn place_word(word: &[char], width: usize, kind: ArticleKind, out: &mut Vec<ArticleLine>) -> (cur:
    Vec<char>)
    requires
        width > 0,
    ensures
        final(out).deep_view() == old(out).deep_view() + of_kind(kind, placed(word@, width as nat)),
        cur@ == carried(word@, width as nat),
{
    let ghost before = out.deep_view();
    if word.len() <= width {
        assert(out.deep_view() =~= before + of_kind(kind, seq![]));
        return vstd::slice::slice_to_vec(word);
    }
    let ghost all = full_pieces(word@, width as nat);
    let mut i: usize = 0;
    assert(word@.skip(0) == word@);
    assert(out.deep_view() + of_kind(kind, all) =~= before + of_kind(kind, all));
    while word.len() - i >= width
        invariant
            width > 0,
            i <= word@.len(),
            before + of_kind(kind, all) == out.deep_view() + of_kind(
                kind,
                full_pieces(word@.skip(i as int), width as nat),
            ),
            last_piece(word@, width as nat) == last_piece(word@.skip(i as int), width as nat),
        decreases word@.len() - i,
    {
        let ghost done = out.deep_view();
        let ghost rest = word@.skip(i as int);
        let ghost piece = rest.take(width as int);
        let ghost tail = full_pieces(word@.skip(i + width), width as nat);
        assert(piece == word@.subrange(i as int, i + width));
        assert(rest.skip(width as int) == word@.skip(i + width));
        out.push(ArticleLine::new(kind, string_of(slice_subrange(word, i, i + width))));
        proof {
            lemma_of_kind_add(kind, seq![piece], tail);
            assert(out.deep_view() =~= done + of_kind(kind, seq![piece]));
            assert(done + (of_kind(kind, seq![piece]) + of_kind(kind, tail)) =~= out.deep_view()
                + of_kind(kind, tail));
        }
        i = i + width;
    }
    assert(out.deep_view() + of_kind(kind, seq![]) =~= out.deep_view());
    assert(word@.skip(i as int) == word@.subrange(i as int, word@.len() as int));
    vstd::slice::slice_to_vec(slice_subrange(word, i, word.len()))
}

/// Breaks the text of one line and appends the lines that it gives.
fn wrap_line(line: &ArticleLine, width: usize, out: &mut Vec<ArticleLine>)
    requires
        width > 0,
    ensures
        final(out).deep_view() == old(out).deep_view() + of_kind(
            line.kind,
            broken(line.text@, width as nat),
        ),
{
    let ghost before = out.deep_view();
    let kind: ArticleKind = line.kind;
    let parts: Vec<String> = split_words(&chars_of(line.text.as_str()));
    let ghost ws = words(line.text@);
    assert(ws.len() == parts@.len());
    if parts.is_empty() {
        out.push(ArticleLine::new(kind, String::new()));
        assert(out.deep_view() =~= before + of_kind(kind, seq![seq![]]));
        return;
    }
    let ghost all = of_kind(kind, flow(ws, width as nat, seq![]));
    let mut cur: Vec<char> = Vec::new();
    let mut i: usize = 0;
    assert(ws.skip(0) == ws);
    assert(cur@ == Seq::<char>::empty());
    while i < parts.len()
        invariant
            width > 0,
            i <= parts@.len(),
            ws == parts.deep_view(),
            ws.len() == parts@.len(),
            before + all == out.deep_view() + of_kind(
                kind,
                flow(ws.skip(i as int), width as nat, cur@),
            ),
        decreases parts@.len() - i,
    {
        let ghost done = out.deep_view();
        let ghost old_cur = cur@;
        let ghost rest = ws.skip(i as int);
        let ghost w = rest[0];
        assert(w == parts@[i as int]@);
        assert(rest.drop_first() == ws.skip(i + 1));
        let word: Vec<char> = chars_of(parts[i].as_str());
        if cur.is_empty() {
            cur = place_word(&word, width, kind, out);
            proof {
                let tail = flow(ws.skip(i + 1), width as nat, cur@);
                lemma_of_kind_add(kind, placed(w, width as nat), tail);
                assert(done + (of_kind(kind, placed(w, width as nat)) + of_kind(kind, tail))
                    =~= out.deep_view() + of_kind(kind, tail));
            }
        } else if word.len() < width && cur.len() <= width - 1 - word.len() {
            cur.push(' ');
            assert(cur@ =~= old_cur + seq![' ']);
            extend_chars(&mut cur, &word);
        } else {
            out.push(ArticleLine::new(kind, string_of(&cur)));
            cur = place_word(&word, width, kind, out);
            proof {
                let mid = placed(w, width as nat);
                let tail = flow(ws.skip(i + 1), width as nat, cur@);
                lemma_of_kind_add(kind, seq![old_cur], mid + tail);
                lemma_of_kind_add(kind, mid, tail);
                assert(done + (of_kind(kind, seq![old_cur]) + (of_kind(kind, mid) + of_kind(
                    kind,
                    tail,
                ))) =~= out.deep_view() + of_kind(kind, tail)) by {
                    assert(out.deep_view() =~= done + of_kind(kind, seq![old_cur]) + of_kind(
                        kind,
                        mid,
                    ));
                }
            }
        }
        i = i + 1;
    }
    let ghost done = out.deep_view();
    assert(ws.skip(i as int).len() == 0);
    if !cur.is_empty() {
        out.push(ArticleLine::new(kind, string_of(&cur)));
        assert(out.deep_view() =~= done + of_kind(kind, seq![cur@]));
    } else {
        assert(out.deep_view() =~= done + of_kind(kind, seq![]));
    }
}

/// The lines of an article as they are shown on a terminal with `width`
/// columns: each line is broken between its words, and a word that is longer
/// than a whole line is cut.
pub fn wrap_lines_for_width(lines: &[ArticleLine], width: usize) -> (out: Vec<ArticleLine>)
    ensures
        out.deep_view() == wrapped_lines(lines.deep_view(), width as nat),
        out@.len() >= 1,
{
    let mut out: Vec<ArticleLine> = Vec::new();
    let ghost ls = lines.deep_view();
    assert(ls.len() == lines@.len());
    if width > 0 {
        let mut i: usize = 0;
        assert(ls.take(0) =~= seq![]);
        while i < lines.len()
            invariant
                width > 0,
                i <= lines@.len(),
                ls == lines.deep_view(),
                ls.len() == lines@.len(),
                out.deep_view() == broken_all(ls.take(i as int), width as nat),
            decreases lines@.len() - i,
        {
            assert(ls[i as int] == lines@[i as int].deep_view());
            assert(ls.take(i + 1).drop_last() == ls.take(i as int));
            wrap_line(&lines[i], width, &mut out);
            i = i + 1;
        }
        assert(ls.take(i as int) == ls);
    }
    assert(out.deep_view().len() == out@.len());
    proof {
        if width > 0 && ls.len() > 0 {
            lemma_broken_nonempty(ls.last().text, width as nat);
        }
    }
    if out.is_empty() {
        out.push(ArticleLine::new(ArticleKind::Blank, String::new()));
        assert(out.deep_view() =~= wrapped_lines(ls, width as nat));
    }
    out
}

/// Words that are not empty flow into at least one line.
proof fn lemma_flow_nonempty(ws: Seq<Seq<char>>, width: nat, cur: Seq<char>)
    requires
        width > 0,
        cur.len() > 0 || (ws.len() > 0 && ws[0].len() > 0),
    ensures
        flow(ws, width, cur).len() > 0,
    decreases ws.len(),
{
    if ws.len() > 0 {
        let w = ws[0];
        if cur.len() == 0 {
            if w.len() <= width {
                lemma_flow_nonempty(ws.drop_first(), width, w);
            }
        } else if cur.len() + 1 + w.len() <= width {
            lemma_flow_nonempty(ws.drop_first(), width, cur + seq![' '] + w);
        }
    }
}

/// A text is broken into at least one line.
pub proof fn lemma_broken_nonempty(text: Seq<char>, width: nat)
    requires
        width > 0,
    ensures
        broken(text, width).len() > 0,
{
    let ws = words(text);
    if ws.len() > 0 {
        lemma_words(text);
        lemma_flow_nonempty(ws, width, seq![]);
    }
}

// ---------------------------------------------------------------------------
// What wrapping keeps
// ---------------------------------------------------------------------------

/// The texts of lines.
pub open spec fn texts(ls: Seq<LineData>) -> Seq<Seq<char>> {
    ls.map_values(|l: LineData| l.text)
}

/// The characters of `s` that are no white space.
pub open spec fn ink(s: Seq<char>) -> Seq<char> {
    s.filter(not_space())
}

/// The pieces of a word are not too long, and make up the word.
proof fn lemma_pieces(word: Seq<char>, width: nat)
    requires
        width > 0,
    ensures
        forall|i: int|
            0 <= i < full_pieces(word, width).len() ==> (#[trigger] full_pieces(
                word,
                width,
            )[i]).len() == width,
        last_piece(word, width).len() < width,
        full_pieces(word, width).flatten() + last_piece(word, width) == word,
        is_word(word) ==> forall|i: int|
            0 <= i < full_pieces(word, width).len() ==> is_word(
                #[trigger] full_pieces(word, width)[i],
            ),
        is_word(word) && last_piece(word, width).len() > 0 ==> is_word(last_piece(word, width)),
    decreases word.len(),
{
    let all = full_pieces(word, width);
    if word.len() < width {
        assert(all.flatten() + last_piece(word, width) =~= word);
    } else {
        let head = word.take(width as int);
        let rest = word.skip(width as int);
        lemma_pieces(rest, width);
        assert(all.drop_first() =~= full_pieces(rest, width));
        assert(all.flatten() =~= head + full_pieces(rest, width).flatten());
        assert(all.flatten() + last_piece(word, width) =~= head + (full_pieces(rest, width).flatten()
            + last_piece(rest, width)));
        assert(head + rest =~= word);
        if is_word(word) {
            assert forall|k: int| 0 <= k < head.len() implies !is_space(#[trigger] head[k]) by {
                assert(head[k] == word[k]);
            }
            assert forall|k: int| 0 <= k < rest.len() implies !is_space(#[trigger] rest[k]) by {
                assert(rest[k] == word[k + width]);
            }
            if rest.len() == 0 {
                assert(full_pieces(rest, width).len() == 0);
            }
        }
        assert forall|i: int| 0 <= i < all.len() implies (#[trigger] all[i]).len() == width && (
        is_word(word) ==> is_word(all[i])) by {
            if i > 0 {
                assert(all[i] == full_pieces(rest, width)[i - 1]);
            }
        }
    }
}

/// The same of a word that starts a new line.
proof fn lemma_placed(word: Seq<char>, width: nat)
    requires
        width > 0,
    ensures
        forall|i: int|
            0 <= i < placed(word, width).len() ==> (#[trigger] placed(word, width)[i]).len()
                <= width,
        carried(word, width).len() <= width,
        placed(word, width).flatten() + carried(word, width) == word,
        is_word(word) ==> forall|i: int|
            0 <= i < placed(word, width).len() ==> is_word(#[trigger] placed(word, width)[i]),
        is_word(word) && carried(word, width).len() > 0 ==> is_word(carried(word, width)),
{
    lemma_pieces(word, width);
    if word.len() <= width {
        assert(placed(word, width).flatten() + carried(word, width) =~= word);
    }
}

/// No line into which words flow is longer than `width`.
proof fn lemma_flow_width(ws: Seq<Seq<char>>, width: nat, cur: Seq<char>)
    requires
        width > 0,
        cur.len() <= width,
    ensures
        forall|i: int|
            0 <= i < flow(ws, width, cur).len() ==> (#[trigger] flow(ws, width, cur)[i]).len()
                <= width,
    decreases ws.len(),
{
    if ws.len() > 0 {
        let w = ws[0];
        let rest = ws.drop_first();
        lemma_placed(w, width);
        lemma_flow_width(rest, width, carried(w, width));
        if cur.len() + 1 + w.len() <= width {
            lemma_flow_width(rest, width, cur + seq![' '] + w);
        }
        let mid = placed(w, width);
        let tail = flow(rest, width, carried(w, width));
        let all = flow(ws, width, cur);
        assert forall|i: int| 0 <= i < all.len() implies (#[trigger] all[i]).len() <= width by {
            if cur.len() == 0 {
                assert(all == mid + tail);
                assert(i < mid.len() ==> all[i] == mid[i]);
                assert(i >= mid.len() ==> all[i] == tail[i - mid.len()]);
            } else if cur.len() + 1 + w.len() <= width {
                assert(all == flow(rest, width, cur + seq![' '] + w));
            } else {
                assert(all == seq![cur] + (mid + tail));
                assert(i >= 1 && i - 1 < mid.len() ==> all[i] == mid[i - 1]);
                assert(i - 1 >= mid.len() ==> all[i] == tail[i - 1 - mid.len()]);
            }
        }
    }
}

/// The words keep their characters when they flow into lines, in order.
proof fn lemma_flow_ink(ws: Seq<Seq<char>>, width: nat, cur: Seq<char>)
    requires
        width > 0,
    ensures
        ink(flow(ws, width, cur).flatten()) == ink(cur) + ink(ws.flatten()),
    decreases ws.len(),
{
    let p = not_space();
    if ws.len() == 0 {
        assert(ws.flatten() =~= seq![]);
        assert(ink(ws.flatten()) =~= seq![]);
        if cur.len() == 0 {
            assert(cur =~= seq![]);
            assert(flow(ws, width, cur).flatten() =~= seq![]);
            assert(ink(cur) + ink(ws.flatten()) =~= seq![]);
        } else {
            seq![cur].lemma_flatten_one_element();
            assert(ink(cur) + ink(ws.flatten()) =~= ink(cur));
        }
    } else {
        let w = ws[0];
        let rest = ws.drop_first();
        assert(ws.flatten() =~= w + rest.flatten());
        Seq::filter_distributes_over_add(w, rest.flatten(), p);
        lemma_placed(w, width);
        let mid = placed(w, width);
        let car = carried(w, width);
        let tail = flow(rest, width, car);
        lemma_flow_ink(rest, width, car);
        vstd::seq_lib::lemma_flatten_concat(mid, tail);
        Seq::filter_distributes_over_add(mid.flatten(), tail.flatten(), p);
        Seq::filter_distributes_over_add(mid.flatten(), car, p);
        assert(ink((mid + tail).flatten()) =~= ink(w) + ink(rest.flatten()));
        if cur.len() == 0 {
            assert(cur =~= seq![]);
            assert(ink(cur) =~= seq![]);
            assert(ink(cur) + ink(ws.flatten()) =~= ink(ws.flatten()));
        } else if cur.len() + 1 + w.len() <= width {
            let next = cur + seq![' '] + w;
            lemma_flow_ink(rest, width, next);
            Seq::filter_distributes_over_add(cur + seq![' '], w, p);
            Seq::filter_distributes_over_add(cur, seq![' '], p);
            seq![' '].lemma_all_neg_filter_empty(p);
            assert(ink(next) =~= ink(cur) + ink(w));
            assert(ink(next) + ink(rest.flatten()) =~= ink(cur) + ink(ws.flatten()));
        } else {
            vstd::seq_lib::lemma_flatten_concat(seq![cur], mid + tail);
            seq![cur].lemma_flatten_one_element();
            Seq::filter_distributes_over_add(cur, (mid + tail).flatten(), p);
        }
    }
}

/// The words of a text hold all its characters but the white space.
pub proof fn lemma_words_ink(s: Seq<char>)
    ensures
        words(s).flatten() == ink(s),
        ink(words(s).flatten()) == ink(s),
    decreases s.len(),
{
    let p = not_space();
    if s.len() == 0 {
        assert(words(s).flatten() =~= seq![]);
        assert(ink(s) =~= seq![]);
    } else if is_space(s[0]) {
        let rest = s.drop_first();
        lemma_words_ink(rest);
        assert(words(s) == words(rest));
        assert(s =~= seq![s[0]] + rest);
        Seq::filter_distributes_over_add(seq![s[0]], rest, p);
        assert(!p(s[0]));
        seq![s[0]].lemma_all_neg_filter_empty(p);
        assert(ink(s) =~= ink(rest));
    } else {
        let n = run(s, p) as int;
        lemma_run(s, p);
        let head = s.take(n);
        let rest = s.skip(n);
        assert(n > 0) by {
            assert(p(s[0]));
        }
        lemma_words_ink(rest);
        assert(words(s) == seq![head] + words(rest));
        vstd::seq_lib::lemma_flatten_concat(seq![head], words(rest));
        seq![head].lemma_flatten_one_element();
        assert(s =~= head + rest);
        Seq::filter_distributes_over_add(head, rest, p);
        assert forall|i: int| 0 <= i < head.len() implies p(#[trigger] head[i]) by {
            assert(head[i] == s[i]);
        }
        lemma_filter_all(head, p);
        assert(words(s).flatten() =~= ink(s));
    }
    assert forall|i: int| 0 <= i < ink(s).len() implies p(#[trigger] ink(s)[i]) by {
        s.lemma_filter_pred(p, i);
    }
    lemma_filter_all(ink(s), p);
}

/// Lines of one kind have the given texts.
proof fn lemma_texts_of_kind(kind: ArticleKind, ts: Seq<Seq<char>>)
    ensures
        texts(of_kind(kind, ts)) == ts,
{
    assert(texts(of_kind(kind, ts)) =~= ts);
}

/// No line of an article is wider than the terminal it is shown on.
pub proof fn law_wrapped_width(ls: Seq<LineData>, width: nat)
    ensures
        forall|i: int|
            0 <= i < wrapped_lines(ls, width).len() ==> (#[trigger] wrapped_lines(
                ls,
                width,
            )[i]).text.len() <= width,
{
    if width > 0 {
        lemma_broken_all_width(ls, width);
    }
}

proof fn lemma_broken_all_width(ls: Seq<LineData>, width: nat)
    requires
        width > 0,
    ensures
        forall|i: int|
            0 <= i < broken_all(ls, width).len() ==> (#[trigger] broken_all(
                ls,
                width,
            )[i]).text.len() <= width,
    decreases ls.len(),
{
    if ls.len() > 0 {
        let init = broken_all(ls.drop_last(), width);
        let last = broken(ls.last().text, width);
        lemma_broken_all_width(ls.drop_last(), width);
        lemma_flow_width(words(ls.last().text), width, seq![]);
        assert forall|i: int| 0 <= i < broken_all(ls, width).len() implies (#[trigger] broken_all(
            ls,
            width,
        )[i]).text.len() <= width by {
            if i < init.len() {
                assert(broken_all(ls, width)[i] == init[i]);
            } else {
                assert(broken_all(ls, width)[i].text == last[i - init.len()]);
            }
        }
    }
}

/// On a terminal with at least one column the lines of an article show every
/// character of it that is no white space, in order.
pub proof fn law_wrapped_keeps_text(ls: Seq<LineData>, width: nat)
    requires
        width > 0,
    ensures
        ink(texts(wrapped_lines(ls, width)).flatten()) == ink(texts(ls).flatten()),
{
    lemma_broken_all_ink(ls, width);
    if ls.len() == 0 {
        let shown = texts(wrapped_lines(ls, width));
        assert(shown =~= seq![seq![]]);
        shown.lemma_flatten_one_element();
        assert(texts(ls).flatten() =~= seq![]);
    }
}

proof fn lemma_broken_all_ink(ls: Seq<LineData>, width: nat)
    requires
        width > 0,
    ensures
        ink(texts(broken_all(ls, width)).flatten()) == ink(texts(ls).flatten()),
    decreases ls.len(),
{
    if ls.len() == 0 {
        assert(texts(broken_all(ls, width)).flatten() =~= texts(ls).flatten());
    } else {
        let init = ls.drop_last();
        let text = ls.last().text;
        let p = not_space();
        lemma_broken_all_ink(init, width);
        let a = texts(broken_all(init, width));
        let b = broken(text, width);
        lemma_texts_of_kind(ls.last().kind, b);
        assert(texts(broken_all(ls, width)) =~= a + b);
        vstd::seq_lib::lemma_flatten_concat(a, b);
        Seq::filter_distributes_over_add(a.flatten(), b.flatten(), p);
        assert(texts(ls) =~= texts(init) + seq![text]);
        vstd::seq_lib::lemma_flatten_concat(texts(init), seq![text]);
        seq![text].lemma_flatten_one_element();
        Seq::filter_distributes_over_add(texts(init).flatten(), text, p);
        lemma_words_ink(text);
        if words(text).len() == 0 {
            b.lemma_flatten_one_element();
            assert(words(text).flatten() =~= seq![]);
            assert(ink(b.flatten()) =~= seq![]);
        } else {
            lemma_flow_ink(words(text), width, seq![]);
            assert(ink(seq![]) =~= seq![]);
            assert(ink(b.flatten()) =~= ink(text));
        }
    }
}

/// Words in one line, with one blank between them.
pub open spec fn joined(ws: Seq<Seq<char>>) -> Seq<char>
    decreases ws.len(),
{
    if ws.len() == 0 {
        seq![]
    } else if ws.len() == 1 {
        ws[0]
    } else {
        ws[0] + seq![' '] + joined(ws.drop_first())
    }
}

/// Every one of `ws` is a word.
pub open spec fn all_words(ws: Seq<Seq<char>>) -> bool {
    forall|i: int| 0 <= i < ws.len() ==> is_word(#[trigger] ws[i])
}

/// A line is full words with one blank between them, or empty, and fits.
pub open spec fn is_row(line: Seq<char>, width: nat) -> bool {
    line.len() <= width && exists|ws: Seq<Seq<char>>| all_words(ws) && line == #[trigger] joined(ws)
}

/// One word more.
proof fn lemma_joined_push(ws: Seq<Seq<char>>, w: Seq<char>)
    requires
        ws.len() > 0,
    ensures
        joined(ws.push(w)) == joined(ws) + seq![' '] + w,
    decreases ws.len(),
{
    if ws.len() == 1 {
        assert(ws.push(w).drop_first() =~= seq![w]);
        assert(joined(seq![w]) == w);
        assert(joined(ws.push(w)) =~= joined(ws) + seq![' '] + w);
    } else {
        let rest = ws.drop_first();
        lemma_joined_push(rest, w);
        assert(ws.push(w).drop_first() =~= rest.push(w));
        assert(joined(ws.push(w)) == ws[0] + seq![' '] + joined(rest.push(w)));
        assert(joined(ws) == ws[0] + seq![' '] + joined(rest));
        assert(joined(ws.push(w)) =~= joined(ws) + seq![' '] + w);
    }
}

/// The words of a line of words are those words.
pub proof fn lemma_words_joined(ws: Seq<Seq<char>>)
    requires
        all_words(ws),
    ensures
        words(joined(ws)) == ws,
    decreases ws.len(),
{
    let p = not_space();
    let line = joined(ws);
    if ws.len() == 0 {
        assert(words(line) =~= ws);
    } else {
        let w = ws[0];
        assert(is_word(w));
        assert(line.take(w.len() as int) =~= w);
        assert forall|i: int| 0 <= i < w.len() implies p(#[trigger] line[i]) by {
            assert(line[i] == w[i]);
        }
        lemma_run_is(line, p, w.len());
        assert(p(line[0]));
        let rest = line.skip(w.len() as int);
        assert(words(line) == seq![w] + words(rest));
        if ws.len() == 1 {
            assert(rest.len() == 0);
            assert(words(rest) =~= seq![]);
            assert(words(line) =~= ws);
        } else {
            lemma_words_joined(ws.drop_first());
            assert(rest[0] == ' ');
            assert(rest.drop_first() =~= joined(ws.drop_first()));
            assert(words(rest) == words(rest.drop_first()));
            assert(words(line) =~= ws);
        }
    }
}

/// Words that fit into the rest of the line stay in it.
proof fn lemma_flow_fits(ws: Seq<Seq<char>>, width: nat, cur: Seq<char>)
    requires
        cur.len() > 0,
        ws.len() > 0 ==> cur.len() + 1 + joined(ws).len() <= width,
    ensures
        ws.len() == 0 ==> flow(ws, width, cur) == seq![cur],
        ws.len() > 0 ==> flow(ws, width, cur) == seq![cur + seq![' '] + joined(ws)],
    decreases ws.len(),
{
    if ws.len() > 0 {
        let w = ws[0];
        let rest = ws.drop_first();
        let next = cur + seq![' '] + w;
        lemma_flow_fits(rest, width, next);
        if ws.len() == 1 {
            assert(flow(ws, width, cur) =~= seq![cur + seq![' '] + joined(ws)]);
        } else {
            assert(next + seq![' '] + joined(rest) =~= cur + seq![' '] + joined(ws));
        }
    }
}

/// A line of words that fits is not broken.
proof fn lemma_row_not_broken(line: Seq<char>, width: nat)
    requires
        width > 0,
        is_row(line, width),
    ensures
        broken(line, width) == seq![line],
{
    let ws = choose|ws: Seq<Seq<char>>| all_words(ws) && line == #[trigger] joined(ws);
    lemma_words_joined(ws);
    if ws.len() > 0 {
        let w = ws[0];
        let rest = ws.drop_first();
        assert(is_word(w));
        lemma_flow_fits(rest, width, w);
        if ws.len() > 1 {
            assert(joined(ws) == w + seq![' '] + joined(rest));
        }
        assert(broken(line, width) =~= seq![line]);
    } else {
        assert(line =~= seq![]);
    }
}

/// Words flow into lines of words that fit.
proof fn lemma_flow_rows(ws: Seq<Seq<char>>, width: nat, cur: Seq<char>)
    requires
        width > 0,
        all_words(ws),
        is_row(cur, width),
    ensures
        forall|i: int|
            0 <= i < flow(ws, width, cur).len() ==> is_row(
                #[trigger] flow(ws, width, cur)[i],
                width,
            ),
    decreases ws.len(),
{
    if ws.len() > 0 {
        let w = ws[0];
        let rest = ws.drop_first();
        assert(is_word(w));
        assert(all_words(rest)) by {
            assert forall|i: int| 0 <= i < rest.len() implies is_word(#[trigger] rest[i]) by {
                assert(rest[i] == ws[i + 1]);
            }
        }
        let mid = placed(w, width);
        let car = carried(w, width);
        lemma_placed(w, width);
        assert(is_row(car, width)) by {
            if car.len() == 0 {
                assert(car =~= joined(seq![]));
            } else {
                assert(joined(seq![car]) == car);
            }
        }
        lemma_flow_rows(rest, width, car);
        assert forall|i: int| 0 <= i < mid.len() implies is_row(#[trigger] mid[i], width) by {
            assert(joined(seq![mid[i]]) == mid[i]);
        }
        if cur.len() > 0 && cur.len() + 1 + w.len() <= width {
            let cs = choose|cs: Seq<Seq<char>>| all_words(cs) && cur == #[trigger] joined(cs);
            lemma_joined_push(cs, w);
            assert(all_words(cs.push(w)));
            assert(is_row(cur + seq![' '] + w, width));
            lemma_flow_rows(rest, width, cur + seq![' '] + w);
        }
        let tail = flow(rest, width, car);
        let all = flow(ws, width, cur);
        assert forall|i: int| 0 <= i < all.len() implies is_row(#[trigger] all[i], width) by {
            if cur.len() == 0 {
                assert(all == mid + tail);
                assert(i < mid.len() ==> all[i] == mid[i]);
                assert(i >= mid.len() ==> all[i] == tail[i - mid.len()]);
            } else if cur.len() + 1 + w.len() <= width {
                assert(all == flow(rest, width, cur + seq![' '] + w));
            } else {
                assert(all == seq![cur] + (mid + tail));
                assert(i >= 1 && i - 1 < mid.len() ==> all[i] == mid[i - 1]);
                assert(i - 1 >= mid.len() ==> all[i] == tail[i - 1 - mid.len()]);
            }
        }
    }
}

/// Lines of words that fit are not broken.
proof fn lemma_rows_not_broken(ls: Seq<LineData>, width: nat)
    requires
        width > 0,
        forall|i: int| 0 <= i < ls.len() ==> is_row((#[trigger] ls[i]).text, width),
    ensures
        broken_all(ls, width) == ls,
    decreases ls.len(),
{
    if ls.len() > 0 {
        let init = ls.drop_last();
        assert forall|i: int| 0 <= i < init.len() implies is_row(
            (#[trigger] init[i]).text,
            width,
        ) by {
            assert(init[i] == ls[i]);
        }
        lemma_rows_not_broken(init, width);
        lemma_row_not_broken(ls.last().text, width);
        assert(broken_all(ls, width) =~= ls);
    } else {
        assert(broken_all(ls, width) =~= ls);
    }
}

proof fn lemma_broken_all_rows(ls: Seq<LineData>, width: nat)
    requires
        width > 0,
    ensures
        forall|i: int|
            0 <= i < broken_all(ls, width).len() ==> is_row(
                (#[trigger] broken_all(ls, width)[i]).text,
                width,
            ),
    decreases ls.len(),
{
    if ls.len() > 0 {
        let init = broken_all(ls.drop_last(), width);
        let last = broken(ls.last().text, width);
        lemma_broken_all_rows(ls.drop_last(), width);
        assert(joined(seq![]) =~= Seq::<char>::empty());
        assert(is_row(seq![], width));
        lemma_words(ls.last().text);
        lemma_flow_rows(words(ls.last().text), width, seq![]);
        assert forall|i: int| 0 <= i < broken_all(ls, width).len() implies is_row(
            (#[trigger] broken_all(ls, width)[i]).text,
            width,
        ) by {
            if i < init.len() {
                assert(broken_all(ls, width)[i] == init[i]);
            } else {
                assert(broken_all(ls, width)[i].text == last[i - init.len()]);
            }
        }
    }
}

/// Lines that have been wrapped for a width are not changed by wrapping them
/// for that width again.
pub proof fn law_wrapped_twice(ls: Seq<LineData>, width: nat)
    ensures
        wrapped_lines(wrapped_lines(ls, width), width) == wrapped_lines(ls, width),
{
    if width > 0 {
        let once = wrapped_lines(ls, width);
        lemma_broken_all_rows(ls, width);
        assert(joined(seq![]) =~= Seq::<char>::empty());
        assert(is_row(seq![], width));
        if ls.len() > 0 {
            lemma_broken_nonempty(ls.last().text, width);
        }
        assert(once.len() > 0);
        lemma_rows_not_broken(once, width);
    }
}

/// Lines are wrapped one by one: those of two lists are those of the first, and
/// then those of the second.
pub proof fn law_wrapped_both(a: Seq<LineData>, b: Seq<LineData>, width: nat)
    requires
        width > 0,
        a.len() > 0,
        b.len() > 0,
    ensures
        wrapped_lines(a + b, width) == wrapped_lines(a, width) + wrapped_lines(b, width),
{
    lemma_broken_both(a, b, width);
}

/// The lines into which the lines of two lists are broken.
proof fn lemma_broken_both(a: Seq<LineData>, b: Seq<LineData>, width: nat)
    ensures
        broken_all(a + b, width) == broken_all(a, width) + broken_all(b, width),
    decreases b.len(),
{
    if b.len() == 0 {
        assert(a + b =~= a);
        assert(broken_all(a, width) + broken_all(b, width) =~= broken_all(a, width));
    } else {
        assert((a + b).drop_last() =~= a + b.drop_last());
        assert((a + b).last() == b.last());
        lemma_broken_both(a, b.drop_last(), width);
        assert(broken_all(a + b, width) =~= broken_all(a, width) + broken_all(b, width));
    }
}

/// The rows of what stands before a line feed in a prompt and after it are shown
/// one after the other.
pub proof fn law_prompt_both(a: Seq<char>, b: Seq<char>, width: nat)
    requires
        width > 0,
    ensures
        wrapped_prompt(a + seq!['\n'] + b, width) == wrapped_prompt(a, width) + wrapped_prompt(
            b,
            width,
        ),
{
    lemma_split_both(a, '\n', b);
    lemma_prompt_rows_both(split_on(a, '\n'), split_on(b, '\n'), width);
}

/// The pieces before a character and after it.
proof fn lemma_split_both(a: Seq<char>, x: char, b: Seq<char>)
    ensures
        split_on(a + seq![x] + b, x) == split_on(a, x) + split_on(b, x),
    decreases a.len(),
{
    let all = a + seq![x] + b;
    let p = other_than(x);
    let n = run(a, p) as int;
    lemma_run(a, p);
    assert forall|i: int| 0 <= i < n implies p(#[trigger] all[i]) by {
        assert(all[i] == a[i]);
    }
    assert(all[n] == x) by {
        if n < a.len() {
            assert(!p(a[n]));
        }
    }
    lemma_run_is(all, p, n as nat);
    assert(all.take(n) =~= a.take(n));
    if n == a.len() {
        assert(a.take(n) =~= a);
        assert(all.skip(n + 1) =~= b);
    } else {
        assert(all.skip(n + 1) =~= a.skip(n + 1) + seq![x] + b);
        lemma_split_both(a.skip(n + 1), x, b);
        assert(split_on(all, x) =~= split_on(a, x) + split_on(b, x));
    }
}

/// The rows of two lists of lines.
proof fn lemma_prompt_rows_both(a: Seq<Seq<char>>, b: Seq<Seq<char>>, width: nat)
    ensures
        prompt_rows_all(a + b, width) == prompt_rows_all(a, width) + prompt_rows_all(b, width),
    decreases b.len(),
{
    if b.len() == 0 {
        assert(a + b =~= a);
        assert(prompt_rows_all(a, width) + prompt_rows_all(b, width) =~= prompt_rows_all(
            a,
            width,
        ));
    } else {
        assert((a + b).drop_last() =~= a + b.drop_last());
        assert((a + b).last() == b.last());
        lemma_prompt_rows_both(a, b.drop_last(), width);
        assert(prompt_rows_all(a + b, width) =~= prompt_rows_all(a, width) + prompt_rows_all(
            b,
            width,
        ));
    }
}

// ---------------------------------------------------------------------------
// Where lines are broken
// ---------------------------------------------------------------------------

/// The words of several lines, one line after the other.
pub open spec fn words_of_all(ls: Seq<Seq<char>>) -> Seq<Seq<char>>
    decreases ls.len(),
{
    if ls.len() == 0 {
        seq![]
    } else {
        words(ls[0]) + words_of_all(ls.drop_first())
    }
}

/// The first word of the line `y` has no room at the end of the line `x`.
pub open spec fn no_room(x: Seq<char>, y: Seq<char>, width: nat) -> bool {
    words(y).len() > 0 && x.len() + 1 + words(y)[0].len() > width
}

/// How words flow that are no longer than a line.
proof fn lemma_flow_greedy(cs: Seq<Seq<char>>, ws: Seq<Seq<char>>, width: nat)
    requires
        cs.len() > 0,
        all_words(cs),
        all_words(ws),
        forall|i: int| 0 <= i < ws.len() ==> (#[trigger] ws[i]).len() <= width,
    ensures
        ({
            let ls = flow(ws, width, joined(cs));
            &&& ls.len() > 0
            &&& words(ls[0]).len() > 0
            &&& words(ls[0])[0] == cs[0]
            &&& words_of_all(ls) == cs + ws
            &&& forall|i: int, j: int|
                0 <= i && j == i + 1 && j < ls.len() ==> no_room(
                    #[trigger] ls[i],
                    #[trigger] ls[j],
                    width,
                )
        }),
    decreases ws.len(),
{
    let cur = joined(cs);
    let ls = flow(ws, width, cur);
    lemma_words_joined(cs);
    assert(cur.len() > 0) by {
        assert(is_word(cs[0]));
        if cur.len() == 0 {
            assert(words(cur).len() == 0);
        }
    }
    if ws.len() == 0 {
        assert(ls =~= seq![cur]);
        assert(ls.drop_first() =~= seq![]);
        assert(words_of_all(seq![]) =~= seq![]);
        assert(words_of_all(ls) =~= cs + ws);
    } else {
        let w = ws[0];
        let rest = ws.drop_first();
        assert(is_word(w));
        assert forall|i: int| 0 <= i < rest.len() implies is_word(#[trigger] rest[i])
            && rest[i].len() <= width by {
            assert(rest[i] == ws[i + 1]);
        }
        if cur.len() + 1 + w.len() <= width {
            let more = cs.push(w);
            lemma_joined_push(cs, w);
            assert forall|i: int| 0 <= i < more.len() implies is_word(#[trigger] more[i]) by {
                if i < cs.len() {
                    assert(more[i] == cs[i]);
                }
            }
            lemma_flow_greedy(more, rest, width);
            assert(more + rest =~= cs + ws);
        } else {
            let one = seq![w];
            assert(joined(one) == w);
            lemma_flow_greedy(one, rest, width);
            let tail = flow(rest, width, w);
            assert(placed(w, width) + tail =~= tail);
            assert(ls =~= seq![cur] + tail);
            assert(ls.drop_first() =~= tail);
            assert(words_of_all(ls) =~= cs + ws) by {
                assert(one + rest =~= ws);
            }
            assert forall|i: int, j: int| 0 <= i && j == i + 1 && j < ls.len() implies no_room(
                #[trigger] ls[i],
                #[trigger] ls[j],
                width,
            ) by {
                assert(ls[j] == tail[j - 1]);
                if i > 0 {
                    assert(ls[i] == tail[i - 1]);
                    assert(no_room(tail[i - 1], tail[j - 1], width));
                }
            }
        }
    }
}

/// Words that fit a line are never cut and keep their order, and a line ends only
/// where the next word has no room on it.
pub proof fn law_words_fill_lines(text: Seq<char>, width: nat)
    requires
        words(text).len() > 0,
        forall|i: int| 0 <= i < words(text).len() ==> (#[trigger] words(text)[i]).len() <= width,
    ensures
        words_of_all(broken(text, width)) == words(text),
        forall|i: int, j: int|
            0 <= i && j == i + 1 && j < broken(text, width).len() ==> no_room(
                #[trigger] broken(text, width)[i],
                #[trigger] broken(text, width)[j],
                width,
            ),
{
    let ws = words(text);
    lemma_words(text);
    let one = seq![ws[0]];
    let rest = ws.drop_first();
    assert(is_word(ws[0]));
    assert forall|i: int| 0 <= i < rest.len() implies is_word(#[trigger] rest[i]) && rest[i].len()
        <= width by {
        assert(rest[i] == ws[i + 1]);
    }
    assert(joined(one) == ws[0]);
    lemma_flow_greedy(one, rest, width);
    assert(one + rest =~= ws);
    let tail = flow(rest, width, ws[0]);
    assert(placed(ws[0], width) + tail =~= tail);
    assert(broken(text, width) == tail);
}

/// A word that is longer than a line is cut so that every line of it but the last
/// is full.
pub proof fn law_long_word(word: Seq<char>, width: nat)
    requires
        is_word(word),
        0 < width < word.len(),
    ensures
        broken(word, width).flatten() == word,
        forall|i: int|
            0 <= i < broken(word, width).len() - 1 ==> (#[trigger] broken(word, width)[i]).len()
                == width,
{
    crate::text::law_words(word, ' ', seq![]);
    assert(words(word) == seq![word]);
    assert(seq![word].drop_first() =~= seq![]);
    lemma_pieces(word, width);
    let full = full_pieces(word, width);
    let last = last_piece(word, width);
    let end = flow(seq![], width, last);
    assert(broken(word, width) == full + end);
    vstd::seq_lib::lemma_flatten_concat(full, end);
    if last.len() > 0 {
        assert(end =~= seq![last]);
        end.lemma_flatten_one_element();
    } else {
        assert(end =~= seq![]);
        assert(end.flatten() =~= seq![]);
        assert(full.flatten() + last =~= full.flatten());
    }
}

/// A line that has room and nothing to tidy up stays as it is. One without words
/// becomes an empty one. Either way it keeps its kind.
pub proof fn law_short_line(line: LineData, width: nat)
    requires
        width > 0,
    ensures
        is_row(line.text, width) && line.text.len() > 0 ==> wrapped_lines(seq![line], width)
            == seq![line],
        words(line.text).len() == 0 ==> wrapped_lines(seq![line], width) == seq![
            LineData { kind: line.kind, text: seq![] },
        ],
        forall|i: int|
            0 <= i < wrapped_lines(seq![line], width).len() ==> (#[trigger] wrapped_lines(
                seq![line],
                width,
            )[i]).kind == line.kind,
        wrapped_lines(seq![line], width).len() == broken(line.text, width).len(),
{
    let ls = seq![line];
    assert(ls.drop_last() =~= seq![]);
    assert(broken_all(ls.drop_last(), width) =~= seq![]);
    assert(ls.last() == line);
    assert(wrapped_lines(ls, width) =~= of_kind(line.kind, broken(line.text, width)));
    if is_row(line.text, width) && line.text.len() > 0 {
        lemma_row_not_broken(line.text, width);
        assert(of_kind(line.kind, seq![line.text]) =~= seq![line]);
    }
    if words(line.text).len() == 0 {
        let nothing: Seq<char> = seq![];
        assert(of_kind(line.kind, seq![nothing]) =~= seq![
            LineData { kind: line.kind, text: nothing },
        ]);
    }
}

/// A line of a prompt is cut so that every row of it but the last is full, and an
/// empty one takes a row of its own.
pub proof fn law_prompt_line(line: Seq<char>, width: nat)
    requires
        width > 0,
        !line.contains('\n'),
    ensures
        forall|i: int|
            0 <= i < wrapped_prompt(line, width).len() - 1 ==> (#[trigger] wrapped_prompt(
                line,
                width,
            )[i]).len() == width,
        0 < line.len() <= width ==> wrapped_prompt(line, width) == seq![line],
        line.len() == 0 ==> wrapped_prompt(line, width).len() == 1,
        line.len() > width ==> wrapped_prompt(line, width) == seq![line.take(width as int)]
            + wrapped_prompt(line.skip(width as int), width),
    decreases line.len(),
{
    crate::text::law_split(line, '\n', seq![]);
    lemma_prompt_one(line, width);
    if line.len() > width {
        let rest = line.skip(width as int);
        assert(!rest.contains('\n')) by {
            if rest.contains('\n') {
                let i = choose|i: int| 0 <= i < rest.len() && rest[i] == '\n';
                assert(line[i + width] == '\n');
            }
        }
        crate::text::law_split(rest, '\n', seq![]);
        lemma_prompt_one(rest, width);
        law_prompt_line(rest, width);
        let all = wrapped_prompt(line, width);
        let tail = wrapped_prompt(rest, width);
        assert(all =~= seq![line.take(width as int)] + tail);
        assert forall|i: int| 0 <= i < all.len() - 1 implies (#[trigger] all[i]).len() == width by {
            if i > 0 {
                assert(all[i] == tail[i - 1]);
            }
        }
    }
}

/// The rows of one line.
proof fn lemma_prompt_one(line: Seq<char>, width: nat)
    ensures
        prompt_rows_all(seq![line], width) == prompt_rows(line, width),
{
    assert(seq![line].drop_last() =~= seq![]);
    assert(prompt_rows_all(seq![line].drop_last(), width) =~= seq![]);
    assert(prompt_rows_all(seq![line], width) =~= prompt_rows(line, width));
}

} // verus!
