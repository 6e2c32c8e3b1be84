//! What the tags and references of HTML become in the text that is made of it.

use crate::entity::{
    entities_decoded, law_decimal_reference, law_named_reference, law_nothing_to_decode,
    named_character, zeros,
};
use crate::html::{
    blanks_joined, clean_breaks, html_text, lemma_piece_shape, single_blanks, single_gaps, tidied,
    without_tags,
};
use crate::keep::{lemma_folded_first, lemma_images_before, lemma_no_pieces, lemma_start};
use crate::pattern::{
    blank_or_tab, block_end, element_length, end_length, folded, images_shown, in_name, is_block,
    line_break, list_item, next_text, paragraph_end, pieces_replaced, script, style_sheet, tag,
    white,
};
use crate::text::{
    all_space, contains_text, decimal, is_space, is_trimmed, law_lines, law_replaced, lemma_run,
    lemma_run_is, lemma_trim, lines, occurs_at, other_than, replaced, run, starts_with, trim,
};
use vstd::prelude::*;

verus! {

/// Text without markup that has nothing to tidy up: no white space at its ends or
/// around its line feeds, no tabs, no two blanks and no two empty lines in a row.
pub open spec fn is_tidy(s: Seq<char>) -> bool {
    &&& s.len() > 0
    &&& is_trimmed(s)
    &&& no_markup(s)
    &&& single_blanks(s)
    &&& clean_breaks(s)
    &&& single_gaps(s)
}

/// Neither a tag nor a reference begins in `s`, and it holds no carriage return.
pub open spec fn no_markup(s: Seq<char>) -> bool {
    forall|i: int| 0 <= i < s.len() ==> is_markup_free(#[trigger] s[i])
}

/// A character that begins no tag and no reference, and is no carriage return.
pub open spec fn is_markup_free(c: char) -> bool {
    c != '<' && c != '&' && c != '\r'
}

/// Such a text holds none of the three.
proof fn lemma_no_markup(s: Seq<char>)
    requires
        no_markup(s),
    ensures
        !s.contains('<'),
        !s.contains('&'),
        !s.contains('\r'),
{
    if s.contains('<') || s.contains('&') || s.contains('\r') {
        let i = choose|i: int|
            0 <= i < s.len() && (s[i] == '<' || s[i] == '&' || s[i] == '\r');
        assert(is_markup_free(s[i]));
    }
}

/// Two such texts, one after the other.
proof fn lemma_no_markup_both(a: Seq<char>, b: Seq<char>)
    requires
        no_markup(a),
        no_markup(b),
    ensures
        no_markup(a + b),
{
    let c = a + b;
    assert forall|i: int| 0 <= i < c.len() implies is_markup_free(#[trigger] c[i]) by {
        if i < a.len() {
            assert(c[i] == a[i]);
        } else {
            assert(c[i] == b[i - a.len()]);
        }
    }
}

// ---------------------------------------------------------------------------
// Tidy text stays
// ---------------------------------------------------------------------------

/// The lines of tidy text, tidied, are that text and a line feed.
proof fn lemma_tidied_lines(s: Seq<char>, blank: bool)
    requires
        s.len() > 0,
        !is_space(s.last()),
        s[0] == '\n' ==> !blank && s[1] != '\n',
        s[0] == '\n' || !is_space(s[0]),
        forall|i: int| 0 <= i < s.len() ==> #[trigger] s[i] != '\r',
        clean_breaks(s),
        single_gaps(s),
    ensures
        tidied(lines(s), blank) == s.push('\n'),
    decreases s.len(),
{
    let p = other_than('\n');
    let n = run(s, p) as int;
    lemma_run(s, p);
    assert(s.last() == s[s.len() - 1]);
    let line = s.take(n);
    assert(!line.contains('\n')) by {
        if line.contains('\n') {
            let i = choose|i: int| 0 <= i < line.len() && line[i] == '\n';
            assert(p(s[i]));
        }
    }
    if n >= s.len() {
        assert(line =~= s);
        law_lines(s, seq![]);
        lemma_trim(s);
        assert(seq![s].drop_first() =~= seq![]);
        assert(tidied(seq![], false) =~= seq![]);
        assert(s + seq!['\n'] + Seq::<char>::empty() =~= s.push('\n'));
    } else {
        let rest = s.skip(n + 1);
        assert(s[n] == '\n');
        assert(s =~= line + seq!['\n'] + rest);
        assert(line.len() > 0 ==> line.last() == s[n - 1] && s[n - 1] != '\r');
        law_lines(line, rest);
        assert((seq![line] + lines(rest)).drop_first() =~= lines(rest));
        assert(rest.last() == s.last());
        assert(rest[0] == s[n + 1]);
        assert(rest =~= s.subrange(n + 1, s.len() as int));
        lemma_piece_shape(s, n + 1, s.len() as int);
        assert(forall|i: int| 0 <= i < rest.len() ==> #[trigger] rest[i] == s[i + n + 1]);
        if n > 0 {
            assert(line[0] == s[0]);
            assert(!is_space(s[n - 1])) by {
                assert(p(s[n - 1]));
                let i = n - 1;
                let j = n;
                assert(s[i] != '\n' && s[j] == '\n');
            }
            lemma_trim(line);
            if rest[0] == '\n' {
                assert(rest.len() > 1);
                assert(rest[1] == s[n + 2]);
                let i = n;
                let j = n + 1;
                let k = n + 2;
                assert(!(s[i] == '\n' && s[j] == '\n' && s[k] == '\n'));
            }
            lemma_tidied_lines(rest, false);
            assert(line + seq!['\n'] + rest.push('\n') =~= s.push('\n'));
        } else {
            assert(line =~= seq![]);
            lemma_trim(line);
            assert(rest[0] == s[1]);
            lemma_tidied_lines(rest, true);
            assert(seq!['\n'] + rest.push('\n') =~= s.push('\n'));
        }
    }
}

/// Single blanks stay.
proof fn lemma_blanks_kept(s: Seq<char>)
    requires
        single_blanks(s),
    ensures
        blanks_joined(s) == s,
    decreases s.len(),
{
    let p = blank_or_tab();
    reveal_strlit(" ");
    assert(" "@ =~= seq![' ']);
    if s.len() > 0 {
        let rest = s.drop_first();
        assert(rest =~= s.subrange(1, s.len() as int));
        lemma_piece_shape(s, 1, s.len() as int);
        lemma_blanks_kept(rest);
        assert(s[0] != '\t');
        if s[0] == ' ' {
            assert forall|i: int| 0 <= i < 1 implies p(#[trigger] s[i]) by {}
            if s.len() > 1 {
                let i = 0int;
                let j = 1int;
                assert(!(s[i] == ' ' && s[j] == ' '));
                assert(s[j] != '\t');
            }
            lemma_run_is(s, p, 1);
            assert(s.skip(1) =~= rest);
        } else {
            lemma_run_is(s, p, 0);
        }
        assert(seq![s[0]] + rest =~= s);
    }
}

/// Nothing is left to do for tidy text.
proof fn lemma_tidy_kept(s: Seq<char>)
    requires
        is_tidy(s),
    ensures
        trim(tidied(lines(blanks_joined(entities_decoded(s))), false)) == s,
{
    lemma_no_markup(s);
    law_nothing_to_decode(s);
    lemma_blanks_kept(s);
    assert forall|i: int| 0 <= i < s.len() implies #[trigger] s[i] != '\r' by {
        assert(is_markup_free(s[i]));
    }
    lemma_tidied_lines(s, false);
    crate::text::law_trimmed(seq![], s, seq!['\n']);
    assert(Seq::<char>::empty() + s + seq!['\n'] =~= s.push('\n'));
}

/// Text without markup is its own text, but for the white space around it.
pub proof fn law_text_without_markup(a: Seq<char>, s: Seq<char>, b: Seq<char>)
    requires
        all_space(a),
        all_space(b),
        is_trimmed(s),
        !s.contains('<'),
        !s.contains('&'),
    ensures
        html_text(a + s + b) == s,
{
    crate::text::law_trimmed(a, s, b);
}

// ---------------------------------------------------------------------------
// One tag between two texts
// ---------------------------------------------------------------------------

/// What begins with `<` is not found where a text begins with another character.
proof fn lemma_brackets_first()
    ensures
        forall|t: Seq<char>| t.len() > 0 && t[0] != '<' ==> #[trigger] script()(t) == 0,
        forall|t: Seq<char>| t.len() > 0 && t[0] != '<' ==> #[trigger] style_sheet()(t) == 0,
        forall|t: Seq<char>| t.len() > 0 && t[0] != '<' ==> #[trigger] line_break()(t) == 0,
        forall|t: Seq<char>| t.len() > 0 && t[0] != '<' ==> #[trigger] paragraph_end()(t) == 0,
        forall|t: Seq<char>| t.len() > 0 && t[0] != '<' ==> #[trigger] block_end()(t) == 0,
        forall|t: Seq<char>| t.len() > 0 && t[0] != '<' ==> #[trigger] list_item()(t) == 0,
        forall|t: Seq<char>| t.len() > 0 && t[0] != '<' ==> #[trigger] tag()(t) == 0,
{
    reveal_strlit("<script");
    reveal_strlit("<style");
    reveal_strlit("<br");
    reveal_strlit("<li");
    assert forall|t: Seq<char>| t.len() > 0 && t[0] != '<' implies #[trigger] script()(t) == 0 by {
        lemma_start(t, "<script"@);
    }
    assert forall|t: Seq<char>|
        t.len() > 0 && t[0] != '<' implies #[trigger] style_sheet()(t) == 0 by {
        lemma_start(t, "<style"@);
    }
    assert forall|t: Seq<char>|
        t.len() > 0 && t[0] != '<' implies #[trigger] line_break()(t) == 0 by {
        lemma_start(t, "<br"@);
    }
    assert forall|t: Seq<char>|
        t.len() > 0 && t[0] != '<' implies #[trigger] paragraph_end()(t) == 0 by {
        lemma_start(t, seq!['<', '/']);
    }
    assert forall|t: Seq<char>|
        t.len() > 0 && t[0] != '<' implies #[trigger] block_end()(t) == 0 by {
        lemma_start(t, seq!['<', '/']);
    }
    assert forall|t: Seq<char>|
        t.len() > 0 && t[0] != '<' implies #[trigger] list_item()(t) == 0 by {
        lemma_start(t, "<li"@);
    }
    assert forall|t: Seq<char>| t.len() > 0 && t[0] != '<' implies #[trigger] tag()(t) == 0 by {
        lemma_start(t, seq!['<']);
    }
}

/// A piece between two texts without `<` is found as soon as it begins.
proof fn lemma_piece(
    a: Seq<char>,
    m: Seq<char>,
    b: Seq<char>,
    length: spec_fn(Seq<char>) -> nat,
    by: Seq<char>,
)
    requires
        no_markup(a),
        no_markup(b),
        m.len() > 0,
        forall|t: Seq<char>| t.len() > 0 && t[0] != '<' ==> #[trigger] length(t) == 0,
    ensures
        length(m + b) == m.len() ==> pieces_replaced(a + m + b, length, by) == a + by + b,
        length(m + b) == 0 && no_markup(m.drop_first()) ==> pieces_replaced(a + m + b, length, by)
            == a + m + b,
    decreases a.len(),
{
    let s = a + m + b;
    if a.len() == 0 {
        assert(s =~= m + b);
        assert(s.skip(m.len() as int) =~= b);
        lemma_no_markup(b);
        lemma_no_pieces(b, length, by);
        assert(a + by =~= by);
        if no_markup(m.drop_first()) {
            lemma_no_markup_both(m.drop_first(), b);
            assert(s.drop_first() =~= m.drop_first() + b);
            lemma_no_markup(s.drop_first());
            lemma_no_pieces(s.drop_first(), length, by);
            assert(seq![s[0]] + s.drop_first() =~= s);
        }
    } else {
        let rest = a.drop_first();
        assert(is_markup_free(a[0]));
        assert(s[0] == a[0]);
        assert(length(s) == 0);
        assert(s.drop_first() =~= rest + m + b);
        assert(no_markup(rest)) by {
            assert forall|i: int| 0 <= i < rest.len() implies is_markup_free(#[trigger] rest[i]) by {
                assert(rest[i] == a[i + 1]);
            }
        }
        lemma_piece(rest, m, b, length, by);
        assert(seq![s[0]] + (rest + by + b) =~= a + by + b);
        assert(seq![s[0]] + (rest + m + b) =~= s);
    }
}

/// Line ends stay where there is no carriage return.
proof fn lemma_no_returns(s: Seq<char>)
    requires
        !s.contains('\r'),
    ensures
        replaced(replaced(s, "\r\n"@, "\n"@), "\r"@, "\n"@) == s,
{
    reveal_strlit("\r\n");
    reveal_strlit("\r");
    assert(!contains_text(s, "\r\n"@)) by {
        if contains_text(s, "\r\n"@) {
            let i = choose|i: int| occurs_at(s, "\r\n"@, i);
            assert(s.subrange(i, i + 2)[0] == s[i]);
        }
    }
    assert(!contains_text(s, "\r"@)) by {
        if contains_text(s, "\r"@) {
            let i = choose|i: int| occurs_at(s, "\r"@, i);
            assert(s.subrange(i, i + 1)[0] == s[i]);
        }
    }
    law_replaced(seq![], "\r\n"@, s, "\n"@);
    law_replaced(seq![], "\r"@, s, "\n"@);
}

/// A tag that is no image is not shown as one.
proof fn lemma_no_image(a: Seq<char>, m: Seq<char>, b: Seq<char>)
    requires
        no_markup(a),
        no_markup(b),
        m.len() > 0,
        no_markup(m.drop_first()),
        !starts_with(folded(m + b), "<img"@),
    ensures
        images_shown(a + m + b) == a + m + b,
{
    let s = m + b;
    lemma_no_markup(a);
    assert(a + m + b =~= a + s);
    lemma_images_before(a, s);
    lemma_no_markup_both(m.drop_first(), b);
    let rest = s.drop_first();
    assert(rest =~= m.drop_first() + b);
    lemma_no_markup(rest);
    assert(images_shown(s) == seq![s[0]] + images_shown(rest));
    lemma_images_before(rest, seq![]);
    assert(rest + Seq::<char>::empty() =~= rest);
    assert(images_shown(seq![]) =~= seq![]);
    assert(seq![s[0]] + rest =~= s);
}

/// Which of the steps takes a tag away.
#[derive(PartialEq, Eq, Structural, Clone, Copy)]
pub enum Step {
    Break,
    Paragraph,
    Block,
    Item,
    Any,
}

/// What the step puts in place of the tag.
pub open spec fn left_by(step: Step) -> Seq<char> {
    match step {
        Step::Break => seq!['\n'],
        Step::Paragraph => seq!['\n', '\n'],
        Step::Block => seq!['\n'],
        Step::Item => seq!['-', ' '],
        Step::Any => seq![' '],
    }
}

/// The tag `m` in front of `b` is taken away by `step` and not before it.
spec fn taken_by(m: Seq<char>, b: Seq<char>, step: Step) -> bool {
    let s = m + b;
    &&& m.len() > 0
    &&& m[0] == '<'
    &&& no_markup(m.drop_first())
    &&& !starts_with(folded(s), "<img"@)
    &&& script()(s) == 0
    &&& style_sheet()(s) == 0
    &&& line_break()(s) == if step == Step::Break {
        m.len()
    } else {
        0
    }
    &&& step != Step::Break ==> paragraph_end()(s) == if step == Step::Paragraph {
        m.len()
    } else {
        0
    }
    &&& step != Step::Break && step != Step::Paragraph ==> block_end()(s) == if step
        == Step::Block {
        m.len()
    } else {
        0
    }
    &&& step == Step::Item || step == Step::Any ==> list_item()(s) == if step == Step::Item {
        m.len()
    } else {
        0
    }
    &&& step == Step::Any ==> tag()(s) == m.len()
}

/// One tag between two texts.
proof fn lemma_one_tag(a: Seq<char>, m: Seq<char>, b: Seq<char>, step: Step)
    requires
        no_markup(a),
        no_markup(b),
        taken_by(m, b, step),
    ensures
        without_tags(a + m + b) == a + left_by(step) + b,
{
    let s = a + m + b;
    let r = left_by(step);
    let out = a + r + b;
    reveal_strlit(" ");
    reveal_strlit("\n");
    reveal_strlit("\n\n");
    reveal_strlit("- ");
    assert(" "@ =~= seq![' ']);
    assert("\n"@ =~= seq!['\n']);
    assert("\n\n"@ =~= seq!['\n', '\n']);
    assert("- "@ =~= seq!['-', ' ']);
    lemma_no_markup(a);
    lemma_no_markup(b);
    lemma_no_markup(m.drop_first());
    assert(!s.contains('\r')) by {
        if s.contains('\r') {
            let i = choose|i: int| 0 <= i < s.len() && s[i] == '\r';
            if i < a.len() {
                assert(a[i] == '\r');
            } else if i > a.len() && i < a.len() + m.len() {
                assert(m.drop_first()[i - a.len() - 1] == '\r');
            } else if i >= a.len() + m.len() {
                assert(b[i - a.len() - m.len()] == '\r');
            }
        }
    }
    lemma_no_returns(s);
    lemma_no_image(a, m, b);
    lemma_brackets_first();
    lemma_no_markup_both(a, r);
    lemma_no_markup_both(a + r, b);
    lemma_no_markup(out);
    lemma_piece(a, m, b, script(), " "@);
    lemma_piece(a, m, b, style_sheet(), " "@);
    lemma_piece(a, m, b, line_break(), "\n"@);
    lemma_piece(a, m, b, paragraph_end(), "\n\n"@);
    lemma_piece(a, m, b, block_end(), "\n"@);
    lemma_piece(a, m, b, list_item(), "- "@);
    lemma_piece(a, m, b, tag(), " "@);
    lemma_no_pieces(out, paragraph_end(), "\n\n"@);
    lemma_no_pieces(out, block_end(), "\n"@);
    lemma_no_pieces(out, list_item(), "- "@);
    lemma_no_pieces(out, tag(), " "@);
}

/// What is put between two tidy texts leaves nothing to tidy up.
proof fn lemma_shape_between(a: Seq<char>, r: Seq<char>, b: Seq<char>)
    requires
        is_tidy(a),
        is_tidy(b),
        r == seq!['\n'] || r == seq!['\n', '\n'] || r == seq!['-', ' '] || r == seq![' '] || (r.len()
            == 1 && !is_space(r[0])),
    ensures
        is_trimmed(a + r + b),
        single_blanks(a + r + b),
        clean_breaks(a + r + b),
        single_gaps(a + r + b),
{
    let s = a + r + b;
    let n = a.len() as int;
    let m = n + r.len();
    assert(a.last() == a[n - 1]);
    assert(forall|i: int| 0 <= i < n ==> #[trigger] s[i] == a[i]);
    assert(forall|i: int| n <= i < m ==> #[trigger] s[i] == r[i - n]);
    assert(forall|i: int| m <= i < s.len() ==> #[trigger] s[i] == b[i - m]);
    assert(s.last() == b.last());
    assert forall|i: int| 0 <= i < s.len() implies #[trigger] s[i] != '\t' by {}
    assert forall|i: int, j: int|
        0 <= i < s.len() && j == i + 1 && j < s.len() implies !(#[trigger] s[i] == ' '
        && #[trigger] s[j] == ' ') by {
        if j < n {
            assert(!(a[i] == ' ' && a[j] == ' '));
        } else if i >= m {
            assert(!(b[i - m] == ' ' && b[j - m] == ' '));
        }
    }
    assert forall|i: int, j: int|
        0 <= i < s.len() && j == i + 1 && j < s.len() implies (#[trigger] s[i] == '\n'
        ==> #[trigger] s[j] == '\n' || !is_space(s[j])) && (s[j] == '\n' ==> s[i] == '\n'
        || !is_space(s[i])) by {
        if j < n {
            assert(a[i] == '\n' ==> a[j] == '\n' || !is_space(a[j]));
        } else if i >= m {
            assert(b[i - m] == '\n' ==> b[j - m] == '\n' || !is_space(b[j - m]));
        }
    }
    assert forall|i: int, j: int, k: int|
        0 <= i < s.len() && j == i + 1 && k == i + 2 && k < s.len() implies !(#[trigger] s[i] == '\n'
        && #[trigger] s[j] == '\n' && #[trigger] s[k] == '\n') by {
        if k < n {
            assert(!(a[i] == '\n' && a[j] == '\n' && a[k] == '\n'));
        } else if i >= m {
            assert(!(b[i - m] == '\n' && b[j - m] == '\n' && b[k - m] == '\n'));
        }
    }
}

/// What is put between two tidy texts leaves them tidy.
proof fn lemma_tidy_between(a: Seq<char>, r: Seq<char>, b: Seq<char>)
    requires
        is_tidy(a),
        is_tidy(b),
        r == seq!['\n'] || r == seq!['\n', '\n'] || r == seq!['-', ' '] || r == seq![' '],
    ensures
        is_tidy(a + r + b),
{
    lemma_shape_between(a, r, b);
    assert(no_markup(r));
    lemma_no_markup_both(a, r);
    lemma_no_markup_both(a + r, b);
}

/// A tag between two tidy texts leaves in the text what its step puts in its
/// place.
proof fn lemma_shown_tag(a: Seq<char>, m: Seq<char>, b: Seq<char>, step: Step)
    requires
        is_tidy(a),
        is_tidy(b),
        taken_by(m, b, step),
    ensures
        html_text(a + m + b) == a + left_by(step) + b,
{
    let s = a + m + b;
    assert(s[0] == a[0]);
    assert(s.last() == b.last());
    lemma_trim(s);
    assert(s[a.len() as int] == '<');
    assert(s.contains('<'));
    lemma_one_tag(a, m, b, step);
    lemma_tidy_between(a, left_by(step), b);
    lemma_tidy_kept(a + left_by(step) + b);
}

/// The first characters of a text tell which tag it does not begin with.
proof fn lemma_not_tag(s: Seq<char>, word: Seq<char>, i: int)
    requires
        0 <= i < word.len(),
        i < s.len() ==> folded(s)[i] != word[i],
    ensures
        !starts_with(folded(s), word),
{
    if starts_with(folded(s), word) {
        assert(folded(s).subrange(0, word.len() as int)[i] == folded(s)[i]);
    }
}

/// A line break between two texts: `<br`, white space or not, a slash or not, and
/// `>`, in capital or small letters, become the end of a line.
pub proof fn law_line_break(
    a: Seq<char>,
    open: Seq<char>,
    w: Seq<char>,
    slash: bool,
    b: Seq<char>,
)
    requires
        is_tidy(a),
        is_tidy(b),
        folded(open) == "<br"@,
        all_space(w),
        !w.contains('\r'),
    ensures
        html_text(
            a + (open + w + (if slash {
                seq!['/', '>']
            } else {
                seq!['>']
            })) + b,
        ) == a + seq!['\n'] + b,
{
    reveal_strlit("<br");
    reveal_strlit("<img");
    reveal_strlit("<script");
    reveal_strlit("<style");
    let end = if slash {
        seq!['/', '>']
    } else {
        seq!['>']
    };
    let m = open + w + end;
    let s = m + b;
    assert(folded(open).len() == 3);
    assert(folded(open)[0] == '<' && folded(open)[1] == 'b' && folded(open)[2] == 'r');
    assert(forall|i: int| 0 <= i < 3 ==> #[trigger] s[i] == open[i]);
    assert(folded(s)[0] == folded(open)[0]);
    assert(folded(s)[1] == folded(open)[1]);
    assert(folded(s)[2] == folded(open)[2]);
    assert(folded(s).subrange(0, 3) =~= "<br"@);
    lemma_not_tag(s, "<img"@, 1);
    lemma_not_tag(s, "<script"@, 1);
    lemma_not_tag(s, "<style"@, 1);
    let t = s.skip(3);
    assert(forall|i: int| 0 <= i < w.len() ==> #[trigger] t[i] == w[i]);
    assert forall|i: int| 0 <= i < w.len() implies white()(#[trigger] t[i]) by {
        assert(is_space(w[i]));
    }
    assert(t[w.len() as int] == end[0]);
    lemma_run_is(t, white(), w.len());
    assert(s[(3 + w.len()) as int] == end[0]);
    assert(slash ==> s[(4 + w.len()) as int] == '>');
    assert(open[0] == '<') by {
        lemma_folded_first(open);
    }
    assert(no_markup(m.drop_first())) by {
        let rest = m.drop_first();
        assert forall|i: int| 0 <= i < rest.len() implies is_markup_free(#[trigger] rest[i]) by {
            assert(rest[i] == m[i + 1]);
            if i < 2 {
                assert(m[i + 1] == open[i + 1]);
                assert(folded(open)[i + 1] == crate::pattern::folded_char(open[i + 1]));
            } else if i < 2 + w.len() {
                assert(m[i + 1] == w[i - 2]);
                assert(w.contains(w[i - 2]));
                assert(is_space(w[i - 2]));
            } else {
                assert(m[i + 1] == end[i - 2 - w.len()]);
            }
        }
    }
    lemma_shown_tag(a, m, b, Step::Break);
}

/// The length of an end tag, and that it is neither an image, nor a script, a
/// style sheet, a line break or a list item.
proof fn lemma_end_tag(
    name: Seq<char>,
    w: Seq<char>,
    b: Seq<char>,
    names: spec_fn(Seq<char>) -> bool,
)
    requires
        forall|i: int| 0 <= i < name.len() ==> in_name()(#[trigger] name[i]),
        no_markup(name),
        all_space(w),
        !w.contains('\r'),
    ensures
        ({
            let m = seq!['<', '/'] + name + w + seq!['>'];
            let s = m + b;
            &&& names(folded(name)) ==> end_length(s, names) == m.len()
            &&& !names(folded(name)) ==> end_length(s, names) == 0
            &&& m[0] == '<'
            &&& no_markup(m.drop_first())
            &&& !starts_with(folded(s), "<img"@)
            &&& script()(s) == 0
            &&& style_sheet()(s) == 0
            &&& line_break()(s) == 0
            &&& list_item()(s) == 0
            &&& tag()(s) == m.len()
        }),
{
    reveal_strlit("<br");
    reveal_strlit("<img");
    reveal_strlit("<script");
    reveal_strlit("<style");
    reveal_strlit("<li");
    let m = seq!['<', '/'] + name + w + seq!['>'];
    let s = m + b;
    let n = name.len();
    assert(s[0] == '<' && s[1] == '/');
    assert(folded(s)[1] == '/');
    lemma_not_tag(s, "<img"@, 1);
    lemma_not_tag(s, "<script"@, 1);
    lemma_not_tag(s, "<style"@, 1);
    lemma_not_tag(s, "<br"@, 1);
    lemma_not_tag(s, "<li"@, 1);
    let t = s.skip(2);
    assert forall|i: int| 0 <= i < n implies in_name()(#[trigger] t[i]) by {
        assert(t[i] == name[i]);
    }
    if w.len() > 0 {
        assert(t[n as int] == w[0]);
    } else {
        assert(t[n as int] == '>');
    }
    lemma_run_is(t, in_name(), n);
    assert(s.subrange(2, (2 + n) as int) =~= name);
    let u = s.skip((2 + n) as int);
    assert forall|i: int| 0 <= i < w.len() implies white()(#[trigger] u[i]) by {
        assert(u[i] == w[i]);
    }
    assert(u[w.len() as int] == '>');
    lemma_run_is(u, white(), w.len());
    assert(s[(2 + n + w.len()) as int] == '>');
    assert(s.subrange(0, 2) =~= seq!['<', '/']);
    assert(no_markup(m.drop_first())) by {
        let rest = m.drop_first();
        assert forall|i: int| 0 <= i < rest.len() implies is_markup_free(#[trigger] rest[i]) by {
            assert(rest[i] == m[i + 1]);
            if i == 0 {
                assert(m[1] == '/');
            } else if i < 1 + n {
                assert(m[i + 1] == name[i - 1]);
            } else if i < 1 + n + w.len() {
                assert(m[i + 1] == w[i - 1 - n]);
                assert(w.contains(w[i - 1 - n]));
                assert(is_space(w[i - 1 - n]));
            } else {
                assert(m[i + 1] == '>');
            }
        }
    }
    let v = s.skip(1);
    assert forall|i: int| 0 <= i < 1 + n + w.len() implies other_than('>')(#[trigger] v[i]) by {
        assert(v[i] == s[i + 1]);
        if i == 0 {
        } else if i < 1 + n {
            assert(v[i] == name[i - 1]);
            assert(in_name()(name[i - 1]));
        } else {
            assert(v[i] == w[i - 1 - n]);
            assert(is_space(w[i - 1 - n]));
        }
    }
    assert(v[(1 + n + w.len()) as int] == '>');
    lemma_run_is(v, other_than('>'), 1 + n + w.len());
    assert(s.subrange(0, 1) =~= seq!['<']);
}

/// The end of a paragraph leaves an empty line between the texts around it.
pub proof fn law_paragraph_end(a: Seq<char>, name: char, w: Seq<char>, b: Seq<char>)
    requires
        is_tidy(a),
        is_tidy(b),
        name == 'p' || name == 'P',
        all_space(w),
        !w.contains('\r'),
    ensures
        html_text(a + (seq!['<', '/'] + seq![name] + w + seq!['>']) + b) == a + seq!['\n', '\n'] + b,
{
    reveal_strlit("p");
    let names = |name: Seq<char>| name == "p"@;
    lemma_end_tag(seq![name], w, b, names);
    assert(folded(seq![name]) =~= "p"@);
    let m = seq!['<', '/'] + seq![name] + w + seq!['>'];
    assert(paragraph_end()(m + b) == end_length(m + b, names));
    lemma_shown_tag(a, m, b, Step::Paragraph);
}

/// The end of another block ends the line: of a division, a section, an article,
/// a header, a footer, a heading, a list item, a row or a quotation.
pub proof fn law_block_end(a: Seq<char>, name: Seq<char>, w: Seq<char>, b: Seq<char>)
    requires
        is_tidy(a),
        is_tidy(b),
        folded(name) == "div"@ || folded(name) == "section"@ || folded(name) == "article"@ || folded(
            name,
        ) == "header"@ || folded(name) == "footer"@ || folded(name) == "li"@ || folded(name)
            == "tr"@ || folded(name) == "blockquote"@ || (folded(name).len() == 2 && folded(name)[0]
            == 'h' && '1' <= folded(name)[1] <= '6'),
        all_space(w),
        !w.contains('\r'),
    ensures
        html_text(a + (seq!['<', '/'] + name + w + seq!['>']) + b) == a + seq!['\n'] + b,
{
    reveal_strlit("p");
    let paragraph = |name: Seq<char>| name == "p"@;
    let blocks = |name: Seq<char>| is_block(name);
    let f = folded(name);
    reveal_strlit("div");
    reveal_strlit("section");
    reveal_strlit("article");
    reveal_strlit("header");
    reveal_strlit("footer");
    reveal_strlit("li");
    reveal_strlit("tr");
    reveal_strlit("blockquote");
    assert(f.len() > 1);
    assert(forall|i: int| 0 <= i < f.len() ==> 'a' <= #[trigger] f[i] <= 'z' || '1' <= f[i] <= '6');
    assert forall|i: int| 0 <= i < name.len() implies in_name()(#[trigger] name[i])
        && is_markup_free(name[i]) by {
        assert(f[i] == crate::pattern::folded_char(name[i]));
    }
    lemma_end_tag(name, w, b, paragraph);
    lemma_end_tag(name, w, b, blocks);
    let m = seq!['<', '/'] + name + w + seq!['>'];
    assert(paragraph_end()(m + b) == end_length(m + b, paragraph));
    assert(block_end()(m + b) == end_length(m + b, blocks));
    lemma_shown_tag(a, m, b, Step::Block);
}

/// Any other end tag leaves a blank.
pub proof fn law_other_end(a: Seq<char>, name: Seq<char>, w: Seq<char>, b: Seq<char>)
    requires
        is_tidy(a),
        is_tidy(b),
        no_markup(name),
        forall|i: int| 0 <= i < name.len() ==> in_name()(#[trigger] name[i]),
        folded(name) != "p"@,
        !is_block(folded(name)),
        all_space(w),
        !w.contains('\r'),
    ensures
        html_text(a + (seq!['<', '/'] + name + w + seq!['>']) + b) == a + seq![' '] + b,
{
    let paragraph = |name: Seq<char>| name == "p"@;
    let blocks = |name: Seq<char>| is_block(name);
    lemma_end_tag(name, w, b, paragraph);
    lemma_end_tag(name, w, b, blocks);
    let m = seq!['<', '/'] + name + w + seq!['>'];
    assert(paragraph_end()(m + b) == end_length(m + b, paragraph));
    assert(block_end()(m + b) == end_length(m + b, blocks));
    lemma_shown_tag(a, m, b, Step::Any);
}

/// A tag with its attributes, for which no step looks.
proof fn lemma_not_word(inner: Seq<char>, b: Seq<char>, word: Seq<char>)
    requires
        word.len() > 0,
        !word.contains('>'),
        !starts_with(folded(inner), word),
    ensures
        !starts_with(folded(seq!['<'] + inner + seq!['>'] + b), seq!['<'] + word),
{
    let s = seq!['<'] + inner + seq!['>'] + b;
    let start = seq!['<'] + word;
    if starts_with(folded(s), start) {
        let t = folded(s).subrange(0, start.len() as int);
        assert(t == start);
        if inner.len() >= word.len() {
            assert forall|i: int| 0 <= i < word.len() implies #[trigger] folded(inner)[i]
                == word[i] by {
                assert(t[i + 1] == start[i + 1]);
                assert(s[i + 1] == inner[i]);
            }
            assert(folded(inner).subrange(0, word.len() as int) =~= word);
        } else {
            let i = inner.len() as int;
            assert(t[i + 1] == start[i + 1]);
            assert(s[i + 1] == '>');
            assert(word[i] == '>');
        }
    }
}

/// The length of a tag, and of the beginning of a list item.
proof fn lemma_tag_length(inner: Seq<char>, b: Seq<char>)
    requires
        inner.len() > 0,
        no_markup(inner),
        !inner.contains('>'),
    ensures
        ({
            let m = seq!['<'] + inner + seq!['>'];
            let s = m + b;
            &&& tag()(s) == m.len()
            &&& m[0] == '<'
            &&& no_markup(m.drop_first())
            &&& starts_with(folded(inner), "li"@) ==> list_item()(s) == m.len()
            &&& inner[0] != '/' ==> paragraph_end()(s) == 0 && block_end()(s) == 0
        }),
{
    reveal_strlit("li");
    reveal_strlit("<li");
    let m = seq!['<'] + inner + seq!['>'];
    let s = m + b;
    let n = inner.len();
    let v = s.skip(1);
    assert forall|i: int| 0 <= i < n implies other_than('>')(#[trigger] v[i]) by {
        assert(v[i] == inner[i]);
        assert(inner.contains(inner[i]));
    }
    assert(v[n as int] == '>');
    lemma_run_is(v, other_than('>'), n);
    assert(s.subrange(0, 1) =~= seq!['<']);
    assert(m.drop_first() =~= inner + seq!['>']);
    lemma_no_markup_both(inner, seq!['>']);
    assert(s[1] == inner[0]);
    if inner[0] != '/' {
        if starts_with(s, seq!['<', '/']) {
            assert(s.subrange(0, 2)[1] == s[1]);
        }
    }
    if starts_with(folded(inner), "li"@) {
        let f = folded(inner).subrange(0, 2);
        assert(f[0] == folded(inner)[0] && f[1] == folded(inner)[1]);
        assert(s[2] == inner[1]);
        assert(folded(s).subrange(0, 3) =~= "<li"@);
        let u = s.skip(3);
        assert forall|i: int| 0 <= i < n - 2 implies other_than('>')(#[trigger] u[i]) by {
            assert(u[i] == v[i + 2]);
        }
        assert(u[n - 2] == v[n as int]);
        lemma_run_is(u, other_than('>'), (n - 2) as nat);
    }
}

/// The beginning of a list item becomes a dash and a blank.
pub proof fn law_list_item(a: Seq<char>, inner: Seq<char>, b: Seq<char>)
    requires
        is_tidy(a),
        is_tidy(b),
        no_markup(inner),
        !inner.contains('>'),
        starts_with(folded(inner), "li"@),
    ensures
        html_text(a + (seq!['<'] + inner + seq!['>']) + b) == a + seq!['-', ' '] + b,
{
    reveal_strlit("li");
    reveal_strlit("<br");
    reveal_strlit("<img");
    reveal_strlit("<script");
    reveal_strlit("<style");
    let m = seq!['<'] + inner + seq!['>'];
    let s = m + b;
    assert(folded(inner).subrange(0, 2)[0] == folded(inner)[0]);
    lemma_tag_length(inner, b);
    assert(folded(s)[1] == folded(inner)[0]);
    lemma_not_tag(s, "<img"@, 1);
    lemma_not_tag(s, "<script"@, 1);
    lemma_not_tag(s, "<style"@, 1);
    lemma_not_tag(s, "<br"@, 1);
    assert(inner[0] != '/');
    lemma_shown_tag(a, m, b, Step::Item);
}

/// Any other tag, with whatever attributes, becomes a blank.
pub proof fn law_other_tag(a: Seq<char>, inner: Seq<char>, b: Seq<char>)
    requires
        is_tidy(a),
        is_tidy(b),
        inner.len() > 0,
        no_markup(inner),
        !inner.contains('>'),
        inner[0] != '/',
        !starts_with(folded(inner), "img"@),
        !starts_with(folded(inner), "script"@),
        !starts_with(folded(inner), "style"@),
        !starts_with(folded(inner), "br"@),
        !starts_with(folded(inner), "li"@),
    ensures
        html_text(a + (seq!['<'] + inner + seq!['>']) + b) == a + seq![' '] + b,
{
    reveal_strlit("br");
    reveal_strlit("img");
    reveal_strlit("script");
    reveal_strlit("style");
    reveal_strlit("li");
    reveal_strlit("<br");
    reveal_strlit("<img");
    reveal_strlit("<script");
    reveal_strlit("<style");
    reveal_strlit("<li");
    let m = seq!['<'] + inner + seq!['>'];
    lemma_tag_length(inner, b);
    lemma_not_word(inner, b, "img"@);
    lemma_not_word(inner, b, "script"@);
    lemma_not_word(inner, b, "style"@);
    lemma_not_word(inner, b, "br"@);
    lemma_not_word(inner, b, "li"@);
    assert("<img"@ =~= seq!['<'] + "img"@);
    assert("<script"@ =~= seq!['<'] + "script"@);
    assert("<style"@ =~= seq!['<'] + "style"@);
    assert("<br"@ =~= seq!['<'] + "br"@);
    assert("<li"@ =~= seq!['<'] + "li"@);
    lemma_shown_tag(a, m, b, Step::Any);
}

// ---------------------------------------------------------------------------
// References and line ends
// ---------------------------------------------------------------------------

/// A reference between two tidy texts: what it stands for is part of the text, and
/// is not taken for markup again.
proof fn lemma_shown_reference(a: Seq<char>, m: Seq<char>, c: char, b: Seq<char>)
    requires
        is_tidy(a),
        is_tidy(b),
        m.contains('&'),
        !m.contains('<'),
        !m.contains('\r'),
        c == ' ' || (!is_space(c) && c != '&'),
        entities_decoded(a + m + b) == a + seq![c] + b,
    ensures
        html_text(a + m + b) == a + seq![c] + b,
{
    let s = a + m + b;
    let out = a + seq![c] + b;
    lemma_reference_alone(a, m, b);
    assert(is_trimmed(s)) by {
        assert(s[0] == a[0]);
        assert(s.last() == b.last());
    }
    lemma_trim(s);
    assert(without_tags(s) == s) by {
        lemma_no_returns(s);
        lemma_images_before(s, seq![]);
        assert(s + Seq::<char>::empty() =~= s);
        assert(images_shown(seq![]) =~= seq![]);
        crate::keep::lemma_no_tags(s);
    }
    assert(html_text(s) == trim(tidied(lines(blanks_joined(out)), false)));
    assert(trim(tidied(lines(blanks_joined(out)), false)) == out) by {
        lemma_shown_character(a, c, b);
    }
}

/// A reference is all the markup that there is between two tidy texts.
proof fn lemma_reference_alone(a: Seq<char>, m: Seq<char>, b: Seq<char>)
    requires
        no_markup(a),
        no_markup(b),
        m.contains('&'),
        !m.contains('<'),
        !m.contains('\r'),
    ensures
        (a + m + b).contains('&'),
        !(a + m + b).contains('<'),
        !(a + m + b).contains('\r'),
{
    let s = a + m + b;
    lemma_no_markup(a);
    lemma_no_markup(b);
    let k = choose|k: int| 0 <= k < m.len() && m[k] == '&';
    assert(s[a.len() + k] == '&');
    if s.contains('<') || s.contains('\r') {
        let i = choose|i: int| 0 <= i < s.len() && (s[i] == '<' || s[i] == '\r');
        if i < a.len() {
            assert(a.contains(a[i]));
        } else if i < a.len() + m.len() {
            assert(m.contains(m[i - a.len()]));
        } else {
            assert(b.contains(b[i - a.len() - m.len()]));
        }
    }
}

/// Any one character between two tidy texts leaves nothing to tidy up.
proof fn lemma_shown_character(a: Seq<char>, c: char, b: Seq<char>)
    requires
        is_tidy(a),
        is_tidy(b),
        c == ' ' || !is_space(c),
    ensures
        trim(tidied(lines(blanks_joined(a + seq![c] + b)), false)) == a + seq![c] + b,
{
    let out = a + seq![c] + b;
    assert(seq![c][0] == c);
    lemma_shape_between(a, seq![c], b);
    lemma_blanks_kept(out);
    assert(out[0] == a[0] && out.last() == b.last());
    assert forall|i: int| 0 <= i < out.len() implies #[trigger] out[i] != '\r' by {
        if i < a.len() {
            assert(out[i] == a[i] && is_markup_free(a[i]));
        } else if i > a.len() {
            assert(out[i] == b[i - a.len() - 1] && is_markup_free(b[i - a.len() - 1]));
        }
    }
    lemma_tidied_lines(out, false);
    crate::text::law_trimmed(seq![], out, seq!['\n']);
    assert(Seq::<char>::empty() + out + seq!['\n'] =~= out.push('\n'));
}

/// A reference by number between two texts is that character in the text, also
/// where the character would begin a tag.
pub proof fn law_number_in_text(a: Seq<char>, k: nat, c: char, b: Seq<char>)
    requires
        is_tidy(a),
        is_tidy(b),
        c == ' ' || (!is_space(c) && c != '&'),
    ensures
        html_text(a + ("&#"@ + (zeros(k) + decimal(c as nat)) + ";"@) + b) == a + seq![c] + b,
{
    lemma_no_markup(a);
    lemma_no_markup(b);
    law_decimal_reference(a, k, c, b);
    crate::text::law_decimal(c as nat);
    reveal_strlit("&#");
    reveal_strlit(";");
    let digits = zeros(k) + decimal(c as nat);
    let m = "&#"@ + digits + ";"@;
    assert(m[0] == '&');
    assert(forall|i: int| 0 <= i < m.len() ==> #[trigger] m[i] != '<' && m[i] != '\r') by {
        assert forall|i: int| 0 <= i < m.len() implies #[trigger] m[i] != '<' && m[i] != '\r' by {
            if 2 <= i < 2 + k {
                assert(m[i] == zeros(k)[i - 2]);
            } else if 2 + k <= i < 2 + digits.len() {
                assert(m[i] == decimal(c as nat)[i - 2 - k]);
            }
        }
    }
    lemma_shown_reference(a, m, c, b);
}

/// The same of a reference by name: `&lt;` shows a `<`, which is not taken for the
/// beginning of a tag.
pub proof fn law_name_in_text(a: Seq<char>, name: Seq<char>, b: Seq<char>)
    requires
        is_tidy(a),
        is_tidy(b),
        named_character(name) is Some,
    ensures
        html_text(a + ("&"@ + name + ";"@) + b) == a + seq![named_character(name)->0] + b,
{
    lemma_no_markup(a);
    lemma_no_markup(b);
    law_named_reference(a, name, b);
    reveal_strlit("&");
    reveal_strlit(";");
    reveal_strlit("nbsp");
    reveal_strlit("lt");
    reveal_strlit("gt");
    reveal_strlit("quot");
    reveal_strlit("apos");
    let m = "&"@ + name + ";"@;
    assert(m[0] == '&');
    assert(forall|i: int| 0 <= i < name.len() ==> #[trigger] name[i] != '<' && name[i] != '\r');
    assert(forall|i: int| 0 <= i < m.len() ==> #[trigger] m[i] != '<' && m[i] != '\r') by {
        assert forall|i: int| 0 <= i < m.len() implies #[trigger] m[i] != '<' && m[i] != '\r' by {
            if 1 <= i < 1 + name.len() {
                assert(m[i] == name[i - 1]);
            }
        }
    }
    lemma_shown_reference(a, m, named_character(name)->0, b);
}

/// A carriage return ends a line as a line feed does, and so do the two together.
pub proof fn law_line_ends(a: Seq<char>, b: Seq<char>)
    requires
        !a.contains('\r'),
    ensures
        without_tags(a + seq!['\r', '\n'] + b) == without_tags(a + seq!['\n'] + b),
        b.len() == 0 || b[0] != '\n' ==> without_tags(a + seq!['\r'] + b) == without_tags(
            a + seq!['\n'] + b,
        ),
{
    reveal_strlit("\r\n");
    reveal_strlit("\r");
    reveal_strlit("\n");
    let both = "\r\n"@;
    let back = "\r"@;
    let feed = "\n"@;
    assert(both =~= seq!['\r', '\n']);
    assert(back =~= seq!['\r']);
    assert(feed =~= seq!['\n']);
    let rest = replaced(b, both, feed);
    let s = a + both + b;
    assert forall|i: int| 0 <= i < a.len() implies !#[trigger] occurs_at(s, both, i) by {
        if occurs_at(s, both, i) {
            assert(s.subrange(i, i + 2)[0] == s[i]);
            assert(s[i] == a[i]);
        }
    }
    law_replaced(a, both, b, feed);
    assert(replaced(s, both, feed) == a + feed + rest);
    let t = a + feed;
    let u = t + b;
    lemma_kept_before(t, b, both, feed);
    assert(a + feed + b =~= u);
    assert(replaced(u, both, feed) == t + rest);
    assert(without_tags(s) == without_tags(u));
    if b.len() == 0 || b[0] != '\n' {
        let x = a + back + b;
        let v = a + back;
        lemma_kept_before(a, back + b, both, feed);
        assert(a + (back + b) =~= x);
        assert(!starts_with(back + b, both)) by {
            if starts_with(back + b, both) {
                assert((back + b).subrange(0, 2)[1] == (back + b)[1]);
            }
        }
        assert((back + b).drop_first() =~= b);
        assert(replaced(back + b, both, feed) =~= back + rest);
        assert(replaced(x, both, feed) =~= a + back + rest);
        let y = a + back + rest;
        assert forall|i: int| 0 <= i < a.len() implies !#[trigger] occurs_at(y, back, i) by {
            if occurs_at(y, back, i) {
                assert(y.subrange(i, i + 1)[0] == y[i]);
                assert(y[i] == a[i]);
            }
        }
        law_replaced(a, back, rest, feed);
        lemma_kept_before(t, rest, back, feed);
        assert(a + feed + replaced(rest, back, feed) =~= t + replaced(rest, back, feed));
        assert(without_tags(x) == without_tags(u));
    }
}

/// What begins with a carriage return is not found before the first one.
proof fn lemma_kept_before(a: Seq<char>, b: Seq<char>, part: Seq<char>, by: Seq<char>)
    requires
        forall|i: int| 0 <= i < a.len() ==> #[trigger] a[i] != '\r',
        part.len() > 0,
        part[0] == '\r',
    ensures
        replaced(a + b, part, by) == a + replaced(b, part, by),
    decreases a.len(),
{
    let s = a + b;
    if a.len() == 0 {
        assert(s =~= b);
        assert(a + replaced(b, part, by) =~= replaced(b, part, by));
    } else {
        assert(s[0] == a[0]);
        if starts_with(s, part) {
            assert(s.subrange(0, part.len() as int)[0] == s[0]);
        }
        assert(s.drop_first() =~= a.drop_first() + b);
        lemma_kept_before(a.drop_first(), b, part, by);
        assert(seq![s[0]] + (a.drop_first() + replaced(b, part, by)) =~= a + replaced(b, part, by));
    }
}

// ---------------------------------------------------------------------------
// Scripts and style sheets
// ---------------------------------------------------------------------------

/// Where an end tag stands that follows a text without `<`.
proof fn lemma_next_close(s: Seq<char>, close: Seq<char>, from: nat, at: nat)
    requires
        from <= at < s.len(),
        occurs_at(s, close, at as int),
        close.len() > 0,
        forall|i: int| from <= i < at ==> #[trigger] s[i] != close[0],
    ensures
        next_text(s, close, from) == Some(at),
    decreases at - from,
{
    if from < at {
        if occurs_at(s, close, from as int) {
            assert(s.subrange(from as int, (from + close.len()) as int)[0] == s[from as int]);
        }
        lemma_next_close(s, close, from + 1, at);
    }
}

/// The length of a script or a style sheet.
proof fn lemma_element(
    start: Seq<char>,
    close: Seq<char>,
    open: Seq<char>,
    attributes: Seq<char>,
    text: Seq<char>,
    end: Seq<char>,
    b: Seq<char>,
)
    requires
        folded(open) == start,
        folded(end) == close,
        start.len() > 0,
        close.len() > 0,
        close[0] == '<',
        no_markup(attributes),
        !attributes.contains('>'),
        no_markup(text),
    ensures
        ({
            let m = open + attributes + seq!['>'] + text + end;
            element_length(m + b, start, close) == m.len()
        }),
{
    let m = open + attributes + seq!['>'] + text + end;
    let s = m + b;
    let n = start.len();
    assert(folded(open).len() == n);
    assert(folded(end).len() == close.len());
    assert(folded(s).subrange(0, n as int) =~= start) by {
        assert forall|i: int| 0 <= i < n implies #[trigger] folded(s).subrange(0, n as int)[i]
            == start[i] by {
            assert(s[i] == open[i]);
            assert(folded(open)[i] == start[i]);
        }
    }
    let t = s.skip(n as int);
    assert forall|i: int| 0 <= i < attributes.len() implies other_than('>')(#[trigger] t[i]) by {
        assert(t[i] == attributes[i]);
        assert(attributes.contains(attributes[i]));
    }
    assert(t[attributes.len() as int] == '>');
    lemma_run_is(t, other_than('>'), attributes.len());
    let from = n + attributes.len() + 1;
    let at = from + text.len();
    assert forall|i: int| from <= i < at implies #[trigger] folded(s)[i] != '<' by {
        assert(s[i] == text[i - from]);
        assert(is_markup_free(text[i - from]));
        assert(folded(s)[i] == crate::pattern::folded_char(s[i]));
    }
    assert(folded(s).subrange(at as int, (at + close.len()) as int) =~= close) by {
        assert forall|i: int| 0 <= i < close.len() implies #[trigger] folded(s).subrange(
            at as int,
            (at + close.len()) as int,
        )[i] == close[i] by {
            assert(s[at + i] == end[i]);
            assert(folded(end)[i] == close[i]);
        }
    }
    lemma_next_close(folded(s), close, from, at);
}

/// An element without an image in it shows none.
proof fn lemma_no_image_in(x: Seq<char>, end: Seq<char>, b: Seq<char>)
    requires
        x.len() > 0,
        no_markup(x.drop_first()),
        end.len() > 1,
        no_markup(end.drop_first()),
        end[1] == '/',
        no_markup(b),
        !starts_with(folded(x + end + b), "<img"@),
    ensures
        images_shown(x + end + b) == x + end + b,
{
    reveal_strlit("<img");
    let s = x + end + b;
    let rest = x.drop_first();
    assert(s.drop_first() =~= rest + end + b);
    assert((end + b)[1] == '/');
    lemma_not_tag(end + b, "<img"@, 1);
    lemma_no_image(rest, end, b);
    assert(images_shown(s) == seq![s[0]] + images_shown(s.drop_first()));
    assert(seq![s[0]] + (rest + end + b) =~= s);
}

/// A script between two texts is taken away with all that stands in it, and leaves
/// a blank.
pub proof fn law_script(
    a: Seq<char>,
    open: Seq<char>,
    attributes: Seq<char>,
    text: Seq<char>,
    end: Seq<char>,
    b: Seq<char>,
)
    requires
        is_tidy(a),
        is_tidy(b),
        folded(open) == "<script"@,
        folded(end) == "</script>"@,
        no_markup(attributes),
        !attributes.contains('>'),
        no_markup(text),
    ensures
        html_text(a + (open + attributes + seq!['>'] + text + end) + b) == a + seq![' '] + b,
{
    reveal_strlit("<script");
    reveal_strlit("</script>");
    reveal_strlit(" ");
    assert(" "@ =~= seq![' ']);
    let m = open + attributes + seq!['>'] + text + end;
    lemma_element("<script"@, "</script>"@, open, attributes, text, end, b);
    lemma_open_and_end(a, "<script"@, "</script>"@, open, attributes, text, end, b);
    lemma_brackets_first();
    let out = a + seq![' '] + b;
    lemma_piece(a, m, b, script(), " "@);
    lemma_tidy_between(a, seq![' '], b);
    lemma_no_markup(out);
    lemma_no_pieces(out, style_sheet(), " "@);
    lemma_after_elements(a + m + b, out);
}

/// A style sheet between two texts is taken away with all that stands in it, and
/// leaves a blank.
pub proof fn law_style_sheet(
    a: Seq<char>,
    open: Seq<char>,
    attributes: Seq<char>,
    text: Seq<char>,
    end: Seq<char>,
    b: Seq<char>,
)
    requires
        is_tidy(a),
        is_tidy(b),
        folded(open) == "<style"@,
        folded(end) == "</style>"@,
        no_markup(attributes),
        !attributes.contains('>'),
        no_markup(text),
    ensures
        html_text(a + (open + attributes + seq!['>'] + text + end) + b) == a + seq![' '] + b,
{
    reveal_strlit("<style");
    reveal_strlit("</style>");
    reveal_strlit("<script");
    reveal_strlit(" ");
    assert(" "@ =~= seq![' ']);
    let m = open + attributes + seq!['>'] + text + end;
    let x = open + attributes + seq!['>'] + text;
    lemma_element("<style"@, "</style>"@, open, attributes, text, end, b);
    lemma_open_and_end(a, "<style"@, "</style>"@, open, attributes, text, end, b);
    lemma_brackets_first();
    let out = a + seq![' '] + b;
    let s = a + m + b;
    assert(pieces_replaced(s, script(), " "@) == s) by {
        let tail = end + b;
        assert(folded(tail)[1] == folded(end)[1]);
        lemma_not_tag(tail, "<script"@, 1);
        lemma_piece(x.drop_first(), end, b, script(), " "@);
        let all = m + b;
        assert(folded(all)[2] == folded(open)[2]);
        lemma_not_tag(all, "<script"@, 2);
        assert(all.drop_first() =~= x.drop_first() + end + b);
        assert(pieces_replaced(all, script(), " "@) == seq![all[0]] + pieces_replaced(
            all.drop_first(),
            script(),
            " "@,
        ));
        assert(seq![all[0]] + all.drop_first() =~= all);
        lemma_pieces_before(a, all, script(), " "@);
        assert(s =~= a + all);
    }
    lemma_piece(a, m, b, style_sheet(), " "@);
    lemma_tidy_between(a, seq![' '], b);
    lemma_no_markup(out);
    lemma_after_elements(s, out);
}

/// What begins with `<` is not found in a text without it that goes before.
proof fn lemma_pieces_before(
    a: Seq<char>,
    b: Seq<char>,
    length: spec_fn(Seq<char>) -> nat,
    by: Seq<char>,
)
    requires
        no_markup(a),
        forall|t: Seq<char>| t.len() > 0 && t[0] != '<' ==> #[trigger] length(t) == 0,
    ensures
        pieces_replaced(a + b, length, by) == a + pieces_replaced(b, length, by),
    decreases a.len(),
{
    let s = a + b;
    if a.len() == 0 {
        assert(s =~= b);
        assert(a + pieces_replaced(b, length, by) =~= pieces_replaced(b, length, by));
    } else {
        let rest = a.drop_first();
        assert(is_markup_free(a[0]));
        assert(s[0] == a[0]);
        assert(length(s) == 0);
        assert(s.drop_first() =~= rest + b);
        assert(no_markup(rest)) by {
            assert forall|i: int| 0 <= i < rest.len() implies is_markup_free(#[trigger] rest[i]) by {
                assert(rest[i] == a[i + 1]);
            }
        }
        lemma_pieces_before(rest, b, length, by);
        assert(seq![s[0]] + (rest + pieces_replaced(b, length, by)) =~= a + pieces_replaced(
            b,
            length,
            by,
        ));
    }
}

/// What goes before the search for scripts and style sheets leaves an element
/// between two texts as it is.
proof fn lemma_open_and_end(
    a: Seq<char>,
    start: Seq<char>,
    close: Seq<char>,
    open: Seq<char>,
    attributes: Seq<char>,
    text: Seq<char>,
    end: Seq<char>,
    b: Seq<char>,
)
    requires
        is_tidy(a),
        is_tidy(b),
        (start == "<script"@ && close == "</script>"@) || (start == "<style"@ && close
            == "</style>"@),
        folded(open) == start,
        folded(end) == close,
        no_markup(attributes),
        no_markup(text),
    ensures
        ({
            let x = open + attributes + seq!['>'] + text;
            let s = a + (x + end) + b;
            &&& images_shown(replaced(replaced(s, "\r\n"@, "\n"@), "\r"@, "\n"@)) == s
            &&& open.len() == start.len()
            &&& end.len() == close.len()
            &&& open[0] == '<'
            &&& end[0] == '<'
            &&& no_markup(x.drop_first())
            &&& no_markup(end.drop_first())
            &&& trim(s) == s
            &&& s.contains('<')
        }),
{
    reveal_strlit("<script");
    reveal_strlit("</script>");
    reveal_strlit("<style");
    reveal_strlit("</style>");
    reveal_strlit("<img");
    let x = open + attributes + seq!['>'] + text;
    let m = x + end;
    let s = a + m + b;
    assert(folded(open).len() == open.len());
    assert(folded(end).len() == end.len());
    lemma_folded_first(open);
    lemma_folded_first(end);
    assert forall|i: int| 0 < i < open.len() implies is_markup_free(#[trigger] open[i]) by {
        assert(folded(open)[i] == crate::pattern::folded_char(open[i]));
    }
    assert forall|i: int| 0 < i < end.len() implies is_markup_free(#[trigger] end[i]) by {
        assert(folded(end)[i] == crate::pattern::folded_char(end[i]));
    }
    assert(end[1] == '/') by {
        assert(folded(end)[1] == crate::pattern::folded_char(end[1]));
    }
    let head = open.drop_first();
    lemma_no_markup_both(head, attributes);
    lemma_no_markup_both(head + attributes, seq!['>']);
    lemma_no_markup_both(head + attributes + seq!['>'], text);
    assert(x.drop_first() =~= head + attributes + seq!['>'] + text);
    assert(no_markup(end.drop_first()));
    assert(!s.contains('\r')) by {
        if s.contains('\r') {
            let i = choose|i: int| 0 <= i < s.len() && s[i] == '\r';
            let n = a.len();
            if i < n {
                assert(s[i] == a[i] && is_markup_free(a[i]));
            } else if i == n {
                assert(s[i] == open[0]);
            } else if i < n + x.len() {
                assert(s[i] == x.drop_first()[i - n - 1]);
                assert(is_markup_free(x.drop_first()[i - n - 1]));
            } else if i == n + x.len() {
                assert(s[i] == end[0]);
            } else if i < n + m.len() {
                assert(s[i] == end.drop_first()[i - n - x.len() - 1]);
                assert(is_markup_free(end.drop_first()[i - n - x.len() - 1]));
            } else {
                assert(s[i] == b[i - n - m.len()] && is_markup_free(b[i - n - m.len()]));
            }
        }
    }
    lemma_no_returns(s);
    let all = x + end + b;
    assert(folded(all)[1] == folded(open)[1]);
    lemma_not_tag(all, "<img"@, 1);
    lemma_no_image_in(x, end, b);
    lemma_no_markup(a);
    lemma_images_before(a, all);
    assert(s =~= a + all);
    assert(s[0] == a[0]);
    assert(s.last() == b.last());
    lemma_trim(s);
    assert(s[a.len() as int] == '<');
}

/// The text once all scripts and style sheets are taken away and no tag is left.
proof fn lemma_after_elements(s: Seq<char>, out: Seq<char>)
    requires
        trim(s) == s,
        s.contains('<'),
        is_tidy(out),
        ({
            let a = images_shown(replaced(replaced(s, "\r\n"@, "\n"@), "\r"@, "\n"@));
            pieces_replaced(pieces_replaced(a, script(), " "@), style_sheet(), " "@) == out
        }),
    ensures
        html_text(s) == out,
{
    lemma_brackets_first();
    lemma_no_markup(out);
    lemma_no_pieces(out, line_break(), "\n"@);
    lemma_no_pieces(out, paragraph_end(), "\n\n"@);
    lemma_no_pieces(out, block_end(), "\n"@);
    lemma_no_pieces(out, list_item(), "- "@);
    lemma_no_pieces(out, tag(), " "@);
    lemma_tidy_kept(out);
}

} // verus!
