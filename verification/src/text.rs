//! Text as a sequence of characters: trimming, splitting, searching,
//! replacing and writing numbers.
//!
//! The functions work on slices of characters. `chars_of` and `string_of`
//! lead from strings to slices and back.

use vstd::prelude::*;
use vstd::slice::slice_subrange;

verus! {

/// `String::push` appends one character to the end of the string.
pub assume_specification[ String::push ](s: &mut String, c: char)
    ensures
        final(s)@ == old(s)@.push(c),
;

/// The lower case form of a text, as the Unicode tables give it.
pub uninterp spec fn lowercase(s: Seq<char>) -> Seq<char>;

/// `str::to_lowercase` gives the lower case form of the whole text. Of that
/// form the contract says that it holds no capital ASCII letter, and that for
/// an ASCII text it is made letter by letter.
#[verifier::external_body]
pub(crate) fn to_lowercase(s: &str) -> (out: String)
    ensures
        out@ == lowercase(s@),
        forall|i: int| 0 <= i < out@.len() ==> !is_ascii_upper(#[trigger] out@[i]),
        is_ascii_text(s@) ==> out@ == ascii_lower(s@),
{
    s.to_lowercase()
}

// ---------------------------------------------------------------------------
// Strings and slices of characters
// ---------------------------------------------------------------------------

/// The characters of `s`, in order.
pub fn chars_of(s: &str) -> (out: Vec<char>)
    ensures
        out@ == s@,
{
    let mut out: Vec<char> = Vec::new();
    for c in it: s.chars()
        invariant
            out@ == s@.take(it.index() as int),
            it.seq() == s@,
    {
        out.push(c);
    }
    out
}

/// The string made of the characters of `chars`.
pub fn string_of(chars: &[char]) -> (out: String)
    ensures
        out@ == chars@,
{
    let mut out: String = String::new();
    let mut i: usize = 0;
    while i < chars.len()
        invariant
            i <= chars@.len(),
            out@ == chars@.take(i as int),
        decreases chars@.len() - i,
    {
        out.push(chars[i]);
        i = i + 1;
    }
    out
}

/// Appends the characters of `chars` to `out`.
pub fn extend_chars(out: &mut Vec<char>, chars: &[char])
    ensures
        final(out)@ == old(out)@ + chars@,
{
    let ghost before = out@;
    let mut i: usize = 0;
    while i < chars.len()
        invariant
            i <= chars@.len(),
            out@ == before + chars@.take(i as int),
        decreases chars@.len() - i,
    {
        out.push(chars[i]);
        i = i + 1;
    }
    assert(chars@.take(i as int) == chars@);
}

/// Whether two slices hold the same characters.
pub fn same_chars(a: &[char], b: &[char]) -> (same: bool)
    ensures
        same == (a@ == b@),
{
    if a.len() != b.len() {
        return false;
    }
    let mut i: usize = 0;
    while i < a.len()
        invariant
            i <= a@.len(),
            a@.len() == b@.len(),
            forall|j: int| 0 <= j < i ==> a@[j] == b@[j],
        decreases a@.len() - i,
    {
        if a[i] != b[i] {
            return false;
        }
        i = i + 1;
    }
    assert(a@ =~= b@);
    true
}

/// Whether two texts are the same.
pub fn same_text(a: &str, b: &str) -> (same: bool)
    ensures
        same == (a@ == b@),
{
    same_chars(&chars_of(a), &chars_of(b))
}

/// The first `max_chars` characters of `s`, or all of them where it has no
/// more.
pub fn truncate_chars(s: &str, max_chars: usize) -> (out: String)
    ensures
        out@ == truncated(s@, max_chars as nat),
{
    let chars: Vec<char> = chars_of(s);
    if max_chars < chars.len() {
        string_of(slice_subrange(&chars, 0, max_chars))
    } else {
        string_of(&chars)
    }
}

/// The first `max` characters of `s`, or all of them where it has no more.
pub open spec fn truncated(s: Seq<char>, max: nat) -> Seq<char> {
    if max < s.len() {
        s.take(max as int)
    } else {
        s
    }
}

// ---------------------------------------------------------------------------
// Classes of characters
// ---------------------------------------------------------------------------

/// The characters with the Unicode property `White_Space`.
pub open spec fn is_space(c: char) -> bool {
    let n = c as u32;
    ||| 0x09 <= n <= 0x0d
    ||| n == 0x20
    ||| n == 0x85
    ||| n == 0xa0
    ||| n == 0x1680
    ||| 0x2000 <= n <= 0x200a
    ||| n == 0x2028
    ||| n == 0x2029
    ||| n == 0x202f
    ||| n == 0x205f
    ||| n == 0x3000
}

/// Whether `c` has the Unicode property `White_Space`.
pub fn space(c: char) -> (yes: bool)
    ensures
        yes == is_space(c),
{
    let n: u32 = c as u32;
    (0x09 <= n && n <= 0x0d) || n == 0x20 || n == 0x85 || n == 0xa0 || n == 0x1680 || (0x2000 <= n
        && n <= 0x200a) || n == 0x2028 || n == 0x2029 || n == 0x202f || n == 0x205f || n == 0x3000
}

/// The letters `A` to `Z`.
pub open spec fn is_ascii_upper(c: char) -> bool {
    'A' <= c <= 'Z'
}

/// The letters `a` to `z` and `A` to `Z`, and the digits.
pub open spec fn is_ascii_alnum(c: char) -> bool {
    ||| 'a' <= c <= 'z'
    ||| 'A' <= c <= 'Z'
    ||| '0' <= c <= '9'
}

/// Whether `c` is an ASCII letter or digit.
pub fn ascii_alnum(c: char) -> (yes: bool)
    ensures
        yes == is_ascii_alnum(c),
{
    ('a' <= c && c <= 'z') || ('A' <= c && c <= 'Z') || ('0' <= c && c <= '9')
}

/// Every character is in the ASCII range.
pub open spec fn is_ascii_text(s: Seq<char>) -> bool {
    forall|i: int| 0 <= i < s.len() ==> #[trigger] s[i] as u32 <= 127
}

/// The small letter for a capital ASCII letter, any other character itself.
pub open spec fn ascii_lower_char(c: char) -> char {
    if is_ascii_upper(c) {
        (c as u32 + 32) as char
    } else {
        c
    }
}

/// `s` with every capital ASCII letter made small.
pub open spec fn ascii_lower(s: Seq<char>) -> Seq<char> {
    s.map_values(|c: char| ascii_lower_char(c))
}

/// `s` with every capital ASCII letter made small.
pub fn lower_ascii(s: &[char]) -> (out: Vec<char>)
    ensures
        out@ == ascii_lower(s@),
{
    let mut out: Vec<char> = Vec::new();
    let mut i: usize = 0;
    while i < s.len()
        invariant
            i <= s@.len(),
            out@ == ascii_lower(s@).take(i as int),
        decreases s@.len() - i,
    {
        let c: char = s[i];
        if 'A' <= c && c <= 'Z' {
            out.push((c as u8 + 32) as char);
        } else {
            out.push(c);
        }
        i = i + 1;
    }
    assert(ascii_lower(s@).take(i as int) == ascii_lower(s@));
    out
}

// ---------------------------------------------------------------------------
// Trimming
// ---------------------------------------------------------------------------

/// `s` without its leading white space.
pub open spec fn trim_start(s: Seq<char>) -> Seq<char>
    decreases s.len(),
{
    if s.len() > 0 && is_space(s[0]) {
        trim_start(s.drop_first())
    } else {
        s
    }
}

/// `s` without its trailing white space.
pub open spec fn trim_end(s: Seq<char>) -> Seq<char>
    decreases s.len(),
{
    if s.len() > 0 && is_space(s.last()) {
        trim_end(s.drop_last())
    } else {
        s
    }
}

/// `s` without the white space at its two ends.
pub open spec fn trim(s: Seq<char>) -> Seq<char> {
    trim_end(trim_start(s))
}

/// Trimming the end leaves a beginning of the text, without white space at its
/// end.
pub proof fn lemma_trim_end(s: Seq<char>)
    ensures
        trim_end(s).len() <= s.len(),
        trim_end(s) == s.take(trim_end(s).len() as int),
        trim_end(s).len() > 0 ==> !is_space(trim_end(s).last()),
        forall|i: int| trim_end(s).len() <= i < s.len() ==> is_space(#[trigger] s[i]),
    decreases s.len(),
{
    if s.len() > 0 && is_space(s.last()) {
        lemma_trim_end(s.drop_last());
        let n = trim_end(s).len() as int;
        assert(s.drop_last().take(n) =~= s.take(n));
        assert forall|i: int| n <= i < s.len() implies is_space(#[trigger] s[i]) by {
            if i < s.len() - 1 {
                assert(s[i] == s.drop_last()[i]);
            }
        }
    } else {
        assert(s.take(s.len() as int) =~= s);
    }
}

/// Trimming the beginning leaves an end of the text, without white space at
/// its beginning.
pub proof fn lemma_trim_start(s: Seq<char>)
    ensures
        trim_start(s).len() <= s.len(),
        trim_start(s) == s.skip(s.len() - trim_start(s).len()),
        trim_start(s).len() > 0 ==> !is_space(trim_start(s)[0]),
    decreases s.len(),
{
    if s.len() > 0 && is_space(s[0]) {
        lemma_trim_start(s.drop_first());
        let n = s.len() - trim_start(s).len();
        assert(s.drop_first().skip(n - 1) =~= s.skip(n));
    } else {
        assert(s.skip(0) =~= s);
    }
}

/// A text has no white space at its ends.
pub open spec fn is_trimmed(s: Seq<char>) -> bool {
    s.len() > 0 ==> !is_space(s[0]) && !is_space(s.last())
}

/// Trimming leaves a piece of the text that has no white space at its ends,
/// and changes nothing where there is none.
pub proof fn lemma_trim(s: Seq<char>) -> (from: int)
    ensures
        is_trimmed(trim(s)),
        0 <= from <= s.len() - trim(s).len(),
        trim(s) == s.subrange(from, from + trim(s).len()),
        is_trimmed(s) ==> trim(s) == s,
        trim(trim(s)) == trim(s),
{
    lemma_trim_start(s);
    let t = trim_start(s);
    lemma_trim_end(t);
    let from = s.len() - t.len();
    assert(trim(s) =~= s.subrange(from, from + trim(s).len()));
    if trim(s).len() > 0 {
        assert(trim(s)[0] == t[0]);
    }
    assert(trim_start(trim(s)) == trim(s));
    assert(trim_end(trim(s)) == trim(s));
    from
}

/// The part of `s` between the white space at its two ends.
pub fn trimmed(s: &[char]) -> (out: &[char])
    ensures
        out@ == trim(s@),
{
    let mut a: usize = 0;
    assert(s@.skip(0) == s@);
    while a < s.len() && space(s[a])
        invariant
            a <= s@.len(),
            trim_start(s@.skip(a as int)) == trim_start(s@),
        decreases s@.len() - a,
    {
        assert(s@.skip(a as int).drop_first() == s@.skip(a + 1));
        a = a + 1;
    }
    assert(trim_start(s@) == s@.skip(a as int));
    let mut b: usize = s.len();
    assert(s@.subrange(a as int, b as int) == s@.skip(a as int));
    while b > a && space(s[b - 1])
        invariant
            a <= b <= s@.len(),
            trim_end(s@.subrange(a as int, b as int)) == trim_end(s@.skip(a as int)),
        decreases b,
    {
        assert(s@.subrange(a as int, b as int).drop_last() == s@.subrange(a as int, b - 1));
        b = b - 1;
    }
    slice_subrange(s, a, b)
}

/// `s` without the white space at its two ends.
pub fn trim_text(s: &str) -> (out: String)
    ensures
        out@ == trim(s@),
{
    string_of(trimmed(&chars_of(s)))
}

// ---------------------------------------------------------------------------
// Splitting
// ---------------------------------------------------------------------------

/// The number of leading characters of `s` for which `p` holds without a gap.
pub open spec fn run(s: Seq<char>, p: spec_fn(char) -> bool) -> nat
    decreases s.len(),
{
    if s.len() > 0 && p(s[0]) {
        1 + run(s.drop_first(), p)
    } else {
        0
    }
}

/// What `run` counts: the first characters all have the property, and the one
/// that follows them, where there is one, does not.
pub proof fn lemma_run(s: Seq<char>, p: spec_fn(char) -> bool)
    ensures
        run(s, p) <= s.len(),
        forall|i: int| 0 <= i < run(s, p) ==> p(#[trigger] s[i]),
        run(s, p) < s.len() ==> !p(s[run(s, p) as int]),
    decreases s.len(),
{
    if s.len() > 0 && p(s[0]) {
        let t = s.drop_first();
        lemma_run(t, p);
        assert forall|i: int| 0 <= i < run(s, p) implies p(#[trigger] s[i]) by {
            if i > 0 {
                assert(s[i] == t[i - 1]);
            }
        }
    }
}

/// A run is pinned down by where it ends.
pub proof fn lemma_run_is(s: Seq<char>, p: spec_fn(char) -> bool, n: nat)
    requires
        n <= s.len(),
        forall|i: int| 0 <= i < n ==> p(#[trigger] s[i]),
        n < s.len() ==> !p(s[n as int]),
    ensures
        run(s, p) == n,
{
    lemma_run(s, p);
    let r = run(s, p);
    if r < n {
        assert(p(s[r as int]));
    }
    if n < r {
        assert(p(s[n as int]));
    }
}

/// The characters that are no white space.
pub open spec fn not_space() -> spec_fn(char) -> bool {
    |c: char| !is_space(c)
}

/// The characters other than `x`.
pub open spec fn other_than(x: char) -> spec_fn(char) -> bool {
    |c: char| c != x
}

/// The words of `s`: its longest pieces without white space.
pub open spec fn words(s: Seq<char>) -> Seq<Seq<char>>
    decreases s.len(),
    via words_decreases
{
    if s.len() == 0 {
        seq![]
    } else if is_space(s[0]) {
        words(s.drop_first())
    } else {
        let n = run(s, not_space());
        seq![s.take(n as int)] + words(s.skip(n as int))
    }
}

#[via_fn]
proof fn words_decreases(s: Seq<char>) {
    if s.len() > 0 && !is_space(s[0]) {
        lemma_run(s, not_space());
    }
}

/// A word: at least one character, and no white space.
pub open spec fn is_word(w: Seq<char>) -> bool {
    w.len() > 0 && forall|i: int| 0 <= i < w.len() ==> !is_space(#[trigger] w[i])
}

/// The words of a text are words.
pub proof fn lemma_words(s: Seq<char>)
    ensures
        forall|i: int| 0 <= i < words(s).len() ==> is_word(#[trigger] words(s)[i]),
    decreases s.len(),
{
    if s.len() > 0 {
        if is_space(s[0]) {
            lemma_words(s.drop_first());
            assert(words(s) == words(s.drop_first()));
        } else {
            lemma_run(s, not_space());
            let n = run(s, not_space());
            lemma_words(s.skip(n as int));
            assert forall|i: int| 0 <= i < words(s).len() implies is_word(
                #[trigger] words(s)[i],
            ) by {
                if i > 0 {
                    assert(words(s)[i] == words(s.skip(n as int))[i - 1]);
                } else {
                    let w = s.take(n as int);
                    assert(words(s)[0] == w);
                    assert(not_space()(s[0]));
                    assert(n > 0) by {
                        if n == 0 {
                            assert(!not_space()(s[0]));
                        }
                    }
                    assert forall|k: int| 0 <= k < w.len() implies !is_space(#[trigger] w[k]) by {
                        assert(not_space()(s[k]));
                    }
                }
            }
        }
    } else {
        assert(words(s).len() == 0);
    }
}

/// The index of the first `x` in `s` from `from` on, or the length of `s`.
pub fn index_of(s: &[char], from: usize, x: char) -> (at: usize)
    requires
        from <= s@.len(),
    ensures
        from <= at <= s@.len(),
        at - from == run(s@.skip(from as int), other_than(x)),
        forall|i: int| from <= i < at ==> s@[i] != x,
        at < s@.len() ==> s@[at as int] == x,
{
    let mut i: usize = from;
    while i < s.len() && s[i] != x
        invariant
            from <= i <= s@.len(),
            forall|j: int| from <= j < i ==> s@[j] != x,
        decreases s@.len() - i,
    {
        i = i + 1;
    }
    proof {
        lemma_run_is(s@.skip(from as int), other_than(x), (i - from) as nat);
    }
    i
}

/// The words of `s`, in order.
pub fn split_words(s: &[char]) -> (out: Vec<String>)
    ensures
        out.deep_view() == words(s@),
{
    let mut out: Vec<String> = Vec::new();
    let mut i: usize = 0;
    assert(s@.skip(0) == s@);
    assert(out.deep_view() + words(s@) =~= words(s@));
    while i < s.len()
        invariant
            i <= s@.len(),
            words(s@) == out.deep_view() + words(s@.skip(i as int)),
        decreases s@.len() - i,
    {
        let ghost rest = s@.skip(i as int);
        let ghost done = out.deep_view();
        if space(s[i]) {
            assert(rest.drop_first() == s@.skip(i + 1));
            i = i + 1;
        } else {
            let mut j: usize = i;
            while j < s.len() && !space(s[j])
                invariant
                    i <= j <= s@.len(),
                    forall|k: int| i <= k < j ==> !is_space(s@[k]),
                decreases s@.len() - j,
            {
                j = j + 1;
            }
            proof {
                lemma_run_is(rest, not_space(), (j - i) as nat);
                assert(rest.take(j - i) == s@.subrange(i as int, j as int));
                assert(rest.skip(j - i) == s@.skip(j as int));
            }
            out.push(string_of(slice_subrange(s, i, j)));
            assert(out.deep_view() =~= done.push(rest.take(j - i)));
            assert(done + (seq![rest.take(j - i)] + words(s@.skip(j as int))) =~= out.deep_view()
                + words(s@.skip(j as int)));
            i = j;
        }
    }
    assert(s@.skip(i as int).len() == 0);
    assert(out.deep_view() + words(s@.skip(i as int)) =~= out.deep_view());
    out
}

/// The pieces of `s` between the characters `x`. There is always one more
/// piece than there are `x` in `s`.
pub open spec fn split_on(s: Seq<char>, x: char) -> Seq<Seq<char>>
    decreases s.len(),
{
    let n = run(s, other_than(x));
    if n >= s.len() {
        seq![s]
    } else {
        seq![s.take(n as int)] + split_on(s.skip((n + 1) as int), x)
    }
}

/// The pieces of `s` between the characters `x`.
pub fn split_at_char(s: &[char], x: char) -> (out: Vec<String>)
    ensures
        out.deep_view() == split_on(s@, x),
{
    let mut out: Vec<String> = Vec::new();
    let mut i: usize = 0;
    assert(s@.skip(0) == s@);
    assert(out.deep_view() + split_on(s@, x) =~= split_on(s@, x));
    loop
        invariant
            i <= s@.len(),
            split_on(s@, x) == out.deep_view() + split_on(s@.skip(i as int), x),
        decreases s@.len() - i,
    {
        let ghost rest = s@.skip(i as int);
        let ghost done = out.deep_view();
        let j: usize = index_of(s, i, x);
        out.push(string_of(slice_subrange(s, i, j)));
        if j >= s.len() {
            assert(rest == s@.subrange(i as int, j as int));
            assert(out.deep_view() =~= done + seq![rest]);
            return out;
        }
        assert(rest.take(j - i) == s@.subrange(i as int, j as int));
        assert(rest.skip(j - i + 1) == s@.skip(j + 1));
        assert(out.deep_view() =~= done.push(rest.take(j - i)));
        assert(done + (seq![rest.take(j - i)] + split_on(s@.skip(j + 1), x)) =~= out.deep_view()
            + split_on(s@.skip(j + 1), x));
        i = j + 1;
    }
}

/// `s` without the carriage return at its end, where it has one.
pub open spec fn strip_return(s: Seq<char>) -> Seq<char> {
    if s.len() > 0 && s.last() == '\r' {
        s.drop_last()
    } else {
        s
    }
}

/// The lines of `s`. A line ends at a line feed, together with a carriage
/// return right before it, and the last one may end without either.
pub open spec fn lines(s: Seq<char>) -> Seq<Seq<char>>
    decreases s.len(),
{
    if s.len() == 0 {
        seq![]
    } else {
        let n = run(s, other_than('\n'));
        if n >= s.len() {
            seq![s]
        } else {
            seq![strip_return(s.take(n as int))] + lines(s.skip((n + 1) as int))
        }
    }
}

/// Each line is a piece of the text without a line feed.
pub proof fn lemma_lines(s: Seq<char>)
    ensures
        forall|i: int| 0 <= i < lines(s).len() ==> is_line_of(#[trigger] lines(s)[i], s),
    decreases s.len(),
{
    let all = lines(s);
    if s.len() > 0 {
        let n = run(s, other_than('\n')) as int;
        lemma_run(s, other_than('\n'));
        if n >= s.len() {
            assert forall|k: int| 0 <= k < s.len() implies #[trigger] s[k] != '\n' by {
                assert(other_than('\n')(s[k]));
            }
            assert(s =~= s.subrange(0, s.len() as int));
            assert(all[0] == s);
        } else {
            let rest = s.skip(n + 1);
            lemma_lines(rest);
            assert forall|i: int| 0 <= i < all.len() implies is_line_of(#[trigger] all[i], s) by {
                if i == 0 {
                    let m = strip_return(s.take(n)).len() as int;
                    assert forall|k: int| 0 <= k < m implies #[trigger] all[0][k] != '\n' by {
                        assert(other_than('\n')(s[k]));
                    }
                    assert(all[0] =~= s.subrange(0, m));
                } else {
                    let line = lines(rest)[i - 1];
                    assert(all[i] == line);
                    let (a, b) = choose|a: int, b: int|
                        0 <= a <= b <= rest.len() && line == #[trigger] rest.subrange(a, b);
                    assert(line =~= s.subrange(a + n + 1, b + n + 1));
                }
            }
        }
    } else {
        assert(all.len() == 0);
    }
}

/// `line` is a piece of `s` and holds no line feed.
pub open spec fn is_line_of(line: Seq<char>, s: Seq<char>) -> bool {
    &&& exists|a: int, b: int| 0 <= a <= b <= s.len() && line == #[trigger] s.subrange(a, b)
    &&& forall|k: int| 0 <= k < line.len() ==> #[trigger] line[k] != '\n'
}

/// The lines of `s`, in order.
pub fn split_lines(s: &[char]) -> (out: Vec<String>)
    ensures
        out.deep_view() == lines(s@),
{
    let mut out: Vec<String> = Vec::new();
    let mut i: usize = 0;
    assert(s@.skip(0) == s@);
    assert(out.deep_view() + lines(s@) =~= lines(s@));
    while i < s.len()
        invariant
            i <= s@.len(),
            lines(s@) == out.deep_view() + lines(s@.skip(i as int)),
        decreases s@.len() - i,
    {
        let ghost rest = s@.skip(i as int);
        let ghost done = out.deep_view();
        let j: usize = index_of(s, i, '\n');
        if j >= s.len() {
            out.push(string_of(slice_subrange(s, i, j)));
            assert(rest == s@.subrange(i as int, j as int));
            assert(out.deep_view() =~= done + seq![rest]);
            return out;
        }
        let ghost line = rest.take(j - i);
        assert(line == s@.subrange(i as int, j as int));
        let end: usize = if j > i && s[j - 1] == '\r' {
            j - 1
        } else {
            j
        };
        assert(strip_return(line) == s@.subrange(i as int, end as int));
        out.push(string_of(slice_subrange(s, i, end)));
        assert(rest.skip(j - i + 1) == s@.skip(j + 1));
        assert(out.deep_view() =~= done.push(strip_return(line)));
        assert(done + (seq![strip_return(line)] + lines(s@.skip(j + 1))) =~= out.deep_view()
            + lines(s@.skip(j + 1)));
        i = j + 1;
    }
    assert(s@.skip(i as int).len() == 0);
    assert(out.deep_view() + lines(s@.skip(i as int)) =~= out.deep_view());
    out
}

// ---------------------------------------------------------------------------
// Searching and replacing
// ---------------------------------------------------------------------------

/// `part` stands in `s` from index `i` on.
pub open spec fn occurs_at(s: Seq<char>, part: Seq<char>, i: int) -> bool {
    0 <= i <= s.len() - part.len() && s.subrange(i, i + part.len()) == part
}

/// `part` stands somewhere in `s`.
pub open spec fn contains_text(s: Seq<char>, part: Seq<char>) -> bool {
    exists|i: int| occurs_at(s, part, i)
}

/// `s` begins with `part`.
pub open spec fn starts_with(s: Seq<char>, part: Seq<char>) -> bool {
    occurs_at(s, part, 0)
}

/// `s` ends with `part`.
pub open spec fn ends_with(s: Seq<char>, part: Seq<char>) -> bool {
    occurs_at(s, part, s.len() - part.len())
}

/// Whether `part` stands in `s` from index `i` on.
pub fn found_at(s: &[char], part: &[char], i: usize) -> (yes: bool)
    requires
        i <= s@.len(),
    ensures
        yes == occurs_at(s@, part@, i as int),
{
    if s.len() - i < part.len() {
        return false;
    }
    same_chars(slice_subrange(s, i, i + part.len()), part)
}

/// Whether `s` begins with `part`.
pub fn begins_with(s: &[char], part: &str) -> (yes: bool)
    ensures
        yes == starts_with(s@, part@),
{
    found_at(s, &chars_of(part), 0)
}

/// Whether `s` ends with `part`.
pub fn finishes_with(s: &[char], part: &str) -> (yes: bool)
    ensures
        yes == ends_with(s@, part@),
{
    let p: Vec<char> = chars_of(part);
    if s.len() < p.len() {
        return false;
    }
    found_at(s, &p, s.len() - p.len())
}

/// Whether `part` stands somewhere in `s`.
pub fn holds_text(s: &[char], part: &str) -> (yes: bool)
    ensures
        yes == contains_text(s@, part@),
{
    let p: Vec<char> = chars_of(part);
    let mut i: usize = 0;
    while i <= s.len()
        invariant
            i <= s@.len() + 1,
            p@ == part@,
            forall|j: int| 0 <= j < i ==> !occurs_at(s@, part@, j),
        decreases s@.len() + 1 - i,
    {
        if found_at(s, &p, i) {
            return true;
        }
        if i == s.len() {
            return false;
        }
        i = i + 1;
    }
    false
}

/// Whether `x` stands in `s`.
pub fn holds_char(s: &[char], x: char) -> (yes: bool)
    ensures
        yes == s@.contains(x),
{
    index_of(s, 0, x) < s.len()
}

/// `s` with each `part` in it replaced by `by`, from left to right and
/// without overlap.
pub open spec fn replaced(s: Seq<char>, part: Seq<char>, by: Seq<char>) -> Seq<char>
    decreases s.len(),
{
    if part.len() == 0 || s.len() == 0 {
        s
    } else if starts_with(s, part) {
        by + replaced(s.skip(part.len() as int), part, by)
    } else {
        seq![s[0]] + replaced(s.drop_first(), part, by)
    }
}

/// `s` with each `part` in it replaced by `by`.
pub fn replace_text(s: &[char], part: &str, by: &str) -> (out: Vec<char>)
    requires
        part@.len() > 0,
    ensures
        out@ == replaced(s@, part@, by@),
{
    let p: Vec<char> = chars_of(part);
    let b: Vec<char> = chars_of(by);
    let mut out: Vec<char> = Vec::new();
    let mut i: usize = 0;
    assert(s@.skip(0) == s@);
    assert(out@ + replaced(s@, part@, by@) =~= replaced(s@, part@, by@));
    while i < s.len()
        invariant
            i <= s@.len(),
            p@ == part@,
            b@ == by@,
            part@.len() > 0,
            replaced(s@, part@, by@) == out@ + replaced(s@.skip(i as int), part@, by@),
        decreases s@.len() - i,
    {
        let ghost rest = s@.skip(i as int);
        let ghost done = out@;
        if found_at(s, &p, i) {
            assert(rest.subrange(0, p@.len() as int) == s@.subrange(i as int, i + p@.len()));
            assert(rest.skip(p@.len() as int) == s@.skip(i + p@.len()));
            extend_chars(&mut out, &b);
            assert(done + (by@ + replaced(s@.skip(i + p@.len()), part@, by@)) =~= out@ + replaced(
                s@.skip(i + p@.len()),
                part@,
                by@,
            ));
            i = i + p.len();
        } else {
            assert(!starts_with(rest, part@)) by {
                if starts_with(rest, part@) {
                    assert(rest.subrange(0, p@.len() as int) == s@.subrange(
                        i as int,
                        i + p@.len(),
                    ));
                }
            }
            assert(rest.drop_first() == s@.skip(i + 1));
            out.push(s[i]);
            assert(done + (seq![rest[0]] + replaced(s@.skip(i + 1), part@, by@)) =~= out@
                + replaced(s@.skip(i + 1), part@, by@));
            i = i + 1;
        }
    }
    assert(s@.skip(i as int).len() == 0);
    assert(out@ + replaced(s@.skip(i as int), part@, by@) =~= out@);
    out
}

// ---------------------------------------------------------------------------
// Numbers
// ---------------------------------------------------------------------------

/// The decimal digit for a number below ten.
pub open spec fn digit(n: nat) -> char {
    ('0' as u32 + n) as char
}

/// `n` in decimal notation, without leading zeros.
pub open spec fn decimal(n: nat) -> Seq<char>
    decreases n,
{
    if n < 10 {
        seq![digit(n)]
    } else {
        decimal(n / 10).push(digit(n % 10))
    }
}

/// `n` in decimal notation, with a minus sign where it is negative.
pub open spec fn signed_decimal(n: int) -> Seq<char> {
    if n < 0 {
        seq!['-'] + decimal((-n) as nat)
    } else {
        decimal(n as nat)
    }
}

/// `n` in decimal notation.
pub fn decimal_text(n: u64) -> (out: String)
    ensures
        out@ == decimal(n as nat),
    decreases n,
{
    let c: char = (48u8 + (n % 10) as u8) as char;
    assert(c == digit((n % 10) as nat));
    let mut out: String = String::new();
    if n >= 10 {
        out = decimal_text(n / 10);
    }
    out.push(c);
    assert(n < 10 ==> out@ =~= seq![digit(n as nat)]);
    out
}

/// `n` in decimal notation.
pub fn count_text(n: usize) -> (out: String)
    ensures
        out@ == decimal(n as nat),
{
    decimal_text(n as u64)
}

/// `n` in decimal notation, with a minus sign where it is negative.
pub fn signed_text(n: i64) -> (out: String)
    ensures
        out@ == signed_decimal(n as int),
{
    if n < 0 {
        let mut out: String = String::new();
        out.push('-');
        let m: u64 = (-(n + 1)) as u64 + 1;
        let digits: String = decimal_text(m);
        assert(out@ =~= seq!['-']);
        out.append(digits.as_str());
        out
    } else {
        decimal_text(n as u64)
    }
}

// ---------------------------------------------------------------------------
// What the pieces of a text are
// ---------------------------------------------------------------------------

/// Every character is white space.
pub open spec fn all_space(s: Seq<char>) -> bool {
    forall|i: int| 0 <= i < s.len() ==> is_space(#[trigger] s[i])
}

/// The blank, the tab and the characters that end a line are white space, and so
/// is the blank that does not break. A visible ASCII character is not.
pub proof fn law_spaces(c: char)
    ensures
        c == ' ' || c == '\t' || c == '\n' || c == '\r' || c == '\u{b}' || c == '\u{c}' || c
            == '\u{85}' || c == '\u{a0}' || c == '\u{1680}' || '\u{2000}' <= c <= '\u{200a}' || c
            == '\u{2028}' || c == '\u{2029}' || c == '\u{202f}' || c == '\u{205f}' || c
            == '\u{3000}' ==> is_space(c),
        '!' <= c <= '~' ==> !is_space(c),
        c > '\u{3000}' ==> !is_space(c),
        is_space(c) && c as u32 <= 127 ==> c == ' ' || '\t' <= c <= '\r',
{
}

/// Trimming takes away the white space at the two ends, all of it and nothing
/// else.
pub proof fn law_trimmed(a: Seq<char>, t: Seq<char>, b: Seq<char>)
    requires
        all_space(a),
        all_space(b),
        is_trimmed(t),
    ensures
        trim(a + t + b) == t,
    decreases a.len() + b.len(),
{
    if a.len() > 0 {
        assert(is_space((a + t + b)[0])) by {
            assert((a + t + b)[0] == a[0]);
        }
        assert((a + t + b).drop_first() =~= a.drop_first() + t + b);
        assert(trim_start(a + t + b) == trim_start(a.drop_first() + t + b));
        law_trimmed(a.drop_first(), t, b);
    } else if t.len() == 0 {
        assert(a + t + b =~= b);
        let from = lemma_trim(b);
        assert(trim(b).len() > 0 ==> trim(b)[0] == b[from]);
        assert(trim(b) =~= t);
    } else {
        assert(a + t + b =~= t + b);
        assert((t + b)[0] == t[0]);
        assert(trim_start(t + b) == t + b);
        if b.len() > 0 {
            assert((t + b).last() == b[b.len() - 1]);
            assert((t + b).drop_last() =~= t + b.drop_last());
            assert(a + t + b.drop_last() =~= t + b.drop_last());
            assert((t + b.drop_last())[0] == t[0]);
            assert(trim_start(t + b.drop_last()) == t + b.drop_last());
            law_trimmed(a, t, b.drop_last());
        } else {
            assert(t + b =~= t);
        }
    }
}

/// A shortened text is a beginning of the text, as long as it may be.
pub proof fn law_truncated(s: Seq<char>, max: nat)
    ensures
        truncated(s, max).len() == if s.len() <= max {
            s.len()
        } else {
            max
        },
        forall|i: int| 0 <= i < truncated(s, max).len() ==> #[trigger] truncated(s, max)[i] == s[i],
{
}

/// White space parts words, however much of it there is, and nothing else does: a
/// text without any is one word.
pub proof fn law_words(a: Seq<char>, c: char, b: Seq<char>)
    requires
        is_space(c),
    ensures
        words(a + seq![c] + b) == words(a) + words(b),
        is_word(a) ==> words(a) == seq![a],
        a.len() == 0 ==> words(a).len() == 0,
    decreases a.len(),
{
    let s = a + seq![c] + b;
    if is_word(a) {
        lemma_run_is(a, not_space(), a.len());
        assert(a.take(a.len() as int) =~= a);
        assert(words(a.skip(a.len() as int)) =~= seq![]);
        assert(words(a) =~= seq![a]);
    }
    if a.len() == 0 {
        assert(s[0] == c);
        assert(s.drop_first() =~= b);
        assert(words(a) + words(b) =~= words(b));
    } else if is_space(a[0]) {
        assert(s[0] == a[0]);
        assert(s.drop_first() =~= a.drop_first() + seq![c] + b);
        law_words(a.drop_first(), c, b);
    } else {
        assert(s[0] == a[0]);
        let n = run(a, not_space());
        lemma_run(a, not_space());
        assert forall|i: int| 0 <= i < n implies not_space()(#[trigger] s[i]) by {
            assert(s[i] == a[i]);
        }
        if n < a.len() {
            assert(s[n as int] == a[n as int]);
        } else {
            assert(s[n as int] == c);
        }
        lemma_run_is(s, not_space(), n);
        assert(s.take(n as int) =~= a.take(n as int));
        assert(s.skip(n as int) =~= a.skip(n as int) + seq![c] + b);
        law_words(a.skip(n as int), c, b);
        assert(words(s) =~= words(a) + words(b));
    }
}

/// A line feed ends a line, and a carriage return right before it belongs to it.
/// What follows the last line feed is a line of its own where there is anything.
pub proof fn law_lines(line: Seq<char>, rest: Seq<char>)
    requires
        !line.contains('\n'),
    ensures
        line.len() > 0 ==> lines(line) == seq![line],
        line.len() == 0 ==> lines(line).len() == 0,
        lines(line + seq!['\r', '\n'] + rest) == seq![line] + lines(rest),
        line.len() == 0 || line.last() != '\r' ==> lines(line + seq!['\n'] + rest) == seq![line]
            + lines(rest),
{
    let p = other_than('\n');
    assert forall|i: int| 0 <= i < line.len() implies p(#[trigger] line[i]) by {
        assert(line.contains(line[i]));
    }
    lemma_run_is(line, p, line.len());
    let s = line + seq!['\n'] + rest;
    assert forall|i: int| 0 <= i < line.len() implies p(#[trigger] s[i]) by {
        assert(s[i] == line[i]);
    }
    assert(s[line.len() as int] == '\n');
    lemma_run_is(s, p, line.len());
    assert(s.take(line.len() as int) =~= line);
    assert(s.skip((line.len() + 1) as int) =~= rest);
    let n = line.len() + 1;
    let t = line + seq!['\r', '\n'] + rest;
    assert forall|i: int| 0 <= i < n implies p(#[trigger] t[i]) by {
        if i < line.len() {
            assert(t[i] == line[i]);
        } else {
            assert(t[i] == '\r');
        }
    }
    assert(t[n as int] == '\n');
    lemma_run_is(t, p, n);
    assert(t.take(n as int) =~= line.push('\r'));
    assert(t.take(n as int).drop_last() =~= line);
    assert(t.skip((n + 1) as int) =~= rest);
}

/// A text is cut at each of the characters that part it, and nowhere else.
pub proof fn law_split(piece: Seq<char>, x: char, rest: Seq<char>)
    requires
        !piece.contains(x),
    ensures
        split_on(piece, x) == seq![piece],
        split_on(piece + seq![x] + rest, x) == seq![piece] + split_on(rest, x),
{
    let p = other_than(x);
    assert forall|i: int| 0 <= i < piece.len() implies p(#[trigger] piece[i]) by {
        assert(piece.contains(piece[i]));
    }
    lemma_run_is(piece, p, piece.len());
    let s = piece + seq![x] + rest;
    assert forall|i: int| 0 <= i < piece.len() implies p(#[trigger] s[i]) by {
        assert(s[i] == piece[i]);
    }
    assert(s[piece.len() as int] == x);
    lemma_run_is(s, p, piece.len());
    assert(s.take(piece.len() as int) =~= piece);
    assert(s.skip((piece.len() + 1) as int) =~= rest);
}

/// The first place where a part stands is replaced and what is before it is kept.
/// A text that does not hold the part stays as it is.
pub proof fn law_replaced(a: Seq<char>, part: Seq<char>, rest: Seq<char>, by: Seq<char>)
    requires
        part.len() > 0,
        forall|i: int| 0 <= i < a.len() ==> !#[trigger] occurs_at(a + part + rest, part, i),
    ensures
        replaced(a + part + rest, part, by) == a + by + replaced(rest, part, by),
        !contains_text(rest, part) ==> replaced(rest, part, by) == rest,
    decreases a.len() + rest.len(),
{
    let s = a + part + rest;
    if !contains_text(rest, part) && rest.len() > 0 {
        let nothing = Seq::<char>::empty();
        assert forall|i: int| !occurs_at(rest.drop_first(), part, i) by {
            if occurs_at(rest.drop_first(), part, i) {
                assert(rest.subrange(i + 1, i + 1 + part.len()) =~= rest.drop_first().subrange(
                    i,
                    i + part.len(),
                ));
                assert(occurs_at(rest, part, i + 1));
            }
        }
        assert(!contains_text(rest.drop_first(), part));
        law_replaced(nothing, part, rest.drop_first(), by);
        assert(!occurs_at(rest, part, 0));
        assert(seq![rest[0]] + rest.drop_first() =~= rest);
    }
    if a.len() == 0 {
        assert(s.subrange(0, part.len() as int) =~= part);
        assert(s.skip(part.len() as int) =~= rest);
        assert(a + by =~= by);
    } else {
        assert(!occurs_at(s, part, 0));
        let u = s.drop_first();
        assert(u =~= a.drop_first() + part + rest);
        assert forall|i: int| 0 <= i < a.drop_first().len() implies !#[trigger] occurs_at(
            u,
            part,
            i,
        ) by {
            assert(!occurs_at(s, part, i + 1));
            if i + part.len() <= u.len() {
                assert(u.subrange(i, i + part.len()) =~= s.subrange(i + 1, i + 1 + part.len()));
            }
        }
        law_replaced(a.drop_first(), part, rest, by);
        assert(s[0] == a[0]);
        assert(seq![s[0]] + (a.drop_first() + by + replaced(rest, part, by)) =~= a + by + replaced(
            rest,
            part,
            by,
        ));
    }
}

/// The number that a text of decimal digits stands for, counting each digit ten
/// times what the one behind it counts.
pub open spec fn worth(s: Seq<char>) -> int
    decreases s.len(),
{
    if s.len() == 0 {
        0
    } else {
        10 * worth(s.drop_last()) + (s.last() as u32 - '0' as u32)
    }
}

/// The decimal notation of a number stands for it, in digits alone, and begins
/// with a zero for zero only. A minus sign goes before that of a negative number.
pub proof fn law_decimal(n: nat)
    ensures
        worth(decimal(n)) == n,
        decimal(n).len() > 0,
        forall|i: int| 0 <= i < decimal(n).len() ==> '0' <= #[trigger] decimal(n)[i] <= '9',
        decimal(n)[0] == '0' <==> n == 0,
        signed_decimal(n as int) == decimal(n),
        n > 0 ==> signed_decimal(-n) == seq!['-'] + decimal(n),
    decreases n,
{
    if n < 10 {
        assert(decimal(n).drop_last() =~= seq![]);
        assert(worth(seq![]) == 0);
    } else {
        law_decimal(n / 10);
        assert(decimal(n).drop_last() =~= decimal(n / 10));
        assert(decimal(n)[0] == decimal(n / 10)[0]);
        assert forall|i: int| 0 <= i < decimal(n).len() implies '0' <= #[trigger] decimal(n)[i]
            <= '9' by {
            if i < decimal(n / 10).len() {
                assert(decimal(n)[i] == decimal(n / 10)[i]);
            }
        }
    }
}

/// Making letters small changes the capital ASCII letters and nothing else, each
/// to the letter at the same place of the alphabet.
pub proof fn law_lower(s: Seq<char>, i: int)
    requires
        0 <= i < s.len(),
    ensures
        ascii_lower(s).len() == s.len(),
        'A' <= s[i] <= 'Z' ==> ascii_lower(s)[i] as u32 - 'a' as u32 == s[i] as u32 - 'A' as u32,
        !('A' <= s[i] <= 'Z') ==> ascii_lower(s)[i] == s[i],
{
}

/// A text of which nothing is left is white space, and the other way round.
pub proof fn law_nothing_left(s: Seq<char>)
    ensures
        trim(s).len() == 0 <==> all_space(s),
{
    if all_space(s) {
        law_trimmed(s, seq![], seq![]);
        assert(s + Seq::<char>::empty() + Seq::<char>::empty() =~= s);
    } else {
        lemma_start_is_space(s);
        lemma_trim_start(s);
        let t = trim_start(s);
        let n = s.len() - t.len();
        lemma_trim_end(t);
        if trim(s).len() == 0 {
            assert forall|i: int| 0 <= i < s.len() implies is_space(#[trigger] s[i]) by {
                if i >= n {
                    assert(t[i - n] == s[i]);
                }
            }
        }
    }
}

/// What trimming the beginning takes away is white space.
proof fn lemma_start_is_space(s: Seq<char>)
    ensures
        forall|i: int| 0 <= i < s.len() - trim_start(s).len() ==> is_space(#[trigger] s[i]),
    decreases s.len(),
{
    if s.len() > 0 && is_space(s[0]) {
        let rest = s.drop_first();
        lemma_start_is_space(rest);
        assert forall|i: int| 0 <= i < s.len() - trim_start(s).len() implies is_space(
            #[trigger] s[i],
        ) by {
            if i > 0 {
                assert(rest[i - 1] == s[i]);
            }
        }
    }
}

} // verus!
