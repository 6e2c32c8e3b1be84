//! The character references of HTML.

use crate::pattern::NUMERIC_REFERENCE;
use crate::text::{
    chars_of, decimal, digit, lemma_run_is, occurs_at, replace_text, replaced, run, starts_with,
    string_of,
};
use regex::{Captures, Regex};
use vstd::prelude::*;
use vstd::slice::slice_subrange;

verus! {

/// `char::from_u32` gives the character with the number `n`, where there is
/// one: no character has a number above `0x10ffff` or one between `0xd800`
/// and `0xdfff`.
pub assume_specification[ char::from_u32 ](n: u32) -> (c: Option<char>)
    ensures
        c == scalar(n as nat),
;

/// The character with the number `n`.
pub open spec fn scalar(n: nat) -> Option<char> {
    if n <= 0xd7ff || 0xe000 <= n <= 0x10ffff {
        Some(n as char)
    } else {
        None
    }
}

/// The value of a hexadecimal digit; decimal digits are among them.
pub open spec fn digit_value(c: char) -> Option<nat> {
    if '0' <= c <= '9' {
        Some((c as u32 - '0' as u32) as nat)
    } else if 'a' <= c <= 'f' {
        Some((c as u32 - 'a' as u32 + 10) as nat)
    } else if 'A' <= c <= 'F' {
        Some((c as u32 - 'A' as u32 + 10) as nat)
    } else {
        None
    }
}

/// The number that the digits `s` write in the given base, or `None` where
/// one of them is no digit of that base.
pub open spec fn number(s: Seq<char>, base: nat) -> Option<nat>
    decreases s.len(),
{
    if s.len() == 0 {
        Some(0)
    } else {
        match (number(s.drop_last(), base), digit_value(s.last())) {
            (Some(n), Some(d)) => if d < base {
                Some(n * base + d)
            } else {
                None
            },
            _ => None,
        }
    }
}

/// The character that `digits` stand for: hexadecimal digits after an `x`,
/// decimal digits otherwise. Without digits there is none.
pub open spec fn referenced(digits: Seq<char>) -> Option<char> {
    let hex = digits.len() > 0 && (digits[0] == 'x' || digits[0] == 'X');
    let s = if hex {
        digits.drop_first()
    } else {
        digits
    };
    let n = if hex {
        number(s, 16)
    } else {
        number(s, 10)
    };
    match n {
        Some(n) if s.len() > 0 => scalar(n),
        _ => None,
    }
}

/// What a numeric reference is replaced by: its character, or the reference
/// itself where there is no such character.
pub open spec fn reference_text(whole: Seq<char>, digits: Seq<char>) -> Seq<char> {
    match referenced(digits) {
        Some(c) => seq![c],
        None => whole,
    }
}

/// The value of a hexadecimal digit.
fn value_of_digit(c: char) -> (value: Option<u32>)
    ensures
        match value {
            Some(v) => digit_value(c) == Some(v as nat) && v < 16,
            None => digit_value(c) is None,
        },
{
    let n: u32 = c as u32;
    if '0' <= c && c <= '9' {
        Some(n - 48)
    } else if 'a' <= c && c <= 'f' {
        Some(n - 97 + 10)
    } else if 'A' <= c && c <= 'F' {
        Some(n - 65 + 10)
    } else {
        None
    }
}

/// A number does not become smaller by further digits.
proof fn lemma_number_grows(s: Seq<char>, k: int, base: nat)
    requires
        0 <= k <= s.len(),
        base >= 1,
        number(s, base) is Some,
    ensures
        number(s.take(k), base) is Some,
        number(s.take(k), base)->0 <= number(s, base)->0,
    decreases s.len() - k,
{
    if k == s.len() {
        assert(s.take(k) == s);
    } else {
        lemma_number_grows(s, k + 1, base);
        let t = s.take(k + 1);
        assert(t.drop_last() == s.take(k));
        let n = number(s.take(k), base)->0;
        assert(n * base >= n) by (nonlinear_arith)
            requires
                base >= 1,
                n >= 0,
        ;
    }
}

/// The character with the number that the digits `s` write.
fn char_of_number(s: &[char], base: u32) -> (c: Option<char>)
    requires
        base == 10 || base == 16,
    ensures
        c == match number(s@, base as nat) {
            Some(n) => scalar(n),
            None => None,
        },
{
    let mut n: u32 = 0;
    let mut i: usize = 0;
    while i < s.len()
        invariant
            i <= s@.len(),
            base == 10 || base == 16,
            n <= 0x10ffff,
            number(s@.take(i as int), base as nat) == Some(n as nat),
        decreases s@.len() - i,
    {
        let ghost t = s@.take(i + 1);
        assert(t.drop_last() == s@.take(i as int));
        assert(number(s@, base as nat) is Some ==> number(t, base as nat) is Some && number(
            t,
            base as nat,
        )->0 <= number(s@, base as nat)->0) by {
            if number(s@, base as nat) is Some {
                lemma_number_grows(s@, i + 1, base as nat);
            }
        }
        match value_of_digit(s[i]) {
            Some(d) => {
                if d >= base {
                    return None;
                }
                n = n * base + d;
                if n > 0x10ffff {
                    return None;
                }
            },
            None => {
                return None;
            },
        }
        i = i + 1;
    }
    assert(s@.take(i as int) == s@);
    char::from_u32(n)
}

/// The text for one numeric reference: `whole` is the reference, `digits`
/// what stands between `&#` and `;`.
pub fn decoded_reference(whole: &str, digits: &str) -> (out: String)
    ensures
        out@ == reference_text(whole@, digits@),
{
    let d: Vec<char> = chars_of(digits);
    let c: Option<char> = if d.len() > 0 && (d[0] == 'x' || d[0] == 'X') {
        assert(d@.subrange(1, d@.len() as int) == d@.drop_first());
        if d.len() == 1 {
            None
        } else {
            char_of_number(slice_subrange(&d, 1, d.len()), 16)
        }
    } else if d.len() == 0 {
        None
    } else {
        char_of_number(&d, 10)
    };
    let mut out: String = String::new();
    match c {
        Some(c) => {
            out.push(c);
            assert(out@ =~= seq![c]);
        },
        None => {
            out.append(whole);
            assert(out@ =~= whole@);
        },
    }
    out
}

/// The digits `0` to `9`, `a` to `f` and `A` to `F`.
pub open spec fn is_hex_digit() -> spec_fn(char) -> bool {
    |c: char| digit_value(c) is Some
}

/// The number of characters between `&#` and `;` in the numeric reference that
/// `s` begins with: digits, with an `x` before them or not. It is zero where
/// `s` begins with none.
pub open spec fn reference_digits(s: Seq<char>) -> nat {
    if s.len() >= 2 && s[0] == '&' && s[1] == '#' {
        let x: nat = if s.len() > 2 && s[2] == 'x' {
            1
        } else {
            0
        };
        let n = run(s.skip((2 + x) as int), is_hex_digit());
        if n > 0 && 2 + x + n < s.len() && s[(2 + x + n) as int] == ';' {
            x + n
        } else {
            0
        }
    } else {
        0
    }
}

/// `s` with each numeric reference replaced by its text.
pub open spec fn numbers_decoded(s: Seq<char>) -> Seq<char>
    decreases s.len(),
{
    let n = reference_digits(s) as int;
    if s.len() == 0 {
        s
    } else if n > 0 && n + 3 <= s.len() {
        reference_text(s.take(n + 3), s.subrange(2, n + 2)) + numbers_decoded(s.skip(n + 3))
    } else {
        seq![s[0]] + numbers_decoded(s.drop_first())
    }
}

/// `Regex::new` and `Regex::replace_all` with a function for the replacement:
/// every numeric reference, from left to right, is replaced by what
/// `decoded_reference` makes of the match and its first group.
#[verifier::external_body]
fn replace_references(pattern: &str, text: &str) -> (out: String)
    requires
        pattern@ == NUMERIC_REFERENCE@,
    ensures
        out@ == numbers_decoded(text@),
{
    let re = Regex::new(pattern).expect("valid regex");
    re.replace_all(text, |caps: &Captures<'_>| decoded_reference(&caps[0], &caps[1])).into_owned()
}

/// `s` with its character references replaced: first the numeric ones, then
/// those with a name, one name after the other.
pub open spec fn entities_decoded(s: Seq<char>) -> Seq<char> {
    let a = numbers_decoded(s);
    let b = replaced(a, "&nbsp;"@, " "@);
    let c = replaced(b, "&amp;"@, "&"@);
    let d = replaced(c, "&lt;"@, "<"@);
    let e = replaced(d, "&gt;"@, ">"@);
    let f = replaced(e, "&quot;"@, "\""@);
    let g = replaced(f, "&apos;"@, "'"@);
    replaced(g, "&#39;"@, "'"@)
}

/// The text of `input` with its character references replaced by the
/// characters they stand for.
pub fn decode_html_entities(input: &str) -> (out: String)
    ensures
        out@ == entities_decoded(input@),
{
    proof {
        reveal_strlit("&nbsp;");
        reveal_strlit("&amp;");
        reveal_strlit("&lt;");
        reveal_strlit("&gt;");
        reveal_strlit("&quot;");
        reveal_strlit("&apos;");
        reveal_strlit("&#39;");
    }
    let mut s: Vec<char> = chars_of(replace_references(NUMERIC_REFERENCE, input).as_str());
    s = replace_text(&s, "&nbsp;", " ");
    s = replace_text(&s, "&amp;", "&");
    s = replace_text(&s, "&lt;", "<");
    s = replace_text(&s, "&gt;", ">");
    s = replace_text(&s, "&quot;", "\"");
    s = replace_text(&s, "&apos;", "'");
    s = replace_text(&s, "&#39;", "'");
    string_of(&s)
}

/// A text without `&` is not changed.
pub proof fn law_nothing_to_decode(s: Seq<char>)
    requires
        !s.contains('&'),
    ensures
        entities_decoded(s) == s,
{
    reveal_strlit("&nbsp;");
    reveal_strlit("&amp;");
    reveal_strlit("&lt;");
    reveal_strlit("&gt;");
    reveal_strlit("&quot;");
    reveal_strlit("&apos;");
    reveal_strlit("&#39;");
    lemma_no_numbers(s);
    lemma_not_replaced(s, "&nbsp;"@, " "@);
    lemma_not_replaced(s, "&amp;"@, "&"@);
    lemma_not_replaced(s, "&lt;"@, "<"@);
    lemma_not_replaced(s, "&gt;"@, ">"@);
    lemma_not_replaced(s, "&quot;"@, "\""@);
    lemma_not_replaced(s, "&apos;"@, "'"@);
    lemma_not_replaced(s, "&#39;"@, "'"@);
}

/// A text without `&` holds no numeric reference.
proof fn lemma_no_numbers(s: Seq<char>)
    requires
        !s.contains('&'),
    ensures
        numbers_decoded(s) == s,
    decreases s.len(),
{
    if s.len() > 0 {
        assert(s.contains(s[0]));
        assert(!s.drop_first().contains('&')) by {
            if s.drop_first().contains('&') {
                let i = choose|i: int| 0 <= i < s.drop_first().len() && s.drop_first()[i] == '&';
                assert(s[i + 1] == '&');
            }
        }
        lemma_no_numbers(s.drop_first());
        assert(seq![s[0]] + s.drop_first() =~= s);
    }
}

/// What begins with `&` is not found in a text without it.
proof fn lemma_not_replaced(s: Seq<char>, part: Seq<char>, by: Seq<char>)
    requires
        !s.contains('&'),
        part.len() > 0,
        part[0] == '&',
    ensures
        replaced(s, part, by) == s,
    decreases s.len(),
{
    if s.len() > 0 {
        assert(s.contains(s[0]));
        if occurs_at(s, part, 0) {
            assert(s.subrange(0, part.len() as int)[0] == s[0]);
        }
        assert(!s.drop_first().contains('&')) by {
            if s.drop_first().contains('&') {
                let i = choose|i: int| 0 <= i < s.drop_first().len() && s.drop_first()[i] == '&';
                assert(s[i + 1] == '&');
            }
        }
        lemma_not_replaced(s.drop_first(), part, by);
        assert(seq![s[0]] + s.drop_first() =~= s);
    }
}

// ---------------------------------------------------------------------------
// Every character by its number and by its name
// ---------------------------------------------------------------------------

/// The hexadecimal digit for a number below sixteen, as a small or a capital
/// letter.
pub open spec fn hex_digit(n: nat, capital: bool) -> char {
    if n < 10 {
        digit(n)
    } else if capital {
        ('A' as u32 + n - 10) as char
    } else {
        ('a' as u32 + n - 10) as char
    }
}

/// `n` in hexadecimal notation.
pub open spec fn hexadecimal(n: nat, capital: bool) -> Seq<char>
    decreases n,
{
    if n < 16 {
        seq![hex_digit(n, capital)]
    } else {
        hexadecimal(n / 16, capital).push(hex_digit(n % 16, capital))
    }
}

/// `k` zeros.
pub open spec fn zeros(k: nat) -> Seq<char> {
    Seq::new(k, |i: int| '0')
}

/// Text without `&` before a reference stays.
proof fn lemma_numbers_before(a: Seq<char>, t: Seq<char>)
    requires
        !a.contains('&'),
    ensures
        numbers_decoded(a + t) == a + numbers_decoded(t),
    decreases a.len(),
{
    let all = a + t;
    if a.len() == 0 {
        assert(all =~= t);
        assert(a + numbers_decoded(t) =~= numbers_decoded(t));
    } else {
        assert(a.contains(a[0]));
        let rest = a.drop_first();
        assert(!rest.contains('&')) by {
            if rest.contains('&') {
                let i = choose|i: int| 0 <= i < rest.len() && rest[i] == '&';
                assert(a[i + 1] == '&');
            }
        }
        assert(all.drop_first() =~= rest + t);
        lemma_numbers_before(rest, t);
        assert(seq![a[0]] + (rest + numbers_decoded(t)) =~= a + numbers_decoded(t));
    }
}

/// The number that decimal notation writes.
proof fn lemma_decimal_number(n: nat)
    ensures
        number(decimal(n), 10) == Some(n),
        decimal(n).len() > 0,
        forall|i: int| 0 <= i < decimal(n).len() ==> '0' <= #[trigger] decimal(n)[i] <= '9',
    decreases n,
{
    let d = decimal(n);
    if n < 10 {
        assert(d.drop_last() =~= seq![]);
        assert(number(seq![], 10) == Some(0nat));
        assert(digit_value(digit(n)) == Some(n));
    } else {
        lemma_decimal_number(n / 10);
        assert(d.drop_last() =~= decimal(n / 10));
        assert(digit_value(digit(n % 10)) == Some(n % 10));
        assert forall|i: int| 0 <= i < d.len() implies '0' <= #[trigger] d[i] <= '9' by {
            if i < d.len() - 1 {
                assert(d[i] == decimal(n / 10)[i]);
            }
        }
    }
}

/// The number that hexadecimal notation writes.
proof fn lemma_hexadecimal_number(n: nat, capital: bool)
    ensures
        number(hexadecimal(n, capital), 16) == Some(n),
        hexadecimal(n, capital).len() > 0,
        forall|i: int|
            0 <= i < hexadecimal(n, capital).len() ==> digit_value(
                #[trigger] hexadecimal(n, capital)[i],
            ) is Some,
    decreases n,
{
    let d = hexadecimal(n, capital);
    let last = if n < 16 {
        n
    } else {
        n % 16
    };
    assert(digit_value(hex_digit(last, capital)) == Some(last));
    if n < 16 {
        assert(d.drop_last() =~= seq![]);
        assert(number(seq![], 16) == Some(0nat));
    } else {
        lemma_hexadecimal_number(n / 16, capital);
        assert(d.drop_last() =~= hexadecimal(n / 16, capital));
        assert forall|i: int| 0 <= i < d.len() implies digit_value(#[trigger] d[i]) is Some by {
            if i < d.len() - 1 {
                assert(d[i] == hexadecimal(n / 16, capital)[i]);
            }
        }
    }
}

/// Zeros before a number do not change it.
proof fn lemma_zeros_before(k: nat, d: Seq<char>, base: nat)
    requires
        base == 10 || base == 16,
    ensures
        number(zeros(k) + d, base) == number(d, base),
    decreases k + d.len(),
{
    let all = zeros(k) + d;
    if d.len() > 0 {
        assert(all.drop_last() =~= zeros(k) + d.drop_last());
        assert(all.last() == d.last());
        lemma_zeros_before(k, d.drop_last(), base);
    } else if k > 0 {
        assert(all.drop_last() =~= zeros((k - 1) as nat) + d);
        assert(all.last() == '0');
        lemma_zeros_before((k - 1) as nat, d, base);
        assert(number(seq![], base) == Some(0nat));
        assert(d =~= seq![]);
    } else {
        assert(all =~= d);
    }
}

/// A reference with digits that stand for a character becomes that character.
proof fn lemma_reference(a: Seq<char>, digits: Seq<char>, x: nat, b: Seq<char>)
    requires
        !a.contains('&'),
        !b.contains('&'),
        x == 0 || (x == 1 && digits.len() > 0 && digits[0] == 'x'),
        digits.len() > x,
        forall|i: int| x <= i < digits.len() ==> digit_value(#[trigger] digits[i]) is Some,
    ensures
        numbers_decoded(a + ("&#"@ + digits + ";"@) + b) == a + reference_text(
            "&#"@ + digits + ";"@,
            digits,
        ) + b,
{
    reveal_strlit("&#");
    reveal_strlit(";");
    let r = "&#"@ + digits + ";"@;
    let s = r + b;
    let k = digits.len() as int;
    assert(a + r + b =~= a + s);
    lemma_numbers_before(a, s);
    assert(forall|i: int| 2 <= i < k + 2 ==> #[trigger] s[i] == digits[i - 2]);
    assert(x == 0 ==> s[2] != 'x') by {
        assert(digit_value(digits[0]) is Some || x == 1);
    }
    let tail = s.skip((2 + x) as int);
    assert forall|i: int| 0 <= i < k - x implies is_hex_digit()(#[trigger] tail[i]) by {
        assert(tail[i] == digits[i + x]);
    }
    assert(tail[k - x] == ';');
    lemma_run_is(tail, is_hex_digit(), (k - x) as nat);
    assert(s[k + 2] == ';');
    assert(reference_digits(s) == k);
    assert(s.take(k + 3) =~= r);
    assert(s.subrange(2, k + 2) =~= digits);
    assert(s.skip(k + 3) =~= b);
    lemma_no_numbers(b);
    assert(a + (reference_text(r, digits) + b) =~= a + reference_text(r, digits) + b);
}

/// A text that holds no `&` once its numeric references are decoded has nothing
/// else to decode.
proof fn lemma_only_numbers(s: Seq<char>)
    requires
        !numbers_decoded(s).contains('&'),
    ensures
        entities_decoded(s) == numbers_decoded(s),
{
    let t = numbers_decoded(s);
    lemma_no_numbers(t);
    law_nothing_to_decode(t);
    reveal_strlit("&nbsp;");
    reveal_strlit("&amp;");
    reveal_strlit("&lt;");
    reveal_strlit("&gt;");
    reveal_strlit("&quot;");
    reveal_strlit("&apos;");
    reveal_strlit("&#39;");
    lemma_not_replaced(t, "&nbsp;"@, " "@);
    lemma_not_replaced(t, "&amp;"@, "&"@);
    lemma_not_replaced(t, "&lt;"@, "<"@);
    lemma_not_replaced(t, "&gt;"@, ">"@);
    lemma_not_replaced(t, "&quot;"@, "\""@);
    lemma_not_replaced(t, "&apos;"@, "'"@);
    lemma_not_replaced(t, "&#39;"@, "'"@);
}

/// A character between texts without `&`.
proof fn lemma_no_amp(a: Seq<char>, m: Seq<char>, b: Seq<char>)
    requires
        !a.contains('&'),
        !m.contains('&'),
        !b.contains('&'),
    ensures
        !(a + m + b).contains('&'),
{
    let s = a + m + b;
    if s.contains('&') {
        let i = choose|i: int| 0 <= i < s.len() && s[i] == '&';
        if i < a.len() {
            assert(a[i] == '&');
        } else if i < a.len() + m.len() {
            assert(m[i - a.len()] == '&');
        } else {
            assert(b[i - a.len() - m.len()] == '&');
        }
    }
}

/// Every character can be written by its number: `&#`, the decimal digits of the
/// number with or without zeros before them, and `;` become that character, and
/// what stands before and after stays. The ampersand itself may begin a reference
/// with a name, so it is left out where those are decoded too.
pub proof fn law_decimal_reference(a: Seq<char>, k: nat, c: char, b: Seq<char>)
    requires
        !a.contains('&'),
        !b.contains('&'),
    ensures
        ({
            let s = a + ("&#"@ + (zeros(k) + decimal(c as nat)) + ";"@) + b;
            &&& numbers_decoded(s) == a + seq![c] + b
            &&& c != '&' ==> entities_decoded(s) == a + seq![c] + b
        }),
{
    let n = c as nat;
    let digits = zeros(k) + decimal(n);
    lemma_decimal_number(n);
    lemma_zeros_before(k, decimal(n), 10);
    assert forall|i: int| 0 <= i < digits.len() implies '0' <= #[trigger] digits[i] <= '9' by {
        if i >= k {
            assert(digits[i] == decimal(n)[i - k]);
        }
    }
    assert('0' <= digits[0] <= '9');
    lemma_reference(a, digits, 0, b);
    assert(referenced(digits) == Some(c));
    let s = a + ("&#"@ + digits + ";"@) + b;
    if c != '&' {
        lemma_no_amp(a, seq![c], b);
        lemma_only_numbers(s);
    }
}

/// The same with `&#x` and the hexadecimal digits of the number.
pub proof fn law_hexadecimal_reference(
    a: Seq<char>,
    k: nat,
    c: char,
    capital: bool,
    b: Seq<char>,
)
    requires
        !a.contains('&'),
        !b.contains('&'),
    ensures
        ({
            let s = a + ("&#"@ + (seq!['x'] + zeros(k) + hexadecimal(c as nat, capital)) + ";"@) + b;
            &&& numbers_decoded(s) == a + seq![c] + b
            &&& c != '&' ==> entities_decoded(s) == a + seq![c] + b
        }),
{
    let n = c as nat;
    let h = zeros(k) + hexadecimal(n, capital);
    let digits = seq!['x'] + zeros(k) + hexadecimal(n, capital);
    lemma_hexadecimal_number(n, capital);
    lemma_zeros_before(k, hexadecimal(n, capital), 16);
    assert(digits.drop_first() =~= h);
    assert forall|i: int| 1 <= i < digits.len() implies digit_value(
        #[trigger] digits[i],
    ) is Some by {
        if i >= k + 1 {
            assert(digits[i] == hexadecimal(n, capital)[i - k - 1]);
        }
    }
    lemma_reference(a, digits, 1, b);
    assert(referenced(digits) == Some(c));
    let s = a + ("&#"@ + digits + ";"@) + b;
    if c != '&' {
        lemma_no_amp(a, seq![c], b);
        lemma_only_numbers(s);
    }
}

/// A number that no character has leaves its reference as it is.
pub proof fn law_no_such_character(a: Seq<char>, n: nat, b: Seq<char>)
    requires
        !a.contains('&'),
        !b.contains('&'),
        n > 0x10ffff || 0xd800 <= n <= 0xdfff,
    ensures
        numbers_decoded(a + ("&#"@ + decimal(n) + ";"@) + b) == a + ("&#"@ + decimal(n) + ";"@) + b,
        numbers_decoded(a + ("&#"@ + (seq!['x'] + hexadecimal(n, false)) + ";"@) + b) == a + ("&#"@
            + (seq!['x'] + hexadecimal(n, false)) + ";"@) + b,
{
    lemma_decimal_number(n);
    assert('0' <= decimal(n)[0] <= '9');
    lemma_reference(a, decimal(n), 0, b);
    let digits = seq!['x'] + hexadecimal(n, false);
    lemma_hexadecimal_number(n, false);
    assert(digits.drop_first() =~= hexadecimal(n, false));
    assert forall|i: int| 1 <= i < digits.len() implies digit_value(
        #[trigger] digits[i],
    ) is Some by {
        assert(digits[i] == hexadecimal(n, false)[i - 1]);
    }
    lemma_reference(a, digits, 1, b);
}

/// A piece that begins with `&` and is not `part` parts a text for the replacing
/// of `part`.
proof fn lemma_name_kept(
    a: Seq<char>,
    m: Seq<char>,
    b: Seq<char>,
    part: Seq<char>,
    by: Seq<char>,
)
    requires
        !a.contains('&'),
        !b.contains('&'),
        part.len() > 0,
        part[0] == '&',
        m.len() > 0,
        !m.drop_first().contains('&'),
        !starts_with(m + b, part),
    ensures
        replaced(a + m + b, part, by) == a + m + b,
{
    assert(a + m + b =~= a + (m + b));
    lemma_replaced_plain_before(a, m + b, part, by);
    let rest = (m + b).drop_first();
    assert(rest =~= m.drop_first() + b + seq![]);
    assert(!Seq::<char>::empty().contains('&'));
    lemma_no_amp(m.drop_first(), b, seq![]);
    lemma_not_replaced(rest, part, by);
    assert(a + (seq![(m + b)[0]] + rest) =~= a + m + b);
}

/// Text without `&` before what is replaced stays.
proof fn lemma_replaced_plain_before(a: Seq<char>, t: Seq<char>, part: Seq<char>, by: Seq<char>)
    requires
        !a.contains('&'),
        part.len() > 0,
        part[0] == '&',
    ensures
        replaced(a + t, part, by) == a + replaced(t, part, by),
    decreases a.len(),
{
    let all = a + t;
    if a.len() == 0 {
        assert(all =~= t);
        assert(a + replaced(t, part, by) =~= replaced(t, part, by));
    } else {
        assert(a.contains(a[0]));
        if starts_with(all, part) {
            assert(all.subrange(0, part.len() as int)[0] == a[0]);
        }
        let rest = a.drop_first();
        assert(!rest.contains('&')) by {
            if rest.contains('&') {
                let i = choose|i: int| 0 <= i < rest.len() && rest[i] == '&';
                assert(a[i + 1] == '&');
            }
        }
        assert(all.drop_first() =~= rest + t);
        lemma_replaced_plain_before(rest, t, part, by);
        assert(seq![a[0]] + (rest + replaced(t, part, by)) =~= a + replaced(t, part, by));
    }
}

/// What is looked for is replaced.
proof fn lemma_name_replaced(a: Seq<char>, b: Seq<char>, part: Seq<char>, by: Seq<char>)
    requires
        !a.contains('&'),
        !b.contains('&'),
        part.len() > 0,
        part[0] == '&',
    ensures
        replaced(a + part + b, part, by) == a + by + b,
{
    assert(a + part + b =~= a + (part + b));
    lemma_replaced_plain_before(a, part + b, part, by);
    assert((part + b).subrange(0, part.len() as int) =~= part);
    assert((part + b).skip(part.len() as int) =~= b);
    lemma_not_replaced(b, part, by);
    assert(a + (by + b) =~= a + by + b);
}

/// The names that references have, and the characters that they stand for.
pub open spec fn named_character(name: Seq<char>) -> Option<char> {
    if name == "nbsp"@ {
        Some(' ')
    } else if name == "lt"@ {
        Some('<')
    } else if name == "gt"@ {
        Some('>')
    } else if name == "quot"@ {
        Some('"')
    } else if name == "apos"@ {
        Some('\'')
    } else {
        None
    }
}

/// A reference by a name becomes its character: `&nbsp;` a blank, `&lt;`, `&gt;`,
/// `&quot;` and `&apos;` the character of that name. What stands before and after
/// stays.
pub proof fn law_named_reference(a: Seq<char>, name: Seq<char>, b: Seq<char>)
    requires
        !a.contains('&'),
        !b.contains('&'),
        named_character(name) is Some,
    ensures
        entities_decoded(a + ("&"@ + name + ";"@) + b) == a + seq![named_character(name)->0] + b,
{
    reveal_strlit("nbsp");
    reveal_strlit("lt");
    reveal_strlit("gt");
    reveal_strlit("quot");
    reveal_strlit("apos");
    reveal_strlit("&");
    reveal_strlit(";");
    reveal_strlit("&nbsp;");
    reveal_strlit("&amp;");
    reveal_strlit("&lt;");
    reveal_strlit("&gt;");
    reveal_strlit("&quot;");
    reveal_strlit("&apos;");
    reveal_strlit("&#39;");
    reveal_strlit(" ");
    reveal_strlit("<");
    reveal_strlit(">");
    reveal_strlit("\"");
    reveal_strlit("'");
    let m = "&"@ + name + ";"@;
    let c = named_character(name)->0;
    let s = a + m + b;
    assert(!m.drop_first().contains('&'));
    lemma_name_not_number(a, m, b);
    let whole = if name == "nbsp"@ {
        "&nbsp;"@
    } else if name == "lt"@ {
        "&lt;"@
    } else if name == "gt"@ {
        "&gt;"@
    } else if name == "quot"@ {
        "&quot;"@
    } else {
        "&apos;"@
    };
    assert(m =~= whole);
    assert(" "@ =~= seq![' ']);
    assert("<"@ =~= seq!['<']);
    assert(">"@ =~= seq!['>']);
    assert("\""@ =~= seq!['"']);
    assert("'"@ =~= seq!['\'']);
    assert(m[1] == name[0] && m[2] == name[1]);
    assert("&nbsp;"@[1] == 'n' && "&amp;"@[2] == 'm' && "&lt;"@[1] == 'l' && "&gt;"@[1] == 'g'
        && "&quot;"@[1] == 'q' && "&apos;"@[2] == 'p' && "&#39;"@[1] == '#');
    assert(!seq![c].contains('&'));
    lemma_no_amp(a, seq![c], b);
    let t = a + seq![c] + b;
    lemma_name_step(a, m, b, "&nbsp;"@, " "@, t, c);
    lemma_name_step(a, m, b, "&amp;"@, "&"@, t, c);
    lemma_name_step(a, m, b, "&lt;"@, "<"@, t, c);
    lemma_name_step(a, m, b, "&gt;"@, ">"@, t, c);
    lemma_name_step(a, m, b, "&quot;"@, "\""@, t, c);
    lemma_name_step(a, m, b, "&apos;"@, "'"@, t, c);
    lemma_name_step(a, m, b, "&#39;"@, "'"@, t, c);
}

/// A reference by a name is no numeric one.
proof fn lemma_name_not_number(a: Seq<char>, m: Seq<char>, b: Seq<char>)
    requires
        !a.contains('&'),
        !b.contains('&'),
        m.len() > 1,
        m[0] == '&',
        m[1] != '#',
        !m.drop_first().contains('&'),
    ensures
        numbers_decoded(a + m + b) == a + m + b,
{
    assert(a + m + b =~= a + (m + b));
    lemma_numbers_before(a, m + b);
    let rest = (m + b).drop_first();
    assert(rest =~= m.drop_first() + b + seq![]);
    assert(!Seq::<char>::empty().contains('&'));
    lemma_no_amp(m.drop_first(), b, seq![]);
    lemma_no_numbers(rest);
    assert(a + (seq![(m + b)[0]] + rest) =~= a + m + b);
}

/// One step of the decoding of names: the reference is replaced where it is what
/// the step looks for, and stays otherwise.
proof fn lemma_name_step(
    a: Seq<char>,
    m: Seq<char>,
    b: Seq<char>,
    part: Seq<char>,
    by: Seq<char>,
    t: Seq<char>,
    c: char,
)
    requires
        !a.contains('&'),
        !b.contains('&'),
        m.len() > 1,
        m[0] == '&',
        !m.drop_first().contains('&'),
        m.last() == ';',
        forall|i: int| 0 <= i < m.len() - 1 ==> #[trigger] m[i] != ';',
        part.len() > 1,
        part[0] == '&',
        part.last() == ';',
        forall|i: int| 0 <= i < part.len() - 1 ==> #[trigger] part[i] != ';',
        t == a + seq![c] + b,
        !t.contains('&'),
        m == part ==> by == seq![c],
    ensures
        m == part ==> replaced(a + m + b, part, by) == t,
        m != part ==> replaced(a + m + b, part, by) == a + m + b,
        replaced(t, part, by) == t,
{
    lemma_not_replaced(t, part, by);
    if m == part {
        lemma_name_replaced(a, b, part, by);
    } else {
        if starts_with(m + b, part) {
            let s = m + b;
            assert(forall|i: int| 0 <= i < part.len() ==> #[trigger] part[i] == s.subrange(
                0,
                part.len() as int,
            )[i]);
            if part.len() < m.len() {
                assert(part[part.len() - 1] == m[part.len() - 1]);
            } else if part.len() > m.len() {
                assert(part[m.len() - 1] == m[m.len() - 1]);
            }
            assert(m =~= part);
        }
        lemma_name_kept(a, m, b, part, by);
    }
}

/// `&amp;` becomes an ampersand, and what it stands before is looked at once more
/// for the names that come later: `&amp;lt;` becomes `<`. Where what follows is no
/// such name, it stays.
pub proof fn law_ampersand(a: Seq<char>, b: Seq<char>)
    requires
        !a.contains('&'),
        !b.contains('&'),
        b.len() > 0 ==> b[0] == ' ',
    ensures
        entities_decoded(a + "&amp;"@ + b) == a + "&"@ + b,
        entities_decoded(a + "&amp;lt;"@ + b) == a + "<"@ + b,
{
    reveal_strlit("&amp;lt;");
    reveal_strlit("lt;");
    reveal_strlit("&");
    reveal_strlit("&nbsp;");
    reveal_strlit("&amp;");
    reveal_strlit("&lt;");
    reveal_strlit("&gt;");
    reveal_strlit("&quot;");
    reveal_strlit("&apos;");
    reveal_strlit("&#39;");
    reveal_strlit("<");
    let amp = "&amp;"@;
    let one = "&"@;
    assert(!amp.drop_first().contains('&'));
    assert(!one.drop_first().contains('&'));
    lemma_name_not_number(a, amp, b);
    lemma_kept_unless(a, amp, b, "&nbsp;"@, " "@);
    lemma_name_replaced(a, b, amp, "&"@);
    lemma_kept_unless(a, one, b, "&lt;"@, "<"@);
    lemma_kept_unless(a, one, b, "&gt;"@, ">"@);
    lemma_kept_unless(a, one, b, "&quot;"@, "\""@);
    lemma_kept_unless(a, one, b, "&apos;"@, "'"@);
    lemma_kept_unless(a, one, b, "&#39;"@, "'"@);
    let whole = "&amp;lt;"@;
    let c = "lt;"@ + b;
    assert(whole =~= amp + "lt;"@);
    assert(!"lt;"@.contains('&'));
    assert(!Seq::<char>::empty().contains('&'));
    lemma_no_amp("lt;"@, b, seq![]);
    assert("lt;"@ + b + seq![] =~= c);
    assert(a + whole + b =~= a + amp + c);
    lemma_name_not_number(a, amp, c);
    lemma_kept_unless(a, amp, c, "&nbsp;"@, " "@);
    lemma_name_replaced(a, c, amp, "&"@);
    assert(one + "lt;"@ =~= "&lt;"@);
    assert(a + one + c =~= a + "&lt;"@ + b);
    lemma_name_replaced(a, b, "&lt;"@, "<"@);
    assert(!"<"@.contains('&'));
    lemma_no_amp(a, "<"@, b);
    let t = a + "<"@ + b;
    lemma_not_replaced(t, "&gt;"@, ">"@);
    lemma_not_replaced(t, "&quot;"@, "\""@);
    lemma_not_replaced(t, "&apos;"@, "'"@);
    lemma_not_replaced(t, "&#39;"@, "'"@);
}

/// A piece that differs from what is looked for in its second or third character
/// stays.
proof fn lemma_kept_unless(
    a: Seq<char>,
    m: Seq<char>,
    b: Seq<char>,
    part: Seq<char>,
    by: Seq<char>,
)
    requires
        !a.contains('&'),
        !b.contains('&'),
        m.len() > 0,
        !m.drop_first().contains('&'),
        part.len() > 2,
        part[0] == '&',
        (m + b).len() > 1 ==> (m + b)[1] != part[1],
    ensures
        replaced(a + m + b, part, by) == a + m + b,
{
    let s = m + b;
    if starts_with(s, part) {
        assert(s.subrange(0, part.len() as int)[1] == s[1]);
    }
    lemma_name_kept(a, m, b, part, by);
}

/// A text with anything in it that is no digit of the base is no number.
proof fn lemma_no_number(s: Seq<char>, base: nat, i: int)
    requires
        0 <= i < s.len(),
        match digit_value(s[i]) {
            Some(d) => d >= base,
            None => true,
        },
    ensures
        number(s, base) is None,
    decreases s.len(),
{
    if i < s.len() - 1 {
        assert(s.drop_last()[i] == s[i]);
        lemma_no_number(s.drop_last(), base, i);
    }
}

/// A reference stays as it is where it has no digits, or anything in it that is no
/// digit: letters count as digits only behind an `x`, a capital one or a small one,
/// and then no further than `f`.
pub proof fn law_no_digits(whole: Seq<char>, digits: Seq<char>, x: char, i: int)
    requires
        x == 'x' || x == 'X',
    ensures
        reference_text(whole, seq![]) == whole,
        reference_text(whole, seq![x]) == whole,
        reference_text(whole, seq!['X'] + digits) == reference_text(whole, seq!['x'] + digits),
        0 <= i < digits.len() && !('0' <= digits[i] <= '9') && digits[0] != 'x' && digits[0] != 'X'
            ==> reference_text(whole, digits) == whole,
        0 <= i < digits.len() && !('0' <= digits[i] <= '9' || 'a' <= digits[i] <= 'f' || 'A'
            <= digits[i] <= 'F') ==> reference_text(whole, seq![x] + digits) == whole,
{
    assert(seq![x].drop_first() =~= seq![]);
    assert((seq![x] + digits).drop_first() =~= digits);
    assert((seq!['x'] + digits).drop_first() =~= digits);
    assert((seq!['X'] + digits).drop_first() =~= digits);
    if 0 <= i < digits.len() && !('0' <= digits[i] <= '9') {
        lemma_no_number(digits, 10, i);
        if !('a' <= digits[i] <= 'f' || 'A' <= digits[i] <= 'F') {
            lemma_no_number(digits, 16, i);
        }
    }
}

} // verus!
