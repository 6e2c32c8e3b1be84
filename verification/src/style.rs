//! Terminal colours. Only foreground colours are ever set, so that a
//! transparent terminal stays transparent.

use crate::text::{
    all_space, ascii_lower, begins_with, chars_of, decimal, is_space, is_trimmed, is_word,
    law_trimmed, law_words, lines, lower_ascii, same_text, split_lines, split_words, starts_with,
    string_of, trim, trimmed, words,
};
use vstd::prelude::*;

verus! {

/// The escape sequences for the parts of the screen.
pub struct Style {
    pub title: &'static str,
    pub accent: &'static str,
    pub unread: &'static str,
    pub headline: &'static str,
    pub label: &'static str,
    pub body: &'static str,
    pub reset: &'static str,
}

/// The escape sequences of a style as plain texts.
pub struct StyleCodes {
    pub title: Seq<char>,
    pub accent: Seq<char>,
    pub unread: Seq<char>,
    pub headline: Seq<char>,
    pub label: Seq<char>,
    pub body: Seq<char>,
    pub reset: Seq<char>,
}

impl DeepView for Style {
    type V = StyleCodes;

    open spec fn deep_view(&self) -> StyleCodes {
        StyleCodes {
            title: self.title@,
            accent: self.accent@,
            unread: self.unread@,
            headline: self.headline@,
            label: self.label@,
            body: self.body@,
            reset: self.reset@,
        }
    }
}

impl Clone for Style {
    fn clone(&self) -> (copy: Self)
        ensures
            copy.deep_view() == self.deep_view(),
    {
        Style {
            title: self.title,
            accent: self.accent,
            unread: self.unread,
            headline: self.headline,
            label: self.label,
            body: self.body,
            reset: self.reset,
        }
    }
}

/// The style without any configuration: cyan, magenta and gold.
pub open spec fn default_codes() -> StyleCodes {
    StyleCodes {
        title: "\x1b[38;2;0;245;255m"@,
        accent: "\x1b[38;2;255;45;149m"@,
        unread: "\x1b[38;2;255;184;0m"@,
        headline: "\x1b[38;2;0;245;255m"@,
        label: "\x1b[38;2;255;45;149m"@,
        body: "\x1b[38;2;255;184;0m"@,
        reset: "\x1b[0m"@,
    }
}

impl Default for Style {
    fn default() -> (style: Self)
        ensures
            style.deep_view() == default_codes(),
    {
        Style {
            title: "\x1b[38;2;0;245;255m",
            accent: "\x1b[38;2;255;45;149m",
            unread: "\x1b[38;2;255;184;0m",
            headline: "\x1b[38;2;0;245;255m",
            label: "\x1b[38;2;255;45;149m",
            body: "\x1b[38;2;255;184;0m",
            reset: "\x1b[0m",
        }
    }
}

/// The escape sequence for a colour name of the configuration, written in
/// small letters.
pub open spec fn colour_code(name: Seq<char>) -> Option<Seq<char>> {
    if name == "red"@ {
        Some("\x1b[31m"@)
    } else if name == "green"@ {
        Some("\x1b[32m"@)
    } else if name == "yellow"@ {
        Some("\x1b[33m"@)
    } else if name == "blue"@ {
        Some("\x1b[34m"@)
    } else if name == "magenta"@ {
        Some("\x1b[35m"@)
    } else if name == "cyan"@ {
        Some("\x1b[36m"@)
    } else if name == "white"@ {
        Some("\x1b[37m"@)
    } else if name == "black"@ {
        Some("\x1b[30m"@)
    } else if name == "brightred"@ {
        Some("\x1b[91m"@)
    } else if name == "brightgreen"@ {
        Some("\x1b[92m"@)
    } else if name == "brightyellow"@ {
        Some("\x1b[93m"@)
    } else if name == "brightblue"@ {
        Some("\x1b[94m"@)
    } else if name == "brightmagenta"@ {
        Some("\x1b[95m"@)
    } else if name == "brightcyan"@ {
        Some("\x1b[96m"@)
    } else if name == "brightwhite"@ {
        Some("\x1b[97m"@)
    } else {
        None
    }
}

/// The escape sequence that sets the foreground to the colour `name`, in
/// whatever case it is written, or `None` where no such colour is known.
pub fn named_fg(name: &str) -> (code: Option<&'static str>)
    ensures
        code.deep_view() == colour_code(ascii_lower(name@)),
{
    let lower: String = string_of(&lower_ascii(&chars_of(name)));
    let n: &str = lower.as_str();
    if same_text(n, "red") {
        Some("\x1b[31m")
    } else if same_text(n, "green") {
        Some("\x1b[32m")
    } else if same_text(n, "yellow") {
        Some("\x1b[33m")
    } else if same_text(n, "blue") {
        Some("\x1b[34m")
    } else if same_text(n, "magenta") {
        Some("\x1b[35m")
    } else if same_text(n, "cyan") {
        Some("\x1b[36m")
    } else if same_text(n, "white") {
        Some("\x1b[37m")
    } else if same_text(n, "black") {
        Some("\x1b[30m")
    } else if same_text(n, "brightred") {
        Some("\x1b[91m")
    } else if same_text(n, "brightgreen") {
        Some("\x1b[92m")
    } else if same_text(n, "brightyellow") {
        Some("\x1b[93m")
    } else if same_text(n, "brightblue") {
        Some("\x1b[94m")
    } else if same_text(n, "brightmagenta") {
        Some("\x1b[95m")
    } else if same_text(n, "brightcyan") {
        Some("\x1b[96m")
    } else if same_text(n, "brightwhite") {
        Some("\x1b[97m")
    } else {
        None
    }
}

/// What one line of a newsboat configuration does to the style: `color`, a
/// role and a known foreground colour set the escape sequence of that role.
pub open spec fn configured(codes: StyleCodes, line: Seq<char>) -> StyleCodes {
    let l = trim(line);
    let parts = words(l);
    if starts_with(l, "color "@) && parts.len() >= 3 {
        match colour_code(ascii_lower(parts[2])) {
            Some(code) => if parts[1] == "listfocus"@ {
                StyleCodes { accent: code, ..codes }
            } else if parts[1] == "info"@ {
                StyleCodes { title: code, ..codes }
            } else if parts[1] == "listnormal_unread"@ {
                StyleCodes { unread: code, ..codes }
            } else {
                codes
            },
            None => codes,
        }
    } else {
        codes
    }
}

/// The style after the configuration lines `config`, read in order.
pub open spec fn configured_all(codes: StyleCodes, config: Seq<Seq<char>>) -> StyleCodes
    decreases config.len(),
{
    if config.len() == 0 {
        codes
    } else {
        configured(configured_all(codes, config.drop_last()), config.last())
    }
}

/// Lets one line of a newsboat configuration set a colour of `style`.
fn configure(style: &mut Style, line: &str)
    ensures
        final(style).deep_view() == configured(old(style).deep_view(), line@),
{
    let chars: Vec<char> = chars_of(line);
    let l: &[char] = trimmed(&chars);
    if begins_with(l, "color ") {
        let parts: Vec<String> = split_words(l);
        assert(parts.deep_view().len() == parts@.len());
        if parts.len() >= 3 {
            assert(parts.deep_view()[1] == parts@[1]@ && parts.deep_view()[2] == parts@[2]@);
            let role: &str = parts[1].as_str();
            if let Some(code) = named_fg(parts[2].as_str()) {
                if same_text(role, "listfocus") {
                    style.accent = code;
                } else if same_text(role, "info") {
                    style.title = code;
                } else if same_text(role, "listnormal_unread") {
                    style.unread = code;
                }
            }
        }
    }
}

/// The style for the text of a newsboat configuration file, or the default
/// style where there is no such file.
pub fn style_from_newsboat_if_available(config: Option<&str>) -> (style: Style)
    ensures
        style.deep_view() == match config.deep_view() {
            Some(text) => configured_all(default_codes(), lines(text)),
            None => default_codes(),
        },
        foreground_only(style.deep_view()),
{
    let mut style: Style = Style::default();
    proof {
        lemma_default_foreground();
    }
    if let Some(text) = config {
        let all: Vec<String> = split_lines(&chars_of(text));
        let ghost config = lines(text@);
        let mut i: usize = 0;
        assert(config.len() == all@.len());
        while i < all.len()
            invariant
                i <= all@.len(),
                all.deep_view() == config,
                config.len() == all@.len(),
                style.deep_view() == configured_all(default_codes(), config.take(i as int)),
            decreases all@.len() - i,
        {
            assert(config[i as int] == all@[i as int]@);
            configure(&mut style, all[i].as_str());
            assert(config.take(i + 1).drop_last() == config.take(i as int));
            i = i + 1;
        }
        proof {
            assert(config.take(i as int) == config);
            lemma_configured_foreground(default_codes(), config);
        }
    }
    style
}

// ---------------------------------------------------------------------------
// Foreground colours only
// ---------------------------------------------------------------------------

/// An escape sequence that sets the foreground colour: one of the eight plain
/// or eight bright colours, or a colour given by red, green and blue.
pub open spec fn is_foreground(code: Seq<char>) -> bool {
    ||| exists|n: nat| n <= 7 && code == #[trigger] plain_foreground(n)
    ||| exists|n: nat| n <= 7 && code == #[trigger] bright_foreground(n)
    ||| exists|r: nat, g: nat, b: nat|
        r <= 255 && g <= 255 && b <= 255 && code == #[trigger] rgb_foreground(r, g, b)
}

/// The escape sequence for the `n`th of the eight plain foreground colours.
pub open spec fn plain_foreground(n: nat) -> Seq<char> {
    seq!['\x1b', '[', '3'] + decimal(n) + seq!['m']
}

/// The escape sequence for the `n`th of the eight bright foreground colours.
pub open spec fn bright_foreground(n: nat) -> Seq<char> {
    seq!['\x1b', '[', '9'] + decimal(n) + seq!['m']
}

/// The escape sequence for a foreground colour by its three parts.
pub open spec fn rgb_foreground(r: nat, g: nat, b: nat) -> Seq<char> {
    seq!['\x1b', '[', '3', '8', ';', '2', ';'] + decimal(r) + seq![';'] + decimal(g) + seq![';']
        + decimal(b) + seq!['m']
}

/// Every colour of the style is a foreground colour, and the remaining
/// sequence takes all colours back.
pub open spec fn foreground_only(codes: StyleCodes) -> bool {
    &&& is_foreground(codes.title)
    &&& is_foreground(codes.accent)
    &&& is_foreground(codes.unread)
    &&& is_foreground(codes.headline)
    &&& is_foreground(codes.label)
    &&& is_foreground(codes.body)
    &&& codes.reset == "\x1b[0m"@
}

/// The default style sets foreground colours only.
pub proof fn lemma_default_foreground()
    ensures
        foreground_only(default_codes()),
{
    reveal_strlit("\x1b[38;2;0;245;255m");
    reveal_strlit("\x1b[38;2;255;45;149m");
    reveal_strlit("\x1b[38;2;255;184;0m");
    reveal_with_fuel(decimal, 3);
    assert("\x1b[38;2;0;245;255m"@ =~= rgb_foreground(0, 245, 255));
    assert("\x1b[38;2;255;45;149m"@ =~= rgb_foreground(255, 45, 149));
    assert("\x1b[38;2;255;184;0m"@ =~= rgb_foreground(255, 184, 0));
}

/// Every colour name stands for a foreground colour.
pub proof fn lemma_colour_code_foreground(name: Seq<char>)
    ensures
        colour_code(name) matches Some(code) ==> is_foreground(code),
{
    reveal_strlit("\x1b[30m");
    reveal_strlit("\x1b[31m");
    reveal_strlit("\x1b[32m");
    reveal_strlit("\x1b[33m");
    reveal_strlit("\x1b[34m");
    reveal_strlit("\x1b[35m");
    reveal_strlit("\x1b[36m");
    reveal_strlit("\x1b[37m");
    reveal_strlit("\x1b[91m");
    reveal_strlit("\x1b[92m");
    reveal_strlit("\x1b[93m");
    reveal_strlit("\x1b[94m");
    reveal_strlit("\x1b[95m");
    reveal_strlit("\x1b[96m");
    reveal_strlit("\x1b[97m");
    assert("\x1b[30m"@ =~= plain_foreground(0));
    assert("\x1b[31m"@ =~= plain_foreground(1));
    assert("\x1b[32m"@ =~= plain_foreground(2));
    assert("\x1b[33m"@ =~= plain_foreground(3));
    assert("\x1b[34m"@ =~= plain_foreground(4));
    assert("\x1b[35m"@ =~= plain_foreground(5));
    assert("\x1b[36m"@ =~= plain_foreground(6));
    assert("\x1b[37m"@ =~= plain_foreground(7));
    assert("\x1b[91m"@ =~= bright_foreground(1));
    assert("\x1b[92m"@ =~= bright_foreground(2));
    assert("\x1b[93m"@ =~= bright_foreground(3));
    assert("\x1b[94m"@ =~= bright_foreground(4));
    assert("\x1b[95m"@ =~= bright_foreground(5));
    assert("\x1b[96m"@ =~= bright_foreground(6));
    assert("\x1b[97m"@ =~= bright_foreground(7));
}

/// No configuration makes a style set anything but foreground colours.
pub proof fn lemma_configured_foreground(codes: StyleCodes, config: Seq<Seq<char>>)
    requires
        foreground_only(codes),
    ensures
        foreground_only(configured_all(codes, config)),
    decreases config.len(),
{
    if config.len() > 0 {
        lemma_configured_foreground(codes, config.drop_last());
        let parts = words(trim(config.last()));
        if parts.len() >= 3 {
            lemma_colour_code_foreground(ascii_lower(parts[2]));
        }
    }
}

/// A configuration changes the colours of the title, the accent and the
/// unread mark at most.
pub proof fn lemma_configured_keeps(codes: StyleCodes, config: Seq<Seq<char>>)
    ensures
        configured_all(codes, config).headline == codes.headline,
        configured_all(codes, config).label == codes.label,
        configured_all(codes, config).body == codes.body,
        configured_all(codes, config).reset == codes.reset,
    decreases config.len(),
{
    if config.len() > 0 {
        lemma_configured_keeps(codes, config.drop_last());
    }
}

/// No two colour names stand for the same escape sequence.
pub proof fn law_colours_apart(a: Seq<char>, b: Seq<char>)
    requires
        colour_code(a) is Some,
        colour_code(a) == colour_code(b),
    ensures
        a == b,
{
    reveal_strlit("\x1b[30m");
    reveal_strlit("\x1b[31m");
    reveal_strlit("\x1b[32m");
    reveal_strlit("\x1b[33m");
    reveal_strlit("\x1b[34m");
    reveal_strlit("\x1b[35m");
    reveal_strlit("\x1b[36m");
    reveal_strlit("\x1b[37m");
    reveal_strlit("\x1b[91m");
    reveal_strlit("\x1b[92m");
    reveal_strlit("\x1b[93m");
    reveal_strlit("\x1b[94m");
    reveal_strlit("\x1b[95m");
    reveal_strlit("\x1b[96m");
    reveal_strlit("\x1b[97m");
    assert("\x1b[30m"@[2] == '3' && "\x1b[30m"@[3] == '0');
    assert("\x1b[31m"@[2] == '3' && "\x1b[31m"@[3] == '1');
    assert("\x1b[32m"@[2] == '3' && "\x1b[32m"@[3] == '2');
    assert("\x1b[33m"@[2] == '3' && "\x1b[33m"@[3] == '3');
    assert("\x1b[34m"@[2] == '3' && "\x1b[34m"@[3] == '4');
    assert("\x1b[35m"@[2] == '3' && "\x1b[35m"@[3] == '5');
    assert("\x1b[36m"@[2] == '3' && "\x1b[36m"@[3] == '6');
    assert("\x1b[37m"@[2] == '3' && "\x1b[37m"@[3] == '7');
    assert("\x1b[91m"@[2] == '9' && "\x1b[91m"@[3] == '1');
    assert("\x1b[92m"@[2] == '9' && "\x1b[92m"@[3] == '2');
    assert("\x1b[93m"@[2] == '9' && "\x1b[93m"@[3] == '3');
    assert("\x1b[94m"@[2] == '9' && "\x1b[94m"@[3] == '4');
    assert("\x1b[95m"@[2] == '9' && "\x1b[95m"@[3] == '5');
    assert("\x1b[96m"@[2] == '9' && "\x1b[96m"@[3] == '6');
    assert("\x1b[97m"@[2] == '9' && "\x1b[97m"@[3] == '7');
}

/// The words of a line that sets a colour.
proof fn lemma_colour_line(role: Seq<char>, colour: Seq<char>, more: Seq<char>)
    requires
        is_word(role),
        is_word(colour),
        more.len() > 0 ==> is_space(more[0]) && !is_space(more.last()),
    ensures
        ({
            let line = "color "@ + role + seq![' '] + colour + more;
            &&& is_trimmed(line)
            &&& starts_with(line, "color "@)
            &&& words(line).len() >= 3
            &&& words(line)[1] == role
            &&& words(line)[2] == colour
        }),
{
    reveal_strlit("color ");
    let word = seq!['c', 'o', 'l', 'o', 'r'];
    let line = "color "@ + role + seq![' '] + colour + more;
    let tail = colour + more;
    let rest = role + seq![' '] + tail;
    assert(line =~= word + seq![' '] + rest);
    assert(is_word(word));
    law_words(word, ' ', rest);
    law_words(role, ' ', tail);
    if more.len() > 0 {
        law_words(colour, more[0], more.drop_first());
        assert(tail =~= colour + seq![more[0]] + more.drop_first());
        assert(words(tail)[0] == colour);
    } else {
        law_words(colour, ' ', seq![]);
        assert(tail =~= colour);
    }
    assert(words(line) == seq![word] + (seq![role] + words(tail)));
    assert(line.subrange(0, 6) =~= "color "@);
    assert(line[0] == 'c');
    assert(line.last() == if more.len() > 0 {
        more.last()
    } else {
        colour[colour.len() - 1]
    });
}

/// A line of a newsboat configuration sets the colour of one thing and leaves all
/// others: `listfocus` the accent, `info` the title, `listnormal_unread` the mark
/// of unread articles. Another role, or a colour that is not known, sets nothing.
/// White space around the line does not matter, nor what follows the colour.
pub proof fn law_colour_set(
    codes: StyleCodes,
    a: Seq<char>,
    role: Seq<char>,
    colour: Seq<char>,
    more: Seq<char>,
    b: Seq<char>,
)
    requires
        all_space(a),
        all_space(b),
        is_word(role),
        is_word(colour),
        more.len() > 0 ==> is_space(more[0]) && !is_space(more.last()),
    ensures
        ({
            let line = "color "@ + role + seq![' '] + colour + more;
            let set = configured(codes, a + line + b);
            let code = colour_code(ascii_lower(colour));
            &&& code is Some && role == "listfocus"@ ==> set == (StyleCodes {
                accent: code->0,
                ..codes
            })
            &&& code is Some && role == "info"@ ==> set == (StyleCodes { title: code->0, ..codes })
            &&& code is Some && role == "listnormal_unread"@ ==> set == (StyleCodes {
                unread: code->0,
                ..codes
            })
            &&& code is None ==> set == codes
            &&& role != "listfocus"@ && role != "info"@ && role != "listnormal_unread"@ ==> set
                == codes
        }),
{
    reveal_strlit("listfocus");
    reveal_strlit("info");
    reveal_strlit("listnormal_unread");
    let line = "color "@ + role + seq![' '] + colour + more;
    lemma_colour_line(role, colour, more);
    law_trimmed(a, line, b);
    assert("listfocus"@.len() == 9 && "info"@.len() == 4 && "listnormal_unread"@.len() == 17);
}

/// A line that does not begin with `color ` sets nothing. Lines are taken one after
/// the other, so that the later one counts.
pub proof fn law_configured_in_turn(
    codes: StyleCodes,
    first: Seq<Seq<char>>,
    more: Seq<Seq<char>>,
    line: Seq<char>,
)
    ensures
        !starts_with(trim(line), "color "@) ==> configured(codes, line) == codes,
        configured_all(codes, seq![]) == codes,
        configured_all(codes, seq![line]) == configured(codes, line),
        configured_all(codes, first + more) == configured_all(configured_all(codes, first), more),
    decreases more.len(),
{
    assert(seq![line].drop_last() =~= seq![]);
    assert(configured_all(codes, seq![line].drop_last()) == codes);
    assert(seq![line].last() == line);
    if more.len() == 0 {
        assert(first + more =~= first);
    } else {
        assert((first + more).drop_last() =~= first + more.drop_last());
        law_configured_in_turn(codes, first, more.drop_last(), line);
    }
}

/// The eight colours of a terminal have the codes that terminals number them by,
/// and their bright ones follow the same order.
pub proof fn law_colour_numbers(n: nat)
    requires
        n < 8,
    ensures
        ({
            let names = seq![
                "black"@,
                "red"@,
                "green"@,
                "yellow"@,
                "blue"@,
                "magenta"@,
                "cyan"@,
                "white"@,
            ];
            colour_code(names[n as int]) == Some(plain_foreground(n))
        }),
{
    reveal_strlit("black");
    reveal_strlit("red");
    reveal_strlit("green");
    reveal_strlit("yellow");
    reveal_strlit("blue");
    reveal_strlit("magenta");
    reveal_strlit("cyan");
    reveal_strlit("white");
    reveal_strlit("\x1b[30m");
    reveal_strlit("\x1b[31m");
    reveal_strlit("\x1b[32m");
    reveal_strlit("\x1b[33m");
    reveal_strlit("\x1b[34m");
    reveal_strlit("\x1b[35m");
    reveal_strlit("\x1b[36m");
    reveal_strlit("\x1b[37m");
    assert("black"@.len() == 5 && "black"@[0] == 'b');
    assert("red"@.len() == 3);
    assert("green"@.len() == 5 && "green"@[0] == 'g');
    assert("yellow"@.len() == 6);
    assert("blue"@.len() == 4 && "blue"@[0] == 'b');
    assert("magenta"@.len() == 7);
    assert("cyan"@.len() == 4 && "cyan"@[0] == 'c');
    assert("white"@.len() == 5 && "white"@[0] == 'w');
    let code = plain_foreground(n);
    if n == 0 {
        assert(code =~= "\x1b[30m"@);
    } else if n == 1 {
        assert(code =~= "\x1b[31m"@);
    } else if n == 2 {
        assert(code =~= "\x1b[32m"@);
    } else if n == 3 {
        assert(code =~= "\x1b[33m"@);
    } else if n == 4 {
        assert(code =~= "\x1b[34m"@);
    } else if n == 5 {
        assert(code =~= "\x1b[35m"@);
    } else if n == 6 {
        assert(code =~= "\x1b[36m"@);
    } else {
        assert(code =~= "\x1b[37m"@);
    }
}

/// The bright colours.
pub proof fn law_bright_numbers(n: nat)
    requires
        1 <= n < 8,
    ensures
        ({
            let names = seq![
                "brightred"@,
                "brightgreen"@,
                "brightyellow"@,
                "brightblue"@,
                "brightmagenta"@,
                "brightcyan"@,
                "brightwhite"@,
            ];
            colour_code(names[n - 1]) == Some(bright_foreground(n))
        }),
{
    reveal_strlit("black");
    reveal_strlit("red");
    reveal_strlit("green");
    reveal_strlit("yellow");
    reveal_strlit("blue");
    reveal_strlit("magenta");
    reveal_strlit("cyan");
    reveal_strlit("white");
    reveal_strlit("brightred");
    reveal_strlit("brightgreen");
    reveal_strlit("brightyellow");
    reveal_strlit("brightblue");
    reveal_strlit("brightmagenta");
    reveal_strlit("brightcyan");
    reveal_strlit("brightwhite");
    reveal_strlit("\x1b[91m");
    reveal_strlit("\x1b[92m");
    reveal_strlit("\x1b[93m");
    reveal_strlit("\x1b[94m");
    reveal_strlit("\x1b[95m");
    reveal_strlit("\x1b[96m");
    reveal_strlit("\x1b[97m");
    assert("black"@.len() < 8 && "red"@.len() < 8 && "green"@.len() < 8 && "yellow"@.len() < 8);
    assert("blue"@.len() < 8 && "magenta"@.len() < 8 && "cyan"@.len() < 8 && "white"@.len() < 8);
    assert("brightred"@.len() == 9);
    assert("brightgreen"@.len() == 11 && "brightgreen"@[6] == 'g');
    assert("brightyellow"@.len() == 12);
    assert("brightblue"@.len() == 10 && "brightblue"@[6] == 'b');
    assert("brightmagenta"@.len() == 13);
    assert("brightcyan"@.len() == 10 && "brightcyan"@[6] == 'c');
    assert("brightwhite"@.len() == 11 && "brightwhite"@[6] == 'w');
    let code = bright_foreground(n);
    if n == 1 {
        assert(code =~= "\x1b[91m"@);
    } else if n == 2 {
        assert(code =~= "\x1b[92m"@);
    } else if n == 3 {
        assert(code =~= "\x1b[93m"@);
    } else if n == 4 {
        assert(code =~= "\x1b[94m"@);
    } else if n == 5 {
        assert(code =~= "\x1b[95m"@);
    } else if n == 6 {
        assert(code =~= "\x1b[96m"@);
    } else {
        assert(code =~= "\x1b[97m"@);
    }
}

/// There are no other colours than these.
pub proof fn law_known_colours(name: Seq<char>)
    ensures
        colour_code(name) is Some ==> seq![
            "black"@,
            "red"@,
            "green"@,
            "yellow"@,
            "blue"@,
            "magenta"@,
            "cyan"@,
            "white"@,
        ].contains(name) || seq![
            "brightred"@,
            "brightgreen"@,
            "brightyellow"@,
            "brightblue"@,
            "brightmagenta"@,
            "brightcyan"@,
            "brightwhite"@,
        ].contains(name),
{
    let plain = seq![
        "black"@,
        "red"@,
        "green"@,
        "yellow"@,
        "blue"@,
        "magenta"@,
        "cyan"@,
        "white"@,
    ];
    let bright = seq![
        "brightred"@,
        "brightgreen"@,
        "brightyellow"@,
        "brightblue"@,
        "brightmagenta"@,
        "brightcyan"@,
        "brightwhite"@,
    ];
    assert(plain.contains(plain[0]) && plain.contains(plain[1]) && plain.contains(plain[2])
        && plain.contains(plain[3]));
    assert(plain.contains(plain[4]) && plain.contains(plain[5]) && plain.contains(plain[6])
        && plain.contains(plain[7]));
    assert(bright.contains(bright[0]) && bright.contains(bright[1]) && bright.contains(bright[2])
        && bright.contains(bright[3]));
    assert(bright.contains(bright[4]) && bright.contains(bright[5]) && bright.contains(bright[6]));
}

} // verus!
