//! The prompt at the bottom of the screen, in which a line is typed.

use crate::terminal::{draw, inside, lemma_inside_add, less, minus, Draw, DrawData, Key, KeyPress};
use crate::text::{
    all_space, chars_of, is_trimmed, law_trimmed, string_of, trim, trim_text, truncate_chars,
    truncated,
};
use crate::wrap::{wrap_prompt_text, wrapped_prompt};
use vstd::prelude::*;

verus! {

/// What stands behind the label of a prompt.
pub const PROMPT_HELP: &'static str = " (Enter=save, Shift+Enter=newline)";

/// A prompt: its label, what it started with, what has been typed, and how
/// many rows of the screen it took when it was last drawn.
#[derive(Debug)]
pub struct Prompt {
    pub label: String,
    pub initial: String,
    pub typed: Vec<char>,
    pub drawn: usize,
}

/// A prompt as plain values.
pub struct PromptData {
    pub label: Seq<char>,
    pub initial: Seq<char>,
    pub typed: Seq<char>,
    pub drawn: nat,
}

impl DeepView for Prompt {
    type V = PromptData;

    open spec fn deep_view(&self) -> PromptData {
        PromptData {
            label: self.label@,
            initial: self.initial@,
            typed: self.typed@,
            drawn: self.drawn as nat,
        }
    }
}

/// What comes of a key: the prompt stays, or it ends with an answer.
#[derive(Debug)]
pub enum PromptStep {
    Typing,
    Done(Option<String>),
}

/// What comes of a key, as plain values.
pub enum StepData {
    Typing,
    Done(Option<Seq<char>>),
}

impl DeepView for PromptStep {
    type V = StepData;

    open spec fn deep_view(&self) -> StepData {
        match self {
            PromptStep::Typing => StepData::Typing,
            PromptStep::Done(answer) => StepData::Done(answer.deep_view()),
        }
    }
}

/// A text without its last character, where it has one.
pub open spec fn erased(typed: Seq<char>) -> Seq<char> {
    if typed.len() == 0 {
        typed
    } else {
        typed.drop_last()
    }
}

/// What has been typed after one more key.
pub open spec fn typed_after(typed: Seq<char>, press: KeyPress) -> Seq<char> {
    match press.key {
        Key::Enter => if press.shift {
            typed.push('\n')
        } else {
            typed
        },
        Key::Backspace => erased(typed),
        Key::Delete => erased(typed),
        Key::Char(c) => if press.control && c == 'h' {
            erased(typed)
        } else if c == '\u{8}' || c == '\u{7f}' {
            erased(typed)
        } else if !press.control && !press.alt {
            typed.push(c)
        } else {
            typed
        },
        _ => typed,
    }
}

/// The answer that was typed, without the white space around it. Where nothing
/// was typed it is what the prompt started with, if that is anything.
pub open spec fn answer_of(p: PromptData) -> Option<Seq<char>> {
    if trim(p.typed).len() > 0 {
        Some(trim(p.typed))
    } else if p.initial.len() > 0 {
        Some(p.initial)
    } else {
        None
    }
}

/// What comes of a key: Enter gives the answer, Esc none, and every other key
/// leaves the prompt open.
pub open spec fn step_of(p: PromptData, press: KeyPress) -> StepData {
    match press.key {
        Key::Enter => if press.shift {
            StepData::Typing
        } else {
            StepData::Done(answer_of(p))
        },
        Key::Esc => StepData::Done(None),
        _ => StepData::Typing,
    }
}

/// The lowest `n` rows of a screen of `h` rows, cleared from the bottom up.
pub open spec fn cleared_rows(n: nat, h: int) -> Seq<DrawData>
    decreases n,
{
    if n == 0 {
        seq![]
    } else {
        cleared_rows((n - 1) as nat, h) + seq![
            DrawData::MoveTo(0, less(h, n as int)),
            DrawData::ClearLine,
        ]
    }
}

/// Rows of text, the first of them one row below `start`.
pub open spec fn rows_below(rows: Seq<Seq<char>>, start: int, width: nat) -> Seq<DrawData>
    decreases rows.len(),
{
    if rows.len() == 0 {
        seq![]
    } else {
        rows_below(rows.drop_last(), start, width) + seq![
            DrawData::MoveTo(0, start + rows.len()),
            DrawData::Text(truncated(rows.last(), width)),
        ]
    }
}

/// The rows of what has been typed, on a screen of `w` columns.
pub open spec fn typed_rows(p: PromptData, w: int) -> Seq<Seq<char>> {
    wrapped_prompt(p.typed, less(w, 1) as nat)
}

/// How many rows a prompt takes: one for its label, and those of what has been
/// typed.
pub open spec fn height_of(p: PromptData, w: int) -> nat {
    typed_rows(p, w).len() + 1
}

/// The drawing of a prompt at the bottom of a screen of `w` columns and `h`
/// rows, over the rows that it took before.
pub open spec fn prompt_drawing(p: PromptData, w: int, h: int) -> Seq<DrawData> {
    let width = less(w, 1) as nat;
    let height = height_of(p, w);
    let start = less(h, height as int);
    let over = if p.drawn > height {
        p.drawn
    } else {
        height
    };
    cleared_rows(over, h) + seq![
        DrawData::MoveTo(0, start),
        DrawData::Text(truncated(p.label + PROMPT_HELP@, width)),
    ] + rows_below(typed_rows(p, w), start, width)
}

/// Clears the lowest `n` rows of a screen of `h` rows.
fn clear_rows(out: &mut Vec<Draw>, n: usize, h: u16)
    requires
        n <= u16::MAX,
    ensures
        final(out).deep_view() == old(out).deep_view() + cleared_rows(n as nat, h as int),
{
    let ghost before = out.deep_view();
    let mut i: usize = 0;
    assert(before + cleared_rows(0, h as int) =~= before);
    while i < n
        invariant
            i <= n,
            n <= u16::MAX,
            out.deep_view() == before + cleared_rows(i as nat, h as int),
        decreases n - i,
    {
        let ghost done = out.deep_view();
        draw(out, Draw::MoveTo(0, minus(h, 1 + i as u16)));
        draw(out, Draw::ClearLine);
        assert(out.deep_view() =~= before + cleared_rows((i + 1) as nat, h as int));
        i = i + 1;
    }
}

impl Prompt {
    /// The rows that a prompt took can be counted on a screen.
    pub open spec fn wf(self) -> bool {
        self.drawn <= u16::MAX
    }

    /// A prompt in which nothing has been typed yet beyond what it starts with.
    pub fn new(label: &str, initial: &str) -> (prompt: Self)
        ensures
            prompt.wf(),
            prompt.deep_view() == (PromptData {
                label: label@,
                initial: initial@,
                typed: initial@,
                drawn: 0,
            }),
    {
        let prompt = Prompt {
            label: String::new().concat(label),
            initial: String::new().concat(initial),
            typed: chars_of(initial),
            drawn: 0,
        };
        assert(prompt.label@ =~= label@);
        assert(prompt.initial@ =~= initial@);
        prompt
    }

    /// Whether the rows of the prompt can be counted on a screen of `w` columns.
    pub fn fits(&self, w: u16) -> (yes: bool)
        ensures
            yes == (height_of(self.deep_view(), w as int) <= u16::MAX),
    {
        let typed: String = string_of(&self.typed);
        wrap_prompt_text(typed.as_str(), minus(w, 1) as usize).len() < 65535
    }

    /// Draws the prompt at the bottom of a screen of `w` columns and `h` rows.
    pub fn frame(&mut self, w: u16, h: u16) -> (out: Vec<Draw>)
        requires
            old(self).wf(),
            height_of(old(self).deep_view(), w as int) <= u16::MAX,
        ensures
            final(self).wf(),
            out.deep_view() == prompt_drawing(old(self).deep_view(), w as int, h as int),
            final(self).deep_view() == (PromptData {
                drawn: height_of(old(self).deep_view(), w as int),
                ..old(self).deep_view()
            }),
    {
        let ghost p = self.deep_view();
        let width: usize = minus(w, 1) as usize;
        let typed: String = string_of(&self.typed);
        let rows: Vec<String> = wrap_prompt_text(typed.as_str(), width);
        let ghost all = rows.deep_view();
        assert(all.len() == rows@.len());
        assert(all == typed_rows(p, w as int));
        let height: usize = rows.len() + 1;
        let start: u16 = minus(h, height as u16);
        let mut out: Vec<Draw> = Vec::new();
        assert(out.deep_view() =~= seq![]);
        let over: usize = if self.drawn > height {
            self.drawn
        } else {
            height
        };
        clear_rows(&mut out, over, h);
        let ghost cleared = cleared_rows(over as nat, h as int);
        assert(out.deep_view() =~= cleared);
        draw(&mut out, Draw::MoveTo(0, start));
        let label: String = String::new().concat(self.label.as_str()).concat(PROMPT_HELP);
        assert(label@ =~= p.label + PROMPT_HELP@);
        draw(&mut out, Draw::Text(truncate_chars(label.as_str(), width)));
        let ghost head = out.deep_view();
        assert(head =~= cleared + seq![
            DrawData::MoveTo(0, start as int),
            DrawData::Text(truncated(p.label + PROMPT_HELP@, width as nat)),
        ]);
        let mut i: usize = 0;
        assert(all.take(0) =~= seq![]);
        assert(head + rows_below(seq![], start as int, width as nat) =~= head);
        while i < rows.len()
            invariant
                i <= rows@.len(),
                rows@.len() + 1 <= u16::MAX,
                start == less(h as int, (rows@.len() + 1) as int),
                all == rows.deep_view(),
                all.len() == rows@.len(),
                out.deep_view() == head + rows_below(
                    all.take(i as int),
                    start as int,
                    width as nat,
                ),
            decreases rows@.len() - i,
        {
            draw(&mut out, Draw::MoveTo(0, start + 1 + i as u16));
            draw(&mut out, Draw::Text(truncate_chars(rows[i].as_str(), width)));
            assert(all[i as int] == rows@[i as int]@);
            assert(all.take(i + 1).drop_last() == all.take(i as int));
            assert(out.deep_view() =~= head + rows_below(
                all.take(i + 1),
                start as int,
                width as nat,
            ));
            i = i + 1;
        }
        assert(all.take(i as int) =~= all);
        self.drawn = height;
        out
    }

    /// Clears the rows that the prompt took, on a screen of `h` rows.
    pub fn closing(&self, h: u16) -> (out: Vec<Draw>)
        requires
            self.wf(),
        ensures
            out.deep_view() == cleared_rows(self.drawn as nat, h as int),
    {
        let mut out: Vec<Draw> = Vec::new();
        assert(out.deep_view() =~= seq![]);
        clear_rows(&mut out, self.drawn, h);
        assert(out.deep_view() =~= cleared_rows(self.drawn as nat, h as int));
        out
    }

    /// Takes a key.
    pub fn press(&mut self, press: KeyPress) -> (step: PromptStep)
        ensures
            final(self).deep_view() == (PromptData {
                typed: typed_after(old(self).deep_view().typed, press),
                ..old(self).deep_view()
            }),
            step.deep_view() == step_of(old(self).deep_view(), press),
    {
        match press.key {
            Key::Enter => {
                if press.shift {
                    self.typed.push('\n');
                    return PromptStep::Typing;
                }
                let typed: String = string_of(&self.typed);
                let answer: String = trim_text(typed.as_str());
                if answer.as_str().is_empty() {
                    if self.initial.as_str().is_empty() {
                        return PromptStep::Done(None);
                    }
                    return PromptStep::Done(Some(self.initial.clone()));
                }
                PromptStep::Done(Some(answer))
            },
            Key::Esc => PromptStep::Done(None),
            Key::Backspace | Key::Delete => {
                self.erase();
                PromptStep::Typing
            },
            Key::Char(c) => {
                if press.control && c == 'h' {
                    self.erase();
                } else if c == '\u{8}' || c == '\u{7f}' {
                    self.erase();
                } else if !press.control && !press.alt {
                    self.typed.push(c);
                }
                PromptStep::Typing
            },
            _ => PromptStep::Typing,
        }
    }

    /// Takes back the last character.
    fn erase(&mut self)
        ensures
            final(self).deep_view() == (PromptData {
                typed: erased(old(self).deep_view().typed),
                ..old(self).deep_view()
            }),
    {
        let _ = self.typed.pop();
    }
}

/// Backspace takes back what any key has added.
pub proof fn law_backspace_undoes(typed: Seq<char>, press: KeyPress, back: KeyPress)
    requires
        typed_after(typed, press).len() > typed.len(),
        back.key == Key::Backspace,
    ensures
        typed_after(typed_after(typed, press), back) == typed,
{
    assert(typed_after(typed, press).drop_last() =~= typed);
}

/// Esc gives no answer, and Enter never gives an empty one.
pub proof fn law_answer_not_empty(p: PromptData, press: KeyPress)
    ensures
        press.key == Key::Esc ==> step_of(p, press) == StepData::Done(None),
        step_of(p, press) matches StepData::Done(Some(answer)) ==> answer.len() > 0,
{
}

/// The rows of a prompt are the lowest of the screen where the screen is high
/// enough, and they are among those that drawing it and closing it clear.
pub proof fn law_prompt_at_bottom(p: PromptData, w: int, h: int)
    requires
        height_of(p, w) <= h,
    ensures
        less(h, height_of(p, w) as int) + typed_rows(p, w).len() == h - 1,
        forall|y: int|
            less(h, height_of(p, w) as int) <= y < h ==> #[trigger] clears(
                cleared_rows(height_of(p, w), h),
                y,
            ),
{
    assert forall|y: int| less(h, height_of(p, w) as int) <= y < h implies #[trigger] clears(
        cleared_rows(height_of(p, w), h),
        y,
    ) by {
        lemma_cleared_rows(height_of(p, w), h, y);
    }
}

/// A drawing that clears the row `y`.
pub open spec fn clears(drawing: Seq<DrawData>, y: int) -> bool {
    exists|i: int|
        0 <= i < drawing.len() - 1 && #[trigger] drawing[i] == DrawData::MoveTo(0, y) && drawing[i
            + 1] == DrawData::ClearLine
}

/// Each of the lowest rows is cleared.
proof fn lemma_cleared_rows(n: nat, h: int, y: int)
    requires
        n <= h,
        h - n <= y < h,
    ensures
        clears(cleared_rows(n, h), y),
    decreases n,
{
    let all = cleared_rows(n, h);
    let fewer = cleared_rows((n - 1) as nat, h);
    if y == h - n {
        assert(all[fewer.len() as int] == DrawData::MoveTo(0, y));
        assert(all[(fewer.len() + 1) as int] == DrawData::ClearLine);
    } else {
        lemma_cleared_rows((n - 1) as nat, h, y);
        let i = choose|i: int|
            0 <= i < fewer.len() - 1 && #[trigger] fewer[i] == DrawData::MoveTo(0, y) && fewer[i
                + 1] == DrawData::ClearLine;
        assert(all[i] == fewer[i]);
        assert(all[i + 1] == fewer[i + 1]);
    }
}

/// Nothing of a prompt is drawn below the screen, where the screen has at least
/// as many rows as the prompt.
pub proof fn law_prompt_inside(p: PromptData, w: int, h: int)
    requires
        height_of(p, w) <= h,
    ensures
        inside(prompt_drawing(p, w, h), h),
{
    let width = less(w, 1) as nat;
    let height = height_of(p, w);
    let start = less(h, height as int);
    let over = if p.drawn > height {
        p.drawn
    } else {
        height
    };
    let label = seq![
        DrawData::MoveTo(0, start),
        DrawData::Text(truncated(p.label + PROMPT_HELP@, width)),
    ];
    lemma_cleared_inside(over, h);
    lemma_rows_inside(typed_rows(p, w), start, width, h);
    assert(inside(label, h));
    lemma_inside_add(cleared_rows(over, h), label, h);
    lemma_inside_add(
        cleared_rows(over, h) + label,
        rows_below(typed_rows(p, w), start, width),
        h,
    );
}

/// Rows are cleared on the screen only.
proof fn lemma_cleared_inside(n: nat, h: int)
    requires
        h > 0,
    ensures
        inside(cleared_rows(n, h), h),
    decreases n,
{
    if n > 0 {
        lemma_cleared_inside((n - 1) as nat, h);
        let last = seq![DrawData::MoveTo(0, less(h, n as int)), DrawData::ClearLine];
        assert(inside(last, h));
        lemma_inside_add(cleared_rows((n - 1) as nat, h), last, h);
    }
}

/// Rows that find room below `start` are drawn on the screen.
proof fn lemma_rows_inside(rows: Seq<Seq<char>>, start: int, width: nat, h: int)
    requires
        0 <= start,
        start + rows.len() < h,
    ensures
        inside(rows_below(rows, start, width), h),
    decreases rows.len(),
{
    if rows.len() > 0 {
        lemma_rows_inside(rows.drop_last(), start, width, h);
        let last = seq![
            DrawData::MoveTo(0, start + rows.len()),
            DrawData::Text(truncated(rows.last(), width)),
        ];
        assert(inside(last, h));
        lemma_inside_add(rows_below(rows.drop_last(), start, width), last, h);
    }
}

/// A character that is typed without control and alt stands at the end of the
/// line. Backspace and delete, in whichever way a terminal tells of them, take the
/// last character away. Enter together with shift begins a new line. Nothing else
/// changes what was typed.
pub proof fn law_typing(typed: Seq<char>, c: char, shift: bool, control: bool, alt: bool)
    ensures
        ({
            let press = |key: Key| typed_after(typed, KeyPress { key, shift, control, alt });
            let less_one = if typed.len() > 0 {
                typed.take(typed.len() - 1)
            } else {
                typed
            };
            &&& !control && !alt && c != '\u{8}' && c != '\u{7f}' ==> press(Key::Char(c)) == typed
                + seq![c]
            &&& press(Key::Backspace) == less_one
            &&& press(Key::Delete) == less_one
            &&& press(Key::Char('\u{8}')) == less_one
            &&& press(Key::Char('\u{7f}')) == less_one
            &&& control ==> press(Key::Char('h')) == less_one
            &&& (control || alt) && c != '\u{8}' && c != '\u{7f}' && c != 'h' ==> press(Key::Char(c))
                == typed
            &&& alt && !control ==> press(Key::Char('h')) == typed
            &&& shift ==> press(Key::Enter) == typed + seq!['\n']
            &&& !shift ==> press(Key::Enter) == typed
            &&& press(Key::Esc) == typed
            &&& press(Key::Left) == typed && press(Key::Right) == typed
            &&& press(Key::Up) == typed && press(Key::Down) == typed
            &&& press(Key::Other) == typed
        }),
{
    assert(typed.push(c) =~= typed + seq![c]);
    assert(typed.push('\n') =~= typed + seq!['\n']);
    if typed.len() > 0 {
        assert(typed.drop_last() =~= typed.take(typed.len() - 1));
    }
}

/// Enter without shift ends the prompt with what was typed, without the white
/// space around it. Where there is nothing else the answer is what the prompt began
/// with, and none where that was empty. Escape ends it without an answer, and no
/// other key ends it.
pub proof fn law_answering(
    p: PromptData,
    a: Seq<char>,
    text: Seq<char>,
    b: Seq<char>,
    press: KeyPress,
)
    requires
        p.typed == a + text + b,
        all_space(a),
        all_space(b),
        is_trimmed(text),
    ensures
        press.key == Key::Enter && !press.shift && text.len() > 0 ==> step_of(p, press)
            == StepData::Done(Some(text)),
        press.key == Key::Enter && !press.shift && text.len() == 0 && p.initial.len() > 0 ==> step_of(
            p,
            press,
        ) == StepData::Done(Some(p.initial)),
        press.key == Key::Enter && !press.shift && text.len() == 0 && p.initial.len() == 0
            ==> step_of(p, press) == StepData::Done(None),
        press.key == Key::Enter && press.shift ==> step_of(p, press) == StepData::Typing,
        press.key == Key::Esc ==> step_of(p, press) == StepData::Done(None),
        press.key != Key::Enter && press.key != Key::Esc ==> step_of(p, press) == StepData::Typing,
{
    law_trimmed(a, text, b);
}

/// The rows of what was typed stand one below the other, below the row of the
/// label.
pub proof fn law_rows_drawn(rows: Seq<Seq<char>>, start: int, width: nat, k: int)
    requires
        0 <= k < rows.len(),
    ensures
        ({
            let drawing = rows_below(rows, start, width);
            &&& drawing.len() == 2 * rows.len()
            &&& drawing[2 * k] == DrawData::MoveTo(0, start + 1 + k)
            &&& drawing[2 * k + 1] == DrawData::Text(truncated(rows[k], width))
        }),
    decreases rows.len(),
{
    lemma_rows_length(rows.drop_last(), start, width);
    if k < rows.len() - 1 {
        law_rows_drawn(rows.drop_last(), start, width, k);
    }
}

/// Two steps draw a row.
proof fn lemma_rows_length(rows: Seq<Seq<char>>, start: int, width: nat)
    ensures
        rows_below(rows, start, width).len() == 2 * rows.len(),
    decreases rows.len(),
{
    if rows.len() > 0 {
        lemma_rows_length(rows.drop_last(), start, width);
    }
}

/// The bottom lines of the screen are cleared, each once, as many as asked for.
pub proof fn law_rows_cleared(n: nat, h: int, k: int)
    requires
        0 <= k < n <= h,
    ensures
        cleared_rows(n, h).len() == 2 * n,
        cleared_rows(n, h)[2 * k] == DrawData::MoveTo(0, h - 1 - k),
        cleared_rows(n, h)[2 * k + 1] == DrawData::ClearLine,
    decreases n,
{
    if k < n - 1 {
        law_rows_cleared((n - 1) as nat, h, k);
    } else {
        lemma_cleared_length((n - 1) as nat, h);
    }
}

/// Two steps clear a line.
proof fn lemma_cleared_length(n: nat, h: int)
    ensures
        cleared_rows(n, h).len() == 2 * n,
    decreases n,
{
    if n > 0 {
        lemma_cleared_length((n - 1) as nat, h);
    }
}

/// Below the lines that are cleared comes the label with the keys that end the
/// prompt, and right below it what was typed.
pub proof fn law_label_above(p: PromptData, w: int, h: int)
    requires
        w >= 1,
        height_of(p, w) <= h,
    ensures
        ({
            let drawing = prompt_drawing(p, w, h);
            let rows = typed_rows(p, w);
            let start = h - rows.len() - 1;
            let n = if p.drawn > rows.len() + 1 {
                p.drawn
            } else {
                rows.len() + 1
            };
            &&& drawing.take(2 * n as int) == cleared_rows(n, h)
            &&& drawing[2 * n as int] == DrawData::MoveTo(0, start)
            &&& drawing[(2 * n + 1) as int] == DrawData::Text(
                truncated(p.label + " (Enter=save, Shift+Enter=newline)"@, (w - 1) as nat),
            )
            &&& drawing.skip((2 * n + 2) as int) == rows_below(rows, start, (w - 1) as nat)
            &&& rows == wrapped_prompt(p.typed, (w - 1) as nat)
        }),
{
    let drawing = prompt_drawing(p, w, h);
    let rows = typed_rows(p, w);
    let n = if p.drawn > rows.len() + 1 {
        p.drawn
    } else {
        rows.len() + 1
    };
    lemma_cleared_length(n, h);
    assert(drawing.take(2 * n as int) =~= cleared_rows(n, h));
    assert(drawing.skip((2 * n + 2) as int) =~= rows_below(rows, h - rows.len() - 1, (w - 1) as nat));
}

} // verus!
