//! What comes from a terminal and what goes to it.

use vstd::prelude::*;

verus! {

/// A key of the keyboard.
#[derive(Clone, Copy, Debug, PartialEq, Eq, Structural)]
pub enum Key {
    Char(char),
    Enter,
    Esc,
    Backspace,
    Delete,
    Left,
    Right,
    Up,
    Down,
    Other,
}

/// A key that was pressed, and what was held down with it.
#[derive(Clone, Copy, Debug, PartialEq, Eq, Structural)]
pub struct KeyPress {
    pub key: Key,
    pub shift: bool,
    pub control: bool,
    pub alt: bool,
}

/// One step in drawing a screen. A place is given by its column and its row.
#[derive(Debug)]
pub enum Draw {
    Clear,
    ClearLine,
    MoveTo(u16, u16),
    Text(String),
}

/// One step in drawing a screen, as plain values.
pub enum DrawData {
    Clear,
    ClearLine,
    MoveTo(int, int),
    Text(Seq<char>),
}

impl DeepView for Draw {
    type V = DrawData;

    open spec fn deep_view(&self) -> DrawData {
        match self {
            Draw::Clear => DrawData::Clear,
            Draw::ClearLine => DrawData::ClearLine,
            Draw::MoveTo(x, y) => DrawData::MoveTo(*x as int, *y as int),
            Draw::Text(s) => DrawData::Text(s@),
        }
    }
}

/// `a` less `b`, but not less than zero.
pub open spec fn less(a: int, b: int) -> int {
    if a >= b {
        a - b
    } else {
        0
    }
}

/// `a` less `b`, but not less than zero.
pub fn minus(a: u16, b: u16) -> (c: u16)
    ensures
        c == less(a as int, b as int),
{
    if a >= b {
        a - b
    } else {
        0
    }
}

/// Adds a step to a drawing.
pub fn draw(out: &mut Vec<Draw>, step: Draw)
    ensures
        final(out).deep_view() == old(out).deep_view().push(step.deep_view()),
{
    let ghost before = out.deep_view();
    out.push(step);
    assert(out.deep_view() =~= before.push(step.deep_view()));
}

/// Every place of a drawing lies on a screen of `h` rows.
pub open spec fn inside(drawing: Seq<DrawData>, h: int) -> bool {
    forall|i: int| 0 <= i < drawing.len() ==> step_inside(#[trigger] drawing[i], h)
}

/// A step of a drawing does not leave a screen of `h` rows.
pub open spec fn step_inside(step: DrawData, h: int) -> bool {
    step matches DrawData::MoveTo(x, y) ==> 0 <= x && 0 <= y < h
}

/// Two drawings, one after the other.
pub proof fn lemma_inside_add(a: Seq<DrawData>, b: Seq<DrawData>, h: int)
    requires
        inside(a, h),
        inside(b, h),
    ensures
        inside(a + b, h),
{
    let c = a + b;
    assert forall|i: int| 0 <= i < c.len() implies step_inside(#[trigger] c[i], h) by {
        if i < a.len() {
            assert(c[i] == a[i]);
        } else {
            assert(c[i] == b[i - a.len()]);
        }
    }
}

/// What is left of a number when another one is taken away from it: never less than
/// nothing.
pub proof fn law_less(a: int, b: int)
    requires
        a >= 0,
        b >= 0,
    ensures
        a >= b ==> less(a, b) + b == a,
        a < b ==> less(a, b) == 0,
{
}

} // verus!
