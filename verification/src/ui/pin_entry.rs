//! The PIN entry dialog: its two buttons and where it is drawn.
use vstd::prelude::*;
use ratatui::layout::{Direction, Layout};
use ratatui::layout::Constraint::Percentage;
use crate::text::concat2;
use crate::ui::{display_name, format_display_name};

verus! {

/// The two buttons under the PIN field.
#[derive(Clone, Copy, PartialEq, Eq, Structural, Debug)]
pub enum PinButton {
    Back,
    Continue,
}

/// The other button.
pub open spec fn toggled(b: PinButton) -> PinButton {
    match b {
        PinButton::Back => PinButton::Continue,
        PinButton::Continue => PinButton::Back,
    }
}

/// Moves the focus to the other button.
pub fn toggle(b: PinButton) -> (r: PinButton)
    ensures
        r == toggled(b),
{
    match b {
        PinButton::Back => PinButton::Continue,
        PinButton::Continue => PinButton::Back,
    }
}

/// A rectangle of terminal cells.
#[derive(Clone, Copy, PartialEq, Eq, Structural, Debug)]
pub struct Rect {
    pub x: u16,
    pub y: u16,
    pub width: u16,
    pub height: u16,
}

pub open spec fn rect_tuple(r: Rect) -> (u16, u16, u16, u16) {
    (r.x, r.y, r.width, r.height)
}

/// Where `ratatui`'s layout puts three areas with the given percentages of
/// `area`, stacked (`vertical`) or side by side, when the percentages add up
/// to at most 100. The default `Flex::Start` layout then meets every
/// percentage exactly: the constraints that would have to give way for any
/// other sizes (the empty first spacer, the empty spacers between the areas,
/// each percentage) all outweigh the weaker ones that pull elsewhere (the
/// growth of the last spacer, equal sizes for the areas), so the solver has a
/// single optimum, and the last spacer takes what the percentages leave.
pub uninterp spec fn split_three(
    area: (u16, u16, u16, u16),
    vertical: bool,
    percents: (u16, u16, u16),
) -> Seq<(u16, u16, u16, u16)>;

/// Area `inner` lies within area `outer`.
pub open spec fn within(inner: Rect, outer: Rect) -> bool {
    &&& outer.x <= inner.x
    &&& inner.x + inner.width <= outer.x + outer.width
    &&& outer.y <= inner.y
    &&& inner.y + inner.height <= outer.y + outer.height
}

/// `ratatui::layout::Layout::split` with three `Constraint::Percentage`s:
/// one area per constraint, in order, each within the area split (the
/// solver's variables are required to lie in it, and `Rect::new` only ever
/// shrinks it). `Rect::new` first clamps the area so that its right and bottom
/// edges fit in `u16`; within that, a vertical split keeps the area's column
/// and width, a horizontal one its row and height. Where the percentages add
/// up to at most 100 the areas are named. Where they add up to more, the
/// solver trades the percentages off against each other and may pick among
/// several optima, by the order in which its hash maps are walked; nothing is
/// said of them then beyond the above.
#[verifier::external_body]
fn layout_split_three(area: Rect, vertical: bool, percents: (u16, u16, u16)) -> (r: Vec<Rect>)
    ensures
        r@.len() == 3,
        forall|i: int| 0 <= i < 3 ==> within(#[trigger] r@[i], area),
        percents.0 + percents.1 + percents.2 <= 100 ==> forall|i: int|
            0 <= i < 3 ==> rect_tuple(#[trigger] r@[i]) == split_three(rect_tuple(area), vertical, percents)[i],
        forall|i: int| 0 <= i < 3 ==> vertical ==> (#[trigger] r@[i]).x == area.x,
        forall|i: int| 0 <= i < 3 ==> !vertical ==> (#[trigger] r@[i]).y == area.y,
        area.x + area.width <= u16::MAX ==> forall|i: int|
            0 <= i < 3 ==> vertical ==> (#[trigger] r@[i]).width == area.width,
        area.y + area.height <= u16::MAX ==> forall|i: int|
            0 <= i < 3 ==> !vertical ==> (#[trigger] r@[i]).height == area.height,
{
    let dir = if vertical { Direction::Vertical } else { Direction::Horizontal };
    let cs = [Percentage(percents.0), Percentage(percents.1), Percentage(percents.2)];
    let outer = ratatui::layout::Rect::new(area.x, area.y, area.width, area.height);
    let parts = Layout::default().direction(dir).constraints(cs).split(outer);
    parts.iter().map(|p| Rect { x: p.x, y: p.y, width: p.width, height: p.height }).collect()
}

/// The percentages that put a band of `p` percent in the middle, with half of
/// what is left on each side.
pub open spec fn centered_percents(p: u16) -> (u16, u16, u16) {
    (((100 - p) / 2) as u16, p, ((100 - p) / 2) as u16)
}

/// The middle of a three-way split of `area`.
pub open spec fn middle_band(area: (u16, u16, u16, u16), vertical: bool, p: u16) -> (u16, u16, u16, u16) {
    split_three(area, vertical, centered_percents(p))[1]
}

/// A rectangle `percent_x` wide and `percent_y` high in the middle of `r`.
pub open spec fn centered_rect_spec(percent_x: u16, percent_y: u16, r: Rect) -> (u16, u16, u16, u16) {
    middle_band(middle_band(rect_tuple(r), true, percent_y), false, percent_x)
}

/// The area of the PIN dialog: `percent_x` by `percent_y` percent of `r`,
/// centred: the middle area of a side-by-side split of the middle area of a
/// stacked split of `r`, each side taking half of what the percentage leaves.
/// It lies within `r`.
pub fn centered_rect(percent_x: u16, percent_y: u16, r: Rect) -> (c: Rect)
    requires
        percent_x <= 100,
        percent_y <= 100,
    ensures
        within(c, r),
        rect_tuple(c) == centered_rect_spec(percent_x, percent_y, r),
{
    let side_y = (100 - percent_y) / 2;
    let vertical = layout_split_three(r, true, (side_y, percent_y, side_y));
    let side_x = (100 - percent_x) / 2;
    let horizontal = layout_split_three(vertical[1], false, (side_x, percent_x, side_x));
    proof {
        let v1 = vertical@[1];
        let h1 = horizontal@[1];
        assert(within(v1, r));
        assert(within(h1, v1));
    }
    horizontal[1]
}

/// The title of the PIN dialog.
pub fn pin_title(name: &str, addr: &str) -> (s: String)
    ensures
        s@ == "Enter PIN for "@ + display_name(name@, addr@),
{
    concat2("Enter PIN for ", format_display_name(name, addr).as_str())
}

} // verus!
