//! How the screen is parted: the panes, the footer, and the windows in front of them.
use crate::keys::Area;
use ratatui::layout::{Constraint, Layout, Rect};
use vstd::prelude::*;

verus! {

/// The way in which an area is parted.
#[derive(Debug, Clone, Copy, PartialEq, Eq, Structural)]
pub enum Direction {
    Horizontal,
    Vertical,
}

/// The size of a part: just so long, at least so long, or so many parts of a hundred.
#[derive(Debug, Clone, Copy, PartialEq, Eq, Structural)]
pub enum Size {
    Length(u16),
    Least(u16),
    Percent(u16),
}

/// Whether an area ends where a place can be told.
pub open spec fn is_on_screen(a: Area) -> bool {
    a.x + a.width <= u16::MAX && a.y + a.height <= u16::MAX
}

/// How long an area is.
pub open spec fn extent(a: Area, d: Direction) -> int {
    match d {
        Direction::Horizontal => a.width as int,
        Direction::Vertical => a.height as int,
    }
}

/// The part of an area from `from` up to `to`.
pub open spec fn part(a: Area, d: Direction, from: int, to: int) -> Area {
    match d {
        Direction::Horizontal => Area {
            x: (a.x + from) as u16,
            y: a.y,
            width: (to - from) as u16,
            height: a.height,
        },
        Direction::Vertical => Area {
            x: a.x,
            y: (a.y + from) as u16,
            width: a.width,
            height: (to - from) as u16,
        },
    }
}

/// The smaller of two numbers.
pub open spec fn least_of(a: int, b: int) -> int {
    if a <= b {
        a
    } else {
        b
    }
}

/// How long a part of the length `length` is in `total`, beside one of at least `least`:
/// the other comes first where there is not room for both.
pub open spec fn length_beside(total: int, length: u16, least: u16) -> int {
    least_of(length as int, total - least_of(least as int, total))
}

/// `percent` parts of a hundred of `total`, to the nearest whole number.
pub open spec fn share(total: int, percent: int) -> int {
    (percent * total + 50) / 100
}

/// Whether `r` parts `a` as the sizes ask for: every part lies in `a`, across its whole
/// breadth. Of the sizes that are told here, it says which part each is.
pub open spec fn is_parted(a: Area, d: Direction, sizes: Seq<Size>, r: Seq<Area>) -> bool {
    let n = extent(a, d);
    &&& r.len() == sizes.len()
    &&& forall|i: int|
        0 <= i < r.len() ==> exists|from: int, to: int|
            0 <= from <= to <= n && #[trigger] r[i] == #[trigger] part(a, d, from, to)
    &&& sizes.len() == 2 ==> (sizes[0] matches Size::Length(length) ==> (sizes[1] matches Size::Least(
        least,
    ) ==> least <= i16::MAX ==> {
        let at = length_beside(n, length, least);
        r[0] == part(a, d, 0, at) && r[1] == part(a, d, at, n)
    }))
    &&& sizes.len() == 2 ==> (sizes[0] matches Size::Least(least) ==> (sizes[1] matches Size::Length(
        length,
    ) ==> least <= i16::MAX ==> {
        let at = n - length_beside(n, length, least);
        r[0] == part(a, d, 0, at) && r[1] == part(a, d, at, n)
    }))
    &&& sizes.len() == 3 ==> (sizes[0] matches Size::Percent(before)
        ==> (sizes[1] matches Size::Percent(of) ==> (sizes[2] matches Size::Percent(after)
        ==> before + of + after == 100 ==> {
        let from = share(n, before as int);
        let to = share(n, before + of);
        r[0] == part(a, d, 0, from) && r[1] == part(a, d, from, to) && r[2] == part(a, d, to, n)
    })))
}

/// Parts an area, by `ratatui::layout::Layout::split` with no margin and no space between
/// the parts. Every part keeps to the area and its breadth. A size of at least so much
/// goes before a fixed one and takes what is left; shares that make up the whole end at
/// the place nearest to their share. What other sizes lead to is left open: where they
/// are at odds, the solver behind the call may settle them in more than one way.
#[verifier::external_body]
fn split(area: Area, d: Direction, sizes: &Vec<Size>) -> (r: Vec<Area>)
    requires
        is_on_screen(area),
    ensures
        is_parted(area, d, sizes@, r@),
{
    let of = |s: &Size| match s {
        Size::Length(n) => Constraint::Length(*n),
        Size::Least(n) => Constraint::Min(*n),
        Size::Percent(n) => Constraint::Percentage(*n),
    };
    let way = match d {
        Direction::Horizontal => ratatui::layout::Direction::Horizontal,
        Direction::Vertical => ratatui::layout::Direction::Vertical,
    };
    let a = Rect { x: area.x, y: area.y, width: area.width, height: area.height };
    let parts = Layout::default().direction(way).constraints(sizes.iter().map(of)).split(a);
    parts.iter().map(|p| Area { x: p.x, y: p.y, width: p.width, height: p.height }).collect()
}

/// The two panes.
#[derive(Debug, Clone, Copy, PartialEq, Eq, Structural)]
pub struct LayoutRects {
    pub files: Area,
    pub diff: Area,
}

/// How wide the file list is, where there is room.
pub const FILES_WIDTH: u16 = 40;

/// The panes in an area: the file list is forty columns wide, and the diff has what is
/// left; in a narrow area the diff keeps one column.
pub open spec fn panes_in(a: Area) -> LayoutRects {
    let at = length_beside(a.width as int, FILES_WIDTH, 1);
    LayoutRects {
        files: part(a, Direction::Horizontal, 0, at),
        diff: part(a, Direction::Horizontal, at, a.width as int),
    }
}

/// The panes in an area.
pub fn layout(area: Area) -> (r: LayoutRects)
    requires
        is_on_screen(area),
    ensures
        r == panes_in(area),
{
    let mut sizes: Vec<Size> = Vec::new();
    sizes.push(Size::Length(FILES_WIDTH));
    sizes.push(Size::Least(1));
    let parts = split(area, Direction::Horizontal, &sizes);
    LayoutRects { files: parts[0], diff: parts[1] }
}

/// The main part of the screen, and the footer: the last line, where there are two.
pub open spec fn main_and_footer(a: Area) -> (Area, Area) {
    let at = a.height - length_beside(a.height as int, 1, 1);
    (part(a, Direction::Vertical, 0, at), part(a, Direction::Vertical, at, a.height as int))
}

/// The main part of the screen, and the footer.
pub fn screen_parts(screen: Area) -> (r: (Area, Area))
    requires
        is_on_screen(screen),
    ensures
        r == main_and_footer(screen),
{
    let mut sizes: Vec<Size> = Vec::new();
    sizes.push(Size::Least(1));
    sizes.push(Size::Length(1));
    let parts = split(screen, Direction::Vertical, &sizes);
    (parts[0], parts[1])
}

/// The middle of an area one way, as many parts of a hundred long as `percent` says.
pub open spec fn middle(a: Area, d: Direction, percent: int) -> Area {
    let side = (100 - percent) / 2;
    part(a, d, share(extent(a, d), side), share(extent(a, d), side + percent))
}

/// The area in the middle of another, as many parts of a hundred wide and high as asked
/// for.
pub open spec fn centered(percent_x: int, percent_y: int, a: Area) -> Area {
    middle(middle(a, Direction::Vertical, percent_y), Direction::Horizontal, percent_x)
}

/// A share of a whole is no more than the whole, and larger shares are no shorter.
proof fn lemma_share(total: int, a: int, b: int)
    requires
        0 <= total,
        0 <= a <= b <= 100,
    ensures
        0 <= share(total, a) <= share(total, b) <= total,
{
    assert(0 <= a * total <= b * total <= 100 * total) by (nonlinear_arith)
        requires
            0 <= total,
            0 <= a <= b <= 100,
    ;
}

/// The middle of an area on the screen is on the screen.
proof fn lemma_middle(a: Area, d: Direction, percent: int)
    requires
        is_on_screen(a),
        0 <= percent <= 100,
    ensures
        is_on_screen(middle(a, d, percent)),
{
    let side = (100 - percent) / 2;
    lemma_share(extent(a, d), side, side + percent);
}

/// The area in the middle of another.
fn centered_rect(percent_x: u16, percent_y: u16, r: Area) -> (out: Area)
    requires
        is_on_screen(r),
        percent_x <= 100 && percent_x % 2 == 0,
        percent_y <= 100 && percent_y % 2 == 0,
    ensures
        out == centered(percent_x as int, percent_y as int, r),
{
    let side: u16 = (100 - percent_y) / 2;
    let mut sizes: Vec<Size> = Vec::new();
    sizes.push(Size::Percent(side));
    sizes.push(Size::Percent(percent_y));
    sizes.push(Size::Percent(side));
    let rows = split(r, Direction::Vertical, &sizes);
    let side: u16 = (100 - percent_x) / 2;
    let mut sizes: Vec<Size> = Vec::new();
    sizes.push(Size::Percent(side));
    sizes.push(Size::Percent(percent_x));
    sizes.push(Size::Percent(side));
    proof {
        lemma_middle(r, Direction::Vertical, percent_y as int);
    }
    let columns = split(rows[1], Direction::Horizontal, &sizes);
    columns[1]
}

/// Where the prompt stands.
pub fn prompt_popup_rect(area: Area) -> (r: Area)
    requires
        is_on_screen(area),
    ensures
        r == centered(82, 82, area),
{
    centered_rect(82, 82, area)
}

/// Where the help stands.
pub fn help_popup_rect(area: Area) -> (r: Area)
    requires
        is_on_screen(area),
    ensures
        r == centered(78, 80, area),
{
    centered_rect(78, 80, area)
}

/// How many columns and lines there are inside the border of a pane; at least one.
pub fn viewport(pane: Area) -> (r: (u16, u16))
    ensures
        r.0 == (if pane.width > 3 {
            (pane.width - 2) as u16
        } else {
            1
        }),
        r.1 == (if pane.height > 3 {
            (pane.height - 2) as u16
        } else {
            1
        }),
{
    let width: u16 = pane.width.saturating_sub(2);
    let height: u16 = pane.height.saturating_sub(2);
    (
        if width < 1 {
            1
        } else {
            width
        },
        if height < 1 {
            1
        } else {
            height
        },
    )
}

/// A place of the main part of the screen is in one of the two panes, and in one only.
pub proof fn law_panes_share_the_screen(a: Area, column: u16, row: u16)
    requires
        is_on_screen(a),
    ensures
        panes_in(a).files.holds(column, row) || panes_in(a).diff.holds(column, row) <==> a.holds(
            column,
            row,
        ),
        !(panes_in(a).files.holds(column, row) && panes_in(a).diff.holds(column, row)),
{
}

/// A window in the middle of an area keeps to it.
pub proof fn law_window_keeps_to_its_area(
    percent_x: int,
    percent_y: int,
    a: Area,
    column: u16,
    row: u16,
)
    requires
        is_on_screen(a),
        0 <= percent_x <= 100,
        0 <= percent_y <= 100,
        centered(percent_x, percent_y, a).holds(column, row),
    ensures
        a.holds(column, row),
{
    let side = (100 - percent_y) / 2;
    lemma_share(a.height as int, side, side + percent_y);
    let rows = middle(a, Direction::Vertical, percent_y);
    let side = (100 - percent_x) / 2;
    lemma_share(rows.width as int, side, side + percent_x);
}

} // verus!
