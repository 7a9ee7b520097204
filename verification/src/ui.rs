//! Screen layout and the texts of the dashboard that are not drawing.
use ratatui::layout::{Constraint, Direction, Layout, Rect};
use vstd::prelude::*;

use crate::app::AppState;
use crate::text::{decimal, decimal_string, push_char};

verus! {

/// A rectangle of the terminal, in cells.
#[derive(Clone, Copy, Debug, PartialEq, Eq, Structural)]
pub struct Area {
    pub x: u16,
    pub y: u16,
    pub width: u16,
    pub height: u16,
}

/// The height a row of the layout asks for.
#[derive(Clone, Copy, Debug, PartialEq, Eq, Structural)]
pub enum RowSize {
    /// Exactly this many lines.
    Length(u16),
    /// At least this many lines, taking what is left.
    Min(u16),
}

/// Named layout slots.
#[derive(Clone, Copy, Debug)]
pub struct LayoutSlots {
    pub header: Area,
    pub chart: Area,
    pub blockchain_viz: Option<Area>,
    pub content: Area,
    pub status: Area,
}

/// The rows of the screen: header, BTC chart (smaller when the node panel
/// is shown), the node panel if any, the feed, and the status line.
pub open spec fn layout_rows(has_node: bool) -> Seq<RowSize> {
    if has_node {
        seq![RowSize::Length(3), RowSize::Length(10), RowSize::Length(14), RowSize::Min(0), RowSize::Length(3)]
    } else {
        seq![RowSize::Length(3), RowSize::Length(12), RowSize::Min(0), RowSize::Length(3)]
    }
}

pub fn layout_plan(has_node: bool) -> (r: Vec<RowSize>)
    ensures
        r@ == layout_rows(has_node),
{
    let mut r: Vec<RowSize> = Vec::new();
    if has_node {
        r.push(RowSize::Length(3));
        r.push(RowSize::Length(10));
        r.push(RowSize::Length(14));
        r.push(RowSize::Min(0));
        r.push(RowSize::Length(3));
    } else {
        r.push(RowSize::Length(3));
        r.push(RowSize::Length(12));
        r.push(RowSize::Min(0));
        r.push(RowSize::Length(3));
    }
    assert(r@ =~= layout_rows(has_node));
    r
}

/// `a + b`, or `u16::MAX` when that does not fit.
pub open spec fn sat_add(a: u16, b: u16) -> u16 {
    if a + b > u16::MAX {
        u16::MAX
    } else {
        (a + b) as u16
    }
}

/// An area as `Rect::new` keeps it: clipped so that it ends within `u16`.
pub open spec fn clipped(a: Area) -> Area {
    Area {
        x: a.x,
        y: a.y,
        width: (sat_add(a.x, a.width) - a.x) as u16,
        height: (sat_add(a.y, a.height) - a.y) as u16,
    }
}

/// The part of `a` inside a margin of `m` cells on every side
/// (`Rect::inner`): nothing when the margin does not fit.
pub open spec fn inner_area(a: Area, m: u16) -> Area {
    let r = clipped(a);
    let dm: u16 = if 2 * m > u16::MAX {
        u16::MAX
    } else {
        (2 * m) as u16
    };
    if r.width < dm || r.height < dm {
        Area { x: 0, y: 0, width: 0, height: 0 }
    } else {
        Area {
            x: sat_add(r.x, m),
            y: sat_add(r.y, m),
            width: (r.width - dm) as u16,
            height: (r.height - dm) as u16,
        }
    }
}

/// An area that spans the full width of `inner` and lies within its height.
pub open spec fn is_row_of(c: Area, inner: Area) -> bool {
    &&& c.x == inner.x
    &&& c.width == inner.width
    &&& inner.y <= c.y
    &&& c.y + c.height <= inner.y + inner.height
}

/// Splits `area` (less a margin) into rows with `ratatui`'s `Layout::split`
/// under its defaults (`Flex::Start`, spacing `Space(0)`). There is one area
/// per row, in the order of the rows; each spans the width inside the
/// margin and lies within the height inside it. The first starts at the
/// top of that inner area, and each next one starts where the one before it
/// ends: the documented meaning of `Flex::Start` ("aligns items to the
/// start") and of spacing `Space(0)` ("no spacing or no overlap between
/// segments"). How the height is shared out among the rows is the crate's
/// solver's decision (its hash maps may break ties differently from run to
/// run), so the heights are not stated.
#[verifier::external_body]
fn split_rows(area: Area, margin: u16, rows: &Vec<RowSize>) -> (r: Vec<Area>)
    ensures
        r@.len() == rows@.len(),
        forall|i: int| 0 <= i < r@.len() ==> is_row_of(#[trigger] r@[i], inner_area(area, margin)),
        r@.len() > 0 ==> r@[0].y == inner_area(area, margin).y,
        forall|i: int| 0 <= i < r@.len() - 1 ==> #[trigger] r@[i].y + r@[i].height == r@[i + 1].y,
{
    let constraints = rows.iter().map(|row| match row {
        RowSize::Length(n) => Constraint::Length(*n),
        RowSize::Min(n) => Constraint::Min(*n),
    });
    let rect = Rect::new(area.x, area.y, area.width, area.height);
    let chunks = Layout::default().direction(Direction::Vertical).margin(margin).constraints(constraints).split(rect);
    chunks.iter().map(|c| Area { x: c.x, y: c.y, width: c.width, height: c.height }).collect()
}

/// Names the areas of a split screen, in the order of [`layout_rows`].
pub fn slots_from_areas(chunks: &Vec<Area>, has_node: bool) -> (r: LayoutSlots)
    requires
        chunks@.len() == layout_rows(has_node).len(),
    ensures
        r.header == chunks@[0],
        r.chart == chunks@[1],
        has_node ==> r.blockchain_viz == Some(chunks@[2]) && r.content == chunks@[3] && r.status
            == chunks@[4],
        !has_node ==> r.blockchain_viz is None && r.content == chunks@[2] && r.status
            == chunks@[3],
{
    if has_node {
        LayoutSlots {
            header: chunks[0],
            chart: chunks[1],
            blockchain_viz: Some(chunks[2]),
            content: chunks[3],
            status: chunks[4],
        }
    } else {
        LayoutSlots {
            header: chunks[0],
            chart: chunks[1],
            blockchain_viz: None,
            content: chunks[2],
            status: chunks[3],
        }
    }
}

/// Space between the screen's edge and its panels.
pub const SCREEN_MARGIN: u16 = 1;

/// The screen's layout: the node panel only when a node is configured;
/// every panel spans the screen's width inside its margin and lies within
/// its height inside that margin; from the top down, with no gap, come the
/// header, the chart, the node panel if any, the feed and the status line.
pub fn compute_layout(area: Area, has_node: bool) -> (r: LayoutSlots)
    ensures
        r.blockchain_viz is Some <==> has_node,
        r.header.y == inner_area(area, SCREEN_MARGIN).y,
        r.header.y + r.header.height == r.chart.y,
        match r.blockchain_viz {
            Some(v) => r.chart.y + r.chart.height == v.y && v.y + v.height == r.content.y,
            None => r.chart.y + r.chart.height == r.content.y,
        },
        r.content.y + r.content.height == r.status.y,
        is_row_of(r.header, inner_area(area, SCREEN_MARGIN)),
        is_row_of(r.chart, inner_area(area, SCREEN_MARGIN)),
        is_row_of(r.content, inner_area(area, SCREEN_MARGIN)),
        is_row_of(r.status, inner_area(area, SCREEN_MARGIN)),
        r.blockchain_viz matches Some(v) ==> is_row_of(v, inner_area(area, SCREEN_MARGIN)),
{
    let rows = layout_plan(has_node);
    let chunks = split_rows(area, SCREEN_MARGIN, &rows);
    assert(is_row_of(chunks@[0], inner_area(area, SCREEN_MARGIN)));
    assert(is_row_of(chunks@[1], inner_area(area, SCREEN_MARGIN)));
    assert(is_row_of(chunks@[2], inner_area(area, SCREEN_MARGIN)));
    assert(is_row_of(chunks@[3], inner_area(area, SCREEN_MARGIN)));
    assert(has_node ==> is_row_of(chunks@[4], inner_area(area, SCREEN_MARGIN)));
    assert(chunks@[0].y + chunks@[0].height == chunks@[1].y);
    assert(chunks@[1].y + chunks@[1].height == chunks@[2].y);
    assert(chunks@[2].y + chunks@[2].height == chunks@[3].y);
    assert(has_node ==> chunks@[3].y + chunks@[3].height == chunks@[4].y);
    slots_from_areas(&chunks, has_node)
}

/// The header line for each screen.
pub open spec fn header_text(state: AppState) -> Seq<char> {
    match state {
        AppState::Login => "AUTH SEQUENCE"@,
        AppState::Connecting => "ESTABLISHING UPLINK"@,
        AppState::Feed => "DATA STREAM"@,
    }
}

pub fn header_title(state: AppState) -> (r: &'static str)
    ensures
        r@ == header_text(state),
{
    match state {
        AppState::Login => "AUTH SEQUENCE",
        AppState::Connecting => "ESTABLISHING UPLINK",
        AppState::Feed => "DATA STREAM",
    }
}

/// How old a block looks: seconds under a minute, else whole minutes; a
/// block time in the future counts as age 0.
pub open spec fn age_text(now: u64, block_time: u64) -> Seq<char> {
    let diff: nat = if now > block_time { (now - block_time) as nat } else { 0 };
    if diff < 60 {
        decimal(diff).push('s')
    } else {
        decimal(diff / 60).push('m')
    }
}

pub fn block_age_label(now: u64, block_time: u64) -> (r: String)
    ensures
        r@ == age_text(now, block_time),
{
    let diff = now.saturating_sub(block_time);
    if diff < 60 {
        let mut s = decimal_string(diff);
        push_char(&mut s, 's');
        s
    } else {
        let mut s = decimal_string(diff / 60);
        push_char(&mut s, 'm');
        s
    }
}

/// Blocks the node panel shows at most.
pub const SHOWN_BLOCKS: usize = 6;

} // verus!
