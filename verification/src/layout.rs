//! The pixel layout of one month panel.
//!
//! A panel is 384 by 344 logical units.  Drawing is described as a
//! sequence of [`DrawOp`] values: a clear of the panel followed by text
//! operations, each giving the target rectangle, the font, the shade and
//! the glyphs.  The host executes the operations against its own surface.
//! [`month_opvs`] is the specification of the exact sequence a panel
//! produces, and [`draw_month`] computes it.

use vstd::prelude::*;
use vstd::string::StringExecFns;
use vstd::arithmetic::div_mod::lemma_mod_multiples_basic;
use crate::date::{
    Date, valid_date, days_in_month_of, weekday_of, iso_week_of, days_in_month, weekday, iso_week,
};
use crate::text::{
    month_name_text, weekday_label_text, two_digit_text, year_text, month_name, weekday_label,
    two_digit_string, year_string,
};

verus! {

/// Width of one month panel in logical units.
pub const PANEL_WIDTH: u32 = 384;

/// Height of one month panel in logical units.
pub const PANEL_HEIGHT: u32 = 344;

/// Horizontal origin of the centre panel.
pub const CENTER_PANEL_X: u32 = 448;

/// Horizontal origin of the right panel.
pub const RIGHT_PANEL_X: u32 = 896;

/// Smallest surface width that holds all three panels.
pub const MIN_SURFACE_WIDTH: u32 = 1280;

/// Smallest surface height that holds a panel.
pub const MIN_SURFACE_HEIGHT: u32 = 344;

/// The two typefaces the grid uses.
#[derive(Clone, Copy, PartialEq, Eq, Structural, Debug)]
pub enum FontId {
    /// Proportional display face, used for the month name and the year.
    Proportional,
    /// Fixed-width face, used for the headers and the numerals.
    Monospace,
}

/// The shades of the grid; the host maps each to a concrete color.
#[derive(Clone, Copy, PartialEq, Eq, Structural, Debug)]
pub enum Shade {
    /// Full brightness: the month name, the headers, and today's day.
    Bright,
    /// The muted shade of the year label.
    YearMuted,
    /// The muted shade of the week numbers.
    WeekMuted,
    /// The dimmed shade of every other day number.
    Dimmed,
}

/// A rectangle in surface coordinates.
#[derive(Clone, Copy, PartialEq, Eq, Structural, Debug)]
pub struct Region {
    pub x: u32,
    pub y: u32,
    pub w: u32,
    pub h: u32,
}

/// Mathematical view of a [`Region`].
pub ghost struct RegionV {
    pub x: int,
    pub y: int,
    pub w: int,
    pub h: int,
}

impl DeepView for Region {
    type V = RegionV;

    open spec fn deep_view(&self) -> RegionV {
        RegionV { x: self.x as int, y: self.y as int, w: self.w as int, h: self.h as int }
    }
}

/// One drawing operation against the destination surface.
#[derive(Debug)]
pub enum DrawOp {
    /// Fill the rectangle with the background color.
    Clear { rect: Region },
    /// Draw `text` into the rectangle.
    Text { rect: Region, font: FontId, shade: Shade, size: u32, text: String },
}

/// Mathematical view of a [`DrawOp`], with the glyphs as a character
/// sequence.
pub ghost enum OpV {
    Clear { rect: RegionV },
    Text { rect: RegionV, font: FontId, shade: Shade, size: int, text: Seq<char> },
}

impl DeepView for DrawOp {
    type V = OpV;

    open spec fn deep_view(&self) -> OpV {
        match self {
            DrawOp::Clear { rect } => OpV::Clear { rect: rect.deep_view() },
            DrawOp::Text { rect, font, shade, size, text } => OpV::Text {
                rect: rect.deep_view(),
                font: *font,
                shade: *shade,
                size: *size as int,
                text: text@,
            },
        }
    }
}

/// The clear of a whole panel whose left edge is at `px`.
pub open spec fn clear_opv(px: int) -> OpV {
    OpV::Clear { rect: RegionV { x: px, y: 0, w: 384, h: 344 } }
}

/// The month name, in the large proportional face at the panel's top left.
pub open spec fn title_opv(px: int, m: int) -> OpV {
    OpV::Text {
        rect: RegionV { x: px, y: 0, w: 304, h: 72 },
        font: FontId::Proportional,
        shade: Shade::Bright,
        size: 64,
        text: month_name_text(m),
    }
}

/// The four-digit year label right of the month name.
pub open spec fn year_opv(px: int, y: int) -> OpV {
    OpV::Text {
        rect: RegionV { x: px + 320, y: 0, w: 64, h: 32 },
        font: FontId::Proportional,
        shade: Shade::YearMuted,
        size: 24,
        text: year_text(y),
    }
}

/// The weekday header of column `idx`, from 1 to 7.
pub open spec fn weekday_opv(px: int, idx: int) -> OpV {
    OpV::Text {
        rect: RegionV { x: px + idx * 48 + 4, y: 96, w: 32, h: 16 },
        font: FontId::Monospace,
        shade: Shade::Bright,
        size: 16,
        text: weekday_label_text(idx),
    }
}

/// The ISO week number in column 0 of a row.
pub open spec fn week_number_opv(px: int, row: int, wk: int) -> OpV {
    OpV::Text {
        rect: RegionV { x: px, y: row * 32 + 64, w: 38, h: 32 },
        font: FontId::Monospace,
        shade: Shade::WeekMuted,
        size: 32,
        text: two_digit_text(wk),
    }
}

/// The number of day `d` in the cell at (`row`, `col`), bright when the
/// day is highlighted and dimmed otherwise.
pub open spec fn day_opv(px: int, row: int, col: int, d: int, hl: bool) -> OpV {
    OpV::Text {
        rect: RegionV { x: px + col * 48, y: row * 32 + 64, w: 38, h: 32 },
        font: FontId::Monospace,
        shade: if hl { Shade::Bright } else { Shade::Dimmed },
        size: 32,
        text: two_digit_text(d),
    }
}

/// A day is highlighted when it matches today's day and month.  The
/// year plays no part, so a panel a whole number of years away
/// highlights the matching day as well.
pub open spec fn is_highlighted(today: Date, anchor: Date, d: int) -> bool {
    d == today.day && anchor.month == today.month
}

/// The seven weekday headers from column `idx` on.
pub open spec fn weekday_header_opvs(px: int, idx: int) -> Seq<OpV>
    decreases 8 - idx,
{
    if idx < 1 || idx >= 8 {
        Seq::empty()
    } else {
        seq![weekday_opv(px, idx)] + weekday_header_opvs(px, idx + 1)
    }
}

/// The day cells of one row from day `d` at column `col` on, stopping at
/// column 7 or at the month's last day, whichever comes first.
pub open spec fn day_cell_opvs(px: int, today: Date, anchor: Date, d: int, col: int, row: int) -> Seq<
    OpV,
>
    decreases 8 - col,
{
    if col < 1 || col >= 8 || d < 1 {
        Seq::empty()
    } else {
        seq![day_opv(px, row, col, d, is_highlighted(today, anchor, d))] + if d + 1
            > days_in_month_of(anchor.year as int, anchor.month as int) {
            Seq::empty()
        } else {
            day_cell_opvs(px, today, anchor, d + 1, col + 1, row)
        }
    }
}

/// The week rows from the row that starts at day `d`: each row opens with
/// its ISO week number, then holds one cell per day, the first row
/// starting at the column of day `d`'s weekday; rows follow until a day
/// increment would pass the month's last day.
pub open spec fn week_row_opvs(px: int, today: Date, anchor: Date, d: int, row: int) -> Seq<OpV>
    decreases days_in_month_of(anchor.year as int, anchor.month as int) - d,
{
    let nd = days_in_month_of(anchor.year as int, anchor.month as int);
    if d < 1 || d > nd {
        Seq::empty()
    } else {
        let wd = weekday_of(anchor.year as int, anchor.month as int, d);
        let head = seq![
            week_number_opv(px, row, iso_week_of(anchor.year as int, anchor.month as int, d)),
        ] + day_cell_opvs(px, today, anchor, d, wd + 1, row);
        if nd - d <= 6 - wd {
            head
        } else {
            head + week_row_opvs(px, today, anchor, d + 7 - wd, row + 1)
        }
    }
}

/// The whole panel: clear, month name, the year label when the anchor's
/// year differs from today's, the weekday headers, then the week rows.
pub open spec fn month_opvs(px: int, today: Date, anchor: Date) -> Seq<OpV> {
    seq![clear_opv(px), title_opv(px, anchor.month as int)] + (if anchor.year != today.year {
        seq![year_opv(px, anchor.year as int)]
    } else {
        Seq::empty()
    }) + weekday_header_opvs(px, 1) + week_row_opvs(px, today, anchor, 1, 2)
}

fn push_op(ops: &mut Vec<DrawOp>, op: DrawOp)
    ensures
        final(ops).deep_view() == old(ops).deep_view().push(op.deep_view()),
{
    let ghost prev = ops.deep_view();
    let ghost opv = op.deep_view();
    ops.push(op);
    proof {
        assert(ops.deep_view() =~= prev.push(opv));
    }
}


proof fn lemma_push_is_add(s: Seq<OpV>, x: OpV)
    ensures
        s.push(x) == s + seq![x],
{
    assert(s.push(x) =~= s + seq![x]);
}

fn push_week_number(ops: &mut Vec<DrawOp>, px: u32, row: u32, wk: u32)
    requires
        px <= 896,
        row <= 7,
        wk < 100,
    ensures
        final(ops).deep_view() == old(ops).deep_view().push(
            week_number_opv(px as int, row as int, wk as int),
        ),
{
    push_op(
        ops,
        DrawOp::Text {
            rect: Region { x: px, y: row * 32 + 64, w: 38, h: 32 },
            font: FontId::Monospace,
            shade: Shade::WeekMuted,
            size: 32,
            text: two_digit_string(wk),
        },
    );
}

fn push_day_cell(ops: &mut Vec<DrawOp>, px: u32, row: u32, col: u32, d: u32, hl: bool)
    requires
        px <= 896,
        row <= 7,
        col <= 7,
        d < 100,
    ensures
        final(ops).deep_view() == old(ops).deep_view().push(
            day_opv(px as int, row as int, col as int, d as int, hl),
        ),
{
    push_op(
        ops,
        DrawOp::Text {
            rect: Region { x: px + col * 48, y: row * 32 + 64, w: 38, h: 32 },
            font: FontId::Monospace,
            shade: if hl {
                Shade::Bright
            } else {
                Shade::Dimmed
            },
            size: 32,
            text: two_digit_string(d),
        },
    );
}

fn draw_weekday_headers(ops: &mut Vec<DrawOp>, px: u32)
    requires
        px <= 896,
    ensures
        final(ops).deep_view() == old(ops).deep_view() + weekday_header_opvs(px as int, 1),
{
    let ghost pxi = px as int;
    let ghost base = ops.deep_view();
    let mut idx: u32 = 1;
    while idx < 8
        invariant
            1 <= idx <= 8,
            px <= 896,
            pxi == px as int,
            ops.deep_view() + weekday_header_opvs(pxi, idx as int) =~= base
                + weekday_header_opvs(pxi, 1),
        decreases 8 - idx,
    {
        let ghost before = ops.deep_view();
        push_op(
            ops,
            DrawOp::Text {
                rect: Region { x: px + idx * 48 + 4, y: 96, w: 32, h: 16 },
                font: FontId::Monospace,
                shade: Shade::Bright,
                size: 16,
                text: String::from_str(weekday_label(idx)),
            },
        );
        proof {
            assert(ops.deep_view() =~= before + seq![weekday_opv(pxi, idx as int)]);
            assert(weekday_header_opvs(pxi, idx as int) =~= seq![weekday_opv(pxi, idx as int)]
                + weekday_header_opvs(pxi, idx as int + 1));
            assert(ops.deep_view() + weekday_header_opvs(pxi, idx as int + 1) =~= before
                + weekday_header_opvs(pxi, idx as int));
        }
        idx = idx + 1;
    }
    proof {
        assert(weekday_header_opvs(pxi, 8) =~= Seq::<OpV>::empty());
        assert(ops.deep_view() =~= ops.deep_view() + weekday_header_opvs(pxi, 8));
        assert(ops.deep_view() =~= base + weekday_header_opvs(pxi, 1));
    }
}

#[verifier::rlimit(80)]
fn draw_week_rows(ops: &mut Vec<DrawOp>, px: u32, today: &Date, anchor: &Date)
    requires
        valid_date(*today),
        valid_date(*anchor),
        anchor.day == 1,
        px <= 896,
    ensures
        final(ops).deep_view() == old(ops).deep_view() + week_row_opvs(
            px as int,
            *today,
            *anchor,
            1,
            2,
        ),
{
    let ghost pxi = px as int;
    let ghost yi = anchor.year as int;
    let ghost mi = anchor.month as int;
    let ghost full = old(ops).deep_view() + week_row_opvs(pxi, *today, *anchor, 1, 2);
    let nd = days_in_month(anchor.year, anchor.month);
    let mut d: u32 = 1;
    let mut row: u32 = 2;
    let mut done = false;
    while !done
        invariant
            valid_date(*today),
            valid_date(*anchor),
            px <= 896,
            nd == days_in_month_of(yi, mi),
            pxi == px as int,
            yi == anchor.year as int,
            mi == anchor.month as int,
            !done ==> 1 <= d <= nd,
            !done ==> 2 <= row <= 7,
            !done ==> (row >= 3 ==> d >= 7 * (row - 3) + 2),
            !done ==> (row >= 3 ==> weekday_of(yi, mi, d as int) == 0),
            !done ==> full =~= ops.deep_view() + week_row_opvs(
                pxi,
                *today,
                *anchor,
                d as int,
                row as int,
            ),
            done ==> full =~= ops.deep_view(),
        decreases nd - d + (if done { 0int } else { 1 }),
    {
        let ghost d0 = d as int;
        let ghost row0 = row as int;
        let cur = Date { year: anchor.year, month: anchor.month, day: d };
        let wd = weekday(&cur);
        let wk = iso_week(&cur);
        let ghost wd0 = wd as int;
        let ghost rest: Seq<OpV> = if nd - d0 <= 6 - wd0 {
            Seq::empty()
        } else {
            week_row_opvs(pxi, *today, *anchor, d0 + 7 - wd0, row0 + 1)
        };
        let ghost cells = day_cell_opvs(pxi, *today, *anchor, d0, wd0 + 1, row0);
        proof {
            assert(week_row_opvs(pxi, *today, *anchor, d0, row0) =~= seq![
                week_number_opv(pxi, row0, iso_week_of(yi, mi, d0)),
            ] + cells + rest);
        }
        let ghost before = ops.deep_view();
        push_week_number(ops, px, row, wk);
        proof {
            let wkop = week_number_opv(pxi, row0, iso_week_of(yi, mi, d0));
            assert(ops.deep_view() == before.push(wkop));
            lemma_push_is_add(before, wkop);
            assert(ops.deep_view() == before + seq![wkop]);
            assert(full == before + week_row_opvs(pxi, *today, *anchor, d0, row0));
            assert(week_row_opvs(pxi, *today, *anchor, d0, row0) == seq![wkop] + cells + rest);
            assert(full =~= (before + seq![wkop]) + cells + rest);
            assert(full =~= ops.deep_view() + cells + rest);
        }

        let mut col = wd + 1;
        while col < 8
            invariant_except_break
                !done,
                d as int == d0 + (col - wd0 - 1),
                1 <= d <= nd,
                full =~= ops.deep_view() + day_cell_opvs(
                    pxi,
                    *today,
                    *anchor,
                    d as int,
                    col as int,
                    row0,
                ) + rest,
            invariant
                valid_date(*today),
                valid_date(*anchor),
                px <= 896,
                nd == days_in_month_of(yi, mi),
                pxi == px as int,
                yi == anchor.year as int,
                mi == anchor.month as int,
                2 <= row0 <= 7,
                row0 == row as int,
                0 <= wd0 <= 6,
                1 <= d0,
                wd0 + 1 <= col <= 8,
            ensures
                done ==> d == nd && nd - d0 <= 6 - wd0 && full =~= ops.deep_view() + rest,
                !done ==> col == 8 && d as int == d0 + 7 - wd0 && 1 <= d <= nd && full
                    =~= ops.deep_view() + day_cell_opvs(pxi, *today, *anchor, d as int, 8, row0)
                    + rest,
            decreases 8 - col + (if done { 0int } else { 1 }),
        {
            let ghost di = d as int;
            let ghost coli = col as int;
            let ghost tail: Seq<OpV> = if di + 1 > nd {
                Seq::empty()
            } else {
                day_cell_opvs(pxi, *today, *anchor, di + 1, coli + 1, row0)
            };
            let ghost opv = day_opv(pxi, row0, coli, di, is_highlighted(*today, *anchor, di));
            proof {
                assert(day_cell_opvs(pxi, *today, *anchor, di, coli, row0) =~= seq![opv] + tail);
            }
            let ghost binner = ops.deep_view();
            let hl = d == today.day && anchor.month == today.month;
            push_day_cell(ops, px, row, col, d, hl);
            proof {
                assert(ops.deep_view() == binner.push(opv));
                lemma_push_is_add(binner, opv);
                assert(full =~= binner + day_cell_opvs(pxi, *today, *anchor, di, coli, row0)
                    + rest);
                assert(full =~= (binner + seq![opv]) + tail + rest);
                assert(full =~= ops.deep_view() + tail + rest);
            }
            if d >= nd {
                done = true;
                proof {
                    assert(tail =~= Seq::<OpV>::empty());
                    assert(full =~= ops.deep_view() + rest);
                }
                break ;
            }
            d = d + 1;
            col = col + 1;
        }

        if !done {
            proof {
                assert(col == 8);
                assert(d as int == d0 + 7 - wd0);
                assert(nd - d0 > 6 - wd0);
                assert(day_cell_opvs(pxi, *today, *anchor, d as int, 8, row0) =~= Seq::<
                    OpV,
                >::empty());
                assert(full =~= ops.deep_view() + rest);
                // The next row starts one day after a full week from this
                // row's Monday, so its first day is again a Monday.
                let i0 = crate::date::day_index_of(yi, mi, d0);
                assert(crate::date::day_index_of(yi, mi, d as int) == i0 + 7 - wd0);
                assert(wd0 == i0 % 7);
                assert(i0 == 7 * (i0 / 7) + i0 % 7);
                assert(i0 + 7 - i0 % 7 == 7 * (i0 / 7 + 1));
                lemma_mod_multiples_basic(i0 / 7 + 1, 7);
                assert(weekday_of(yi, mi, d as int) == 0);
            }
            row = row + 1;
        } else {
            proof {
                if nd - d0 > 6 - wd0 {
                    assert(false);
                }
                assert(rest =~= Seq::<OpV>::empty());
                assert(full =~= ops.deep_view());
            }
        }
    }
}

/// Renders one month panel whose left edge is at `px`: produces exactly
/// the operation sequence [`month_opvs`] describes.
pub fn draw_month(px: u32, today: &Date, anchor: &Date) -> (ops: Vec<DrawOp>)
    requires
        valid_date(*today),
        valid_date(*anchor),
        anchor.day == 1,
        px <= 896,
    ensures
        ops.deep_view() == month_opvs(px as int, *today, *anchor),
{
    let ghost pxi = px as int;
    let mut ops: Vec<DrawOp> = Vec::new();

    push_op(&mut ops, DrawOp::Clear { rect: Region { x: px, y: 0, w: 384, h: 344 } });
    push_op(
        &mut ops,
        DrawOp::Text {
            rect: Region { x: px, y: 0, w: 304, h: 72 },
            font: FontId::Proportional,
            shade: Shade::Bright,
            size: 64,
            text: String::from_str(month_name(anchor.month)),
        },
    );
    if anchor.year != today.year {
        push_op(
            &mut ops,
            DrawOp::Text {
                rect: Region { x: px + 320, y: 0, w: 64, h: 32 },
                font: FontId::Proportional,
                shade: Shade::YearMuted,
                size: 24,
                text: year_string(anchor.year as u32),
            },
        );
    }
    let ghost header = seq![clear_opv(pxi), title_opv(pxi, anchor.month as int)] + (
    if anchor.year != today.year {
        seq![year_opv(pxi, anchor.year as int)]
    } else {
        Seq::<OpV>::empty()
    });
    proof {
        assert(ops.deep_view() =~= header);
    }
    draw_weekday_headers(&mut ops, px);
    draw_week_rows(&mut ops, px, today, anchor);
    proof {
        assert(ops.deep_view() =~= month_opvs(pxi, *today, *anchor));
    }
    ops
}


/// Number of days in the anchor's month.
pub open spec fn month_len(anchor: Date) -> int {
    days_in_month_of(anchor.year as int, anchor.month as int)
}

/// Number of operations before the first week row: clear, title, the
/// optional year label, and the seven weekday headers.
pub open spec fn header_len(today: Date, anchor: Date) -> int {
    if anchor.year != today.year {
        10
    } else {
        9
    }
}

/// Whether an operation has the shape of a day cell: monospace text of
/// glyph size 32 off the week-number column.
pub open spec fn is_day_cell_op(op: OpV, px: int) -> bool {
    match op {
        OpV::Text { rect, font, shade, size, text } => font == FontId::Monospace && size == 32
            && rect.x != px,
        _ => false,
    }
}

/// The grid row of day `t`, counted from a row `row` that starts at day
/// `d`.
pub open spec fn row_of_day(anchor: Date, d: int, row: int, t: int) -> int {
    row + (weekday_of(anchor.year as int, anchor.month as int, d) + t - d) / 7
}

/// The day-cell operation of day `t`, in its own weekday's column.
pub open spec fn day_cell_of(px: int, today: Date, anchor: Date, d: int, row: int, t: int) -> OpV {
    day_opv(
        px,
        row_of_day(anchor, d, row, t),
        weekday_of(anchor.year as int, anchor.month as int, t) + 1,
        t,
        is_highlighted(today, anchor, t),
    )
}

/// What an operation of the week rows can be: an ISO week number at or
/// below the starting row, or the day cell of a day of this month.
pub open spec fn row_op_shape(px: int, today: Date, anchor: Date, d: int, row: int, op: OpV) -> bool {
    ||| (exists|r2: int, wk: int| #![auto] row <= r2 && 1 <= wk <= 53 && op == week_number_opv(px, r2, wk))
    ||| (exists|t: int| #![auto] d <= t <= month_len(anchor) && op == day_cell_of(px, today, anchor, d, row, t))
}

proof fn lemma_weekday_step(y: int, m: int, d: int, t: int)
    requires
        d <= t,
        weekday_of(y, m, d) + (t - d) <= 6,
    ensures
        weekday_of(y, m, t) == weekday_of(y, m, d) + (t - d),
{
    let i = crate::date::day_index_of(y, m, d);
    let q = i / 7;
    let r = i % 7;
    assert(i == 7 * q + r);
    assert(crate::date::day_index_of(y, m, t) == i + (t - d));
    vstd::arithmetic::div_mod::lemma_fundamental_div_mod_converse(i + (t - d), 7, q, r + (t - d));
}

proof fn lemma_next_monday(y: int, m: int, d: int)
    ensures
        weekday_of(y, m, d + 7 - weekday_of(y, m, d)) == 0,
{
    let i = crate::date::day_index_of(y, m, d);
    let q = i / 7;
    let r = i % 7;
    assert(i == 7 * q + r);
    assert(crate::date::day_index_of(y, m, d + 7 - r) == i + 7 - r);
    assert(i + 7 - r == 7 * (q + 1));
    vstd::arithmetic::div_mod::lemma_fundamental_div_mod_converse(i + 7 - r, 7, q + 1, 0);
}

proof fn lemma_div_add_week(x: int)
    ensures
        (x + 7) / 7 == x / 7 + 1,
{
    assert(x == 7 * (x / 7) + x % 7);
    vstd::arithmetic::div_mod::lemma_fundamental_div_mod_converse(x + 7, 7, x / 7 + 1, x % 7);
}

proof fn lemma_iso_week_bounds(y: int, m: int, d: int)
    ensures
        1 <= iso_week_of(y, m, d) <= 53,
{
    assert(crate::date::weeks_in_iso_year(y - 1) >= 52);
    assert(crate::date::weeks_in_iso_year(y) >= 52);
}

proof fn lemma_day_cells_shape(px: int, today: Date, anchor: Date, d: int, col: int, row: int)
    requires
        1 <= d <= month_len(anchor),
        1 <= col <= 7,
        col == weekday_of(anchor.year as int, anchor.month as int, d) + 1,
    ensures
        day_cell_opvs(px, today, anchor, d, col, row).len() == (if month_len(anchor) - d <= 7 - col {
            month_len(anchor) - d + 1
        } else {
            8 - col
        }),
        forall|j: int|
            0 <= j < day_cell_opvs(px, today, anchor, d, col, row).len() ==> day_cell_opvs(
                px,
                today,
                anchor,
                d,
                col,
                row,
            )[j] == day_opv(px, row, col + j, d + j, is_highlighted(today, anchor, d + j)),
    decreases 8 - col,
{
    let yi = anchor.year as int;
    let mi = anchor.month as int;
    let nd = month_len(anchor);
    let s = day_cell_opvs(px, today, anchor, d, col, row);
    if d + 1 > nd || col == 7 {
        if d + 1 <= nd {
            assert(day_cell_opvs(px, today, anchor, d + 1, col + 1, row) =~= Seq::<OpV>::empty());
        }
        assert(s =~= seq![day_opv(px, row, col, d, is_highlighted(today, anchor, d))]);
        assert(s.len() == 1);
    } else {
        lemma_weekday_step(yi, mi, d, d + 1);
        lemma_day_cells_shape(px, today, anchor, d + 1, col + 1, row);
        let tail = day_cell_opvs(px, today, anchor, d + 1, col + 1, row);
        assert(s == seq![day_opv(px, row, col, d, is_highlighted(today, anchor, d))] + tail);
        assert forall|j: int| 0 <= j < s.len() implies s[j] == day_opv(
            px,
            row,
            col + j,
            d + j,
            is_highlighted(today, anchor, d + j),
        ) by {
            if j > 0 {
                assert(s[j] == tail[j - 1]);
            }
        }
    }
}

#[verifier::rlimit(80)]
proof fn lemma_week_rows_shape(px: int, today: Date, anchor: Date, d: int, row: int)
    requires
        1 <= d <= month_len(anchor),
        2 <= row,
    ensures
        forall|t: int|
            d <= t <= month_len(anchor) ==> week_row_opvs(px, today, anchor, d, row).contains(
                #[trigger] day_cell_of(px, today, anchor, d, row, t),
            ),
        forall|j: int|
            0 <= j < week_row_opvs(px, today, anchor, d, row).len() ==> row_op_shape(
                px,
                today,
                anchor,
                d,
                row,
                #[trigger] week_row_opvs(px, today, anchor, d, row)[j],
            ),
    decreases month_len(anchor) - d,
{
    let yi = anchor.year as int;
    let mi = anchor.month as int;
    let nd = month_len(anchor);
    let s = week_row_opvs(px, today, anchor, d, row);
    let wd = weekday_of(yi, mi, d);
    assert(0 <= wd <= 6);
    let wkop = week_number_opv(px, row, iso_week_of(yi, mi, d));
    let cells = day_cell_opvs(px, today, anchor, d, wd + 1, row);
    lemma_day_cells_shape(px, today, anchor, d, wd + 1, row);
    lemma_iso_week_bounds(yi, mi, d);
    let e = if nd - d <= 6 - wd {
        nd
    } else {
        d + 6 - wd
    };
    assert(cells.len() == e - d + 1);
    // a day of this row stands at its own weekday's column
    assert forall|t: int| d <= t <= e implies day_opv(
        px,
        row,
        (wd + 1) + (t - d),
        t,
        is_highlighted(today, anchor, t),
    ) == day_cell_of(px, today, anchor, d, row, t) by {
        lemma_weekday_step(yi, mi, d, t);
        assert((wd + t - d) / 7 == 0);
    }
    if nd - d <= 6 - wd {
        assert(s == seq![wkop] + cells);
        assert forall|t: int| d <= t <= nd implies s.contains(
            day_cell_of(px, today, anchor, d, row, t),
        ) by {
            assert(s[1 + (t - d)] == cells[t - d]);
            assert(s[1 + (t - d)] == day_cell_of(px, today, anchor, d, row, t));
        }
        assert forall|j: int| 0 <= j < s.len() implies row_op_shape(px, today, anchor, d, row, s[j]) by {
            if j == 0 {
                assert(s[0] == wkop);
            } else {
                assert(s[j] == cells[j - 1]);
                assert(s[j] == day_cell_of(px, today, anchor, d, row, d + j - 1));
            }
        }
    } else {
        let d2 = d + 7 - wd;
        let rest = week_row_opvs(px, today, anchor, d2, row + 1);
        assert(s == seq![wkop] + cells + rest);
        lemma_next_monday(yi, mi, d);
        assert(weekday_of(yi, mi, d2) == 0);
        lemma_week_rows_shape(px, today, anchor, d2, row + 1);
        // a later day's placement does not depend on which row the count
        // starts from
        assert forall|t: int| d2 <= t <= nd implies day_cell_of(px, today, anchor, d2, row + 1, t)
            == day_cell_of(px, today, anchor, d, row, t) by {
            lemma_div_add_week(t - d2);
            assert(wd + t - d == (t - d2) + 7);
            assert(row_of_day(anchor, d2, row + 1, t) == row_of_day(anchor, d, row, t));
        }
        assert forall|t: int| d <= t <= nd implies s.contains(
            day_cell_of(px, today, anchor, d, row, t),
        ) by {
            if t <= e {
                assert(s[1 + (t - d)] == cells[t - d]);
                assert(s[1 + (t - d)] == day_cell_of(px, today, anchor, d, row, t));
            } else {
                assert(rest.contains(day_cell_of(px, today, anchor, d2, row + 1, t)));
                let k = choose|k: int|
                    0 <= k < rest.len() && rest[k] == day_cell_of(px, today, anchor, d2, row + 1, t);
                assert(s[1 + cells.len() + k] == rest[k]);
            }
        }
        assert forall|j: int| 0 <= j < s.len() implies row_op_shape(px, today, anchor, d, row, s[j]) by {
            if j == 0 {
                assert(s[0] == wkop);
            } else if j <= cells.len() {
                assert(s[j] == cells[j - 1]);
                assert(s[j] == day_cell_of(px, today, anchor, d, row, d + j - 1));
            } else {
                let k = j - 1 - cells.len();
                assert(s[j] == rest[k]);
                assert(row_op_shape(px, today, anchor, d2, row + 1, rest[k]));
                if exists|t: int| d2 <= t <= nd && rest[k] == #[trigger] day_cell_of(
                    px,
                    today,
                    anchor,
                    d2,
                    row + 1,
                    t,
                ) {
                    let t = choose|t: int| d2 <= t <= nd && rest[k] == #[trigger] day_cell_of(
                        px,
                        today,
                        anchor,
                        d2,
                        row + 1,
                        t,
                    );
                    assert(s[j] == day_cell_of(px, today, anchor, d, row, t));
                }
            }
        }
    }
}


/// Whether an operation is a text drawn in the first date row, left of
/// the given column.
pub open spec fn left_of_column(op: OpV, px: int, col: int) -> bool {
    match op {
        OpV::Text { rect, .. } => rect.y == 128 && rect.x != px && rect.x < px + col * 48,
        _ => false,
    }
}

/// Whether an operation is a text drawn at the year label's rectangle.
pub open spec fn at_year_rect(op: OpV, px: int) -> bool {
    match op {
        OpV::Text { rect, .. } => rect.x == px + 320 && rect.y == 0,
        _ => false,
    }
}

proof fn lemma_weekday_headers_shape(px: int, idx: int)
    requires
        1 <= idx <= 8,
    ensures
        weekday_header_opvs(px, idx).len() == 8 - idx,
        forall|j: int|
            0 <= j < 8 - idx ==> weekday_header_opvs(px, idx)[j] == weekday_opv(px, idx + j),
    decreases 8 - idx,
{
    if idx < 8 {
        lemma_weekday_headers_shape(px, idx + 1);
        let s = weekday_header_opvs(px, idx);
        let tail = weekday_header_opvs(px, idx + 1);
        assert(s == seq![weekday_opv(px, idx)] + tail);
        assert forall|j: int| 0 <= j < 8 - idx implies s[j] == weekday_opv(px, idx + j) by {
            if j > 0 {
                assert(s[j] == tail[j - 1]);
            }
        }
    } else {
        assert(weekday_header_opvs(px, 8) =~= Seq::<OpV>::empty());
    }
}

proof fn lemma_month_opvs_split(px: int, today: Date, anchor: Date)
    ensures
        month_opvs(px, today, anchor).len() == header_len(today, anchor) + week_row_opvs(
            px,
            today,
            anchor,
            1,
            2,
        ).len(),
        month_opvs(px, today, anchor)[0] == clear_opv(px),
        month_opvs(px, today, anchor)[1] == title_opv(px, anchor.month as int),
        anchor.year != today.year ==> month_opvs(px, today, anchor)[2] == year_opv(
            px,
            anchor.year as int,
        ),
        forall|j: int|
            0 <= j < 7 ==> month_opvs(px, today, anchor)[header_len(today, anchor) - 7 + j]
                == #[trigger] weekday_opv(px, 1 + j),
        forall|j: int|
            0 <= j < week_row_opvs(px, today, anchor, 1, 2).len() ==> month_opvs(px, today, anchor)[
                header_len(today, anchor) + j
            ] == week_row_opvs(px, today, anchor, 1, 2)[j],
{
    lemma_weekday_headers_shape(px, 1);
}

/// The first week row aligns with the weekday of the month's first day:
/// day 1 stands right after the first week number, in the column of its
/// weekday, and nothing else of that row stands in a column to its left.
pub proof fn lemma_first_week_alignment(px: int, today: Date, anchor: Date)
    requires
        valid_date(anchor),
        anchor.day == 1,
    ensures
        month_opvs(px, today, anchor)[header_len(today, anchor) + 1] == day_opv(
            px,
            2,
            weekday_of(anchor.year as int, anchor.month as int, 1) + 1,
            1,
            is_highlighted(today, anchor, 1),
        ),
        forall|j: int|
            0 <= j < month_opvs(px, today, anchor).len() ==> !left_of_column(
                #[trigger] month_opvs(px, today, anchor)[j],
                px,
                weekday_of(anchor.year as int, anchor.month as int, 1) + 1,
            ),
{
    let yi = anchor.year as int;
    let mi = anchor.month as int;
    let s = month_opvs(px, today, anchor);
    let hl = header_len(today, anchor);
    let rows = week_row_opvs(px, today, anchor, 1, 2);
    let wd1 = weekday_of(yi, mi, 1);
    assert(0 <= wd1 <= 6);
    lemma_month_opvs_split(px, today, anchor);
    lemma_week_rows_shape(px, today, anchor, 1, 2);
    lemma_day_cells_shape(px, today, anchor, 1, wd1 + 1, 2);
    let cells = day_cell_opvs(px, today, anchor, 1, wd1 + 1, 2);
    assert(rows[1] == cells[0]);
    assert(s[hl + 1] == day_opv(px, 2, wd1 + 1, 1, is_highlighted(today, anchor, 1)));
    assert forall|j: int| 0 <= j < s.len() implies !left_of_column(s[j], px, wd1 + 1) by {
        if j >= hl {
            assert(s[j] == rows[j - hl]);
            assert(row_op_shape(px, today, anchor, 1, 2, rows[j - hl]));
            if exists|t: int|
                1 <= t <= month_len(anchor) && rows[j - hl] == #[trigger] day_cell_of(
                    px,
                    today,
                    anchor,
                    1,
                    2,
                    t,
                ) {
                let t = choose|t: int|
                    1 <= t <= month_len(anchor) && rows[j - hl] == #[trigger] day_cell_of(
                        px,
                        today,
                        anchor,
                        1,
                        2,
                        t,
                    );
                if (wd1 + t - 1) / 7 == 0 {
                    assert(wd1 + t - 1 <= 6) by {
                        assert(wd1 + t - 1 == 7 * ((wd1 + t - 1) / 7) + (wd1 + t - 1) % 7);
                    }
                    lemma_weekday_step(yi, mi, 1, t);
                    assert(weekday_of(yi, mi, t) + 1 >= wd1 + 1);
                } else {
                    assert((wd1 + t - 1) / 7 >= 1) by {
                        assert(wd1 + t - 1 == 7 * ((wd1 + t - 1) / 7) + (wd1 + t - 1) % 7);
                    }
                    assert(row_of_day(anchor, 1, 2, t) * 32 + 64 >= 160);
                }
            }
        } else if 2 <= j < hl && !(anchor.year != today.year && j == 2) {
            assert(s[j] == weekday_opv(px, 1 + (j - (hl - 7))));
        }
    }
}

/// The week rows stop with the month: a cell is drawn for every day of
/// the anchor's month and for nothing else; no day of the following
/// month leaks into the last row.
pub proof fn lemma_row_termination(px: int, today: Date, anchor: Date)
    requires
        valid_date(anchor),
        anchor.day == 1,
    ensures
        forall|t: int|
            1 <= t <= month_len(anchor) ==> month_opvs(px, today, anchor).contains(
                #[trigger] day_cell_of(px, today, anchor, 1, 2, t),
            ),
        forall|j: int|
            0 <= j < month_opvs(px, today, anchor).len() && is_day_cell_op(
                #[trigger] month_opvs(px, today, anchor)[j],
                px,
            ) ==> exists|t: int|
                1 <= t <= month_len(anchor) && month_opvs(px, today, anchor)[j]
                    == #[trigger] day_cell_of(px, today, anchor, 1, 2, t),
{
    let s = month_opvs(px, today, anchor);
    let hl = header_len(today, anchor);
    let rows = week_row_opvs(px, today, anchor, 1, 2);
    lemma_month_opvs_split(px, today, anchor);
    lemma_week_rows_shape(px, today, anchor, 1, 2);
    assert forall|t: int| 1 <= t <= month_len(anchor) implies s.contains(
        #[trigger] day_cell_of(px, today, anchor, 1, 2, t),
    ) by {
        let op = day_cell_of(px, today, anchor, 1, 2, t);
        assert(rows.contains(op));
        let k = choose|k: int| 0 <= k < rows.len() && rows[k] == op;
        assert(s[hl + k] == op);
    }
    assert forall|j: int|
        0 <= j < s.len() && is_day_cell_op(s[j], px) implies exists|t: int|
        1 <= t <= month_len(anchor) && s[j] == #[trigger] day_cell_of(
            px,
            today,
            anchor,
            1,
            2,
            t,
        ) by {
        if j >= hl {
            assert(s[j] == rows[j - hl]);
            assert(row_op_shape(px, today, anchor, 1, 2, rows[j - hl]));
        } else if 2 <= j < hl && !(anchor.year != today.year && j == 2) {
            assert(s[j] == weekday_opv(px, 1 + (j - (hl - 7))));
            assert(false);
        }
    }
}

/// The highlight rule: the cell of day `t` is bright exactly when `t`
/// is today's day and the panel shows today's month; every other cell
/// is dimmed.
pub proof fn lemma_highlight_rule(px: int, today: Date, anchor: Date, t: int)
    requires
        1 <= t <= month_len(anchor),
    ensures
        day_cell_of(px, today, anchor, 1, 2, t) matches OpV::Text { shade, .. } && (shade
            == Shade::Bright <==> (t == today.day && anchor.month == today.month)),
{
}

/// The year label appears exactly on cross-year panels: when the
/// anchor's year differs from today's it stands third in the sequence,
/// and when the years agree nothing is drawn at its place.
pub proof fn lemma_year_label(px: int, today: Date, anchor: Date)
    requires
        valid_date(anchor),
        anchor.day == 1,
    ensures
        anchor.year != today.year ==> month_opvs(px, today, anchor)[2] == year_opv(
            px,
            anchor.year as int,
        ),
        anchor.year == today.year ==> forall|j: int|
            0 <= j < month_opvs(px, today, anchor).len() ==> !at_year_rect(
                #[trigger] month_opvs(px, today, anchor)[j],
                px,
            ),
{
    let s = month_opvs(px, today, anchor);
    let hl = header_len(today, anchor);
    let rows = week_row_opvs(px, today, anchor, 1, 2);
    lemma_month_opvs_split(px, today, anchor);
    lemma_week_rows_shape(px, today, anchor, 1, 2);
    if anchor.year == today.year {
        assert forall|j: int| 0 <= j < s.len() implies !at_year_rect(s[j], px) by {
            if j >= hl {
                assert(s[j] == rows[j - hl]);
                assert(row_op_shape(px, today, anchor, 1, 2, rows[j - hl]));
                if exists|t: int|
                    1 <= t <= month_len(anchor) && rows[j - hl] == #[trigger] day_cell_of(
                        px,
                        today,
                        anchor,
                        1,
                        2,
                        t,
                    ) {
                    let t = choose|t: int|
                        1 <= t <= month_len(anchor) && rows[j - hl] == #[trigger] day_cell_of(
                            px,
                            today,
                            anchor,
                            1,
                            2,
                            t,
                        );
                    assert((weekday_of(anchor.year as int, anchor.month as int, 1) + t - 1) / 7
                        >= 0);
                    assert(row_of_day(anchor, 1, 2, t) * 32 + 64 >= 128);
                }
            } else if 2 <= j < hl {
                assert(s[j] == weekday_opv(px, 1 + (j - (hl - 7))));
            }
        }
    }
}

} // verus!
