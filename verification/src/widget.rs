//! The calendar widget: redraw state machine, offset navigation, and the
//! three-panel draw.
//!
//! The widget owns the last observed date, a dirty flag, and a signed
//! offset accumulator.  `update` decides whether the host must redraw,
//! `input` moves the offset on scroll and click events, and `draw`
//! produces the drawing operations for the previous, the centre and the
//! next month panel.

use vstd::prelude::*;
use chrono::Datelike;
use crate::date::{
    Date, valid_date, days_in_month_of, shifted_month_anchor, prev_month_anchor_of,
    next_month_anchor_of, MIN_YEAR, MAX_YEAR,
};
use crate::layout::{
    DrawOp, OpV, month_opvs, draw_month, CENTER_PANEL_X, RIGHT_PANEL_X, MIN_SURFACE_WIDTH,
    MIN_SURFACE_HEIGHT,
};

verus! {

/// One month of paging in offset units: the offset is kept in
/// thousandths of the scroll unit the host feeds in, and one hundred
/// scroll units page by one month.
pub const MONTH_OFFSET: i64 = 100_000;

/// Magnitude at which the offset accumulator saturates instead of
/// overflowing.
pub const OFFSET_LIMIT: i64 = 1_000_000_000_000_000_000;

/// A raw input event from the host.  Scroll deltas and click positions
/// are the only fields the widget reads.
#[derive(Clone, Copy, PartialEq, Eq, Debug)]
pub enum Input {
    /// A pointer scroll: `y` is the vertical delta in thousandths of a
    /// scroll unit; positive deltas move forward in time.
    Scroll { pos: (u32, u32), x: i64, y: i64 },
    /// A pointer click at `pos` over the rendered widget.
    Click { pos: (u32, u32), button: u32 },
    /// Any other event kind; the widget ignores it.
    Other,
}

/// The widget state.
pub struct Calendar {
    /// The last date `update` observed.
    pub cur_date: Date,
    /// Whether a redraw is owed regardless of the date.
    pub dirty: bool,
    /// The navigation offset, in thousandths of a scroll unit.
    pub offset: i64,
}

/// The offset clamped into the saturation range.
pub open spec fn clamp_offset(v: int) -> int {
    if v > OFFSET_LIMIT as int {
        OFFSET_LIMIT as int
    } else if v < -(OFFSET_LIMIT as int) {
        -(OFFSET_LIMIT as int)
    } else {
        v
    }
}

/// Whether `update` reports a redraw: on the first call after
/// construction or input, on a date change, and on `force`.
pub open spec fn update_redraw(s: Calendar, now: Date, force: bool) -> bool {
    s.dirty || now != s.cur_date || force
}

/// The state after an `update` call.
pub open spec fn update_step(s: Calendar, now: Date, force: bool) -> Calendar {
    if s.dirty {
        Calendar { dirty: false, ..s }
    } else if now != s.cur_date || force {
        Calendar { cur_date: now, ..s }
    } else {
        s
    }
}

/// The state after an `input` call: scrolls accumulate into the offset,
/// clicks page by a month or reset, anything else is ignored.
pub open spec fn input_step(s: Calendar, ev: Input) -> Calendar {
    match ev {
        Input::Scroll { pos, x, y } => Calendar {
            offset: clamp_offset(s.offset + y) as i64,
            dirty: true,
            ..s
        },
        Input::Click { pos, button } => {
            let o = if pos.0 < CENTER_PANEL_X {
                clamp_offset(s.offset - MONTH_OFFSET)
            } else if pos.0 >= RIGHT_PANEL_X {
                clamp_offset(s.offset + MONTH_OFFSET)
            } else {
                0
            };
            Calendar { offset: o as i64, dirty: true, ..s }
        },
        Input::Other => s,
    }
}

/// The truncating month shift of an offset: the quotient by one month's
/// worth of offset, rounded toward zero.
pub open spec fn month_shift_of(off: int) -> int {
    if off >= 0 {
        off / (MONTH_OFFSET as int)
    } else {
        -((-off) / (MONTH_OFFSET as int))
    }
}

/// The month count, from the start of the calendar, of the centre
/// panel's month: today's month shifted by the offset.
pub open spec fn center_months_total(today: Date, off: int) -> int {
    today.year * 12 + (today.month - 1) + month_shift_of(off)
}

/// The centre panel's anchor: the first day of today's month, shifted by
/// the offset's month shift with explicit year rollover.
pub open spec fn center_anchor_of(today: Date, off: int) -> Date {
    shifted_month_anchor(
        Date { year: today.year, month: today.month, day: 1 },
        month_shift_of(off),
    )
}

/// Whether the offset keeps all three panel anchors inside the modelled
/// year range.
pub open spec fn draw_in_bounds(today: Date, off: int) -> bool {
    2 <= center_months_total(today, off) / 12 <= MAX_YEAR - 1
}

impl Calendar {
    /// The state invariant: a valid current date and an offset within
    /// the saturation range.
    pub open spec fn wf(self) -> bool {
        &&& valid_date(self.cur_date)
        &&& -OFFSET_LIMIT <= self.offset <= OFFSET_LIMIT
    }
}

/// Relies on chrono::Local::now and the Datelike accessors of the
/// NaiveDate it carries: the result is the present local date, a real
/// Gregorian date, so its month is 1 to 12 and its day fits the month.
/// Nothing is assumed of the year, which the caller checks.
#[verifier::external_body]
fn today_local() -> (r: (i32, u32, u32))
    ensures
        1 <= r.1 <= 12,
        1 <= r.2,
        r.2 <= days_in_month_of(r.0 as int, r.1 as int),
{
    let d = chrono::Local::now().date_naive();
    (d.year(), d.month(), d.day())
}

fn clamp_add(a: i64, b: i64) -> (r: i64)
    requires
        -OFFSET_LIMIT <= a <= OFFSET_LIMIT,
    ensures
        r == clamp_offset(a + b),
{
    if b >= 0 {
        if a > OFFSET_LIMIT - b {
            OFFSET_LIMIT
        } else {
            a + b
        }
    } else {
        if a < -OFFSET_LIMIT - b {
            -OFFSET_LIMIT
        } else {
            a + b
        }
    }
}

/// The executable month shift, truncated toward zero.
pub fn month_shift(off: i64) -> (s: i64)
    requires
        -OFFSET_LIMIT <= off <= OFFSET_LIMIT,
    ensures
        s == month_shift_of(off as int),
{
    if off >= 0 {
        ((off as u64) / 100_000u64) as i64
    } else {
        -((((-off) as u64) / 100_000u64) as i64)
    }
}

/// The executable centre anchor.
fn center_anchor(today: &Date, off: i64) -> (a: Date)
    requires
        valid_date(*today),
        -OFFSET_LIMIT <= off <= OFFSET_LIMIT,
        draw_in_bounds(*today, off as int),
    ensures
        a == center_anchor_of(*today, off as int),
        valid_date(a),
        2 <= a.year <= MAX_YEAR - 1,
        a.day == 1,
{
    let ghost total_spec = center_months_total(*today, off as int);
    let sh = month_shift(off);
    let total: i64 = (today.year as i64) * 12 + (today.month as i64) - 1 + sh;
    proof {
        assert(total == total_spec);
        assert(total_spec == 12 * (total_spec / 12) + total_spec % 12);
        assert(0 <= total_spec % 12 < 12);
        assert(24 <= total_spec <= (MAX_YEAR - 1) * 12 + 11);
    }
    let tu = total as u64;
    let y = (tu / 12) as i32;
    let m = ((tu % 12) as u32) + 1;
    Date { year: y, month: m, day: 1 }
}

/// The executable previous-month anchor.
pub fn prev_month_anchor(c: &Date) -> (a: Date)
    requires
        valid_date(*c),
        2 <= c.year,
    ensures
        a == prev_month_anchor_of(*c),
        valid_date(a),
        a.day == 1,
{
    if c.month == 1 {
        Date { year: c.year - 1, month: 12, day: 1 }
    } else {
        Date { year: c.year, month: c.month - 1, day: 1 }
    }
}

/// The executable next-month anchor.
pub fn next_month_anchor(c: &Date) -> (a: Date)
    requires
        valid_date(*c),
        c.year <= MAX_YEAR - 1,
    ensures
        a == next_month_anchor_of(*c),
        valid_date(a),
        a.day == 1,
{
    if c.month == 12 {
        Date { year: c.year + 1, month: 1, day: 1 }
    } else {
        Date { year: c.year, month: c.month + 1, day: 1 }
    }
}

/// A rectangle of changed pixels, in the signed coordinate space of the
/// destination surface.
#[derive(Clone, Copy, PartialEq, Eq, Structural, Debug)]
pub struct Damage {
    pub x: i32,
    pub y: i32,
    pub w: i32,
    pub h: i32,
}

/// A draw failure: the destination surface cannot hold the three panels.
#[derive(Clone, Copy, PartialEq, Eq, Structural, Debug)]
pub enum LayoutError {
    SurfaceTooSmall,
}

/// One full render: the drawing operations for all three panels, in
/// order, and the damage rectangle of each panel from left to right.
#[derive(Debug)]
pub struct DrawOutput {
    pub ops: Vec<DrawOp>,
    pub damage: Vec<Damage>,
}

/// The operations of a full draw: the previous, centre and next month
/// panels at their fixed origins, left to right.
pub open spec fn draw_opvs(today: Date, off: int) -> Seq<OpV> {
    let c = center_anchor_of(today, off);
    month_opvs(0, today, prev_month_anchor_of(c)) + month_opvs(448, today, c) + month_opvs(
        896,
        today,
        next_month_anchor_of(c),
    )
}

/// The damage of a full draw: each panel's whole rectangle.
pub open spec fn full_damage() -> Seq<Damage> {
    seq![
        (Damage { x: 0, y: 0, w: 384, h: 344 }),
        (Damage { x: 448, y: 0, w: 384, h: 344 }),
        (Damage { x: 896, y: 0, w: 384, h: 344 }),
    ]
}

/// The date the widget stores for a clock reading: the clock's own date
/// when its year lies in the modelled range, else the nearest boundary
/// date of that range.
pub fn clock_date(y: i32, m: u32, d: u32) -> (r: Date)
    requires
        1 <= m <= 12,
        1 <= d <= days_in_month_of(y as int, m as int),
    ensures
        MIN_YEAR <= y <= MAX_YEAR ==> r == (Date { year: y, month: m, day: d }),
        y < MIN_YEAR ==> r == (Date { year: MIN_YEAR, month: 1, day: 1 }),
        y > MAX_YEAR ==> r == (Date { year: MAX_YEAR, month: 12, day: 31 }),
        valid_date(r),
{
    if MIN_YEAR <= y && y <= MAX_YEAR {
        Date { year: y, month: m, day: d }
    } else if y < MIN_YEAR {
        Date { year: MIN_YEAR, month: 1, day: 1 }
    } else {
        Date { year: MAX_YEAR, month: 12, day: 31 }
    }
}

impl Calendar {
    /// A widget holding the present local date, owing its first redraw,
    /// with the navigation offset at rest.  The clock reading itself is
    /// outside any contract; [`clock_date`] fixes what is stored for
    /// each reading.
    pub fn new() -> (c: Calendar)
        ensures
            c.dirty,
            c.offset == 0,
            c.wf(),
    {
        let (y, m, d) = today_local();
        let cur = clock_date(y, m, d);
        Calendar { cur_date: cur, dirty: true, offset: 0 }
    }

    /// Reports whether the host must redraw: true while the dirty flag
    /// is set, on any change of date, and whenever `force` is given.
    pub fn update(&mut self, now: &Date, force: bool) -> (redraw: bool)
        requires
            old(self).wf(),
            valid_date(*now),
        ensures
            redraw == update_redraw(*old(self), *now, force),
            *final(self) == update_step(*old(self), *now, force),
            final(self).wf(),
    {
        if self.dirty {
            self.dirty = false;
            true
        } else if *now != self.cur_date || force {
            self.cur_date = *now;
            true
        } else {
            false
        }
    }

    /// Applies one input event: scrolls add their vertical delta to the
    /// offset, a click pages one month back or forward or resets the
    /// offset by zone, and both mark the widget dirty; other events
    /// change nothing.
    pub fn input(&mut self, ev: Input)
        requires
            old(self).wf(),
        ensures
            *final(self) == input_step(*old(self), ev),
            final(self).wf(),
    {
        match ev {
            Input::Scroll { pos: _, x: _, y } => {
                self.offset = clamp_add(self.offset, y);
                self.dirty = true;
            },
            Input::Click { pos, button: _ } => {
                if pos.0 < CENTER_PANEL_X {
                    self.offset = clamp_add(self.offset, -MONTH_OFFSET);
                } else if pos.0 >= RIGHT_PANEL_X {
                    self.offset = clamp_add(self.offset, MONTH_OFFSET);
                } else {
                    self.offset = 0;
                }
                self.dirty = true;
            },
            Input::Other => {},
        }
    }

    /// Whether `draw` may be called with this offset: the shifted month
    /// range must stay inside the modelled years.
    pub fn can_draw(&self, now: &Date) -> (b: bool)
        requires
            self.wf(),
            valid_date(*now),
        ensures
            b == draw_in_bounds(*now, self.offset as int),
    {
        let ghost total_spec = center_months_total(*now, self.offset as int);
        let sh = month_shift(self.offset);
        let total: i64 = (now.year as i64) * 12 + (now.month as i64) - 1 + sh;
        proof {
            assert(total == total_spec);
            assert(total_spec == 12 * (total_spec / 12) + total_spec % 12);
            assert(0 <= total_spec % 12 < 12);
        }
        24 <= total && total <= (MAX_YEAR as i64 - 1) * 12 + 11
    }

    /// Renders the three month panels for the date `now`, against a
    /// surface of the given size.  Fails exactly when the surface cannot
    /// hold the panels; otherwise the operations are the three panels'
    /// sequences in left-to-right order, with the previous, the shifted
    /// centre, and the next month anchored around today's month.
    pub fn draw(&self, width: u32, height: u32, now: &Date) -> (r: Result<DrawOutput, LayoutError>)
        requires
            self.wf(),
            valid_date(*now),
            draw_in_bounds(*now, self.offset as int),
        ensures
            (r is Err) <==> (width < MIN_SURFACE_WIDTH || height < MIN_SURFACE_HEIGHT),
            r matches Ok(out) ==> out.ops.deep_view() == draw_opvs(*now, self.offset as int),
            r matches Ok(out) ==> out.damage@ == full_damage(),
    {
        if width < MIN_SURFACE_WIDTH || height < MIN_SURFACE_HEIGHT {
            return Err(LayoutError::SurfaceTooSmall);
        }
        let center = center_anchor(now, self.offset);
        let prev = prev_month_anchor(&center);
        let next = next_month_anchor(&center);
        let mut ops = draw_month(0, now, &prev);
        let mut mid = draw_month(448, now, &center);
        let mut right = draw_month(896, now, &next);
        let ghost s1 = ops.deep_view();
        let ghost s2 = mid.deep_view();
        let ghost s3 = right.deep_view();
        ops.append(&mut mid);
        proof {
            assert(ops.deep_view() =~= s1 + s2);
        }
        ops.append(&mut right);
        proof {
            assert(ops.deep_view() =~= (s1 + s2) + s3);
            assert(ops.deep_view() =~= draw_opvs(*now, self.offset as int));
        }
        let mut damage: Vec<Damage> = Vec::new();
        damage.push(Damage { x: 0, y: 0, w: 384, h: 344 });
        damage.push(Damage { x: 448, y: 0, w: 384, h: 344 });
        damage.push(Damage { x: 896, y: 0, w: 384, h: 344 });
        proof {
            assert(damage@ =~= full_damage());
        }
        Ok(DrawOutput { ops, damage })
    }
}

/// An event sequence applied to the widget in order.
pub open spec fn apply_inputs(s: Calendar, evs: Seq<Input>) -> Calendar
    decreases evs.len(),
{
    if evs.len() == 0 {
        s
    } else {
        apply_inputs(input_step(s, evs[0]), evs.drop_first())
    }
}

/// The vertical delta of a scroll event; zero for any other kind.
pub open spec fn scroll_y(ev: Input) -> int {
    match ev {
        Input::Scroll { y, .. } => y as int,
        _ => 0,
    }
}

/// The sum of the first `i` events' scroll deltas.
pub open spec fn scroll_sum(evs: Seq<Input>, i: int) -> int
    decreases i,
{
    if i <= 0 {
        0
    } else {
        scroll_sum(evs, i - 1) + scroll_y(evs[i - 1])
    }
}

/// Whether every event of the sequence is a scroll.
pub open spec fn all_scrolls(evs: Seq<Input>) -> bool {
    forall|i: int| 0 <= i < evs.len() ==> evs[i] is Scroll
}

/// A freshly constructed widget owes a redraw: while the dirty flag is
/// set, `update` reports one whatever `now` and `force` are.
pub proof fn lemma_first_update_redraws(s: Calendar, now: Date, force: bool)
    requires
        s.dirty,
    ensures
        update_redraw(s, now, force),
{
}

/// Updating is idempotent: once an unforced `update` has reported a
/// redraw, repeating it with the same date reports none.  The premise
/// rules out the one case where it would not hold: a dirty widget asked
/// about a date it has not stored yet.
pub proof fn lemma_update_idempotent(s: Calendar, now: Date)
    requires
        s.dirty ==> now == s.cur_date,
        update_redraw(s, now, false),
    ensures
        !update_redraw(update_step(s, now, false), now, false),
{
}

/// A forced `update` always reports a redraw.
pub proof fn lemma_forced_update_redraws(s: Calendar, now: Date)
    ensures
        update_redraw(s, now, true),
{
}

/// With the dirty flag clear and no force, `update` reports a redraw
/// exactly when the observed date differs from the stored one.
pub proof fn lemma_update_on_date_change(s: Calendar, now: Date)
    requires
        !s.dirty,
    ensures
        update_redraw(s, now, false) == (now != s.cur_date),
{
}

proof fn lemma_scroll_sum_drop(evs: Seq<Input>, i: int)
    requires
        evs.len() >= 1,
        0 <= i <= evs.len() - 1,
    ensures
        scroll_sum(evs.drop_first(), i) == scroll_sum(evs, i + 1) - scroll_y(evs[0]),
    decreases i,
{
    if i > 0 {
        lemma_scroll_sum_drop(evs, i - 1);
        assert(evs.drop_first()[i - 1] == evs[i]);
    } else {
        assert(scroll_sum(evs.drop_first(), 0) == 0);
        assert(scroll_sum(evs, 0) == 0);
        assert(scroll_sum(evs, 1) == scroll_sum(evs, 0) + scroll_y(evs[0]));
    }
}

/// Scrolling accumulates: as long as no partial sum reaches the
/// saturation bound, a sequence of scroll events leaves the offset at
/// the old offset plus the sum of the deltas, leaves the stored date
/// alone, and marks the widget dirty.
pub proof fn lemma_scroll_accumulates(s: Calendar, evs: Seq<Input>)
    requires
        all_scrolls(evs),
        forall|i: int|
            0 <= i <= evs.len() ==> -OFFSET_LIMIT <= s.offset + #[trigger] scroll_sum(evs, i)
                <= OFFSET_LIMIT,
    ensures
        apply_inputs(s, evs).offset == s.offset + scroll_sum(evs, evs.len() as int),
        apply_inputs(s, evs).cur_date == s.cur_date,
        evs.len() > 0 ==> apply_inputs(s, evs).dirty,
    decreases evs.len(),
{
    if evs.len() > 0 {
        assert(evs[0] is Scroll);
        let s1 = input_step(s, evs[0]);
        assert(scroll_sum(evs, 0) == 0);
        assert(scroll_sum(evs, 1) == scroll_sum(evs, 0) + scroll_y(evs[0]));
        assert(-OFFSET_LIMIT <= s.offset + scroll_sum(evs, 1) <= OFFSET_LIMIT);
        assert(s1.offset == s.offset + scroll_y(evs[0]));
        let rest = evs.drop_first();
        assert forall|i: int| 0 <= i <= rest.len() implies -OFFSET_LIMIT <= s1.offset
            + #[trigger] scroll_sum(rest, i) <= OFFSET_LIMIT by {
            lemma_scroll_sum_drop(evs, i);
            assert(s1.offset + scroll_sum(rest, i) == s.offset + scroll_sum(evs, i + 1));
        }
        assert(all_scrolls(rest)) by {
            assert(forall|i: int| 0 <= i < rest.len() ==> rest[i] == evs[i + 1]);
        }
        lemma_scroll_accumulates(s1, rest);
        lemma_scroll_sum_drop(evs, evs.len() - 1);
        if rest.len() == 0 {
            assert(apply_inputs(s, evs) == s1);
        }
    }
}

/// The click zones: a click left of the centre panel pages one month
/// back, right of the centre panel one month forward, and on the centre
/// panel resets the offset; each marks the widget dirty.  The premise
/// keeps the offset a month clear of the saturation bound, where the
/// paging would clamp.
pub proof fn lemma_click_zones(s: Calendar, pos: (u32, u32), button: u32)
    requires
        -OFFSET_LIMIT + MONTH_OFFSET <= s.offset <= OFFSET_LIMIT - MONTH_OFFSET,
    ensures
        pos.0 < CENTER_PANEL_X ==> input_step(s, Input::Click { pos, button }).offset == s.offset
            - MONTH_OFFSET,
        pos.0 >= RIGHT_PANEL_X ==> input_step(s, Input::Click { pos, button }).offset == s.offset
            + MONTH_OFFSET,
        CENTER_PANEL_X <= pos.0 < RIGHT_PANEL_X ==> input_step(
            s,
            Input::Click { pos, button },
        ).offset == 0,
        input_step(s, Input::Click { pos, button }).dirty,
        input_step(s, Input::Click { pos, button }).cur_date == s.cur_date,
{
}

} // verus!
