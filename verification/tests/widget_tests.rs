use calgrid::date::Date;
use calgrid::widget::{
    clock_date, month_shift, next_month_anchor, prev_month_anchor, Calendar, Damage, Input,
    LayoutError, MONTH_OFFSET, OFFSET_LIMIT,
};
use chrono::Datelike;

fn d(year: i32, month: u32, day: u32) -> Date {
    Date { year, month, day }
}

fn widget_at(date: Date) -> Calendar {
    Calendar { cur_date: date, dirty: false, offset: 0 }
}

#[test]
fn new_reads_the_local_clock() {
    let before = chrono::Local::now().date_naive();
    let c = Calendar::new();
    let after = chrono::Local::now().date_naive();
    let got = (c.cur_date.year, c.cur_date.month, c.cur_date.day);
    let lo = (before.year(), before.month(), before.day());
    let hi = (after.year(), after.month(), after.day());
    assert!(got == lo || got == hi);
    assert!(c.dirty);
    assert_eq!(c.offset, 0);
}

#[test]
fn clock_date_keeps_in_range_readings_and_clamps_the_rest() {
    assert_eq!(clock_date(2024, 3, 15), d(2024, 3, 15));
    assert_eq!(clock_date(2024, 2, 29), d(2024, 2, 29));
    assert_eq!(clock_date(1, 1, 1), d(1, 1, 1));
    assert_eq!(clock_date(9999, 12, 31), d(9999, 12, 31));
    assert_eq!(clock_date(0, 5, 10), d(1, 1, 1));
    assert_eq!(clock_date(-200000, 5, 10), d(1, 1, 1));
    assert_eq!(clock_date(10000, 5, 10), d(9999, 12, 31));
}

#[test]
fn first_update_always_redraws() {
    let mut c = Calendar::new();
    assert!(c.update(&d(2024, 3, 15), false));
    let mut c2 = Calendar::new();
    assert!(c2.update(&d(1999, 12, 31), true));
}

#[test]
fn update_is_idempotent() {
    let mut c = widget_at(d(2024, 3, 14));
    assert!(c.update(&d(2024, 3, 15), false));
    assert!(!c.update(&d(2024, 3, 15), false));
    assert!(!c.update(&d(2024, 3, 15), false));
}

#[test]
fn forced_update_always_redraws() {
    let mut c = widget_at(d(2024, 3, 15));
    assert!(c.update(&d(2024, 3, 15), true));
    assert!(c.update(&d(2024, 3, 15), true));
}

#[test]
fn update_redraws_exactly_on_date_change() {
    let mut c = widget_at(d(2024, 3, 15));
    assert!(!c.update(&d(2024, 3, 15), false));
    assert!(c.update(&d(2024, 3, 16), false));
    assert!(!c.update(&d(2024, 3, 16), false));
    assert!(c.update(&d(2024, 3, 15), false));
}

#[test]
fn input_marks_dirty_and_update_consumes_it() {
    let mut c = widget_at(d(2024, 3, 15));
    assert!(!c.update(&d(2024, 3, 15), false));
    c.input(Input::Scroll { pos: (0, 0), x: 0, y: 1_000 });
    assert!(c.dirty);
    assert!(c.update(&d(2024, 3, 15), false));
    assert!(!c.update(&d(2024, 3, 15), false));
}

#[test]
fn scroll_deltas_accumulate() {
    let mut c = widget_at(d(2024, 3, 15));
    let deltas: [i64; 4] = [25_000, -10_000, 5_000, 100];
    for y in deltas {
        c.input(Input::Scroll { pos: (12, 34), x: 7, y });
    }
    assert_eq!(c.offset, 20_100);
    assert_eq!(c.cur_date, d(2024, 3, 15));
    assert!(c.dirty);
}

#[test]
fn click_zones_page_and_reset() {
    let mut c = widget_at(d(2024, 3, 15));
    c.input(Input::Click { pos: (100, 50), button: 1 });
    assert_eq!(c.offset, -MONTH_OFFSET);
    c.input(Input::Click { pos: (447, 0), button: 1 });
    assert_eq!(c.offset, -2 * MONTH_OFFSET);
    c.input(Input::Click { pos: (896, 0), button: 1 });
    assert_eq!(c.offset, -MONTH_OFFSET);
    c.input(Input::Click { pos: (1200, 0), button: 1 });
    assert_eq!(c.offset, 0);
    c.input(Input::Click { pos: (1000, 0), button: 1 });
    assert_eq!(c.offset, MONTH_OFFSET);
    c.input(Input::Click { pos: (448, 0), button: 1 });
    assert_eq!(c.offset, 0);
    assert!(c.dirty);
}

#[test]
fn other_events_are_ignored() {
    let mut c = widget_at(d(2024, 3, 15));
    c.input(Input::Other);
    assert!(!c.dirty);
    assert_eq!(c.offset, 0);
    assert_eq!(c.cur_date, d(2024, 3, 15));
}

#[test]
fn scroll_saturates_at_the_limit() {
    let mut c = widget_at(d(2024, 3, 15));
    c.offset = OFFSET_LIMIT;
    c.input(Input::Scroll { pos: (0, 0), x: 0, y: 1_000 });
    assert_eq!(c.offset, OFFSET_LIMIT);
    c.offset = -OFFSET_LIMIT;
    c.input(Input::Scroll { pos: (0, 0), x: 0, y: -1_000 });
    assert_eq!(c.offset, -OFFSET_LIMIT);
}

#[test]
fn offset_to_month_shift_truncates_toward_zero() {
    assert_eq!(month_shift(250_000), 2);
    assert_eq!(month_shift(-150_000), -1);
    assert_eq!(month_shift(99_999), 0);
    assert_eq!(month_shift(-99_999), 0);
    assert_eq!(month_shift(0), 0);
    assert_eq!(month_shift(1_200_000), 12);
}

#[test]
fn month_rollover_at_year_edges() {
    assert_eq!(next_month_anchor(&d(2024, 12, 1)), d(2025, 1, 1));
    assert_eq!(prev_month_anchor(&d(2024, 1, 1)), d(2023, 12, 1));
    assert_eq!(next_month_anchor(&d(2024, 6, 1)), d(2024, 7, 1));
    assert_eq!(prev_month_anchor(&d(2024, 6, 1)), d(2024, 5, 1));
}

#[test]
fn draw_fails_exactly_when_the_surface_is_too_small() {
    let c = widget_at(d(2024, 3, 15));
    assert!(c.can_draw(&d(2024, 3, 15)));
    assert!(matches!(
        c.draw(1279, 344, &d(2024, 3, 15)),
        Err(LayoutError::SurfaceTooSmall)
    ));
    assert!(matches!(
        c.draw(1280, 343, &d(2024, 3, 15)),
        Err(LayoutError::SurfaceTooSmall)
    ));
    assert!(c.draw(1280, 344, &d(2024, 3, 15)).is_ok());
    assert!(c.draw(1920, 1080, &d(2024, 3, 15)).is_ok());
}

#[test]
fn can_draw_rejects_an_offset_far_out_of_range() {
    let mut c = widget_at(d(2024, 3, 15));
    c.offset = OFFSET_LIMIT;
    assert!(!c.can_draw(&d(2024, 3, 15)));
    c.offset = -OFFSET_LIMIT;
    assert!(!c.can_draw(&d(2024, 3, 15)));
    c.offset = 12 * MONTH_OFFSET;
    assert!(c.can_draw(&d(2024, 3, 15)));
}

#[test]
fn draw_reports_the_three_panel_damage_rectangles() {
    let c = widget_at(d(2024, 3, 15));
    let out = c.draw(1280, 344, &d(2024, 3, 15)).unwrap();
    assert_eq!(
        out.damage,
        vec![
            Damage { x: 0, y: 0, w: 384, h: 344 },
            Damage { x: 448, y: 0, w: 384, h: 344 },
            Damage { x: 896, y: 0, w: 384, h: 344 },
        ]
    );
}
