use calgrid::date::Date;
use calgrid::layout::{draw_month, DrawOp, FontId, Region, Shade};
use calgrid::widget::Calendar;

fn d(year: i32, month: u32, day: u32) -> Date {
    Date { year, month, day }
}

/// The `(rect, shade, text)` of every day cell: monospace glyphs of size
/// 32 drawn off the week-number column.
fn day_cells(ops: &[DrawOp], px: u32) -> Vec<(Region, Shade, String)> {
    let mut out = Vec::new();
    for op in ops {
        if let DrawOp::Text { rect, font: FontId::Monospace, shade, size: 32, text } = op {
            if rect.x != px {
                out.push((*rect, *shade, text.clone()));
            }
        }
    }
    out
}

fn week_numbers(ops: &[DrawOp], px: u32) -> Vec<String> {
    let mut out = Vec::new();
    for op in ops {
        if let DrawOp::Text { rect, font: FontId::Monospace, size: 32, text, .. } = op {
            if rect.x == px {
                out.push(text.clone());
            }
        }
    }
    out
}

#[test]
fn panel_opens_with_clear_and_title() {
    let ops = draw_month(0, &d(2024, 3, 15), &d(2024, 3, 1));
    assert!(matches!(
        ops[0],
        DrawOp::Clear { rect: Region { x: 0, y: 0, w: 384, h: 344 } }
    ));
    match &ops[1] {
        DrawOp::Text { rect, font, size, text, .. } => {
            assert_eq!(*rect, Region { x: 0, y: 0, w: 304, h: 72 });
            assert_eq!(*font, FontId::Proportional);
            assert_eq!(*size, 64);
            assert_eq!(text, "March");
        }
        _ => panic!("expected the month title"),
    }
}

#[test]
fn weekday_header_order_is_pinned() {
    // the widget has always drawn the weekend pair swapped
    let ops = draw_month(0, &d(2024, 3, 15), &d(2024, 3, 1));
    let mut headers = Vec::new();
    for op in &ops {
        if let DrawOp::Text { size: 16, text, .. } = op {
            headers.push(text.clone());
        }
    }
    assert_eq!(headers, vec!["MON", "TUE", "WED", "THU", "FRI", "SUN", "SAT"]);
}

#[test]
fn first_week_row_aligns_with_the_weekday() {
    // February 2021 opens on a Monday: day 01 in column 1
    let ops = draw_month(0, &d(2021, 2, 15), &d(2021, 2, 1));
    let cells = day_cells(&ops, 0);
    assert_eq!(cells[0].2, "01");
    assert_eq!(cells[0].0.x, 48);
    assert_eq!(cells[0].0.y, 128);

    // January 2023 opens on a Sunday: day 01 in column 7
    let ops = draw_month(0, &d(2023, 1, 15), &d(2023, 1, 1));
    let cells = day_cells(&ops, 0);
    assert_eq!(cells[0].2, "01");
    assert_eq!(cells[0].0.x, 7 * 48);
    assert_eq!(cells[0].0.y, 128);
    // nothing else of the first row sits left of day 01
    for (rect, _, text) in &cells {
        if rect.y == 128 {
            assert!(rect.x >= 7 * 48, "cell {text} left of day 01");
        }
    }
}

#[test]
fn rows_stop_at_the_end_of_the_month() {
    // February 2023 has 28 days
    let ops = draw_month(0, &d(2023, 2, 10), &d(2023, 2, 1));
    let cells = day_cells(&ops, 0);
    assert_eq!(cells.len(), 28);
    for (i, (_, _, text)) in cells.iter().enumerate() {
        assert_eq!(text, &format!("{:02}", i + 1));
    }
    // a leap February has its 29th
    let ops = draw_month(0, &d(2024, 2, 10), &d(2024, 2, 1));
    assert_eq!(day_cells(&ops, 0).len(), 29);
    // a full-length month
    let ops = draw_month(0, &d(2024, 3, 15), &d(2024, 3, 1));
    assert_eq!(day_cells(&ops, 0).len(), 31);
}

#[test]
fn today_is_highlighted_only_in_its_own_month() {
    let today = d(2024, 3, 15);
    let ops = draw_month(0, &today, &d(2024, 3, 1));
    let bright: Vec<_> =
        day_cells(&ops, 0).into_iter().filter(|(_, s, _)| *s == Shade::Bright).collect();
    assert_eq!(bright.len(), 1);
    assert_eq!(bright[0].2, "15");

    // the neighbouring month also holds a day 15, but none is highlighted
    let ops = draw_month(0, &today, &d(2024, 4, 1));
    let cells = day_cells(&ops, 0);
    assert!(cells.iter().any(|(_, _, t)| t == "15"));
    assert!(cells.iter().all(|(_, s, _)| *s == Shade::Dimmed));
}

#[test]
fn year_label_appears_only_across_years() {
    // December of the current year: no label at the year rectangle
    let ops = draw_month(0, &d(2024, 12, 15), &d(2024, 12, 1));
    for op in &ops {
        if let DrawOp::Text { rect, .. } = op {
            assert!(!(rect.x == 320 && rect.y == 0));
        }
    }
    // December of the previous year: the four-digit year is drawn
    let ops = draw_month(0, &d(2024, 12, 15), &d(2023, 12, 1));
    let mut found = false;
    for op in &ops {
        if let DrawOp::Text { rect, size, text, .. } = op {
            if rect.x == 320 && rect.y == 0 {
                assert_eq!(*size, 24);
                assert_eq!(text, "2023");
                found = true;
            }
        }
    }
    assert!(found);
}

#[test]
fn week_numbers_follow_iso_8601() {
    // January 2024 opens in ISO week 1
    let ops = draw_month(0, &d(2024, 1, 15), &d(2024, 1, 1));
    assert_eq!(week_numbers(&ops, 0)[0], "01");
    // January 2021 opens in ISO week 53 of 2020
    let ops = draw_month(0, &d(2021, 1, 15), &d(2021, 1, 1));
    let wks = week_numbers(&ops, 0);
    assert_eq!(wks[0], "53");
    assert_eq!(wks[1], "01");
}

#[test]
fn three_panels_render_the_surrounding_months() {
    // today is Friday, 2024-03-15, with the offset at rest
    let c = Calendar { cur_date: d(2024, 3, 15), dirty: false, offset: 0 };
    let out = c.draw(1280, 344, &d(2024, 3, 15)).unwrap();
    let mut titles = Vec::new();
    for op in &out.ops {
        if let DrawOp::Text { rect, size: 64, text, .. } = op {
            titles.push((rect.x, text.clone()));
        }
    }
    assert_eq!(
        titles,
        vec![
            (0, String::from("February")),
            (448, String::from("March")),
            (896, String::from("April")),
        ]
    );
    // only March's day 15 is highlighted; week numbers sit exactly at
    // the panel origins, so any other bright size-32 text is a day cell
    let bright: Vec<_> = out
        .ops
        .iter()
        .filter_map(|op| {
            if let DrawOp::Text { rect, shade: Shade::Bright, size: 32, text, .. } = op {
                Some((rect.x, text.clone()))
            } else {
                None
            }
        })
        .filter(|(x, _)| *x != 0 && *x != 448 && *x != 896)
        .collect();
    assert_eq!(bright.len(), 1);
    assert_eq!(bright[0].1, "15");
    assert!(448 < bright[0].0 && bright[0].0 < 832);
}

#[test]
fn paging_shifts_the_centre_month() {
    // one month forward: panels March, April, May
    let c = Calendar { cur_date: d(2024, 3, 15), dirty: false, offset: 100_000 };
    let out = c.draw(1280, 344, &d(2024, 3, 15)).unwrap();
    let mut titles = Vec::new();
    for op in &out.ops {
        if let DrawOp::Text { size: 64, text, .. } = op {
            titles.push(text.clone());
        }
    }
    assert_eq!(titles, vec!["March", "April", "May"]);

    // ten months forward from March: the centre is January of the next
    // year, and its panel carries the year label
    let c = Calendar { cur_date: d(2024, 3, 15), dirty: false, offset: 1_000_000 };
    let out = c.draw(1280, 344, &d(2024, 3, 15)).unwrap();
    let mut titles = Vec::new();
    for op in &out.ops {
        if let DrawOp::Text { size: 64, text, .. } = op {
            titles.push(text.clone());
        }
    }
    assert_eq!(titles, vec!["December", "January", "February"]);
    let mut labels = Vec::new();
    for op in &out.ops {
        if let DrawOp::Text { rect, size: 24, text, .. } = op {
            labels.push((rect.x, text.clone()));
        }
    }
    assert_eq!(
        labels,
        vec![(448 + 320, String::from("2025")), (896 + 320, String::from("2025"))]
    );
}
