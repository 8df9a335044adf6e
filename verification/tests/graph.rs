use chrono::{TimeZone, Timelike, Utc};
use gluj::glyph::{glyph_str, Glyph};
use gluj::time::Timestamp;
use gluj::view::{Sample, View};

fn ts(year: i32, month: u32, day: u32, hour: u32, min: u32, sec: u32) -> Timestamp {
    let dt = Utc
        .with_ymd_and_hms(year, month, day, hour, min, sec)
        .unwrap();
    Timestamp::new(dt.timestamp())
}

fn glucose(reading: f32) -> Glyph {
    Glyph::Value(reading.round() as i64)
}

#[test]
pub fn test_glucose_letter_representation() {
    // implementation needs to cover 0-33
    assert_eq!("0", glyph_str(glucose(0.0)));
    assert_eq!("1", glyph_str(glucose(1.0)));
    assert_eq!("2", glyph_str(glucose(2.0)));
    assert_eq!("3", glyph_str(glucose(3.0)));
    assert_eq!("4", glyph_str(glucose(4.0)));
    assert_eq!("5", glyph_str(glucose(5.0)));
    assert_eq!("6", glyph_str(glucose(6.0)));
    assert_eq!("7", glyph_str(glucose(7.0)));
    assert_eq!("8", glyph_str(glucose(8.0)));
    assert_eq!("9", glyph_str(glucose(9.0)));
    assert_eq!("A", glyph_str(glucose(10.0)));
    assert_eq!("B", glyph_str(glucose(11.0)));
    assert_eq!("C", glyph_str(glucose(12.0)));
    assert_eq!("D", glyph_str(glucose(13.0)));
    assert_eq!("E", glyph_str(glucose(14.0)));
    assert_eq!("F", glyph_str(glucose(15.0)));
    assert_eq!("G", glyph_str(glucose(16.0)));

    assert_eq!("U", glyph_str(glucose(30.0)));
    assert_eq!("X", glyph_str(glucose(33.0)));

    // test out of range
    assert_eq!("?", glyph_str(glucose(-1.0)));
    assert_eq!("?", glyph_str(glucose(34.0)));
}

#[test]
pub fn test_date_works() {
    let dt1 = Utc.with_ymd_and_hms(2015, 1, 15, 12, 0, 0).unwrap();
    let dt2 = Utc.with_ymd_and_hms(2015, 1, 15, 12, 0, 2).unwrap();
    let dt3 = dt2.with_second(0).unwrap();
    assert!(1i64 == 1);
    assert_eq!(dt1, dt3);
}

#[test]
pub fn test_render_recent_eight_empty_hours() {
    let entries: Vec<Sample> = vec![];
    let view = View::new(entries);
    let even_hour = ts(2015, 1, 15, 12, 0, 0);
    let even_hour_15 = ts(2015, 1, 15, 12, 15, 0);
    let even_hour_30 = ts(2015, 1, 15, 12, 30, 0);
    let uneven_hour = ts(2015, 1, 15, 13, 0, 0);
    let uneven_hour_30 = ts(2015, 1, 15, 13, 30, 0);
    assert_eq!(
        "-------|-------|-------|-------|".to_string(),
        view.render_recent(even_hour)
    );
    assert_eq!(
        "------|-------|-------|-------|-".to_string(),
        view.render_recent(even_hour_15)
    );
    assert_eq!(
        "-----|-------|-------|-------|--".to_string(),
        view.render_recent(even_hour_30)
    );
    assert_eq!(
        "---|-------|-------|-------|----".to_string(),
        view.render_recent(uneven_hour)
    );
    assert_eq!(
        "-|-------|-------|-------|------".to_string(),
        view.render_recent(uneven_hour_30)
    );
}

#[test]
pub fn test_entry() {
    let entry_date = ts(2015, 1, 15, 11, 5, 30);
    let show_date = ts(2015, 1, 15, 12, 0, 0);
    let entries = vec![Sample {
        at: entry_date,
        value: (7.0f32).round() as i64,
    }];
    assert_eq!(
        "       |       |       |   7---|".to_string(),
        View::new(entries).render_recent(show_date)
    );
}

#[test]
fn test_collision_last_inserted_wins() {
    // Two readings fall in the 11:00 slot; only the later-appended one shows.
    let entries = vec![
        Sample {
            at: ts(2015, 1, 15, 11, 1, 0),
            value: 5,
        },
        Sample {
            at: ts(2015, 1, 15, 11, 5, 0),
            value: 7,
        },
    ];
    let view = View::new(entries);
    let slot = ts(2015, 1, 15, 11, 0, 0);
    assert_eq!(Glyph::Value(7), view.glyph_at(slot));
    assert_eq!(
        "       |       |       |   7---|".to_string(),
        view.render_recent(ts(2015, 1, 15, 12, 0, 0))
    );
}

#[test]
fn test_bucket_keeps_insertion_order() {
    let first = Sample {
        at: ts(2015, 1, 15, 11, 1, 0),
        value: 5,
    };
    let second = Sample {
        at: ts(2015, 1, 15, 11, 5, 0),
        value: 7,
    };
    let view = View::new(vec![first, second]);
    let bucket = view.bucket_at(ts(2015, 1, 15, 11, 0, 0)).unwrap();
    assert_eq!(vec![first, second], *bucket);
    assert!(view.bucket_at(ts(2015, 1, 15, 10, 0, 0)).is_none());
}

#[test]
fn test_latest_trusts_input_order() {
    // The marker is the last sample of the input as given, not the maximum.
    let entries = vec![
        Sample {
            at: ts(2015, 1, 15, 12, 30, 0),
            value: 5,
        },
        Sample {
            at: ts(2015, 1, 15, 11, 0, 0),
            value: 7,
        },
    ];
    let view = View::new(entries);
    assert_eq!(Some(ts(2015, 1, 15, 11, 0, 0)), view.latest());
    let empty_view = View::new(vec![]);
    assert_eq!(None, empty_view.latest());
}

#[test]
fn test_render_day_single_sample() {
    // The day runs from the 02:00 anchor for 95 slots; the 11:00 slot shows
    // the reading, earlier empty slots are blanks, later ones placeholders,
    // hour ticks stand on every even full hour without data.
    let entries = vec![Sample {
        at: ts(2015, 1, 15, 11, 5, 30),
        value: 7,
    }];
    let view = View::new(entries);
    let rendered = view.render_day(ts(2015, 1, 15, 12, 0, 0));
    let expected = "|       |       |       |       |   7---|-------|-------|-------|-------|-------|-------|------";
    assert_eq!(expected.to_string(), rendered);
    assert_eq!(95, rendered.len());
}

#[test]
fn test_render_lengths_fixed() {
    let empty = View::new(vec![]);
    assert_eq!(32, empty.render_recent(ts(2015, 1, 15, 12, 0, 0)).len());
    assert_eq!(95, empty.render_day(ts(2015, 1, 15, 12, 0, 0)).len());
    let mut many: Vec<Sample> = Vec::new();
    for i in 0..200 {
        many.push(Sample {
            at: ts(2015, 1, 15, (i % 24) as u32, (i % 60) as u32, 0),
            value: i as i64,
        });
    }
    let view = View::new(many);
    assert_eq!(32, view.render_recent(ts(2015, 1, 15, 12, 0, 0)).len());
    assert_eq!(95, view.render_day(ts(2015, 1, 15, 12, 0, 0)).len());
}

#[test]
fn test_render_twice_identical() {
    let entries = vec![
        Sample {
            at: ts(2015, 1, 15, 9, 10, 0),
            value: 12,
        },
        Sample {
            at: ts(2015, 1, 15, 11, 5, 0),
            value: 7,
        },
    ];
    let view = View::new(entries);
    let when = ts(2015, 1, 15, 12, 0, 0);
    assert_eq!(view.render_recent(when), view.render_recent(when));
    assert_eq!(view.render_day(when), view.render_day(when));
}

#[test]
fn test_out_of_range_renders_question_mark() {
    let entries = vec![
        Sample {
            at: ts(2015, 1, 15, 11, 5, 0),
            value: 40,
        },
        Sample {
            at: ts(2015, 1, 15, 10, 20, 0),
            value: -2,
        },
    ];
    let view = View::new(entries);
    assert_eq!(
        Glyph::Value(40),
        view.glyph_at(ts(2015, 1, 15, 11, 0, 0))
    );
    assert_eq!("?", glyph_str(view.glyph_at(ts(2015, 1, 15, 11, 0, 0))));
    assert_eq!("?", glyph_str(view.glyph_at(ts(2015, 1, 15, 10, 15, 0))));
}

#[test]
fn test_floor_to_slot_boundaries() {
    assert_eq!(ts(2015, 1, 15, 12, 0, 0), ts(2015, 1, 15, 12, 0, 0).floor_to_slot());
    assert_eq!(ts(2015, 1, 15, 12, 0, 0), ts(2015, 1, 15, 12, 14, 59).floor_to_slot());
    assert_eq!(ts(2015, 1, 15, 12, 15, 0), ts(2015, 1, 15, 12, 15, 0).floor_to_slot());
    assert_eq!(ts(2015, 1, 15, 12, 45, 0), ts(2015, 1, 15, 12, 59, 59).floor_to_slot());
    // An instant before the epoch floors downward, not toward zero.
    assert_eq!(-900, Timestamp::new(-1).floor_to_slot().secs);
}

#[test]
fn test_even_full_hour_ignores_seconds() {
    assert!(ts(2015, 1, 15, 12, 0, 0).even_full_hour());
    assert!(ts(2015, 1, 15, 12, 0, 30).even_full_hour());
    assert!(!ts(2015, 1, 15, 13, 0, 0).even_full_hour());
    assert!(!ts(2015, 1, 15, 12, 1, 0).even_full_hour());
    assert!(ts(2015, 1, 15, 0, 0, 0).even_full_hour());
}

#[test]
fn test_start_of_day_anchor() {
    assert_eq!(ts(2015, 1, 15, 2, 0, 0), ts(2015, 1, 15, 12, 0, 0).start_of_day());
    assert_eq!(ts(2015, 1, 15, 2, 0, 0), ts(2015, 1, 15, 0, 30, 0).start_of_day());
    assert_eq!(ts(2015, 1, 15, 2, 0, 0), ts(2015, 1, 15, 23, 59, 59).start_of_day());
}
