use heic_wallpaper::builder::{
    build_schedule, build_schedule_today, sorted_frames, CurrentDate, Mode, TimeSlice,
};
use heic_wallpaper::schema::{Image, ScheduleError};

fn slice(index: usize, value: u64) -> TimeSlice {
    TimeSlice { index, value }
}

fn date() -> CurrentDate {
    CurrentDate { year: 2022, month: 5, day: 4 }
}

/// Day-fractions 0.1, 0.5 and 0.9 as milliseconds of day.
fn three_frames() -> Vec<TimeSlice> {
    vec![slice(0, 8640000), slice(1, 43200000), slice(2, 77760000)]
}

#[test]
fn empty_input_is_rejected() {
    match build_schedule(Vec::new(), Mode::TimeOfDay, date(), "/wp") {
        Err(e) => assert_eq!(e, ScheduleError::EmptyInput),
        Ok(_) => panic!("an empty timing list must be rejected"),
    }
}

#[test]
fn three_frame_scenario() {
    let bg = build_schedule(three_frames(), Mode::TimeOfDay, date(), "/wp").unwrap();
    assert_eq!(bg.images.len(), 7);
    match &bg.images[0] {
        Image::StartTime { year, month, day, hour, minute, second } => {
            assert_eq!((*year, *month, *day), (2022, 5, 4));
            assert_eq!((*hour, *minute, *second), (2, 24, 0));
        }
        _ => panic!("first entry must be the start marker"),
    }
    let expected_transitions = [
        (34559000i64, "/wp/0.png", "/wp/1.png"),
        (34559000, "/wp/1.png", "/wp/2.png"),
        (17279000, "/wp/2.png", "/wp/0.png"),
    ];
    for i in 0..3usize {
        match &bg.images[1 + 2 * i] {
            Image::Static { duration, file, idx } => {
                assert_eq!(*duration, 1000);
                assert_eq!(file, &format!("/wp/{}.png", i));
                assert_eq!(*idx, i);
            }
            _ => panic!("expected a still frame"),
        }
        match &bg.images[2 + 2 * i] {
            Image::Transition { kind, duration, from, to, idx } => {
                assert_eq!(kind, "overlay");
                assert_eq!(*duration, expected_transitions[i].0);
                assert_eq!(from, expected_transitions[i].1);
                assert_eq!(to, expected_transitions[i].2);
                assert_eq!(*idx, i);
            }
            _ => panic!("expected a transition"),
        }
    }
}

#[test]
fn orders_cover_all_frames_once() {
    let slices = vec![
        slice(9, 50000000),
        slice(3, 10000000),
        slice(4, 70000000),
        slice(8, 30000000),
    ];
    let bg = build_schedule(slices, Mode::TimeOfDay, date(), "d").unwrap();
    assert_eq!(bg.images.len(), 9);
    let mut still_orders = Vec::new();
    let mut transition_orders = Vec::new();
    let mut markers = 0;
    for entry in &bg.images {
        match entry {
            Image::StartTime { .. } => markers += 1,
            Image::Static { idx, .. } => still_orders.push(*idx),
            Image::Transition { idx, .. } => transition_orders.push(*idx),
        }
    }
    assert_eq!(markers, 1);
    assert_eq!(still_orders, vec![0, 1, 2, 3]);
    assert_eq!(transition_orders, vec![0, 1, 2, 3]);
}

#[test]
fn closing_transition_returns_to_first_frame() {
    for n in 1..6usize {
        let slices: Vec<TimeSlice> =
            (0..n).map(|i| slice(i, (i as u64) * 3600000)).collect();
        let bg = build_schedule(slices, Mode::TimeOfDay, date(), "out").unwrap();
        match bg.images.last().unwrap() {
            Image::Transition { to, .. } => assert_eq!(to, "out/0.png"),
            _ => panic!("last entry must be the closing transition"),
        }
    }
}

#[test]
fn sort_is_stable_on_equal_times() {
    let frames = sorted_frames(
        vec![slice(5, 100), slice(7, 100), slice(1, 50), slice(2, 100)],
        Mode::TimeOfDay,
    );
    let order: Vec<usize> = frames.iter().map(|f| f.original_index).collect();
    assert_eq!(order, vec![1, 5, 7, 2]);
    assert_eq!(frames[0].time_millis, 50);
}

#[test]
fn solar_azimuths_normalize_and_sort() {
    // Azimuths 270.5, 90.25 and 90.25 degrees in milli-degrees.
    let frames = sorted_frames(
        vec![slice(0, 270500), slice(1, 90250), slice(2, 90250)],
        Mode::Solar,
    );
    let order: Vec<usize> = frames.iter().map(|f| f.original_index).collect();
    assert_eq!(order, vec![1, 2, 0]);
    assert_eq!(frames[0].time_millis, 90250 * 240);
    assert_eq!(frames[2].time_millis, 270500 * 240);
}

#[test]
fn equal_times_give_negative_duration_unclamped() {
    let bg = build_schedule(
        vec![slice(0, 43200000), slice(1, 43200000)],
        Mode::TimeOfDay,
        date(),
        "w",
    )
    .unwrap();
    match &bg.images[2] {
        Image::Transition { duration, .. } => assert_eq!(*duration, -1000),
        _ => panic!("expected a transition"),
    }
    // The closing transition rounds up to whole seconds and stays at zero or above.
    match &bg.images[4] {
        Image::Transition { duration, .. } => {
            // (86400000 - 43200000) + 43200000 - 1000 = 86399000.
            assert_eq!(*duration, 86399000);
        }
        _ => panic!("expected the closing transition"),
    }
}

#[test]
fn closing_duration_rounds_up_to_whole_seconds() {
    // Times 100 ms and 200 ms: the closing gap is
    // (86400000 - 200) + 100 - 1000 = 86398900 ms -> ceil 86399 s.
    let bg = build_schedule(
        vec![slice(0, 100), slice(1, 200)],
        Mode::TimeOfDay,
        date(),
        "w",
    )
    .unwrap();
    match &bg.images[4] {
        Image::Transition { duration, .. } => assert_eq!(*duration, 86399000),
        _ => panic!("expected the closing transition"),
    }
}

#[test]
fn single_frame_schedule() {
    let bg = build_schedule(vec![slice(4, 1000)], Mode::TimeOfDay, date(), "solo").unwrap();
    assert_eq!(bg.images.len(), 3);
    match &bg.images[2] {
        Image::Transition { duration, from, to, .. } => {
            // ceil(((86400000 - 1000) + 1000 - 1000) / 1000) = 86399 s.
            assert_eq!(*duration, 86399000);
            assert_eq!(from, "solo/0.png");
            assert_eq!(to, "solo/0.png");
        }
        _ => panic!("expected the closing transition"),
    }
}

#[test]
fn todays_schedule_matches_the_dated_one_past_the_marker() {
    let today = build_schedule_today(three_frames(), Mode::TimeOfDay, "/wp").unwrap();
    let dated = build_schedule(three_frames(), Mode::TimeOfDay, date(), "/wp").unwrap();
    assert_eq!(today.images.len(), dated.images.len());
    match &today.images[0] {
        Image::StartTime { month, day, hour, minute, second, .. } => {
            assert!((1..=12).contains(month));
            assert!((1..=31).contains(day));
            assert_eq!((*hour, *minute, *second), (2, 24, 0));
        }
        _ => panic!("first entry must be the start marker"),
    }
    for i in 1..today.images.len() {
        match (&today.images[i], &dated.images[i]) {
            (
                Image::Static { duration: da, file: fa, idx: ia },
                Image::Static { duration: db, file: fb, idx: ib },
            ) => {
                assert_eq!((da, fa, ia), (db, fb, ib));
            }
            (
                Image::Transition { kind: ka, duration: da, from: fa, to: ta, idx: ia },
                Image::Transition { kind: kb, duration: db, from: fb, to: tb, idx: ib },
            ) => {
                assert_eq!((ka, da, fa, ta, ia), (kb, db, fb, tb, ib));
            }
            _ => panic!("entry kinds must line up"),
        }
    }
}

#[test]
fn builder_output_is_a_valid_schedule_for_the_serializer() {
    let mut bg = build_schedule(three_frames(), Mode::TimeOfDay, date(), "/wp").unwrap();
    let doc = heic_wallpaper::serializer::save_xml(&mut bg).unwrap();
    assert!(doc.starts_with("<background>\n"));
    assert!(doc.ends_with("</background>"));
}
