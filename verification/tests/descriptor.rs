use heic_wallpaper::builder::{build_schedule, CurrentDate, Mode, TimeSlice};
use heic_wallpaper::schema::{Background, Image, ScheduleError};
use heic_wallpaper::serializer::{save_xml, GnomeXMLBackgroundSerializer};

fn marker() -> Image {
    Image::StartTime { year: 2022, month: 5, day: 4, hour: 2, minute: 24, second: 0 }
}

fn still(idx: usize, duration: i64, file: &str) -> Image {
    Image::Static { duration, file: file.to_string(), idx }
}

fn transition(idx: usize, duration: i64, from: &str, to: &str) -> Image {
    Image::Transition {
        kind: "overlay".to_string(),
        duration,
        from: from.to_string(),
        to: to.to_string(),
        idx,
    }
}

#[test]
fn document_matches_expected_text() {
    let bg = Background {
        images: vec![
            marker(),
            still(0, 1000, "/wp/0.png"),
            transition(0, 34559000, "/wp/0.png", "/wp/1.png"),
            still(1, 1000, "/wp/1.png"),
            transition(1, 17279500, "/wp/1.png", "/wp/0.png"),
        ],
    };
    let mut ser = GnomeXMLBackgroundSerializer::new();
    ser.serialize(&bg).unwrap();
    let expected = "<background>\n\
\t<starttime>\n\
\t\t<year>2022</year>\n\
\t\t<month>5</month>\n\
\t\t<day>4</day>\n\
\t\t<hour>2</hour>\n\
\t\t<minute>24</minute>\n\
\t\t<second>0</second>\n\
\t</starttime>\n\
\t<static>\n\
\t\t<duration>1</duration>\n\
\t\t<file>/wp/0.png</file>\n\
\t</static>\n\
\t<transition type=\"overlay\">\n\
\t\t<duration>34559</duration>\n\
\t\t<from>/wp/0.png</from>\n\
\t\t<to>/wp/1.png</to>\n\
\t</transition>\n\
\t<static>\n\
\t\t<duration>1</duration>\n\
\t\t<file>/wp/1.png</file>\n\
\t</static>\n\
\t<transition type=\"overlay\">\n\
\t\t<duration>17279.5</duration>\n\
\t\t<from>/wp/1.png</from>\n\
\t\t<to>/wp/0.png</to>\n\
\t</transition>\n\
</background>";
    assert_eq!(ser.out, expected);
}

#[test]
fn missing_start_marker_is_rejected() {
    let bg = Background { images: vec![still(0, 1000, "a.png")] };
    let mut ser = GnomeXMLBackgroundSerializer::new();
    assert_eq!(ser.serialize(&bg).unwrap_err(), ScheduleError::MissingStartTime);
}

#[test]
fn empty_schedule_is_rejected() {
    let bg = Background { images: Vec::new() };
    let mut ser = GnomeXMLBackgroundSerializer::new();
    assert_eq!(ser.serialize(&bg).unwrap_err(), ScheduleError::MissingStartTime);
}

#[test]
fn duplicate_start_marker_is_rejected() {
    let bg = Background {
        images: vec![
            marker(),
            still(0, 1000, "a.png"),
            marker(),
            transition(0, 1000, "a.png", "a.png"),
        ],
    };
    let mut ser = GnomeXMLBackgroundSerializer::new();
    assert_eq!(ser.serialize(&bg).unwrap_err(), ScheduleError::DuplicateStartTime);
}

#[test]
fn save_xml_sorts_display_entries_stably_by_order() {
    let mut bg = Background {
        images: vec![
            marker(),
            transition(1, 10, "b", "a"),
            still(0, 1000, "a"),
            transition(0, 20, "a", "b"),
            still(1, 1000, "b"),
        ],
    };
    let doc = save_xml(&mut bg).unwrap();
    let keys: Vec<usize> = bg.images[1..]
        .iter()
        .map(|e| match e {
            Image::Static { idx, .. } => *idx,
            Image::Transition { idx, .. } => *idx,
            Image::StartTime { .. } => panic!("marker must stay first"),
        })
        .collect();
    assert_eq!(keys, vec![0, 0, 1, 1]);
    // Ties keep their input order: the order-1 transition was pushed
    // before the order-1 still, so it stays first.
    assert!(matches!(bg.images[1], Image::Static { .. }));
    assert!(matches!(bg.images[2], Image::Transition { .. }));
    assert!(matches!(bg.images[3], Image::Transition { .. }));
    assert!(matches!(bg.images[4], Image::Static { .. }));
    assert!(doc.contains("<to>b</to>"));
}

#[test]
fn save_xml_reports_structural_errors() {
    let mut no_marker = Background { images: vec![still(0, 1000, "a")] };
    assert_eq!(save_xml(&mut no_marker).unwrap_err(), ScheduleError::MissingStartTime);
    let mut two_markers = Background { images: vec![marker(), marker()] };
    assert_eq!(save_xml(&mut two_markers).unwrap_err(), ScheduleError::DuplicateStartTime);
}

fn tag_value<'a>(line: &'a str, open: &str, close: &str) -> &'a str {
    let start = line.find(open).expect("opening tag") + open.len();
    let end = line.rfind(close).expect("closing tag");
    &line[start..end]
}

#[test]
fn roundtrip_recovers_the_built_tuples() {
    let slices = vec![
        TimeSlice { index: 0, value: 8640000 },
        TimeSlice { index: 1, value: 43200000 },
        TimeSlice { index: 2, value: 77760000 },
    ];
    let date = CurrentDate { year: 2022, month: 5, day: 4 };
    let mut bg = build_schedule(slices, Mode::TimeOfDay, date, "/wp").unwrap();
    let doc = save_xml(&mut bg).unwrap();

    // Re-parse the structural tags of the document.
    let mut parsed: Vec<(String, String, String, String, String)> = Vec::new();
    let lines: Vec<&str> = doc.lines().collect();
    let mut i = 0;
    while i < lines.len() {
        if lines[i] == "\t<static>" {
            let duration = tag_value(lines[i + 1], "<duration>", "</duration>").to_string();
            let file = tag_value(lines[i + 2], "<file>", "</file>").to_string();
            parsed.push(("static".to_string(), duration, file, String::new(), String::new()));
            i += 4;
        } else if lines[i].starts_with("\t<transition type=\"") {
            let kind = tag_value(lines[i], "type=\"", "\">").to_string();
            let duration = tag_value(lines[i + 1], "<duration>", "</duration>").to_string();
            let from = tag_value(lines[i + 2], "<from>", "</from>").to_string();
            let to = tag_value(lines[i + 3], "<to>", "</to>").to_string();
            parsed.push(("transition".to_string(), duration, from, to, kind));
            i += 5;
        } else {
            i += 1;
        }
    }

    // The same tuples, in the same order, as the schedule holds.
    let mut expected: Vec<(String, String, String, String, String)> = Vec::new();
    for entry in &bg.images {
        match entry {
            Image::StartTime { .. } => {}
            Image::Static { duration, file, .. } => {
                expected.push((
                    "static".to_string(),
                    heic_wallpaper::numfmt::duration_string(*duration),
                    file.clone(),
                    String::new(),
                    String::new(),
                ));
            }
            Image::Transition { kind, duration, from, to, .. } => {
                expected.push((
                    "transition".to_string(),
                    heic_wallpaper::numfmt::duration_string(*duration),
                    from.clone(),
                    to.clone(),
                    kind.clone(),
                ));
            }
        }
    }
    assert_eq!(parsed, expected);
    assert_eq!(parsed.len(), 6);
    assert_eq!(parsed[1].1, "34559");
    assert_eq!(parsed[5].1, "17279");
}
