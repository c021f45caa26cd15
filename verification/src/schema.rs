//! The schedule data model: the entry sum type, the schedule aggregate,
//! and the error taxonomy of the builder and the serializer.
use vstd::prelude::*;
use vstd::string::StringExecFns;
use crate::sorting::SortKey;

verus! {

/// One entry of a wallpaper schedule. Durations are in milliseconds
/// and are rendered as decimal seconds by the serializer.
pub enum Image {
    /// The wall-clock anchor of the animation's first frame; written
    /// first and exactly once.
    StartTime { year: i32, month: u32, day: u32, hour: u32, minute: u32, second: u32 },
    /// A static display step holding one image.
    Static { duration: i64, file: String, idx: usize },
    /// An animated blend between two still frames.
    Transition { kind: String, duration: i64, from: String, to: String, idx: usize },
}

/// The mathematical model of a schedule entry: strings as character
/// sequences, numbers as unbounded integers.
pub enum EntryModel {
    Marker { year: int, month: int, day: int, hour: int, minute: int, second: int },
    Still { duration: int, file: Seq<char>, idx: int },
    Transition { kind: Seq<char>, duration: int, from: Seq<char>, to: Seq<char>, idx: int },
}

impl View for Image {
    type V = EntryModel;

    open spec fn view(&self) -> EntryModel {
        match self {
            Image::StartTime { year, month, day, hour, minute, second } => EntryModel::Marker {
                year: *year as int,
                month: *month as int,
                day: *day as int,
                hour: *hour as int,
                minute: *minute as int,
                second: *second as int,
            },
            Image::Static { duration, file, idx } => EntryModel::Still {
                duration: *duration as int,
                file: file@,
                idx: *idx as int,
            },
            Image::Transition { kind, duration, from, to, idx } => EntryModel::Transition {
                kind: kind@,
                duration: *duration as int,
                from: from@,
                to: to@,
                idx: *idx as int,
            },
        }
    }
}

impl SortKey for Image {
    /// Entries order by their display order; the start marker sorts
    /// before every display entry.
    open spec fn key(&self) -> int {
        match self {
            Image::StartTime { .. } => -1,
            Image::Static { idx, .. } => *idx as int,
            Image::Transition { idx, .. } => *idx as int,
        }
    }

    fn key_val(&self) -> (k: i128) {
        match self {
            Image::StartTime { .. } => -1,
            Image::Static { idx, .. } => *idx as i128,
            Image::Transition { idx, .. } => *idx as i128,
        }
    }
}

/// A schedule: the start marker followed by the display entries.
pub struct Background {
    pub images: Vec<Image>,
}

impl View for Background {
    type V = Seq<EntryModel>;

    open spec fn view(&self) -> Seq<EntryModel> {
        self.images@.map_values(|img: Image| img.view())
    }
}

/// A well-formed schedule stream: a start marker first and nowhere
/// else.
pub open spec fn marker_first(m: Seq<EntryModel>) -> bool {
    &&& m.len() > 0
    &&& m[0] is Marker
    &&& forall|i: int| 1 <= i < m.len() ==> !(#[trigger] m[i] is Marker)
}

/// What can go wrong while building or serializing a schedule.
/// Decoding and I/O failures belong to the callers that decode and
/// write; they never reach this library.
#[derive(Clone, Copy, Debug, PartialEq, Eq, Structural)]
pub enum ScheduleError {
    /// The timing list held no frame to anchor a start time on.
    EmptyInput,
    /// The first schedule entry was not the start marker.
    MissingStartTime,
    /// A second start marker stood later in the stream.
    DuplicateStartTime,
}

/// The reported description of each error.
pub open spec fn error_text(e: ScheduleError) -> Seq<char> {
    match e {
        ScheduleError::EmptyInput => "No image has been found"@,
        ScheduleError::MissingStartTime => "First item not startime. This is required by convention."@,
        ScheduleError::DuplicateStartTime => "Cannot define starttime multiple times."@,
    }
}

impl ScheduleError {
    /// The reported description of the error.
    pub fn message(&self) -> (s: String)
        ensures
            s@ == error_text(*self),
    {
        match self {
            ScheduleError::EmptyInput => String::from_str("No image has been found"),
            ScheduleError::MissingStartTime => String::from_str(
                "First item not startime. This is required by convention.",
            ),
            ScheduleError::DuplicateStartTime => String::from_str(
                "Cannot define starttime multiple times.",
            ),
        }
    }
}

} // verus!
