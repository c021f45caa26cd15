//! The schedule builder: normalizes timing values to milliseconds of
//! day, sorts frames into display order, derives the start time, and
//! emits the still and transition entries with their durations.
use vstd::prelude::*;
use vstd::string::StringExecFns;
use crate::MILLIS_PER_DAY;
use crate::numfmt::{dec_digits, u64_string};
use crate::schema::{Background, EntryModel, Image, ScheduleError, marker_first};
use crate::sorting::{
    SortKey, key_is, sort_by_key, sorted_by_key, stable_sort, lemma_stable_sort_permutes,
    lemma_stable_sort_sorted, lemma_stable_sort_stable,
};

verus! {

/// How the raw timing values are to be read.
#[derive(Clone, Copy, Debug, PartialEq, Eq, Structural)]
pub enum Mode {
    /// Values are day-milliseconds: milliseconds from midnight.
    TimeOfDay,
    /// Values are sun azimuths in milli-degrees, `0..360000`.
    Solar,
}

/// One timing entry from the decoded metadata: the decoder's frame id
/// and the raw timing value in the units of the mode.
#[derive(Clone, Copy, Debug, PartialEq, Eq, Structural)]
pub struct TimeSlice {
    pub index: usize,
    pub value: u64,
}

/// A frame with its normalized time of day.
#[derive(Clone, Copy, Debug, PartialEq, Eq, Structural)]
pub struct FrameDescriptor {
    /// Position in the decoder's native frame-id table; used only to
    /// fetch the right bitmap.
    pub original_index: usize,
    /// Time of day in milliseconds from midnight.
    pub time_millis: u64,
}

impl SortKey for FrameDescriptor {
    open spec fn key(&self) -> int {
        self.time_millis as int
    }

    fn key_val(&self) -> (k: i128) {
        self.time_millis as i128
    }
}

/// The calendar date the start marker is anchored on.
#[derive(Clone, Copy, Debug, PartialEq, Eq, Structural)]
pub struct CurrentDate {
    pub year: i32,
    pub month: u32,
    pub day: u32,
}

/// One milli-degree of sun azimuth is 240 milliseconds of day:
/// a full day over a full turn of 360000 milli-degrees.
pub const MILLIS_PER_MILLIDEGREE: u64 = 240;

/// A raw timing value as milliseconds of day.
pub open spec fn normalized_millis(mode: Mode, value: u64) -> int {
    match mode {
        Mode::TimeOfDay => value as int,
        Mode::Solar => value as int * MILLIS_PER_MILLIDEGREE as int,
    }
}

/// The raw value lies in the range its mode promises: a day fraction
/// below one day, or an azimuth below a full turn.
pub open spec fn slice_valid(mode: Mode, ts: TimeSlice) -> bool {
    match mode {
        Mode::TimeOfDay => ts.value < MILLIS_PER_DAY,
        Mode::Solar => ts.value < 360000,
    }
}

pub open spec fn slices_valid(mode: Mode, s: Seq<TimeSlice>) -> bool {
    forall|i: int| 0 <= i < s.len() ==> slice_valid(mode, #[trigger] s[i])
}

/// The frames a timing list yields, in input order.
pub open spec fn normalize_spec(mode: Mode, s: Seq<TimeSlice>) -> Seq<FrameDescriptor> {
    s.map_values(
        |ts: TimeSlice|
            FrameDescriptor {
                original_index: ts.index,
                time_millis: normalized_millis(mode, ts.value) as u64,
            },
    )
}

/// The frames in display order: stably sorted by time of day, so
/// equal times keep their input order.
pub open spec fn sorted_frames_spec(mode: Mode, s: Seq<TimeSlice>) -> Seq<FrameDescriptor> {
    stable_sort(normalize_spec(mode, s))
}

/// The times of day of a frame list.
pub open spec fn times_of(frames: Seq<FrameDescriptor>) -> Seq<u64> {
    frames.map_values(|f: FrameDescriptor| f.time_millis)
}

/// The raster path of the frame at display order `i`.
pub open spec fn frame_path(dir: Seq<char>, i: int) -> Seq<char> {
    dir + "/"@ + dec_digits(i as nat) + ".png"@
}

/// The start marker: the date, and the order-zero frame's time of day
/// split into hour, minute and second.
pub open spec fn marker_model(date: CurrentDate, t0: int) -> EntryModel {
    EntryModel::Marker {
        year: date.year as int,
        month: date.month as int,
        day: date.day as int,
        hour: t0 / 1000 / 3600,
        minute: t0 / 1000 % 3600 / 60,
        second: t0 / 1000 % 60,
    }
}

/// The still entry of the frame at display order `i`: a fixed hold of
/// one second on that frame's raster file.
pub open spec fn still_model(dir: Seq<char>, i: int) -> EntryModel {
    EntryModel::Still { duration: 1000, file: frame_path(dir, i), idx: i }
}

pub open spec fn abs_diff(a: int, b: int) -> int {
    if a >= b {
        a - b
    } else {
        b - a
    }
}

/// The least whole number of seconds at or above `v` milliseconds.
pub open spec fn ceil_div_1000(v: int) -> int {
    if v % 1000 == 0 {
        v / 1000
    } else {
        v / 1000 + 1
    }
}

/// The duration in milliseconds of the transition leaving the frame at
/// display order `i`: the gap to the next frame less the one-second
/// hold; for the last frame, the wrap-around gap to the order-zero
/// frame, rounded up to whole seconds.
pub open spec fn transition_millis(times: Seq<u64>, i: int) -> int {
    if i < times.len() - 1 {
        abs_diff(times[i] as int, times[i + 1] as int) - 1000
    } else {
        ceil_div_1000(
            abs_diff(times[i] as int, MILLIS_PER_DAY as int) + times[0] - 1000,
        ) * 1000
    }
}

/// The transition entry of the frame at display order `i`; the last
/// one points back to the order-zero frame, closing the cycle.
pub open spec fn transition_model(times: Seq<u64>, dir: Seq<char>, i: int) -> EntryModel {
    EntryModel::Transition {
        kind: "overlay"@,
        duration: transition_millis(times, i),
        from: frame_path(dir, i),
        to: frame_path(
            dir,
            if i < times.len() - 1 {
                i + 1
            } else {
                0
            },
        ),
        idx: i,
    }
}

/// The still and transition entries of the first `k` frames.
pub open spec fn schedule_prefix(times: Seq<u64>, dir: Seq<char>, k: int) -> Seq<EntryModel>
    decreases k,
{
    if k <= 0 {
        Seq::empty()
    } else {
        schedule_prefix(times, dir, k - 1)
            + seq![still_model(dir, k - 1), transition_model(times, dir, k - 1)]
    }
}

/// The whole schedule: the start marker, then the entries of every
/// frame in display order.
pub open spec fn schedule_model(times: Seq<u64>, date: CurrentDate, dir: Seq<char>) -> Seq<
    EntryModel,
> {
    seq![marker_model(date, times[0] as int)] + schedule_prefix(times, dir, times.len() as int)
}

/// The raster path of the frame at display order `i`.
pub fn frame_path_string(dir: &str, i: usize) -> (s: String)
    ensures
        s@ == frame_path(dir@, i as int),
{
    let mut s = String::from_str(dir);
    s.append("/");
    let digits = u64_string(i as u64);
    s.append(digits.as_str());
    s.append(".png");
    proof {
        assert(i as u64 as nat == i as nat);
        assert(s@ =~= frame_path(dir@, i as int));
    }
    s
}

/// Normalizes the timing list and sorts the frames into display
/// order: ascending time of day, ties in input order.
pub fn sorted_frames(slices: Vec<TimeSlice>, mode: Mode) -> (r: Vec<FrameDescriptor>)
    requires
        slices_valid(mode, slices@),
    ensures
        r@ == sorted_frames_spec(mode, slices@),
{
    let ghost gs = slices@;
    let mut frames: Vec<FrameDescriptor> = Vec::new();
    let mut i: usize = 0;
    proof {
        assert(frames@ =~= normalize_spec(mode, gs.take(0)));
    }
    while i < slices.len()
        invariant
            i <= slices.len(),
            slices@ == gs,
            slices_valid(mode, gs),
            frames@ == normalize_spec(mode, gs.take(i as int)),
        decreases slices@.len() - i,
    {
        let ts = slices[i];
        let tm: u64 = match mode {
            Mode::TimeOfDay => ts.value,
            Mode::Solar => ts.value * MILLIS_PER_MILLIDEGREE,
        };
        frames.push(FrameDescriptor { original_index: ts.index, time_millis: tm });
        proof {
            assert(gs.take(i as int + 1).drop_last() =~= gs.take(i as int));
            assert(frames@ =~= normalize_spec(mode, gs.take(i as int + 1)));
        }
        i = i + 1;
    }
    proof {
        assert(gs.take(gs.len() as int) =~= gs);
    }
    sort_by_key(frames)
}

/// Every frame the sort hands back keeps a time of day below one day
/// when the timing list was valid.
pub proof fn lemma_sorted_frames_bounded(mode: Mode, s: Seq<TimeSlice>)
    requires
        slices_valid(mode, s),
    ensures
        forall|i: int|
            0 <= i < sorted_frames_spec(mode, s).len() ==> (
            #[trigger] sorted_frames_spec(mode, s)[i]).time_millis < MILLIS_PER_DAY,
        sorted_frames_spec(mode, s).len() == s.len(),
{
    let norm = normalize_spec(mode, s);
    let sorted = sorted_frames_spec(mode, s);
    assert(forall|j: int|
        0 <= j < norm.len() ==> (#[trigger] norm[j]).time_millis < MILLIS_PER_DAY);
    lemma_stable_sort_permutes(norm);
    norm.to_multiset_ensures();
    sorted.to_multiset_ensures();
    assert forall|i: int| 0 <= i < sorted.len() implies (
    #[trigger] sorted[i]).time_millis < MILLIS_PER_DAY by {
        assert(sorted.contains(sorted[i]));
        assert(norm.to_multiset().count(sorted[i]) > 0);
        assert(norm.contains(sorted[i]));
        let j = choose|j: int| 0 <= j < norm.len() && norm[j] == sorted[i];
        assert(norm[j].time_millis < MILLIS_PER_DAY);
    }
}

/// The display order the sort yields is by ascending time of day.
pub proof fn lemma_sorted_frames_sorted(mode: Mode, s: Seq<TimeSlice>)
    ensures
        sorted_by_key(sorted_frames_spec(mode, s)),
        forall|a: int, b: int|
            0 <= a <= b < sorted_frames_spec(mode, s).len() ==> (
            #[trigger] sorted_frames_spec(mode, s)[a]).time_millis <= (
            #[trigger] sorted_frames_spec(mode, s)[b]).time_millis,
{
    lemma_stable_sort_sorted(normalize_spec(mode, s));
    let sorted = sorted_frames_spec(mode, s);
    assert forall|a: int, b: int| 0 <= a <= b < sorted.len() implies (
    #[trigger] sorted[a]).time_millis <= (#[trigger] sorted[b]).time_millis by {
        assert(sorted[a].key() <= sorted[b].key());
    }
}

/// Stability of the display order: for any time of day, the frames
/// carrying exactly that time come out of the sort in their input
/// order, so equal timing values never swap.
pub proof fn lemma_frames_stable(mode: Mode, s: Seq<TimeSlice>, k: int)
    ensures
        sorted_frames_spec(mode, s).filter(key_is(k)) == normalize_spec(mode, s).filter(
            key_is(k),
        ),
{
    lemma_stable_sort_stable(normalize_spec(mode, s), k);
}

/// The data one frame's schedule entries are computed from.
pub struct ImagePoint {
    /// The frame's display order.
    pub index: usize,
    /// How many frames the schedule has.
    pub total: usize,
    /// The directory the raster files are written into.
    pub parent_directory: String,
    /// The order-zero frame's time of day, milliseconds from midnight.
    pub start_time: u64,
    /// This frame's time of day.
    pub time: u64,
    /// The next frame's time of day; unused for the last frame.
    pub next_time: u64,
}

pub open spec fn point_valid(pt: ImagePoint) -> bool {
    &&& pt.index < pt.total
    &&& pt.time < MILLIS_PER_DAY
    &&& pt.next_time < MILLIS_PER_DAY
    &&& pt.start_time < MILLIS_PER_DAY
}

/// The duration of the transition that follows this frame.
pub open spec fn point_transition_millis(pt: ImagePoint) -> int {
    if pt.index < pt.total - 1 {
        abs_diff(pt.time as int, pt.next_time as int) - 1000
    } else {
        ceil_div_1000(
            abs_diff(pt.time as int, MILLIS_PER_DAY as int) + pt.start_time - 1000,
        ) * 1000
    }
}

/// The two entries this frame contributes: its still hold and the
/// transition leaving it.
pub open spec fn point_entries(pt: ImagePoint) -> Seq<EntryModel> {
    seq![
        EntryModel::Still {
            duration: 1000,
            file: frame_path(pt.parent_directory@, pt.index as int),
            idx: pt.index as int,
        },
        EntryModel::Transition {
            kind: "overlay"@,
            duration: point_transition_millis(pt),
            from: frame_path(pt.parent_directory@, pt.index as int),
            to: frame_path(
                pt.parent_directory@,
                if pt.index < pt.total - 1 {
                    pt.index as int + 1
                } else {
                    0
                },
            ),
            idx: pt.index as int,
        },
    ]
}

fn abs_diff_u64(a: u64, b: u64) -> (r: u64)
    ensures
        r == abs_diff(a as int, b as int),
{
    if a >= b {
        a - b
    } else {
        b - a
    }
}

/// Rounds a millisecond count up to the next whole second.
fn ceil_to_whole_seconds(v: i64) -> (r: i64)
    requires
        -1000000000 <= v <= 1000000000,
    ensures
        r == ceil_div_1000(v as int) * 1000,
{
    if v >= 0 {
        let q = v / 1000;
        let rem = v % 1000;
        if rem == 0 {
            q * 1000
        } else {
            (q + 1) * 1000
        }
    } else {
        let a = -v;
        let q = a / 1000;
        let rem = a % 1000;
        proof {
            let vi = v as int;
            let qi = a as int / 1000;
            let ri = a as int % 1000;
            assert(vi == -1000 * qi - ri);
            if ri == 0 {
                assert(vi / 1000 == -qi && vi % 1000 == 0) by (nonlinear_arith)
                    requires
                        vi == -1000 * qi,
                        qi >= 0,
                ;
            } else {
                assert(vi / 1000 == -qi - 1 && vi % 1000 == 1000 - ri) by (nonlinear_arith)
                    requires
                        vi == -1000 * qi - ri,
                        0 < ri < 1000,
                        qi >= 0,
                ;
            }
        }
        -(q * 1000)
    }
}

/// Emits the still entry of the frame at `pt.index` and the transition
/// that follows it, appending both to the schedule.
pub fn process_img(pt: &ImagePoint, background: &mut Background)
    requires
        point_valid(*pt),
    ensures
        final(background)@ == old(background)@ + point_entries(*pt),
{
    let file = frame_path_string(pt.parent_directory.as_str(), pt.index);
    let from = frame_path_string(pt.parent_directory.as_str(), pt.index);
    let to_index = if pt.index < pt.total - 1 {
        pt.index + 1
    } else {
        0
    };
    let to = frame_path_string(pt.parent_directory.as_str(), to_index);
    let duration: i64 = if pt.index < pt.total - 1 {
        abs_diff_u64(pt.time, pt.next_time) as i64 - 1000
    } else {
        let gap = abs_diff_u64(pt.time, MILLIS_PER_DAY) as i64 + pt.start_time as i64 - 1000;
        ceil_to_whole_seconds(gap)
    };
    background.images.push(Image::Static { duration: 1000, file, idx: pt.index });
    background.images.push(
        Image::Transition { kind: String::from_str("overlay"), duration, from, to, idx: pt.index },
    );
    proof {
        assert(background@ =~= old(background)@ + point_entries(*pt));
    }
}

/// Builds the whole schedule from a timing list: fails on an empty
/// list, otherwise sorts the frames, anchors the start marker on the
/// order-zero frame's time of day under the given date, and emits one
/// still and one transition entry per frame.
pub fn build_schedule(slices: Vec<TimeSlice>, mode: Mode, date: CurrentDate, dir: &str) -> (r:
    Result<Background, ScheduleError>)
    requires
        slices_valid(mode, slices@),
    ensures
        match r {
            Ok(b) => slices@.len() > 0 && b@ == schedule_model(
                times_of(sorted_frames_spec(mode, slices@)),
                date,
                dir@,
            ),
            Err(e) => e == ScheduleError::EmptyInput && slices@.len() == 0,
        },
{
    if slices.len() == 0 {
        return Err(ScheduleError::EmptyInput);
    }
    let ghost gs = slices@;
    proof {
        lemma_sorted_frames_bounded(mode, gs);
    }
    let frames = sorted_frames(slices, mode);
    let ghost times = times_of(frames@);
    let n = frames.len();
    let t0 = frames[0].time_millis;
    let mut bg = Background { images: Vec::new() };
    let start_seconds = t0 / 1000;
    bg.images.push(
        Image::StartTime {
            year: date.year,
            month: date.month,
            day: date.day,
            hour: (start_seconds / 3600) as u32,
            minute: (start_seconds % 3600 / 60) as u32,
            second: (start_seconds % 60) as u32,
        },
    );
    proof {
        assert(bg@ =~= seq![marker_model(date, times[0] as int)]
            + schedule_prefix(times, dir@, 0));
    }
    let mut i: usize = 0;
    while i < n
        invariant
            n == frames@.len(),
            0 < n <= usize::MAX,
            i <= n,
            times == times_of(frames@),
            t0 == frames@[0].time_millis,
            forall|j: int|
                0 <= j < frames@.len() ==> (#[trigger] frames@[j]).time_millis < MILLIS_PER_DAY,
            bg@ == seq![marker_model(date, times[0] as int)] + schedule_prefix(
                times,
                dir@,
                i as int,
            ),
        decreases n - i,
    {
        let pt = ImagePoint {
            index: i,
            total: n,
            parent_directory: String::from_str(dir),
            start_time: t0,
            time: frames[i].time_millis,
            next_time: if i + 1 < n {
                frames[i + 1].time_millis
            } else {
                0
            },
        };
        process_img(&pt, &mut bg);
        proof {
            assert(point_entries(pt) =~= seq![
                still_model(dir@, i as int),
                transition_model(times, dir@, i as int),
            ]);
            assert(bg@ =~= seq![marker_model(date, times[0] as int)] + schedule_prefix(
                times,
                dir@,
                i as int + 1,
            ));
        }
        i = i + 1;
    }
    Ok(bg)
}

/// Relies on chrono::Local::now and chrono::Datelike: the machine's
/// current local calendar date, with month in 1..=12 and day in 1..=31.
#[verifier::external_body]
fn current_local_date() -> (d: CurrentDate)
    ensures
        1 <= d.month <= 12,
        1 <= d.day <= 31,
{
    let now = chrono::Local::now();
    CurrentDate {
        year: chrono::Datelike::year(&now),
        month: chrono::Datelike::month(&now),
        day: chrono::Datelike::day(&now),
    }
}

/// Builds the schedule anchored on the machine's current local date,
/// as a conversion run does.
pub fn build_schedule_today(slices: Vec<TimeSlice>, mode: Mode, dir: &str) -> (r: Result<
    Background,
    ScheduleError,
>)
    requires
        slices_valid(mode, slices@),
    ensures
        match r {
            Ok(b) => slices@.len() > 0 && exists|date: CurrentDate|
                1 <= date.month <= 12 && 1 <= date.day <= 31 && b@ == schedule_model(
                    times_of(sorted_frames_spec(mode, slices@)),
                    date,
                    dir@,
                ),
            Err(e) => e == ScheduleError::EmptyInput && slices@.len() == 0,
        },
{
    let date = current_local_date();
    let r = build_schedule(slices, mode, date, dir);
    proof {
        if r is Ok {
            let b = r->Ok_0;
            assert(1 <= date.month <= 12 && 1 <= date.day <= 31 && b@ == schedule_model(
                times_of(sorted_frames_spec(mode, slices@)),
                date,
                dir@,
            ));
        }
    }
    r
}

/// The still and transition entries of the first `k` frames stand in
/// pairs: the still of frame `i` at position `2 i`, its transition at
/// `2 i + 1`, and nothing else — in particular no start marker.
proof fn lemma_prefix_shape(times: Seq<u64>, dir: Seq<char>, k: int)
    requires
        0 <= k,
    ensures
        schedule_prefix(times, dir, k).len() == 2 * k,
        forall|i: int|
            0 <= i < k ==> #[trigger] schedule_prefix(times, dir, k)[2 * i] == still_model(dir, i),
        forall|i: int|
            0 <= i < k ==> #[trigger] schedule_prefix(times, dir, k)[2 * i + 1]
                == transition_model(times, dir, i),
        forall|j: int| 0 <= j < 2 * k ==> !(#[trigger] schedule_prefix(times, dir, k)[j] is Marker),
    decreases k,
{
    if k > 0 {
        lemma_prefix_shape(times, dir, k - 1);
        let p = schedule_prefix(times, dir, k);
        let q = schedule_prefix(times, dir, k - 1);
        assert forall|j: int| 0 <= j < 2 * k implies !(#[trigger] p[j] is Marker) by {
            if j < 2 * (k - 1) {
                assert(p[j] == q[j]);
            }
        }
    }
}

/// For any non-empty frame list the schedule has exactly one start
/// marker, standing first, and then for each display order `i` in
/// `0..n` exactly one still and one transition entry carrying `i`:
/// the orders cover `0..n` without gaps or duplicates.
pub proof fn lemma_schedule_shape(times: Seq<u64>, date: CurrentDate, dir: Seq<char>)
    requires
        times.len() > 0,
    ensures
        schedule_model(times, date, dir).len() == 1 + 2 * times.len(),
        schedule_model(times, date, dir)[0] == marker_model(date, times[0] as int),
        forall|i: int|
            0 <= i < times.len() ==> #[trigger] schedule_model(times, date, dir)[2 * i + 1]
                == still_model(dir, i),
        forall|i: int|
            0 <= i < times.len() ==> #[trigger] schedule_model(times, date, dir)[2 * i + 2]
                == transition_model(times, dir, i),
        marker_first(schedule_model(times, date, dir)),
{
    let n = times.len() as int;
    lemma_prefix_shape(times, dir, n);
    let m = schedule_model(times, date, dir);
    let p = schedule_prefix(times, dir, n);
    assert forall|i: int| 0 <= i < n implies #[trigger] m[2 * i + 1] == still_model(dir, i) by {
        assert(m[2 * i + 1] == p[2 * i]);
    }
    assert forall|i: int| 0 <= i < n implies #[trigger] m[2 * i + 2] == transition_model(
        times,
        dir,
        i,
    ) by {
        assert(m[2 * i + 2] == p[2 * i + 1]);
    }
    assert forall|j: int| 1 <= j < m.len() implies !(#[trigger] m[j] is Marker) by {
        assert(m[j] == p[j - 1]);
    }
}

/// Cycle closure: the schedule's last entry is the closing transition,
/// and its target is the order-zero frame's raster path, whatever the
/// frame count.
pub proof fn lemma_cycle_closure(times: Seq<u64>, date: CurrentDate, dir: Seq<char>)
    requires
        times.len() > 0,
    ensures
        schedule_model(times, date, dir).last() == transition_model(
            times,
            dir,
            times.len() - 1,
        ),
        schedule_model(times, date, dir).last()->Transition_to == frame_path(dir, 0),
{
    let n = times.len() as int;
    lemma_schedule_shape(times, date, dir);
    let m = schedule_model(times, date, dir);
    assert(m.last() == m[2 * (n - 1) + 2]);
}

/// The duration a display entry carries.
pub open spec fn entry_duration(e: EntryModel) -> int {
    match e {
        EntryModel::Marker { .. } => 0,
        EntryModel::Still { duration, .. } => duration,
        EntryModel::Transition { duration, .. } => duration,
    }
}

/// The duration floor over a whole built schedule: with a valid
/// timing list, every display entry of the schedule the builder
/// produces keeps a duration of at least minus one second.
pub proof fn lemma_built_durations_floor(
    mode: Mode,
    s: Seq<TimeSlice>,
    date: CurrentDate,
    dir: Seq<char>,
)
    requires
        slices_valid(mode, s),
        s.len() > 0,
    ensures
        forall|j: int|
            1 <= j < schedule_model(times_of(sorted_frames_spec(mode, s)), date, dir).len()
                ==> entry_duration(
                #[trigger] schedule_model(times_of(sorted_frames_spec(mode, s)), date, dir)[j],
            ) >= -1000,
{
    let frames = sorted_frames_spec(mode, s);
    let times = times_of(frames);
    let m = schedule_model(times, date, dir);
    lemma_sorted_frames_bounded(mode, s);
    lemma_sorted_frames_sorted(mode, s);
    lemma_schedule_shape(times, date, dir);
    assert forall|a: int| 0 <= a < times.len() implies #[trigger] times[a] < MILLIS_PER_DAY by {
        assert(times[a] == frames[a].time_millis);
    }
    assert forall|a: int, b: int| 0 <= a <= b < times.len() implies #[trigger] times[a]
        <= #[trigger] times[b] by {
        assert(times[a] == frames[a].time_millis && times[b] == frames[b].time_millis);
    }
    assert forall|j: int| 1 <= j < m.len() implies entry_duration(#[trigger] m[j]) >= -1000 by {
        if j % 2 == 1 {
            let i = (j - 1) / 2;
            assert(j == 2 * i + 1);
            assert(m[2 * i + 1] == still_model(dir, i));
        } else {
            let i = (j - 2) / 2;
            assert(j == 2 * i + 2);
            assert(m[2 * i + 2] == transition_model(times, dir, i));
            lemma_duration_floor(times, i);
        }
    }
}

/// The duration floor: over a sorted, valid frame list every
/// transition duration is at least minus one second — the gap formula
/// is not clamped, but it cannot fall further — and the closing
/// transition is never negative.
pub proof fn lemma_duration_floor(times: Seq<u64>, i: int)
    requires
        0 <= i < times.len(),
        forall|a: int, b: int|
            0 <= a <= b < times.len() ==> #[trigger] times[a] <= #[trigger] times[b],
        forall|a: int| 0 <= a < times.len() ==> #[trigger] times[a] < MILLIS_PER_DAY,
    ensures
        transition_millis(times, i) >= -1000,
        i == times.len() - 1 ==> transition_millis(times, i) >= 0,
{
    if i < times.len() - 1 {
        assert(times[i] <= times[i + 1]);
    } else {
        let v = abs_diff(times[i] as int, MILLIS_PER_DAY as int) + times[0] - 1000;
        assert(v >= -999);
        assert(ceil_div_1000(v) >= 0) by {
            if v >= 0 {
                assert(v / 1000 >= 0);
            } else {
                assert(v / 1000 == -1 && v % 1000 != 0) by (nonlinear_arith)
                    requires
                        -999 <= v <= -1,
                ;
            }
        }
    }
}

} // verus!
