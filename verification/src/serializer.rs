//! Renders a schedule into the structured-text descriptor the
//! wallpaper renderer consumes, enforcing the "start marker first,
//! exactly once" invariant.
use vstd::prelude::*;
use vstd::string::StringExecFns;
use crate::numfmt::{duration_digits, duration_string, i64_string, int_digits, u64_string};
use crate::schema::{Background, EntryModel, Image, ScheduleError, marker_first};
use crate::sorting::{sort_by_key, stable_sort};

verus! {

/// The start-time block of the document.
pub open spec fn marker_xml(
    year: int,
    month: int,
    day: int,
    hour: int,
    minute: int,
    second: int,
) -> Seq<char> {
    "<background>\n"@ + "\t<starttime>\n"@ + "\t\t<year>"@ + int_digits(year) + "</year>\n"@
        + "\t\t<month>"@ + int_digits(month) + "</month>\n"@ + "\t\t<day>"@ + int_digits(day)
        + "</day>\n"@ + "\t\t<hour>"@ + int_digits(hour) + "</hour>\n"@ + "\t\t<minute>"@
        + int_digits(minute) + "</minute>\n"@ + "\t\t<second>"@ + int_digits(second)
        + "</second>\n"@ + "\t</starttime>\n"@
}

/// The start-time block of a marker entry.
pub open spec fn header_xml(e: EntryModel) -> Seq<char> {
    marker_xml(
        e->Marker_year,
        e->Marker_month,
        e->Marker_day,
        e->Marker_hour,
        e->Marker_minute,
        e->Marker_second,
    )
}

/// A static block: a duration in decimal seconds and a file path.
pub open spec fn still_xml(duration: int, file: Seq<char>) -> Seq<char> {
    "\t<static>\n"@ + "\t\t<duration>"@ + duration_digits(duration) + "</duration>\n"@
        + "\t\t<file>"@ + file + "</file>\n"@ + "\t</static>\n"@
}

/// A transition block: the blend kind, a duration in decimal seconds,
/// and the two paths blended between.
pub open spec fn transition_xml(
    kind: Seq<char>,
    duration: int,
    from: Seq<char>,
    to: Seq<char>,
) -> Seq<char> {
    "\t<transition type=\""@ + kind + "\">\n"@ + "\t\t<duration>"@ + duration_digits(duration)
        + "</duration>\n"@ + "\t\t<from>"@ + from + "</from>\n"@ + "\t\t<to>"@ + to + "</to>\n"@
        + "\t</transition>\n"@
}

/// The block a display entry renders to. A marker never stands among
/// the display entries of a well-formed schedule.
pub open spec fn entry_xml(e: EntryModel) -> Seq<char> {
    match e {
        EntryModel::Marker { .. } => Seq::empty(),
        EntryModel::Still { duration, file, idx } => still_xml(duration, file),
        EntryModel::Transition { kind, duration, from, to, idx } => transition_xml(
            kind,
            duration,
            from,
            to,
        ),
    }
}

/// The blocks of the display entries before position `k`.
pub open spec fn body_xml(m: Seq<EntryModel>, k: int) -> Seq<char>
    decreases k,
{
    if k <= 1 {
        Seq::empty()
    } else {
        body_xml(m, k - 1) + entry_xml(m[k - 1])
    }
}

/// The whole document of a well-formed schedule: the start-time block,
/// every display entry's block in order, and the closing tag.
pub open spec fn xml_model(m: Seq<EntryModel>) -> Seq<char>
    recommends
        marker_first(m),
{
    header_xml(m[0]) + body_xml(m, m.len() as int) + "</background>"@
}

/// Renders schedules into the descriptor text, accumulating the
/// document in `out`.
pub struct GnomeXMLBackgroundSerializer {
    pub out: String,
}

impl GnomeXMLBackgroundSerializer {
    /// A serializer with an empty output buffer.
    pub fn new() -> (s: Self)
        ensures
            s.out@ == Seq::<char>::empty(),
    {
        GnomeXMLBackgroundSerializer { out: String::new() }
    }

    /// Renders `background` and appends the document to `out`.
    /// Fails with `MissingStartTime` unless the first entry is the
    /// start marker, and with `DuplicateStartTime` on any later
    /// marker; on failure `out` may hold a partial document.
    #[verifier::rlimit(60)]
    pub fn serialize(&mut self, background: &Background) -> (r: Result<(), ScheduleError>)
        ensures
            match r {
                Ok(()) => marker_first(background@) && final(self).out@ == old(self).out@
                    + xml_model(background@),
                Err(ScheduleError::MissingStartTime) => !(background@.len() > 0 && background@[0]
                    is Marker),
                Err(ScheduleError::DuplicateStartTime) => background@.len() > 0 && background@[0]
                    is Marker && exists|i: int|
                    1 <= i < background@.len() && #[trigger] background@[i] is Marker,
                Err(ScheduleError::EmptyInput) => false,
            },
    {
        let ghost m = background@;
        let n = background.images.len();
        if n == 0 {
            return Err(ScheduleError::MissingStartTime);
        }
        let head = &background.images[0];
        match head {
            Image::StartTime { year, month, day, hour, minute, second } => {
                self.out.append("<background>\n");
                self.out.append("\t<starttime>\n");
                self.out.append("\t\t<year>");
                let ys = i64_string(*year as i64);
                self.out.append(ys.as_str());
                self.out.append("</year>\n");
                self.out.append("\t\t<month>");
                let mos = u64_string(*month as u64);
                self.out.append(mos.as_str());
                self.out.append("</month>\n");
                self.out.append("\t\t<day>");
                let ds = u64_string(*day as u64);
                self.out.append(ds.as_str());
                self.out.append("</day>\n");
                self.out.append("\t\t<hour>");
                let hs = u64_string(*hour as u64);
                self.out.append(hs.as_str());
                self.out.append("</hour>\n");
                self.out.append("\t\t<minute>");
                let mis = u64_string(*minute as u64);
                self.out.append(mis.as_str());
                self.out.append("</minute>\n");
                self.out.append("\t\t<second>");
                let ss = u64_string(*second as u64);
                self.out.append(ss.as_str());
                self.out.append("</second>\n");
                self.out.append("\t</starttime>\n");
                proof {
                    assert(self.out@ =~= old(self).out@ + header_xml(m[0]));
                }
            },
            _ => {
                return Err(ScheduleError::MissingStartTime);
            },
        }
        let mut i: usize = 1;
        while i < n
            invariant
                1 <= i <= n,
                n == background.images@.len(),
                m == background@,
                m[0] is Marker,
                forall|j: int| 1 <= j < i ==> !(#[trigger] m[j] is Marker),
                self.out@ == old(self).out@ + header_xml(m[0]) + body_xml(m, i as int),
            decreases n - i,
        {
            let entry = &background.images[i];
            match entry {
                Image::Static { duration, file, idx } => {
                    self.out.append("\t<static>\n");
                    self.out.append("\t\t<duration>");
                    let ds = duration_string(*duration);
                    self.out.append(ds.as_str());
                    self.out.append("</duration>\n");
                    self.out.append("\t\t<file>");
                    self.out.append(file.as_str());
                    self.out.append("</file>\n");
                    self.out.append("\t</static>\n");
                    proof {
                        assert(self.out@ =~= old(self).out@ + header_xml(m[0]) + body_xml(
                            m,
                            i as int + 1,
                        ));
                    }
                },
                Image::Transition { kind, duration, from, to, idx } => {
                    self.out.append("\t<transition type=\"");
                    self.out.append(kind.as_str());
                    self.out.append("\">\n");
                    self.out.append("\t\t<duration>");
                    let ds = duration_string(*duration);
                    self.out.append(ds.as_str());
                    self.out.append("</duration>\n");
                    self.out.append("\t\t<from>");
                    self.out.append(from.as_str());
                    self.out.append("</from>\n");
                    self.out.append("\t\t<to>");
                    self.out.append(to.as_str());
                    self.out.append("</to>\n");
                    self.out.append("\t</transition>\n");
                    proof {
                        assert(self.out@ =~= old(self).out@ + header_xml(m[0]) + body_xml(
                            m,
                            i as int + 1,
                        ));
                    }
                },
                Image::StartTime { .. } => {
                    proof {
                        assert(m[i as int] is Marker);
                    }
                    return Err(ScheduleError::DuplicateStartTime);
                },
            }
            i = i + 1;
        }
        self.out.append("</background>");
        proof {
            assert(self.out@ =~= old(self).out@ + xml_model(m));
        }
        Ok(())
    }
}

/// Sorts the display entries ascending by their order — stably, and
/// without moving the leading entry — then renders the document.
/// The schedule is left in the sorted state the serializer saw.
pub fn save_xml(xml: &mut Background) -> (r: Result<String, ScheduleError>)
    ensures
        old(xml).images@.len() == 0 ==> final(xml).images@ == old(xml).images@,
        old(xml).images@.len() > 0 ==> final(xml).images@ == seq![old(xml).images@[0]]
            + stable_sort(old(xml).images@.skip(1)),
        match r {
            Ok(doc) => marker_first(final(xml)@) && doc@ == xml_model(final(xml)@),
            Err(ScheduleError::MissingStartTime) => !(final(xml)@.len() > 0 && final(xml)@[0]
                is Marker),
            Err(ScheduleError::DuplicateStartTime) => final(xml)@.len() > 0 && final(xml)@[0]
                is Marker && exists|i: int|
                1 <= i < final(xml)@.len() && #[trigger] final(xml)@[i] is Marker,
            Err(ScheduleError::EmptyInput) => false,
        },
{
    if xml.images.len() > 0 {
        let tail = xml.images.split_off(1);
        proof {
            assert(old(xml).images@.subrange(1, old(xml).images@.len() as int) =~= old(
                xml,
            ).images@.skip(1));
        }
        let mut sorted = sort_by_key(tail);
        xml.images.append(&mut sorted);
        proof {
            assert(xml.images@ =~= seq![old(xml).images@[0]] + stable_sort(
                old(xml).images@.skip(1),
            ));
        }
    }
    let mut ser = GnomeXMLBackgroundSerializer::new();
    match ser.serialize(xml) {
        Ok(()) => Ok(ser.out),
        Err(e) => Err(e),
    }
}

} // verus!
