//! The version-numbering grammar: which representation governs each of the
//! major, minor and patch slots, and which prerelease channel format (if
//! any) governs the prerelease slot.
//!
//! A `VersionFormat` is the parsed, validated form of a format string such
//! as `"vCC.CC.CC-rc.CC"` or `"YYYY.CC.CC-<sha>"`.  Each executable type
//! has a mathematical view (`...V`) that the contracts speak about.

use crate::time::CalendarStamp;
use crate::time::MAX_EPOCH_SECS;
use vstd::prelude::*;

verus! {

/// One calendar segment of a calendar-based version number.
#[derive(Clone, Copy, Debug, PartialEq, Eq, Structural)]
pub enum CalVerFormatSegment {
    /// Four-digit year, token `YYYY`.
    Year4,
    /// Two-digit year, token `YY`.
    Year2,
    /// Seconds since the Unix epoch, token `E`.
    Epoch,
    /// Two-digit month, token `MM`.
    Month,
    /// Two-digit day of the month, token `DD`.
    Day,
    /// Three-digit day of the year, token `DDD`.
    DayOfYear,
    /// Two-digit hour, token `HH`.
    Hour,
    /// Two-digit minute, token `mm`.
    Minute,
    /// Two-digit second, token `SS`.
    Second,
}

/// A calendar version-number format: its segments, most significant first.
pub type CalVerFormat = Vec<CalVerFormatSegment>;

impl CalVerFormatSegment {
    /// Significance of a segment: a segment may only be followed by
    /// segments of equal or lower significance.  The three year-scale
    /// segments share the top rank.
    pub open spec fn spec_rank(self) -> u64 {
        match self {
            CalVerFormatSegment::Year4 => 6,
            CalVerFormatSegment::Year2 => 6,
            CalVerFormatSegment::Epoch => 6,
            CalVerFormatSegment::DayOfYear => 5,
            CalVerFormatSegment::Month => 4,
            CalVerFormatSegment::Day => 3,
            CalVerFormatSegment::Hour => 2,
            CalVerFormatSegment::Minute => 1,
            CalVerFormatSegment::Second => 0,
        }
    }

    /// Significance rank, executable form.
    pub fn rank(self) -> (r: u64)
        ensures
            r == self.spec_rank(),
    {
        match self {
            CalVerFormatSegment::Year4 => 6,
            CalVerFormatSegment::Year2 => 6,
            CalVerFormatSegment::Epoch => 6,
            CalVerFormatSegment::DayOfYear => 5,
            CalVerFormatSegment::Month => 4,
            CalVerFormatSegment::Day => 3,
            CalVerFormatSegment::Hour => 2,
            CalVerFormatSegment::Minute => 1,
            CalVerFormatSegment::Second => 0,
        }
    }

    /// A year-scale segment: the one kind allowed to open a calendar format.
    pub open spec fn spec_is_year(self) -> bool {
        self.spec_rank() == 6
    }

    /// The number of digits the segment renders as; the epoch segment alone
    /// has no fixed width and renders as a plain decimal.
    pub open spec fn spec_width(self) -> u64 {
        match self {
            CalVerFormatSegment::Year4 => 4,
            CalVerFormatSegment::Year2 => 2,
            CalVerFormatSegment::Epoch => 0,
            CalVerFormatSegment::Month => 2,
            CalVerFormatSegment::Day => 2,
            CalVerFormatSegment::DayOfYear => 3,
            CalVerFormatSegment::Hour => 2,
            CalVerFormatSegment::Minute => 2,
            CalVerFormatSegment::Second => 2,
        }
    }

    /// Rendering width, executable form.
    pub fn width(self) -> (r: u64)
        ensures
            r == self.spec_width(),
    {
        match self {
            CalVerFormatSegment::Year4 => 4,
            CalVerFormatSegment::Year2 => 2,
            CalVerFormatSegment::Epoch => 0,
            CalVerFormatSegment::Month => 2,
            CalVerFormatSegment::Day => 2,
            CalVerFormatSegment::DayOfYear => 3,
            CalVerFormatSegment::Hour => 2,
            CalVerFormatSegment::Minute => 2,
            CalVerFormatSegment::Second => 2,
        }
    }

    /// The range a value of this segment may take.  Matches what the
    /// calendar reading of a supported timestamp can produce, and what the
    /// version parser accepts back.
    pub open spec fn spec_value_in_range(self, v: u64) -> bool {
        match self {
            CalVerFormatSegment::Year4 => 1970 <= v <= 9999,
            CalVerFormatSegment::Year2 => v <= 99,
            CalVerFormatSegment::Epoch => v <= MAX_EPOCH_SECS,
            CalVerFormatSegment::Month => 1 <= v <= 12,
            CalVerFormatSegment::Day => 1 <= v <= 31,
            CalVerFormatSegment::DayOfYear => 1 <= v <= 366,
            CalVerFormatSegment::Hour => v <= 23,
            CalVerFormatSegment::Minute => v <= 59,
            CalVerFormatSegment::Second => v <= 59,
        }
    }

    /// The value a calendar reading of a timestamp gives this segment.
    pub open spec fn spec_value_of(self, stamp: CalendarStamp) -> u64 {
        match self {
            CalVerFormatSegment::Year4 => stamp.year,
            CalVerFormatSegment::Year2 => (stamp.year % 100) as u64,
            CalVerFormatSegment::Epoch => stamp.epoch,
            CalVerFormatSegment::Month => stamp.month,
            CalVerFormatSegment::Day => stamp.day,
            CalVerFormatSegment::DayOfYear => stamp.ordinal,
            CalVerFormatSegment::Hour => stamp.hour,
            CalVerFormatSegment::Minute => stamp.minute,
            CalVerFormatSegment::Second => stamp.second,
        }
    }

    /// Reads this segment's value out of a calendar stamp.
    pub fn value_of(self, stamp: &CalendarStamp) -> (r: u64)
        ensures
            r == self.spec_value_of(*stamp),
    {
        match self {
            CalVerFormatSegment::Year4 => stamp.year,
            CalVerFormatSegment::Year2 => stamp.year % 100,
            CalVerFormatSegment::Epoch => stamp.epoch,
            CalVerFormatSegment::Month => stamp.month,
            CalVerFormatSegment::Day => stamp.day,
            CalVerFormatSegment::DayOfYear => stamp.ordinal,
            CalVerFormatSegment::Hour => stamp.hour,
            CalVerFormatSegment::Minute => stamp.minute,
            CalVerFormatSegment::Second => stamp.second,
        }
    }
}

/// A stamp in range yields segment values in range.
pub proof fn lemma_stamp_values_in_range(seg: CalVerFormatSegment, stamp: CalendarStamp)
    requires
        stamp.wf(),
    ensures
        seg.spec_value_in_range(seg.spec_value_of(stamp)),
{
}

/// A well-formed calendar block: nonempty, listed most significant
/// first, and no segment repeated.  Whether the block must open with a
/// year-scale segment is a property of the whole format, not of one
/// block: only the most significant calendar block of a format carries
/// that obligation (`format_calendar_ok`).
pub open spec fn calver_format_wf(segs: Seq<CalVerFormatSegment>) -> bool {
    &&& segs.len() > 0
    &&& forall|i: int, j: int|
        0 <= i < j < segs.len() ==> #[trigger] segs[i].spec_rank() >= #[trigger] segs[j].spec_rank()
    &&& forall|i: int, j: int| 0 <= i < j < segs.len() ==> segs[i] != segs[j]
}

/// The most significant calendar block of a format, if any: the major
/// slot's, else the minor's, else the patch's, else the prerelease
/// counter's.
pub open spec fn first_calendar_block(f: VersionFormatV) -> Option<Seq<CalVerFormatSegment>> {
    if f.major is CalVer {
        Some(f.major->CalVer_0)
    } else if f.minor is CalVer {
        Some(f.minor->CalVer_0)
    } else if f.patch is CalVer {
        Some(f.patch->CalVer_0)
    } else {
        match f.prerelease {
            Some(p) => match p.version_format() {
                NumberFormatV::CalVer(m) => Some(m),
                _ => None,
            },
            None => None,
        }
    }
}

/// The calendar-ordering rule of a whole format: the most significant
/// calendar block present anywhere must open with a year-scale segment,
/// or the versions the format generates would not grow with time.
pub open spec fn format_calendar_ok(f: VersionFormatV) -> bool {
    match first_calendar_block(f) {
        Some(m) => m.len() > 0 && m[0].spec_is_year(),
        None => true,
    }
}

/// Mathematical view of a `VersionNumberFormat`.
#[verifier::ext_equal]
pub enum NumberFormatV {
    CCVer,
    CalVer(Seq<CalVerFormatSegment>),
    Sha,
    ShortSha,
}

impl NumberFormatV {
    /// Well-formedness: a calendar slot must carry a well-formed segment
    /// list.
    pub open spec fn wf(self) -> bool {
        match self {
            NumberFormatV::CalVer(segs) => calver_format_wf(segs),
            _ => true,
        }
    }
}

/// The representation that governs one of the major, minor or patch slots.
#[derive(Clone, Debug)]
pub enum VersionNumberFormat {
    /// A plain incrementing counter, token `CC`.
    CCVer,
    /// A calendar reading of the commit timestamp.
    CalVer(CalVerFormat),
    /// The full forty-digit commit hash, token `<sha>`.
    Sha,
    /// The first seven digits of the commit hash, token `<short-sha>`.
    ShortSha,
}

impl View for VersionNumberFormat {
    type V = NumberFormatV;

    open spec fn view(&self) -> NumberFormatV {
        match self {
            VersionNumberFormat::CCVer => NumberFormatV::CCVer,
            VersionNumberFormat::CalVer(segs) => NumberFormatV::CalVer(segs@),
            VersionNumberFormat::Sha => NumberFormatV::Sha,
            VersionNumberFormat::ShortSha => NumberFormatV::ShortSha,
        }
    }
}

impl VersionNumberFormat {
    /// A copy with the same view.
    pub fn dup(&self) -> (r: Self)
        ensures
            r@ == self@,
    {
        match self {
            VersionNumberFormat::CCVer => VersionNumberFormat::CCVer,
            VersionNumberFormat::CalVer(segs) => {
                let mut out: Vec<CalVerFormatSegment> = Vec::new();
                let mut i: usize = 0;
                while i < segs.len()
                    invariant
                        i <= segs.len(),
                        out@ =~= segs@.subrange(0, i as int),
                    decreases segs.len() - i,
                {
                    out.push(segs[i]);
                    i += 1;
                }
                proof {
                    assert(out@ =~= segs@);
                }
                VersionNumberFormat::CalVer(out)
            },
            VersionNumberFormat::Sha => VersionNumberFormat::Sha,
            VersionNumberFormat::ShortSha => VersionNumberFormat::ShortSha,
        }
    }
}

/// Mathematical view of a `PreTagFormat`.
#[verifier::ext_equal]
pub enum PreTagFormatV {
    Rc(NumberFormatV),
    Beta(NumberFormatV),
    Alpha(NumberFormatV),
    Build(NumberFormatV),
    Named(Seq<char>, NumberFormatV),
    Sha,
    ShortSha,
}

impl PreTagFormatV {
    /// The number format that counts inside the channel; the two hash
    /// forms count as hash-formatted numbers.
    pub open spec fn version_format(self) -> NumberFormatV {
        match self {
            PreTagFormatV::Rc(vf) => vf,
            PreTagFormatV::Beta(vf) => vf,
            PreTagFormatV::Alpha(vf) => vf,
            PreTagFormatV::Build(vf) => vf,
            PreTagFormatV::Named(_, vf) => vf,
            PreTagFormatV::Sha => NumberFormatV::Sha,
            PreTagFormatV::ShortSha => NumberFormatV::ShortSha,
        }
    }

    /// Well-formedness of the prerelease format.
    pub open spec fn wf(self) -> bool {
        match self {
            PreTagFormatV::Rc(vf) => vf.wf(),
            PreTagFormatV::Beta(vf) => vf.wf(),
            PreTagFormatV::Alpha(vf) => vf.wf(),
            PreTagFormatV::Build(vf) => vf.wf(),
            PreTagFormatV::Named(_, vf) => vf.wf(),
            _ => true,
        }
    }
}

/// The format of the prerelease slot.
#[derive(Clone, Debug)]
pub enum PreTagFormat {
    /// Release-candidate channel, `rc.<number-format>`.
    Rc(VersionNumberFormat),
    /// Beta channel, `beta.<number-format>`.
    Beta(VersionNumberFormat),
    /// Alpha channel, `alpha.<number-format>`.
    Alpha(VersionNumberFormat),
    /// Build channel, `build.<number-format>`.
    Build(VersionNumberFormat),
    /// A custom channel under its own name, `<name>.<number-format>`.
    Named(String, VersionNumberFormat),
    /// The full commit hash as build metadata, `<sha>`.
    Sha,
    /// The short commit hash as build metadata, `<short-sha>`.
    ShortSha,
}

impl View for PreTagFormat {
    type V = PreTagFormatV;

    open spec fn view(&self) -> PreTagFormatV {
        match self {
            PreTagFormat::Rc(vf) => PreTagFormatV::Rc(vf@),
            PreTagFormat::Beta(vf) => PreTagFormatV::Beta(vf@),
            PreTagFormat::Alpha(vf) => PreTagFormatV::Alpha(vf@),
            PreTagFormat::Build(vf) => PreTagFormatV::Build(vf@),
            PreTagFormat::Named(name, vf) => PreTagFormatV::Named(name@, vf@),
            PreTagFormat::Sha => PreTagFormatV::Sha,
            PreTagFormat::ShortSha => PreTagFormatV::ShortSha,
        }
    }
}

impl PreTagFormat {
    /// The number format that counts inside the channel.
    pub fn version_format(&self) -> (r: VersionNumberFormat)
        ensures
            r@ == self@.version_format(),
    {
        match self {
            PreTagFormat::Rc(vf) => vf.dup(),
            PreTagFormat::Beta(vf) => vf.dup(),
            PreTagFormat::Alpha(vf) => vf.dup(),
            PreTagFormat::Build(vf) => vf.dup(),
            PreTagFormat::Named(_, vf) => vf.dup(),
            PreTagFormat::Sha => VersionNumberFormat::Sha,
            PreTagFormat::ShortSha => VersionNumberFormat::ShortSha,
        }
    }
}

/// Mathematical view of a `VersionFormat`.
#[verifier::ext_equal]
pub struct VersionFormatV {
    pub v_prefix: bool,
    pub major: NumberFormatV,
    pub minor: NumberFormatV,
    pub patch: NumberFormatV,
    pub prerelease: Option<PreTagFormatV>,
}

impl VersionFormatV {
    /// Well-formedness of the whole format.
    pub open spec fn wf(self) -> bool {
        &&& self.major.wf()
        &&& self.minor.wf()
        &&& self.patch.wf()
        &&& match self.prerelease {
            Some(p) => p.wf(),
            None => true,
        }
    }
}

/// The parsed, validated description of a complete version-numbering
/// scheme.
#[derive(Clone, Debug)]
pub struct VersionFormat {
    /// Whether rendered versions carry a leading `v`.
    pub v_prefix: bool,
    /// Format of the major slot.
    pub major: VersionNumberFormat,
    /// Format of the minor slot.
    pub minor: VersionNumberFormat,
    /// Format of the patch slot.
    pub patch: VersionNumberFormat,
    /// Format of the prerelease slot, if the scheme has one.
    pub prerelease: Option<PreTagFormat>,
}

impl View for VersionFormat {
    type V = VersionFormatV;

    open spec fn view(&self) -> VersionFormatV {
        VersionFormatV {
            v_prefix: self.v_prefix,
            major: self.major@,
            minor: self.minor@,
            patch: self.patch@,
            prerelease: match &self.prerelease {
                Some(p) => Some(p@),
                None => None,
            },
        }
    }
}

/// The view of the default scheme: `v`-prefixed sequential counters with a
/// sequential `build` prerelease channel.
pub open spec fn default_format_v() -> VersionFormatV {
    VersionFormatV {
        v_prefix: true,
        major: NumberFormatV::CCVer,
        minor: NumberFormatV::CCVer,
        patch: NumberFormatV::CCVer,
        prerelease: Some(PreTagFormatV::Build(NumberFormatV::CCVer)),
    }
}

impl Default for VersionFormat {
    /// The default scheme: `v`-prefixed sequential counters with a
    /// sequential `build` prerelease channel.
    fn default() -> (r: Self)
        ensures
            r@ == default_format_v(),
    {
        VersionFormat {
            v_prefix: true,
            major: VersionNumberFormat::CCVer,
            minor: VersionNumberFormat::CCVer,
            patch: VersionNumberFormat::CCVer,
            prerelease: Some(PreTagFormat::Build(VersionNumberFormat::CCVer)),
        }
    }
}

} // verus!
