//! Trailing time-of-day window over listed storage objects.
//!
//! A listing hands back object keys with last-modified timestamps. The
//! selector keeps the objects whose last-modified clock time falls strictly
//! inside an open interval computed backwards from a reference instant's
//! clock time. Only the time-of-day component is compared; the listing
//! prefix is assumed to have constrained the calendar date already, and a
//! window reaching past midnight selects nothing. Timestamps that do not
//! parse are silently excluded.

use vstd::prelude::*;
use chrono::Timelike;

verus! {

/// Number of whole seconds in one calendar day.
pub const SECS_PER_DAY: u32 = 86400;

/// Nanosecond remainders run below two billion: the timestamp library
/// represents a leap second by a remainder of one billion or more.
pub const MAX_FRAC_NANOS: u32 = 2_000_000_000;

/// A clock time within one day: whole seconds past midnight plus a
/// nanosecond remainder below [`MAX_FRAC_NANOS`].
#[derive(Clone, Copy, Debug, PartialEq, Eq, Structural)]
pub struct TimeOfDay {
    pub secs: u32,
    pub frac_nanos: u32,
}

pub open spec fn tod_wf(t: TimeOfDay) -> bool {
    t.secs < SECS_PER_DAY && t.frac_nanos < MAX_FRAC_NANOS
}

/// Strict order on clock times: whole seconds first, then the remainder.
pub open spec fn tod_lt(a: TimeOfDay, b: TimeOfDay) -> bool {
    a.secs < b.secs || (a.secs == b.secs && a.frac_nanos < b.frac_nanos)
}

/// The clock time `off_secs` seconds before `t`, wrapping past midnight;
/// the nanosecond remainder is untouched.
pub open spec fn spec_tod_minus(t: TimeOfDay, off_secs: u32) -> TimeOfDay {
    TimeOfDay {
        secs: (((t.secs + SECS_PER_DAY - (off_secs as int) % (SECS_PER_DAY as int)) as int % (
        SECS_PER_DAY as int)) as u32),
        frac_nanos: t.frac_nanos,
    }
}

/// Whether `t` lies strictly inside the open interval `(after, until)`.
pub fn in_window(t: TimeOfDay, after: TimeOfDay, until: TimeOfDay) -> (r: bool)
    ensures
        r == (tod_lt(after, t) && tod_lt(t, until)),
{
    tod_before(after, t) && tod_before(t, until)
}

/// Executable form of [`tod_lt`].
pub fn tod_before(a: TimeOfDay, b: TimeOfDay) -> (r: bool)
    ensures
        r == tod_lt(a, b),
{
    a.secs < b.secs || (a.secs == b.secs && a.frac_nanos < b.frac_nanos)
}

/// The clock time `off_secs` seconds before `t`, wrapping past midnight.
pub fn tod_minus(t: TimeOfDay, off_secs: u32) -> (r: TimeOfDay)
    requires
        tod_wf(t),
    ensures
        r == spec_tod_minus(t, off_secs),
        tod_wf(r),
{
    TimeOfDay {
        secs: (t.secs + SECS_PER_DAY - off_secs % SECS_PER_DAY) % SECS_PER_DAY,
        frac_nanos: t.frac_nanos,
    }
}

/// Both bounds of the selection window, each a fixed offset back from the
/// reference instant's clock time: `(now - lower_offset, now - upper_offset)`.
pub fn window_bounds(now: TimeOfDay, lower_offset_secs: u32, upper_offset_secs: u32) -> (r: (
    TimeOfDay,
    TimeOfDay,
))
    requires
        tod_wf(now),
    ensures
        r.0 == spec_tod_minus(now, lower_offset_secs),
        r.1 == spec_tod_minus(now, upper_offset_secs),
        tod_wf(r.0),
        tod_wf(r.1),
{
    (tod_minus(now, lower_offset_secs), tod_minus(now, upper_offset_secs))
}

/// One listed storage object: its key and its last-modified timestamp text.
pub struct ObjectCandidate {
    pub key: String,
    pub last_modified: String,
}

/// Ghost image of an [`ObjectCandidate`].
pub ghost struct CandidateV {
    pub key: Seq<char>,
    pub last_modified: Seq<char>,
}

impl View for ObjectCandidate {
    type V = CandidateV;

    open spec fn view(&self) -> CandidateV {
        CandidateV { key: self.key@, last_modified: self.last_modified@ }
    }
}

/// The clock time an RFC 3339 timestamp text carries, as whole seconds past
/// midnight and a nanosecond remainder, in the timestamp's own offset;
/// nothing when the text is not a well-formed RFC 3339 timestamp.
pub uninterp spec fn rfc3339_time_of_day(s: Seq<char>) -> Option<(u32, u32)>;

/// Relies on chrono's `DateTime::parse_from_rfc3339`, `DateTime::time` and
/// `NaiveTime`: the parse succeeds exactly on well-formed RFC 3339 text and
/// depends on the text alone; `num_seconds_from_midnight` stays below one
/// day of seconds and `nanosecond` below two billion.
#[verifier::external_body]
pub(crate) fn parse_last_modified(s: &str) -> (r: Option<TimeOfDay>)
    ensures
        match r {
            Some(t) => rfc3339_time_of_day(s@) == Some((t.secs, t.frac_nanos)) && tod_wf(t),
            None => rfc3339_time_of_day(s@) == None::<(u32, u32)>,
        },
{
    match chrono::DateTime::parse_from_rfc3339(s) {
        Ok(dt) => {
            let t = dt.time();
            Some(TimeOfDay { secs: t.num_seconds_from_midnight(), frac_nanos: t.nanosecond() })
        },
        Err(_) => None,
    }
}

/// Whether a last-modified text names a clock time strictly inside the
/// open interval `(after, until)`.
pub open spec fn spec_in_window(lm: Seq<char>, after: TimeOfDay, until: TimeOfDay) -> bool {
    match rfc3339_time_of_day(lm) {
        Some((s, f)) => {
            let t = TimeOfDay { secs: s, frac_nanos: f };
            tod_lt(after, t) && tod_lt(t, until)
        },
        None => false,
    }
}

/// The subsequence of candidates whose last-modified clock time lies
/// strictly inside `(after, until)`, in listing order.
pub open spec fn spec_select(cs: Seq<CandidateV>, after: TimeOfDay, until: TimeOfDay) -> Seq<
    CandidateV,
>
    decreases cs.len(),
{
    if cs.len() == 0 {
        Seq::empty()
    } else {
        let rest = spec_select(cs.drop_last(), after, until);
        if spec_in_window(cs.last().last_modified, after, until) {
            rest.push(cs.last())
        } else {
            rest
        }
    }
}

/// Keeps exactly the candidates whose last-modified timestamp parses and
/// whose clock time falls strictly inside `(after, until)`, in order.
pub fn select_in_window(cands: &Vec<ObjectCandidate>, after: TimeOfDay, until: TimeOfDay) -> (r:
    Vec<ObjectCandidate>)
    ensures
        r@.map_values(|c: ObjectCandidate| c@) == spec_select(
            cands@.map_values(|c: ObjectCandidate| c@),
            after,
            until,
        ),
{
    let ghost cv = cands@.map_values(|c: ObjectCandidate| c@);
    let mut out: Vec<ObjectCandidate> = Vec::new();
    let mut i: usize = 0;
    while i < cands.len()
        invariant
            i <= cands.len(),
            cv == cands@.map_values(|c: ObjectCandidate| c@),
            out@.map_values(|c: ObjectCandidate| c@) == spec_select(cv.take(i as int), after, until),
        decreases cands.len() - i,
    {
        let c = &cands[i];
        let keep = match parse_last_modified(c.last_modified.as_str()) {
            Some(t) => in_window(t, after, until),
            None => false,
        };
        proof {
            assert(cv.take(i + 1).drop_last() =~= cv.take(i as int));
            assert(cv.take(i + 1).last() == cv[i as int]);
        }
        if keep {
            out.push(
                ObjectCandidate { key: c.key.clone(), last_modified: c.last_modified.clone() },
            );
            proof {
                assert(out@.map_values(|c: ObjectCandidate| c@) =~= spec_select(
                    cv.take(i + 1),
                    after,
                    until,
                ));
            }
        } else {
            proof {
                assert(out@.map_values(|c: ObjectCandidate| c@) =~= spec_select(
                    cv.take(i + 1),
                    after,
                    until,
                ));
            }
        }
        i = i + 1;
    }
    proof {
        assert(cv.take(cands@.len() as int) =~= cv);
    }
    out
}

} // verus!
