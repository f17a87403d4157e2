//! The Calendly provider adapter: resolves a scheduling page into an
//! event-type identifier, a shared slot duration and a display title,
//! and maps the provider's availability calendar onto plain
//! availability windows. Every slot of one source shares the single
//! duration resolved from the page.

use vstd::prelude::*;

use crate::extract::capture_first;
use crate::extract::capture_of;
use crate::parse::parse_i64_dec;
use crate::parse::parse_i64_spec;
use crate::text::str_eq;
use crate::Event;
use crate::EventV;
use crate::FetchError;

verus! {

/// One bookable slot of one day, as the provider reports it.
pub struct Spot {
    pub status: String,
    pub start_time: String,
    pub invitees_remaining: i32,
}

/// The mathematical value of a [`Spot`].
#[verifier::ext_equal]
pub ghost struct SpotV {
    pub status: Seq<char>,
    pub start_time: Seq<char>,
    pub invitees_remaining: int,
}

impl View for Spot {
    type V = SpotV;

    open spec fn view(&self) -> SpotV {
        SpotV {
            status: self.status@,
            start_time: self.start_time@,
            invitees_remaining: self.invitees_remaining as int,
        }
    }
}

impl DeepView for Spot {
    type V = SpotV;

    open spec fn deep_view(&self) -> SpotV {
        self.view()
    }
}

/// One day of the provider's availability calendar.
pub struct Day {
    pub date: String,
    pub status: String,
    pub spots: Vec<Spot>,
    pub invitee_events: Vec<String>,
}

/// The mathematical value of a [`Day`].
#[verifier::ext_equal]
pub ghost struct DayV {
    pub date: Seq<char>,
    pub status: Seq<char>,
    pub spots: Seq<SpotV>,
    pub invitee_events: Seq<Seq<char>>,
}

impl View for Day {
    type V = DayV;

    open spec fn view(&self) -> DayV {
        DayV {
            date: self.date@,
            status: self.status@,
            spots: self.spots.deep_view(),
            invitee_events: self.invitee_events.deep_view(),
        }
    }
}

impl DeepView for Day {
    type V = DayV;

    open spec fn deep_view(&self) -> DayV {
        self.view()
    }
}

/// A source's resolved availability: the scheduling link it came from,
/// the shared slot duration in milliseconds, the provider's calendar
/// and the source's display title.
pub struct AvailabilityResponse {
    pub scheduling_link: String,
    pub duration: i64,
    pub availability_timezone: String,
    pub days: Vec<Day>,
    pub title: String,
}

/// The instant, in milliseconds since the epoch, that an RFC 3339
/// timestamp denotes; `None` when the text is not a valid RFC 3339
/// timestamp. A function of the text alone.
pub uninterp spec fn rfc3339_millis_of(s: Seq<char>) -> Option<i64>;

/// Relies on chrono::DateTime::parse_from_rfc3339 and
/// chrono::DateTime::timestamp_millis: parsing is a deterministic
/// function of the text, and the millisecond timestamp of every
/// parseable instant fits in 64 signed bits.
#[verifier::external_body]
fn parse_rfc3339_millis(s: &str) -> (r: Option<i64>)
    ensures
        r == rfc3339_millis_of(s@),
{
    match chrono::DateTime::parse_from_rfc3339(s) {
        Ok(d) => Some(d.timestamp_millis()),
        Err(_) => None,
    }
}

/// The pattern that extracts the provider-internal event type
/// identifier from a scheduling page.
pub open spec fn uuid_pattern() -> Seq<char> {
    r#""uuid":"([^"]+)""#@
}

/// The pattern that extracts the shared slot duration, in minutes, from
/// a scheduling page.
pub open spec fn duration_pattern() -> Seq<char> {
    r#""duration":(\d+)"#@
}

/// The pattern that extracts the display title from a scheduling page.
pub open spec fn name_pattern() -> Seq<char> {
    r#""name":"([^"]+)""#@
}

/// The shared slot duration in milliseconds that a captured duration
/// text yields: the captured minutes, times sixty thousand, if the text
/// is a decimal number and the product is representable.
pub open spec fn duration_ms_of(d: Seq<char>) -> Option<int> {
    match parse_i64_spec(d) {
        Some(v) => if i64::MIN <= v * 60000 <= i64::MAX {
            Some(v * 60000)
        } else {
            None
        },
        None => None,
    }
}

/// The duration a page resolves to, through the duration pattern.
pub open spec fn duration_of_page(page: Seq<char>) -> Option<int> {
    match capture_of(duration_pattern(), page) {
        Some(d) => duration_ms_of(d),
        None => None,
    }
}

/// What the resolve step yields for a Calendly scheduling page.
pub struct CalendlyInfo {
    pub uuid: String,
    pub duration_ms: i64,
    pub title: String,
}

/// Resolves a Calendly scheduling page: extracts the event-type
/// identifier, the shared slot duration and the display title. Fails
/// with the name of the first field that cannot be located — the
/// duration also counts as missing when its text is not a number whose
/// millisecond value is representable.
pub fn resolve_page(page: &str) -> (r: Result<CalendlyInfo, FetchError>)
    ensures
        match r {
            Ok(info) => {
                &&& capture_of(uuid_pattern(), page@) == Some(info.uuid@)
                &&& duration_of_page(page@) == Some(info.duration_ms as int)
                &&& capture_of(name_pattern(), page@) == Some(info.title@)
            },
            Err(e) => {
                ||| (capture_of(uuid_pattern(), page@) is None && (e matches
                FetchError::ExtractionError { field } && field@ == "uuid"@))
                ||| (capture_of(uuid_pattern(), page@) is Some && duration_of_page(page@) is None
                    && (e matches FetchError::ExtractionError { field } && field@ == "duration"@))
                ||| (capture_of(uuid_pattern(), page@) is Some && duration_of_page(page@) is Some
                    && capture_of(name_pattern(), page@) is None && (e matches
                FetchError::ExtractionError { field } && field@ == "name"@))
            },
        },
{
    let uuid = match capture_first(r#""uuid":"([^"]+)""#, page) {
        Some(u) => u,
        None => {
            return Err(FetchError::ExtractionError { field: "uuid".to_owned() });
        },
    };
    let dur_text = match capture_first(r#""duration":(\d+)"#, page) {
        Some(d) => d,
        None => {
            return Err(FetchError::ExtractionError { field: "duration".to_owned() });
        },
    };
    let minutes = match parse_i64_dec(dur_text.as_str()) {
        Some(v) => v,
        None => {
            return Err(FetchError::ExtractionError { field: "duration".to_owned() });
        },
    };
    let duration_ms = match minutes.checked_mul(60000) {
        Some(ms) => ms,
        None => {
            return Err(FetchError::ExtractionError { field: "duration".to_owned() });
        },
    };
    let title = match capture_first(r#""name":"([^"]+)""#, page) {
        Some(n) => n,
        None => {
            return Err(FetchError::ExtractionError { field: "name".to_owned() });
        },
    };
    Ok(CalendlyInfo { uuid, duration_ms, title })
}

/// The placeholder color an adapter stamps on a window before the
/// aggregator assigns the real per-source color.
pub open spec fn placeholder_color() -> Seq<char> {
    "TO_BE_FILLED"@
}

/// Every available spot of the sequence carries a parseable RFC 3339
/// start time.
pub open spec fn day_decodes(spots: Seq<SpotV>) -> bool {
    forall|j: int|
        0 <= j < spots.len() && (#[trigger] spots[j]).status == "available"@
            ==> rfc3339_millis_of(spots[j].start_time) is Some
}

/// Every available spot of every day carries a parseable RFC 3339
/// start time.
pub open spec fn days_decode(days: Seq<DayV>) -> bool {
    forall|i: int| 0 <= i < days.len() ==> day_decodes((#[trigger] days[i]).spots)
}

/// The windows one spot yields: one window starting at the spot's
/// instant and `dur` milliseconds long, but only for available spots,
/// and only when the window is non-empty and representable — a spot
/// with a non-positive duration or an end past the representable range
/// is discarded.
pub open spec fn spot_events(s: SpotV, title: Seq<char>, dur: int) -> Seq<EventV> {
    if s.status == "available"@ && rfc3339_millis_of(s.start_time) is Some {
        let t = rfc3339_millis_of(s.start_time)->Some_0;
        if 0 < dur && t + dur <= i64::MAX {
            seq![
                EventV {
                    title: title,
                    start: t as int,
                    end: t + dur,
                    color: placeholder_color(),
                },
            ]
        } else {
            Seq::empty()
        }
    } else {
        Seq::empty()
    }
}

/// The windows one day yields, in the provider's spot order.
pub open spec fn day_events(spots: Seq<SpotV>, title: Seq<char>, dur: int) -> Seq<EventV>
    decreases spots.len(),
{
    if spots.len() == 0 {
        Seq::empty()
    } else {
        day_events(spots.drop_last(), title, dur) + spot_events(spots.last(), title, dur)
    }
}

/// The windows a whole calendar yields, in the provider's day order.
pub open spec fn all_events(days: Seq<DayV>, title: Seq<char>, dur: int) -> Seq<EventV>
    decreases days.len(),
{
    if days.len() == 0 {
        Seq::empty()
    } else {
        all_events(days.drop_last(), title, dur) + day_events(days.last().spots, title, dur)
    }
}

/// Maps a resolved availability calendar onto plain windows: one window
/// per available spot, starting at the spot's instant, lasting the
/// source's shared duration, tagged with the source's title and a
/// placeholder color. Booked or otherwise unavailable spots yield
/// nothing. Fails when an available spot's start time is not a valid
/// RFC 3339 timestamp; empty or unrepresentable windows are discarded.
#[verifier::loop_isolation(false)]
pub fn calendly_to_events(c: AvailabilityResponse) -> (r: Result<Vec<Event>, FetchError>)
    ensures
        match r {
            Ok(evs) => {
                &&& days_decode(c.days.deep_view())
                &&& evs.deep_view() == all_events(c.days.deep_view(), c.title@, c.duration as int)
            },
            Err(e) => {
                &&& !days_decode(c.days.deep_view())
                &&& e is DecodeError
            },
        },
{
    let ghost days_dv = c.days.deep_view();
    let title = c.title;
    let dur = c.duration;
    let mut days = c.days;
    let mut out: Vec<Event> = Vec::new();
    let ghost mut k: int = 0;
    while days.len() > 0
        invariant
            0 <= k <= days_dv.len(),
            days@.len() == days_dv.len() - k,
            days.deep_view() == days_dv.skip(k),
            days_decode(days_dv.take(k)),
            out.deep_view() == all_events(days_dv.take(k), title@, dur as int),
        decreases days.len(),
    {
        let ghost prev_days_dv = days.deep_view();
        let ghost prev_days_sv = days@;
        let d = days.remove(0);
        proof {
            assert(prev_days_dv[0] == prev_days_sv[0].deep_view());
            assert(d.deep_view() == days_dv.skip(k)[0]);
            assert(d.deep_view() == days_dv[k]);
            assert forall|i: int| 0 <= i < days@.len() implies days.deep_view()[i] == days_dv.skip(
                k + 1,
            )[i] by {
                assert(days@[i] == prev_days_sv[i + 1]);
                assert(days.deep_view()[i] == days@[i].deep_view());
                assert(prev_days_dv[i + 1] == prev_days_sv[i + 1].deep_view());
            }
            assert(days.deep_view() =~= days_dv.skip(k + 1));
            assert(days_dv.take(k + 1).drop_last() =~= days_dv.take(k));
            assert(days_dv.take(k + 1).last() == days_dv[k]);
        }
        let mut spots = d.spots;
        let ghost spots_dv = days_dv[k].spots;
        proof {
            assert(spots.deep_view() == spots_dv);
        }
        let ghost mut j: int = 0;
        while spots.len() > 0
            invariant
                0 <= j <= spots_dv.len(),
                spots@.len() == spots_dv.len() - j,
                spots.deep_view() == spots_dv.skip(j),
                day_decodes(spots_dv.take(j)),
                out.deep_view() == all_events(days_dv.take(k), title@, dur as int) + day_events(
                    spots_dv.take(j),
                    title@,
                    dur as int,
                ),
            decreases spots.len(),
        {
            let ghost prev_sp_dv = spots.deep_view();
            let ghost prev_sp_sv = spots@;
            let s = spots.remove(0);
            proof {
                assert(prev_sp_dv[0] == prev_sp_sv[0].deep_view());
                assert(s.deep_view() == spots_dv.skip(j)[0]);
                assert(s.deep_view() == spots_dv[j]);
                assert forall|i: int| 0 <= i < spots@.len() implies spots.deep_view()[i]
                    == spots_dv.skip(j + 1)[i] by {
                    assert(spots@[i] == prev_sp_sv[i + 1]);
                    assert(spots.deep_view()[i] == spots@[i].deep_view());
                    assert(prev_sp_dv[i + 1] == prev_sp_sv[i + 1].deep_view());
                }
                assert(spots.deep_view() =~= spots_dv.skip(j + 1));
                assert(spots_dv.take(j + 1).drop_last() =~= spots_dv.take(j));
                assert(spots_dv.take(j + 1).last() == spots_dv[j]);
            }
            let ghost out_dv = out.deep_view();
            let ghost out_sv = out@;
            if str_eq(s.status.as_str(), "available") {
                match parse_rfc3339_millis(s.start_time.as_str()) {
                    None => {
                        proof {
                            assert(!day_decodes(spots_dv));
                            assert(days_dv[k].spots == spots_dv);
                            assert(!days_decode(days_dv));
                        }
                        return Err(FetchError::DecodeError);
                    },
                    Some(t) => {
                        if dur >= 1 {
                            match t.checked_add(dur) {
                                Some(end) => {
                                    let ev = Event {
                                        title: title.clone(),
                                        start: t,
                                        end,
                                        color: "TO_BE_FILLED".to_owned(),
                                    };
                                    proof {
                                        assert(ev.deep_view() == spot_events(
                                            spots_dv[j],
                                            title@,
                                            dur as int,
                                        )[0]);
                                    }
                                    out.push(ev);
                                    proof {
                                        assert forall|i: int|
                                            0 <= i < out@.len() implies out.deep_view()[i] == (
                                        out_dv + spot_events(spots_dv[j], title@, dur as int))[i] by {
                                            assert(out.deep_view()[i] == out@[i].deep_view());
                                            if i < out@.len() - 1 {
                                                assert(out@[i] == out_sv[i]);
                                                assert(out_dv[i] == out_sv[i].deep_view());
                                            }
                                        }
                                        assert(out.deep_view() =~= out_dv + spot_events(
                                            spots_dv[j],
                                            title@,
                                            dur as int,
                                        ));
                                    }
                                },
                                None => {
                                    proof {
                                        assert(spot_events(spots_dv[j], title@, dur as int)
                                            =~= Seq::<EventV>::empty());
                                        assert(out.deep_view() =~= out_dv + spot_events(
                                            spots_dv[j],
                                            title@,
                                            dur as int,
                                        ));
                                    }
                                },
                            }
                        } else {
                            proof {
                                assert(spot_events(spots_dv[j], title@, dur as int) =~= Seq::<
                                    EventV,
                                >::empty());
                                assert(out.deep_view() =~= out_dv + spot_events(
                                    spots_dv[j],
                                    title@,
                                    dur as int,
                                ));
                            }
                        }
                    },
                }
            } else {
                proof {
                    assert(spots_dv[j].status != "available"@);
                    assert(spot_events(spots_dv[j], title@, dur as int) =~= Seq::<EventV>::empty());
                    assert(out.deep_view() =~= out_dv + spot_events(spots_dv[j], title@, dur as int));
                }
            }
            proof {
                assert(out.deep_view() == all_events(days_dv.take(k), title@, dur as int)
                    + day_events(spots_dv.take(j + 1), title@, dur as int));
                j = j + 1;
            }
        }
        proof {
            assert(spots_dv.take(j) =~= spots_dv);
            assert(day_decodes(spots_dv));
            assert(days_dv.take(k + 1).last().spots == spots_dv);
            assert forall|i: int| 0 <= i < k + 1 implies day_decodes(
                (#[trigger] days_dv.take(k + 1)[i]).spots,
            ) by {
                assert(days_dv.take(k + 1)[i] == days_dv[i]);
                if i < k {
                    assert(days_dv.take(k)[i] == days_dv[i]);
                }
            }
            assert(days_decode(days_dv.take(k + 1)));
            assert(out.deep_view() == all_events(days_dv.take(k + 1), title@, dur as int));
            k = k + 1;
        }
    }
    proof {
        assert(days_dv.take(k) =~= days_dv);
    }
    Ok(out)
}

} // verus!
