//! The Google Calendar appointment-page adapter: resolves a booking
//! page into an API key and a display title, and maps the provider's
//! nested slot listing onto plain availability windows. Each slot
//! carries its own start, in seconds since the epoch, and its own
//! duration, in minutes.

use vstd::prelude::*;

use crate::calendly::placeholder_color;
use crate::extract::capture_first;
use crate::extract::capture_of;
use crate::parse::parse_i64_dec;
use crate::parse::parse_i64_spec;
use crate::Event;
use crate::EventV;
use crate::FetchError;

verus! {

/// One bookable slot as the provider lists it: a group of timestamp
/// texts, of which the first is the slot's start in seconds since the
/// epoch, and the slot's duration in minutes.
pub struct Slot(pub Vec<String>, pub i64);

/// The mathematical value of a [`Slot`].
#[verifier::ext_equal]
pub ghost struct SlotV {
    pub times: Seq<Seq<char>>,
    pub minutes: int,
}

impl View for Slot {
    type V = SlotV;

    open spec fn view(&self) -> SlotV {
        SlotV { times: self.0.deep_view(), minutes: self.1 as int }
    }
}

impl DeepView for Slot {
    type V = SlotV;

    open spec fn deep_view(&self) -> SlotV {
        self.view()
    }
}

/// The pattern that extracts the page's embedded API key from a booking
/// page.
pub open spec fn key_pattern() -> Seq<char> {
    r#"\\"([^\\]+)\\",\\"https://calendar"#@
}

/// The pattern that extracts the display title from a booking page.
pub open spec fn title_pattern() -> Seq<char> {
    r#"property="og:title" content="([^"]+)"#@
}

/// What the resolve step yields for a Google booking page.
pub struct GoogleInfo {
    pub uuid: String,
    pub title: String,
}

/// Resolves a Google booking page: extracts the embedded API key and
/// the display title. Fails with the name of the first field that
/// cannot be located.
pub fn resolve_page(page: &str) -> (r: Result<GoogleInfo, FetchError>)
    ensures
        match r {
            Ok(info) => {
                &&& capture_of(key_pattern(), page@) == Some(info.uuid@)
                &&& capture_of(title_pattern(), page@) == Some(info.title@)
            },
            Err(e) => {
                ||| (capture_of(key_pattern(), page@) is None && (e matches
                FetchError::ExtractionError { field } && field@ == "uuid"@))
                ||| (capture_of(key_pattern(), page@) is Some && capture_of(
                    title_pattern(),
                    page@,
                ) is None && (e matches FetchError::ExtractionError { field } && field@
                    == "name"@))
            },
        },
{
    let uuid = match capture_first(r#"\\"([^\\]+)\\",\\"https://calendar"#, page) {
        Some(u) => u,
        None => {
            return Err(FetchError::ExtractionError { field: "uuid".to_owned() });
        },
    };
    let title = match capture_first(r#"property="og:title" content="([^"]+)"#, page) {
        Some(n) => n,
        None => {
            return Err(FetchError::ExtractionError { field: "name".to_owned() });
        },
    };
    Ok(GoogleInfo { uuid, title })
}

/// A slot decodes when it carries at least one timestamp text and that
/// text is a decimal number.
pub open spec fn slot_decodes(s: SlotV) -> bool {
    s.times.len() > 0 && parse_i64_spec(s.times[0]) is Some
}

/// Every slot of the sequence decodes.
pub open spec fn slots_decode(slots: Seq<SlotV>) -> bool {
    forall|i: int| 0 <= i < slots.len() ==> slot_decodes(#[trigger] slots[i])
}

/// The windows one slot yields: one window from the slot's start to its
/// start plus its duration, both scaled to milliseconds — but only when
/// every intermediate value is representable in 64 signed bits and the
/// window is non-empty; anything else is discarded.
pub open spec fn slot_events(s: SlotV, title: Seq<char>) -> Seq<EventV> {
    let secs = parse_i64_spec(s.times[0])->Some_0;
    let m60 = s.minutes * 60;
    let sum = secs + m60;
    let start = secs * 1000;
    let end = sum * 1000;
    if i64::MIN <= start <= i64::MAX && i64::MIN <= m60 <= i64::MAX && i64::MIN <= sum <= i64::MAX
        && i64::MIN <= end <= i64::MAX && start < end {
        seq![EventV { title: title, start: start, end: end, color: placeholder_color() }]
    } else {
        Seq::empty()
    }
}

/// The windows a slot sequence yields, in order.
pub open spec fn slots_events(slots: Seq<SlotV>, title: Seq<char>) -> Seq<EventV>
    decreases slots.len(),
{
    if slots.len() == 0 {
        Seq::empty()
    } else {
        slots_events(slots.drop_last(), title) + slot_events(slots.last(), title)
    }
}

/// One level of the provider's nesting, flattened in order.
pub open spec fn flatten_groups(gs: Seq<Seq<SlotV>>) -> Seq<SlotV>
    decreases gs.len(),
{
    if gs.len() == 0 {
        Seq::empty()
    } else {
        flatten_groups(gs.drop_last()) + gs.last()
    }
}

/// The provider's doubly nested slot listing, flattened in order.
pub open spec fn flatten_response(rs: Seq<Seq<Seq<SlotV>>>) -> Seq<SlotV>
    decreases rs.len(),
{
    if rs.len() == 0 {
        Seq::empty()
    } else {
        flatten_response(rs.drop_last()) + flatten_groups(rs.last())
    }
}

#[verifier::loop_isolation(false)]
fn flatten_slots(response: Vec<Vec<Vec<Slot>>>) -> (all: Vec<Slot>)
    ensures
        all.deep_view() == flatten_response(response.deep_view()),
{
    let ghost rs_dv = response.deep_view();
    let mut response = response;
    let mut all: Vec<Slot> = Vec::new();
    let ghost mut k: int = 0;
    while response.len() > 0
        invariant
            0 <= k <= rs_dv.len(),
            response@.len() == rs_dv.len() - k,
            response.deep_view() == rs_dv.skip(k),
            all.deep_view() == flatten_response(rs_dv.take(k)),
        decreases response.len(),
    {
        let ghost prev_dv = response.deep_view();
        let ghost prev_sv = response@;
        let g = response.remove(0);
        proof {
            assert(prev_dv[0] == prev_sv[0].deep_view());
            assert(g.deep_view() == rs_dv.skip(k)[0]);
            assert(g.deep_view() == rs_dv[k]);
            assert forall|i: int| 0 <= i < response@.len() implies response.deep_view()[i]
                == rs_dv.skip(k + 1)[i] by {
                assert(response@[i] == prev_sv[i + 1]);
                assert(response.deep_view()[i] == response@[i].deep_view());
                assert(prev_dv[i + 1] == prev_sv[i + 1].deep_view());
            }
            assert(response.deep_view() =~= rs_dv.skip(k + 1));
            assert(rs_dv.take(k + 1).drop_last() =~= rs_dv.take(k));
            assert(rs_dv.take(k + 1).last() == rs_dv[k]);
        }
        let ghost g_dv = rs_dv[k];
        let mut g = g;
        let ghost mut j: int = 0;
        while g.len() > 0
            invariant
                0 <= j <= g_dv.len(),
                g@.len() == g_dv.len() - j,
                g.deep_view() == g_dv.skip(j),
                all.deep_view() == flatten_response(rs_dv.take(k)) + flatten_groups(g_dv.take(j)),
            decreases g.len(),
        {
            let ghost prev_g_dv = g.deep_view();
            let ghost prev_g_sv = g@;
            let mut inner = g.remove(0);
            proof {
                assert(prev_g_dv[0] == prev_g_sv[0].deep_view());
                assert(inner.deep_view() == g_dv.skip(j)[0]);
                assert(inner.deep_view() == g_dv[j]);
                assert forall|i: int| 0 <= i < g@.len() implies g.deep_view()[i] == g_dv.skip(
                    j + 1,
                )[i] by {
                    assert(g@[i] == prev_g_sv[i + 1]);
                    assert(g.deep_view()[i] == g@[i].deep_view());
                    assert(prev_g_dv[i + 1] == prev_g_sv[i + 1].deep_view());
                }
                assert(g.deep_view() =~= g_dv.skip(j + 1));
                assert(g_dv.take(j + 1).drop_last() =~= g_dv.take(j));
                assert(g_dv.take(j + 1).last() == g_dv[j]);
            }
            let ghost all_dv = all.deep_view();
            let ghost all_sv = all@;
            let ghost inner_dv = inner.deep_view();
            let ghost inner_sv = inner@;
            all.append(&mut inner);
            proof {
                assert(all@ == all_sv + inner_sv);
                assert forall|i: int| 0 <= i < all@.len() implies all.deep_view()[i] == (all_dv
                    + inner_dv)[i] by {
                    assert(all.deep_view()[i] == all@[i].deep_view());
                    if i < all_sv.len() {
                        assert(all@[i] == all_sv[i]);
                        assert(all_dv[i] == all_sv[i].deep_view());
                    } else {
                        assert(all@[i] == inner_sv[i - all_sv.len()]);
                        assert(inner_dv[i - all_sv.len()] == inner_sv[i - all_sv.len()].deep_view());
                    }
                }
                assert(all.deep_view() =~= all_dv + inner_dv);
                j = j + 1;
            }
        }
        proof {
            assert(g_dv.take(j) =~= g_dv);
            k = k + 1;
        }
    }
    proof {
        assert(rs_dv.take(k) =~= rs_dv);
    }
    all
}

/// Maps the provider's nested slot listing onto plain windows: one
/// window per slot, from the slot's start to its start plus its own
/// duration, scaled to milliseconds, tagged with the source's title and
/// a placeholder color. Fails when a slot carries no timestamp text or
/// a non-numeric one; empty or unrepresentable windows are discarded.
#[verifier::loop_isolation(false)]
pub fn google_to_events(response: Vec<Vec<Vec<Slot>>>, title: &str) -> (r: Result<
    Vec<Event>,
    FetchError,
>)
    ensures
        match r {
            Ok(evs) => {
                &&& slots_decode(flatten_response(response.deep_view()))
                &&& evs.deep_view() == slots_events(flatten_response(response.deep_view()), title@)
            },
            Err(e) => {
                &&& !slots_decode(flatten_response(response.deep_view()))
                &&& e is DecodeError
            },
        },
{
    let mut all = flatten_slots(response);
    let ghost all_dv = all.deep_view();
    let mut out: Vec<Event> = Vec::new();
    let ghost mut k: int = 0;
    while all.len() > 0
        invariant
            0 <= k <= all_dv.len(),
            all@.len() == all_dv.len() - k,
            all.deep_view() == all_dv.skip(k),
            slots_decode(all_dv.take(k)),
            out.deep_view() == slots_events(all_dv.take(k), title@),
        decreases all.len(),
    {
        let ghost prev_dv = all.deep_view();
        let ghost prev_sv = all@;
        let s = all.remove(0);
        proof {
            assert(prev_dv[0] == prev_sv[0].deep_view());
            assert(s.deep_view() == all_dv.skip(k)[0]);
            assert(s.deep_view() == all_dv[k]);
            assert forall|i: int| 0 <= i < all@.len() implies all.deep_view()[i] == all_dv.skip(
                k + 1,
            )[i] by {
                assert(all@[i] == prev_sv[i + 1]);
                assert(all.deep_view()[i] == all@[i].deep_view());
                assert(prev_dv[i + 1] == prev_sv[i + 1].deep_view());
            }
            assert(all.deep_view() =~= all_dv.skip(k + 1));
            assert(all_dv.take(k + 1).drop_last() =~= all_dv.take(k));
            assert(all_dv.take(k + 1).last() == all_dv[k]);
        }
        if s.0.len() == 0 {
            proof {
                assert(!slot_decodes(all_dv[k]));
                assert(!slots_decode(all_dv));
            }
            return Err(FetchError::DecodeError);
        }
        let first = &s.0[0];
        proof {
            assert(s.0.deep_view()[0] == s.0@[0].deep_view());
            assert(first@ == all_dv[k].times[0]);
        }
        let ghost out_dv = out.deep_view();
        let ghost out_sv = out@;
        match parse_i64_dec(first.as_str()) {
            None => {
                proof {
                    assert(!slot_decodes(all_dv[k]));
                    assert(!slots_decode(all_dv));
                }
                return Err(FetchError::DecodeError);
            },
            Some(secs) => {
                let minutes = s.1;
                let mut kept = false;
                match secs.checked_mul(1000) {
                    None => {},
                    Some(start) => {
                        match minutes.checked_mul(60) {
                            None => {},
                            Some(m60) => {
                                match secs.checked_add(m60) {
                                    None => {},
                                    Some(sum) => {
                                        match sum.checked_mul(1000) {
                                            None => {},
                                            Some(end) => {
                                                if start < end {
                                                    let ev = Event {
                                                        title: title.to_owned(),
                                                        start,
                                                        end,
                                                        color: "TO_BE_FILLED".to_owned(),
                                                    };
                                                    proof {
                                                        assert(ev.deep_view() == slot_events(
                                                            all_dv[k],
                                                            title@,
                                                        )[0]);
                                                    }
                                                    out.push(ev);
                                                    kept = true;
                                                    proof {
                                                        assert forall|i: int|
                                                            0 <= i < out@.len() implies out.deep_view()[i]
                                                            == (out_dv + slot_events(
                                                            all_dv[k],
                                                            title@,
                                                        ))[i] by {
                                                            assert(out.deep_view()[i] == out@[i].deep_view());
                                                            if i < out@.len() - 1 {
                                                                assert(out@[i] == out_sv[i]);
                                                                assert(out_dv[i] == out_sv[i].deep_view());
                                                            }
                                                        }
                                                        assert(out.deep_view() =~= out_dv
                                                            + slot_events(all_dv[k], title@));
                                                    }
                                                }
                                            },
                                        }
                                    },
                                }
                            },
                        }
                    },
                }
                proof {
                    if !kept {
                        assert(slot_events(all_dv[k], title@) =~= Seq::<EventV>::empty());
                        assert(out.deep_view() =~= out_dv + slot_events(all_dv[k], title@));
                    }
                    assert(out.deep_view() == slots_events(all_dv.take(k + 1), title@));
                    k = k + 1;
                }
            },
        }
    }
    proof {
        assert(all_dv.take(k) =~= all_dv);
    }
    Ok(out)
}

} // verus!
