//! Deterministic per-source color tagging: every window of the source at
//! request position `i` receives the palette color at `i` modulo the
//! palette length, before any merging takes place.

use vstd::prelude::*;

use crate::Event;
use crate::EventV;

verus! {

/// Number of colors in the display palette.
pub const PALETTE_LEN: usize = 4;

/// The fixed display palette, by index; indices outside the palette give
/// its last entry.
pub open spec fn palette_spec(i: int) -> Seq<char> {
    if i == 0 {
        "#9D68AF"@
    } else if i == 1 {
        "#32B579"@
    } else if i == 2 {
        "#E67B73"@
    } else {
        "#E4C441"@
    }
}

/// The color every window of the source at request position `i`
/// receives: the palette is cycled by position.
pub open spec fn source_color(i: int) -> Seq<char> {
    palette_spec(i % (PALETTE_LEN as int))
}

/// `evs` with every window retagged with the color of source position
/// `i`; title and endpoints are untouched.
pub open spec fn tag_seq(evs: Seq<EventV>, i: int) -> Seq<EventV> {
    evs.map(
        |k: int, e: EventV|
            EventV { title: e.title, start: e.start, end: e.end, color: source_color(i) },
    )
}

fn palette(i: usize) -> (r: String)
    requires
        i < PALETTE_LEN,
    ensures
        r@ == palette_spec(i as int),
{
    if i == 0 {
        "#9D68AF".to_owned()
    } else if i == 1 {
        "#32B579".to_owned()
    } else if i == 2 {
        "#E67B73".to_owned()
    } else {
        "#E4C441".to_owned()
    }
}

/// Stamps every window of one source with that source's palette color.
/// `i` is the position of the source's link in the original request, so
/// the color depends only on that position, never on when the source's
/// fetch completed.
pub fn attach_color(events: Vec<Event>, i: usize) -> (r: Vec<Event>)
    ensures
        r.deep_view() == tag_seq(events.deep_view(), i as int),
{
    let ghost input = events.deep_view();
    let mut events = events;
    let mut out: Vec<Event> = Vec::new();
    let ghost mut k: int = 0;
    let color = palette(i % PALETTE_LEN);
    proof {
        assert(color@ == source_color(i as int));
    }
    while events.len() > 0
        invariant
            0 <= k <= input.len(),
            events@.len() == input.len() - k,
            events.deep_view() == input.skip(k),
            out.deep_view() == tag_seq(input, i as int).take(k),
            color@ == source_color(i as int),
        decreases events.len(),
    {
        let ghost prev_dv = events.deep_view();
        let ghost prev_sv = events@;
        let ghost out_dv = out.deep_view();
        let ghost out_sv = out@;
        let mut e = events.remove(0);
        proof {
            assert(prev_dv[0] == prev_sv[0].deep_view());
            assert(e.deep_view() == input.skip(k)[0]);
            assert(e.deep_view() == input[k]);
            assert forall|m: int| 0 <= m < events@.len() implies events.deep_view()[m] == input.skip(
                k + 1,
            )[m] by {
                assert(events@[m] == prev_sv[m + 1]);
                assert(events.deep_view()[m] == events@[m].deep_view());
                assert(prev_dv[m + 1] == prev_sv[m + 1].deep_view());
            }
            assert(events.deep_view() =~= input.skip(k + 1));
        }
        e.color = color.clone();
        out.push(e);
        proof {
            let tagged = tag_seq(input, i as int);
            assert(tagged.len() == input.len());
            assert(out@ == out_sv.push(e));
            assert(out_dv.len() == out_sv.len());
            assert(tagged.take(k).len() == k);
            assert(e.deep_view() == tagged[k]);
            assert forall|m: int| 0 <= m < out@.len() implies out.deep_view()[m] == tagged.take(
                k + 1,
            )[m] by {
                assert(out.deep_view()[m] == out@[m].deep_view());
                if m < out@.len() - 1 {
                    assert(out@[m] == out_sv[m]);
                    assert(out_dv[m] == out_sv[m].deep_view());
                    assert(out_dv[m] == tagged.take(k)[m]);
                } else {
                    assert(out@[m] == e);
                }
            }
            assert(out.deep_view() =~= tagged.take(k + 1));
            k = k + 1;
        }
    }
    proof {
        assert(tag_seq(input, i as int).take(k) =~= tag_seq(input, i as int));
    }
    out
}

} // verus!
