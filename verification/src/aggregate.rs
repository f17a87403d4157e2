//! The aggregator: joins the per-source fetch outcomes of one request
//! into the final timeline. A failed source contributes nothing and
//! taints nobody; surviving windows are tagged with their source's
//! color and handed to the merge engine.

use vstd::prelude::*;

use crate::color::source_color;
use crate::color::tag_seq;
use crate::color::attach_color;
use crate::merge::dedup_events;
use crate::merge::dedup_spec;
use crate::merge::merged_form;
use crate::merge::sorted_le;
use crate::Event;
use crate::EventV;
use crate::FetchError;

verus! {

/// The outcome of fetching one scheduling link. `source_index` is the
/// position of the link in the original request, which alone determines
/// the color of this source's windows; `error` is present exactly when
/// the fetch failed, and a failed source carries no windows.
pub struct SourceResult {
    pub source_index: usize,
    pub intervals: Vec<Event>,
    pub error: Option<FetchError>,
}

/// The mathematical value of a [`SourceResult`]: for aggregation only
/// the request position, the windows and whether the fetch failed
/// matter.
#[verifier::ext_equal]
pub ghost struct SourceResultV {
    pub source_index: int,
    pub intervals: Seq<EventV>,
    pub failed: bool,
}

impl View for SourceResult {
    type V = SourceResultV;

    open spec fn view(&self) -> SourceResultV {
        SourceResultV {
            source_index: self.source_index as int,
            intervals: self.intervals.deep_view(),
            failed: self.error is Some,
        }
    }
}

impl DeepView for SourceResult {
    type V = SourceResultV;

    open spec fn deep_view(&self) -> SourceResultV {
        self.view()
    }
}

impl SourceResult {
    /// A failed source carries no windows.
    pub open spec fn wf(self) -> bool {
        self.error is Some ==> self.intervals@.len() == 0
    }

    /// The successful outcome for the link at request position
    /// `source_index`.
    pub fn ok(source_index: usize, intervals: Vec<Event>) -> (r: SourceResult)
        ensures
            r@ == (SourceResultV {
                source_index: source_index as int,
                intervals: intervals.deep_view(),
                failed: false,
            }),
            r.error is None,
            r.wf(),
    {
        SourceResult { source_index, intervals, error: None }
    }

    /// The failed outcome for the link at request position
    /// `source_index`.
    pub fn failed(source_index: usize, error: FetchError) -> (r: SourceResult)
        ensures
            r@ == (SourceResultV {
                source_index: source_index as int,
                intervals: Seq::empty(),
                failed: true,
            }),
            r.error == Some(error),
            r.wf(),
    {
        let r = SourceResult { source_index, intervals: Vec::new(), error: Some(error) };
        proof {
            assert(r@.intervals =~= Seq::<EventV>::empty());
        }
        r
    }
}

/// The final timeline of one request: sorted, maximally merged, ready
/// for serialization.
pub struct MergedTimeline {
    pub events: Vec<Event>,
}

/// What one source hands to the merge pool: nothing if its fetch
/// failed, otherwise its windows tagged with the color of its request
/// position.
pub open spec fn contribution(r: SourceResultV) -> Seq<EventV> {
    if r.failed {
        Seq::empty()
    } else {
        tag_seq(r.intervals, r.source_index)
    }
}

/// The flattened, color-tagged union of all sources' windows, in the
/// order the sources stand in.
pub open spec fn tagged_pool(rs: Seq<SourceResultV>) -> Seq<EventV>
    decreases rs.len(),
{
    if rs.len() == 0 {
        Seq::empty()
    } else {
        tagged_pool(rs.drop_last()) + contribution(rs.last())
    }
}

/// What aggregation computes: the merged, deduplicated form of the
/// tagged pool.
pub open spec fn aggregate_spec(rs: Seq<SourceResultV>) -> Seq<EventV> {
    dedup_spec(tagged_pool(rs))
}

/// Color assignment is stable under fetch-completion reordering: what a
/// surviving source contributes is a function of that source's outcome
/// alone, and every window it contributes carries the palette color of
/// the source's own request position — nothing else about the request,
/// including the order in which outcomes arrived, plays a part.
pub proof fn lemma_color_by_request_position(r: SourceResultV, k: int)
    requires
        !r.failed,
        0 <= k < r.intervals.len(),
    ensures
        contribution(r).len() == r.intervals.len(),
        contribution(r)[k].color == source_color(r.source_index),
        contribution(r)[k].title == r.intervals[k].title,
        contribution(r)[k].start == r.intervals[k].start,
        contribution(r)[k].end == r.intervals[k].end,
{
}

/// Failure isolation: a source whose fetch failed contributes no
/// windows, and the pool of a request containing it is exactly the pool
/// of the request without it — sibling sources are untouched.
pub proof fn lemma_failure_isolation(rs: Seq<SourceResultV>, j: int)
    requires
        0 <= j < rs.len(),
        rs[j].failed,
    ensures
        contribution(rs[j]) == Seq::<EventV>::empty(),
        tagged_pool(rs) == tagged_pool(rs.remove(j)),
        aggregate_spec(rs) == aggregate_spec(rs.remove(j)),
    decreases rs.len(),
{
    if j == rs.len() - 1 {
        assert(tagged_pool(rs) =~= tagged_pool(rs.drop_last()));
        assert(rs.remove(j) =~= rs.drop_last());
    } else {
        assert(rs.drop_last()[j] == rs[j]);
        lemma_failure_isolation(rs.drop_last(), j);
        assert(rs.remove(j).drop_last() =~= rs.drop_last().remove(j));
        assert(rs.remove(j).last() == rs.last());
        assert(tagged_pool(rs.remove(j)) == tagged_pool(rs.remove(j).drop_last()) + contribution(
            rs.remove(j).last(),
        ));
    }
}

/// An empty request produces an empty timeline, not an error.
pub proof fn lemma_empty_request(rs: Seq<SourceResultV>)
    requires
        rs.len() == 0,
    ensures
        aggregate_spec(rs) == Seq::<EventV>::empty(),
{
    assert(crate::merge::sort_by_key(tagged_pool(rs)) == Seq::<EventV>::empty());
    assert(crate::merge::merge_scan(Seq::<EventV>::empty()) == Seq::<EventV>::empty());
}

/// Joins all sources' outcomes into the final timeline: tags every
/// surviving source's windows with the color of its request position,
/// pools them, and hands the pool to the merge engine. Failed sources
/// contribute nothing; an all-failed or empty request yields an empty
/// timeline, never an error.
pub fn aggregate(results: Vec<SourceResult>) -> (t: MergedTimeline)
    ensures
        t.events.deep_view() == aggregate_spec(results.deep_view()),
        merged_form(t.events.deep_view()),
        sorted_le(t.events.deep_view()),
{
    let ghost input = results.deep_view();
    let mut results = results;
    let mut pool: Vec<Event> = Vec::new();
    let ghost mut k: int = 0;
    while results.len() > 0
        invariant
            0 <= k <= input.len(),
            results@.len() == input.len() - k,
            results.deep_view() == input.skip(k),
            pool.deep_view() == tagged_pool(input.take(k)),
        decreases results.len(),
    {
        let ghost prev_dv = results.deep_view();
        let ghost prev_sv = results@;
        let r = results.remove(0);
        proof {
            assert(prev_dv[0] == prev_sv[0].deep_view());
            assert(r.deep_view() == input.skip(k)[0]);
            assert(r.deep_view() == input[k]);
            assert forall|i: int| 0 <= i < results@.len() implies results.deep_view()[i]
                == input.skip(k + 1)[i] by {
                assert(results@[i] == prev_sv[i + 1]);
                assert(results.deep_view()[i] == results@[i].deep_view());
                assert(prev_dv[i + 1] == prev_sv[i + 1].deep_view());
            }
            assert(results.deep_view() =~= input.skip(k + 1));
            assert(input.take(k + 1).drop_last() =~= input.take(k));
            assert(input.take(k + 1).last() == input[k]);
        }
        let ghost pool_dv = pool.deep_view();
        let ghost pool_sv = pool@;
        if r.error.is_none() {
            let mut tagged = attach_color(r.intervals, r.source_index);
            proof {
                assert(tagged.deep_view() == contribution(input[k]));
            }
            let ghost tagged_sv = tagged@;
            let ghost tagged_dv = tagged.deep_view();
            pool.append(&mut tagged);
            proof {
                assert(pool@ == pool_sv + tagged_sv);
                assert forall|i: int| 0 <= i < pool@.len() implies pool.deep_view()[i] == (pool_dv
                    + tagged_dv)[i] by {
                    assert(pool.deep_view()[i] == pool@[i].deep_view());
                    if i < pool_sv.len() {
                        assert(pool@[i] == pool_sv[i]);
                        assert(pool_dv[i] == pool_sv[i].deep_view());
                    } else {
                        assert(pool@[i] == tagged_sv[i - pool_sv.len()]);
                        assert(tagged_dv[i - pool_sv.len()] == tagged_sv[i
                            - pool_sv.len()].deep_view());
                    }
                }
                assert(pool.deep_view() =~= pool_dv + tagged_dv);
                assert(pool.deep_view() =~= tagged_pool(input.take(k + 1)));
            }
        } else {
            proof {
                assert(contribution(input[k]) =~= Seq::<EventV>::empty());
                assert(pool.deep_view() =~= tagged_pool(input.take(k + 1)));
            }
        }
        proof {
            k = k + 1;
        }
    }
    proof {
        assert(input.take(k) =~= input);
    }
    dedup_events(&mut pool);
    MergedTimeline { events: pool }
}

} // verus!
