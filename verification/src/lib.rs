//! Aggregation of free/busy availability windows from several scheduling
//! links into one merged, color-tagged timeline.
//!
//! The crate models an availability window as an [`Event`]: a half-open
//! time range `[start, end)` in milliseconds since the epoch, together
//! with the title of the scheduling source it came from and a display
//! color. Provider adapters turn provider-native slot data into events,
//! the router picks an adapter for a link, and the merge engine sorts,
//! merges and deduplicates the union of all sources' events.

use vstd::prelude::*;

pub mod aggregate;
pub mod calendly;
pub mod color;
pub mod extract;
pub mod google_cal;
pub mod merge;
pub mod parse;
pub mod router;
pub mod text;

verus! {

/// One availability window: a half-open range `[start, end)` of
/// milliseconds since the epoch, tagged with the source's display title
/// and a display color.
#[derive(Debug, Clone, PartialEq)]
pub struct Event {
    pub title: String,
    pub start: i64,
    pub end: i64,
    pub color: String,
}

/// The mathematical value of an [`Event`]: unbounded integers for the
/// endpoints and character sequences for the strings.
#[verifier::ext_equal]
pub ghost struct EventV {
    pub title: Seq<char>,
    pub start: int,
    pub end: int,
    pub color: Seq<char>,
}

impl View for Event {
    type V = EventV;

    open spec fn view(&self) -> EventV {
        EventV {
            title: self.title@,
            start: self.start as int,
            end: self.end as int,
            color: self.color@,
        }
    }
}

impl DeepView for Event {
    type V = EventV;

    open spec fn deep_view(&self) -> EventV {
        self.view()
    }
}

impl EventV {
    /// A well-formed window is non-empty: its start lies strictly before
    /// its end.
    pub open spec fn valid(self) -> bool {
        self.start < self.end
    }
}

/// Why one source's fetch produced no windows. Adapter errors never
/// abort a request: the aggregator downgrades them to an empty
/// contribution from that source.
#[derive(Debug, Clone, PartialEq)]
pub enum FetchError {
    /// A required field (identifier, title or duration, depending on the
    /// provider) could not be located in the provider's page; carries
    /// the name of the missing field.
    ExtractionError { field: String },
    /// The network or HTTP transport failed.
    TransportError,
    /// The provider's response did not have the expected shape.
    DecodeError,
}

} // verus!
