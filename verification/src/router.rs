//! The source router: picks the provider adapter that owns a scheduling
//! link by matching the link against an ordered set of provider
//! signatures, first match wins, with a fallback for unrecognized links.

use vstd::prelude::*;

use crate::text::contains_seq;
use crate::text::str_contains;

verus! {

/// The provider families this crate recognizes. Adding a provider means
/// adding a variant here and a match arm in the router; existing
/// adapters are untouched.
#[derive(Debug, Clone, Copy, PartialEq, Eq, Structural)]
pub enum CalendarType {
    Calendly,
    Google,
}

/// Selects the adapter that owns a scheduling link. A link whose
/// characters contain the provider token `calendly` belongs to the
/// Calendly adapter; every other link falls back to the Google adapter.
pub fn get_calendar_type(scheduling_link: &str) -> (t: CalendarType)
    ensures
        t == CalendarType::Calendly <==> contains_seq(scheduling_link@, "calendly"@),
{
    if str_contains(scheduling_link, "calendly") {
        CalendarType::Calendly
    } else {
        CalendarType::Google
    }
}

} // verus!
