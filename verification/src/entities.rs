//! Finding dates, times and measurements in a text.

use vstd::prelude::*;
use crate::patterns::{
    compiles, find_all, first_refused, for_pattern, matches_in, Pattern, PatternError,
};
use crate::text::same_text;

verus! {

/// What was found in a text, each kind in the order of the text.
#[derive(Debug)]
pub struct Entities {
    /// The dates.
    pub dates: Vec<String>,
    /// The times of day.
    pub times: Vec<String>,
    /// The measurements.
    pub measurements: Vec<String>,
}

impl Entities {
    /// The entities of one kind, by the name of the kind: `dates`, `times` or
    /// `measurements`. No other name is known.
    pub fn get(&self, kind: &str) -> (found: Option<&Vec<String>>)
        ensures
            kind@ == "dates"@ ==> found == Some(&self.dates),
            kind@ == "times"@ ==> found == Some(&self.times),
            kind@ == "measurements"@ ==> found == Some(&self.measurements),
            found is Some <==> kind@ == "dates"@ || kind@ == "times"@ || kind@ == "measurements"@,
    {
        proof {
            reveal_strlit("dates");
            reveal_strlit("times");
            reveal_strlit("measurements");
            assert("dates"@[0] != "times"@[0]);
            assert("dates"@.len() != "measurements"@.len());
            assert("times"@.len() != "measurements"@.len());
        }
        if same_text(kind, "dates") {
            Some(&self.dates)
        } else if same_text(kind, "times") {
            Some(&self.times)
        } else if same_text(kind, "measurements") {
            Some(&self.measurements)
        } else {
            None
        }
    }
}

/// Whether `found` holds what the three patterns match in `text`.
pub open spec fn are_entities_of(found: Entities, text: Seq<char>) -> bool {
    &&& found.dates.deep_view() == matches_in(Pattern::Date.spec_source(), text)
    &&& found.times.deep_view() == matches_in(Pattern::Time.spec_source(), text)
    &&& found.measurements.deep_view() == matches_in(Pattern::Measurement.spec_source(), text)
}

/// Finds the dates, times and measurements of a text. They are found exactly
/// when the three patterns of extraction compile; an error names the first of
/// them, in the order dates, times, measurements, that does not.
pub fn extract_entities(text: &str) -> (r: Result<Entities, PatternError>)
    ensures
        r is Ok <==> (compiles(Pattern::Date.spec_source()) && compiles(
            Pattern::Time.spec_source(),
        ) && compiles(Pattern::Measurement.spec_source())),
        r is Ok ==> are_entities_of(r->Ok_0, text@),
        r is Err ==> !compiles(r->Err_0.pattern.spec_source()),
        r is Err ==> Some(r->Err_0.pattern) == first_refused(
            Pattern::Date,
            Pattern::Time,
            Pattern::Measurement,
        ),
{
    let dates = match for_pattern(find_all(Pattern::Date.source(), text), Pattern::Date) {
        Ok(v) => v,
        Err(e) => {
            return Err(e);
        },
    };
    let times = match for_pattern(find_all(Pattern::Time.source(), text), Pattern::Time) {
        Ok(v) => v,
        Err(e) => {
            return Err(e);
        },
    };
    let measurements = match for_pattern(
        find_all(Pattern::Measurement.source(), text),
        Pattern::Measurement,
    ) {
        Ok(v) => v,
        Err(e) => {
            return Err(e);
        },
    };
    Ok(Entities { dates, times, measurements })
}

} // verus!
