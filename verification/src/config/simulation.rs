//! Simulation configuration: how we compute it.
//!
//! The time block must give a scale-factor range for an expanding
//! spacetime and a coordinate-time range for a static one.
use vstd::prelude::*;
use vstd::string::StringExecFns;
use crate::config::ontology::{ontology_error, ConfigErrorView, OntologyOutline};
use crate::config::ConfigError;

verus! {

/// Default stepping mode.
pub fn default_stepping() -> (r: String)
    ensures
        r@ == "log"@,
{
    String::from_str("log")
}

/// Default initialization method.
pub fn default_method() -> (r: String)
    ensures
        r@ == "zeldovich"@,
{
    String::from_str("zeldovich")
}

/// Default random seed.
pub fn default_seed() -> (r: u64)
    ensures
        r == 42,
{
    42
}

/// Default power spectrum source.
pub fn default_spectrum() -> (r: String)
    ensures
        r@ == "power"@,
{
    String::from_str("power")
}

/// What validation reads of the time block: which ranges are given.
#[derive(Clone, Copy, Debug)]
pub struct TimeOutline {
    pub has_scale_factor_range: bool,
    pub has_time_range: bool,
}

/// What is missing from the time block for the given spacetime.
pub open spec fn time_error(t: TimeOutline, is_expanding: bool) -> Option<ConfigErrorView> {
    if is_expanding {
        if !t.has_scale_factor_range {
            Some(ConfigErrorView::ScaleFactorRangeRequired)
        } else {
            None
        }
    } else if !t.has_time_range {
        Some(ConfigErrorView::TimeRangeRequired)
    } else {
        None
    }
}

impl TimeOutline {
    /// Validate time config against spacetime background.
    pub fn validate(&self, is_expanding: bool) -> (r: Result<(), ConfigError>)
        ensures
            match r {
                Ok(_) => time_error(*self, is_expanding) is None,
                Err(e) => time_error(*self, is_expanding) == Some(e@),
            },
    {
        if is_expanding {
            if !self.has_scale_factor_range {
                return Err(ConfigError::ScaleFactorRangeRequired);
            }
        } else if !self.has_time_range {
            return Err(ConfigError::TimeRangeRequired);
        }
        Ok(())
    }
}

/// The error that validating an engine configuration reports: the
/// ontology's first, then the time block's.
pub open spec fn engine_error(o: OntologyOutline, t: TimeOutline) -> Option<ConfigErrorView> {
    if ontology_error(o) is Some {
        ontology_error(o)
    } else {
        time_error(t, o.spacetime.background == crate::config::ontology::SpacetimeBackground::Flrw)
    }
}

/// Validate the full configuration for internal consistency.
pub fn validate_engine(ontology: &OntologyOutline, time: &TimeOutline) -> (r: Result<(), ConfigError>)
    requires
        ontology.wf(),
    ensures
        match r {
            Ok(_) => engine_error(*ontology, *time) is None,
            Err(e) => engine_error(*ontology, *time) == Some(e@),
        },
{
    ontology.validate()?;
    time.validate(ontology.spacetime.is_expanding())
}

/// The time block validates exactly when it gives the range the
/// spacetime needs: the scale-factor range for an expanding spacetime,
/// the time range for a static one; otherwise the error names that range.
pub proof fn law_time_ranges(t: TimeOutline, is_expanding: bool)
    ensures
        time_error(t, is_expanding) is None <==> (if is_expanding {
            t.has_scale_factor_range
        } else {
            t.has_time_range
        }),
        is_expanding && !t.has_scale_factor_range ==> time_error(t, is_expanding) == Some(
            ConfigErrorView::ScaleFactorRangeRequired,
        ),
        !is_expanding && !t.has_time_range ==> time_error(t, is_expanding) == Some(
            ConfigErrorView::TimeRangeRequired,
        ),
{
}

/// An engine configuration validates exactly when its ontology does and
/// its time block gives the range its spacetime needs; an ontology error
/// is reported before a time error.
pub proof fn law_engine_validation(o: OntologyOutline, t: TimeOutline)
    ensures
        engine_error(o, t) is None <==> ontology_error(o) is None && (if o.spacetime.background
            == crate::config::ontology::SpacetimeBackground::Flrw {
            t.has_scale_factor_range
        } else {
            t.has_time_range
        }),
        ontology_error(o) is Some ==> engine_error(o, t) == ontology_error(o),
{
}

} // verus!
