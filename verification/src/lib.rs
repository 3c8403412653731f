//! Goose load-testing library: the verified core.
//!
//! The modules hold the arithmetic, parsing, scheduling and metric-aggregation
//! logic of the load tester, each with contracts that Verus proves.

use vstd::prelude::*;

pub mod goose;
pub mod histogram;
pub mod manager;
pub mod metrics;
pub mod named;
pub mod print;
pub mod report;
pub mod scenarios;
pub mod scheduler;
pub mod stats;
pub mod status_codes;
pub mod test_plan;
pub mod text;
pub mod throttle;
pub mod util;
pub mod worker;

verus! {

/// Declares `url::ParseError`, the error of a failed URL parse, carried as is.
#[verifier::external_type_specification]
#[verifier::external_body]
pub struct ExUrlParseError(url::ParseError);

/// An enumeration of the errors that the library's functions can return.
#[derive(Debug)]
pub enum GooseError {
    /// Failed attempt to use code that requires a compile-time feature be enabled.
    FeatureNotEnabled {
        /// The missing compile-time feature.
        feature: String,
        /// An optional explanation of the error.
        detail: String,
    },
    /// Failed to parse a hostname.
    InvalidHost {
        /// The invalid hostname that caused this error.
        host: String,
        /// An optional explanation of the error.
        detail: String,
        /// The error that parsing the URL returned.
        parse_error: url::ParseError,
    },
    /// Invalid option or value specified, may only be invalid in context.
    InvalidOption {
        /// The invalid option that caused this error, may be only invalid in context.
        option: String,
        /// The invalid value that caused this error, may be only invalid in context.
        value: String,
        /// An optional explanation of the error.
        detail: String,
    },
    /// Invalid weight specified.
    InvalidWeight {
        /// The specified weight.
        weight: usize,
        /// An optional explanation of the error.
        detail: String,
    },
    /// Invalid controller command.
    InvalidControllerCommand {
        /// An optional explanation of the error.
        detail: String,
    },
    /// The load test has no scenario defined.
    NoScenarios {
        /// An optional explanation of the error.
        detail: String,
    },
}

impl GooseError {
    /// A text description of each kind of error.
    pub fn describe(&self) -> (d: &'static str)
        ensures
            d@ == match self {
                GooseError::FeatureNotEnabled { .. } => "required compile-time feature not enabled"@,
                GooseError::InvalidHost { .. } => "failed to parse hostname"@,
                GooseError::InvalidOption { .. } => "invalid option or value specified"@,
                GooseError::InvalidWeight { .. } => "invalid weight specified"@,
                GooseError::InvalidControllerCommand { .. } => "invalid controller command"@,
                GooseError::NoScenarios { .. } => "no scenarios defined"@,
            },
    {
        match self {
            GooseError::FeatureNotEnabled { .. } => "required compile-time feature not enabled",
            GooseError::InvalidHost { .. } => "failed to parse hostname",
            GooseError::InvalidOption { .. } => "invalid option or value specified",
            GooseError::InvalidWeight { .. } => "invalid weight specified",
            GooseError::InvalidControllerCommand { .. } => "invalid controller command",
            GooseError::NoScenarios { .. } => "no scenarios defined",
        }
    }
}

/// A load test operates in one (and only one) of the following modes.
#[derive(Clone, Copy, Debug, PartialEq, Eq, Structural)]
pub enum AttackMode {
    /// During early startup before one of the following modes gets assigned.
    Undefined,
    /// A single standalone process performing a load test.
    StandAlone,
}

/// A load test moves through each of the following phases.
#[derive(Clone, Copy, Debug, PartialEq, Eq, Structural)]
pub enum AttackPhase {
    /// No load test is running, configuration can be changed by a Controller.
    Idle,
    /// Users are launching.
    Increase,
    /// Users have been launched and are generating load.
    Maintain,
    /// Users are stopping.
    Decrease,
    /// Exiting the load test.
    Shutdown,
}

} // verus!
