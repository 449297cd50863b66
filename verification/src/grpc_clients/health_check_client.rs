//! The readiness probe of the success-rate service: what a probe can come
//! back with, and whether the run may start.

use vstd::prelude::*;
use vstd::string::StringExecFns;

verus! {

/// The services that are probed.
#[derive(Debug, Clone, Copy, PartialEq, Eq, Structural, Hash)]
pub enum HealthCheckServices {
    /// Dynamic routing service
    DynamicRoutingService,
}

/// Why a probe failed.
#[derive(Debug)]
pub enum HealthCheckError {
    /// The required input is missing
    MissingFields(String),
    /// Error from gRPC Server
    ConnectionError(String),
    /// status is invalid
    InvalidStatus,
}

/// What a service says of itself.
#[derive(Debug, Clone, Copy, PartialEq, Eq, Structural)]
pub enum ServingStatus {
    Unknown,
    Serving,
    NotServing,
    ServiceUnknown,
}

/// How the probe of one service ended.
#[derive(Debug, Clone, Copy, PartialEq, Eq, Structural)]
pub enum ProbeOutcome {
    /// There is no client for the service.
    MissingClient,
    /// The call did not come back with an answer.
    CallFailed,
    /// The service answered.
    Answered(ServingStatus),
}

/// Each probed service with whether it is ready.
pub type HealthCheckMap = Vec<(HealthCheckServices, bool)>;

/// The text of a word that an error carries.
pub open spec fn carried_text(error: HealthCheckError) -> Seq<char> {
    match error {
        HealthCheckError::MissingFields(text) => text@,
        HealthCheckError::ConnectionError(text) => text@,
        HealthCheckError::InvalidStatus => Seq::empty(),
    }
}

impl HealthCheckError {
    /// What the error reads as.
    pub open spec fn text(self) -> Seq<char> {
        match self {
            HealthCheckError::MissingFields(what) => "Missing fields: "@ + what@
                + " for building the Health check connection"@,
            HealthCheckError::ConnectionError(what) => "Error from gRPC Server : "@ + what@,
            HealthCheckError::InvalidStatus => "Invalid Status from server"@,
        }
    }

    /// The error in words.
    pub fn message(&self) -> (r: String)
        ensures
            r@ == self.text(),
    {
        match self {
            HealthCheckError::MissingFields(what) => {
                let mut text = String::from_str("Missing fields: ");
                text.append(what.as_str());
                text.append(" for building the Health check connection");
                text
            },
            HealthCheckError::ConnectionError(what) => {
                let mut text = String::from_str("Error from gRPC Server : ");
                text.append(what.as_str());
                text
            },
            HealthCheckError::InvalidStatus => String::from_str("Invalid Status from server"),
        }
    }
}

/// Decides on the probe of the dynamic routing service: the run may start
/// only where the service answered that it is serving.
pub fn perform_health_check(outcome: ProbeOutcome) -> (r: Result<HealthCheckMap, HealthCheckError>)
    ensures
        match outcome {
            ProbeOutcome::Answered(ServingStatus::Serving) => r matches Ok(map) && map@ == seq![
                (HealthCheckServices::DynamicRoutingService, true),
            ],
            ProbeOutcome::Answered(_) => r matches Err(error) && error is InvalidStatus,
            ProbeOutcome::MissingClient => r matches Err(error) && error is MissingFields
                && carried_text(error) == "[health_client]"@,
            ProbeOutcome::CallFailed => r matches Err(error) && error is ConnectionError
                && carried_text(error) == "Failed to call dynamic routing service"@,
        },
{
    match outcome {
        ProbeOutcome::Answered(ServingStatus::Serving) => {
            let mut map: HealthCheckMap = Vec::new();
            map.push((HealthCheckServices::DynamicRoutingService, true));
            assert(map@ =~= seq![(HealthCheckServices::DynamicRoutingService, true)]);
            Ok(map)
        },
        ProbeOutcome::Answered(_) => Err(HealthCheckError::InvalidStatus),
        ProbeOutcome::MissingClient => Err(
            HealthCheckError::MissingFields(String::from_str("[health_client]")),
        ),
        ProbeOutcome::CallFailed => Err(
            HealthCheckError::ConnectionError(
                String::from_str("Failed to call dynamic routing service"),
            ),
        ),
    }
}

} // verus!
