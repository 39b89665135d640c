//! The records exchanged with a batched delivery queue, and the outcome of
//! one delivery.
use vstd::prelude::*;
use crate::email::EmailOptions;
use crate::mailer::WorkerMailerOptions;

verus! {

/// One queued delivery: how to connect, and what to send.
#[derive(Debug, Clone)]
pub struct QueueEmailMessage {
    pub mailer_options: WorkerMailerOptions,
    pub email_options: EmailOptions,
}

/// The outcome of one queued delivery.
#[derive(Debug, Clone)]
pub struct QueueProcessResult {
    pub success: bool,
    pub error: Option<String>,
    pub email_options: EmailOptions,
}

impl QueueProcessResult {
    /// The result of a delivery: a success, or a failure with its reason.
    pub fn from_outcome(outcome: Result<String, String>, email_options: EmailOptions) -> (r: Self)
        ensures
            r.success == outcome is Ok,
            r.error == match outcome {
                Ok(_) => None,
                Err(e) => Some(e),
            },
            r.email_options == email_options,
    {
        match outcome {
            Ok(_) => QueueProcessResult { success: true, error: None, email_options },
            Err(e) => QueueProcessResult { success: false, error: Some(e), email_options },
        }
    }

    /// Whether the message is acknowledged (else it is marked for retry).
    pub fn acknowledged(&self) -> (r: bool)
        ensures
            r == self.success,
    {
        self.success
    }
}

} // verus!
