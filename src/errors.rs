//! The failures that building or sending a message can report.
use vstd::prelude::*;

verus! {

/// A failure of the mailer, with a short machine-readable code.
#[derive(Debug)]
pub struct WorkerMailerError {
    pub message: String,
    pub code: String,
}

/// One or more malformed addresses, all of them listed.
#[derive(Debug)]
pub struct InvalidEmailError {
    pub message: String,
    pub invalid_emails: Vec<String>,
}

impl InvalidEmailError {
    pub fn new(message: String, invalid_emails: Vec<String>) -> (r: Self)
        ensures
            r.message == message,
            r.invalid_emails == invalid_emails,
    {
        InvalidEmailError { message, invalid_emails }
    }
}

/// The server refused the credentials, or no mechanism could be agreed on.
#[derive(Debug)]
pub struct SmtpAuthError(pub String);

/// The transport failed, or the server's greeting or handshake was refused.
#[derive(Debug)]
pub struct SmtpConnectionError(pub String);

/// The server rejected one recipient.
#[derive(Debug)]
pub struct SmtpRecipientError {
    pub message: String,
    pub recipient: String,
}

impl SmtpRecipientError {
    pub fn new(message: String, recipient: String) -> (r: Self)
        ensures
            r.message == message,
            r.recipient == recipient,
    {
        SmtpRecipientError { message, recipient }
    }
}

/// An operation ran past its deadline.
#[derive(Debug)]
pub struct SmtpTimeoutError(pub String);

/// The message has neither a text nor an HTML body.
#[derive(Debug)]
pub struct InvalidContentError(pub String);

} // verus!
