//! Outbound SMTP mail: a MIME message builder and the decisions of an SMTP
//! client session.
pub mod email;
pub mod errors;
pub mod logger;
pub mod mailer;
pub mod queue;
pub mod utils;

pub use email::{
    Attachment, DsnNotify, DsnOverride, DsnRet, Email, EmailBuildError, EmailOptions, Recipient,
    User,
};
pub use errors::{
    InvalidContentError, InvalidEmailError, SmtpAuthError, SmtpConnectionError,
    SmtpRecipientError, SmtpTimeoutError, WorkerMailerError,
};
pub use logger::{LogLevel, Logger};
pub use mailer::{
    AuthType, Capabilities, Credentials, DsnNotify as DsnNotifyOpt, DsnOptions,
    DsnRet as DsnRetOpt, Phase, SmtpAction, SmtpError, SmtpSession, Transaction, TxPhase,
    WorkerMailerOptions,
};
pub use queue::{QueueEmailMessage, QueueProcessResult};
pub use utils::{decode, encode, encode_header, encode_quoted_printable, is_valid_email, validate_emails};
