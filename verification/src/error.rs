//! What a call is refused with.

use vstd::prelude::*;

use crate::text;

verus! {

/// The protocol's error taxonomy, as far as the plugin uses it.
#[derive(Debug, PartialEq, Eq)]
pub enum BackendError {
    /// A profile or binding that cannot be registered.
    InvalidSpec { message: String },
    /// Any failure at run time.
    Transport { message: String },
    /// A conversion that ran out of time.
    Timeout { timeout_ms: u64 },
    /// A profile that nobody registered.
    ProfileNotFound { backend_name: String },
}

/// What a [`BackendError`] says.
pub enum ErrorView {
    InvalidSpec { message: Seq<char> },
    Transport { message: Seq<char> },
    Timeout { timeout_ms: u64 },
    ProfileNotFound { backend_name: Seq<char> },
}

impl BackendError {
    pub open spec fn view(&self) -> ErrorView {
        match self {
            BackendError::InvalidSpec { message } => ErrorView::InvalidSpec { message: message@ },
            BackendError::Transport { message } => ErrorView::Transport { message: message@ },
            BackendError::Timeout { timeout_ms } => ErrorView::Timeout { timeout_ms: *timeout_ms },
            BackendError::ProfileNotFound { backend_name } => ErrorView::ProfileNotFound {
                backend_name: backend_name@,
            },
        }
    }

    /// The error as `{:?}` writes it.
    pub fn describe(&self) -> (r: String)
        ensures
            r@ == described(self@),
    {
        match self {
            BackendError::InvalidSpec { message } => text::concat3(
                "InvalidSpec { message: ",
                text::debug_text(message.as_str()).as_str(),
                " }",
            ),
            BackendError::Transport { message } => text::concat3(
                "Transport { message: ",
                text::debug_text(message.as_str()).as_str(),
                " }",
            ),
            BackendError::Timeout { timeout_ms } => text::concat3(
                "Timeout { timeout_ms: ",
                text::decimal_text(*timeout_ms).as_str(),
                " }",
            ),
            BackendError::ProfileNotFound { backend_name } => text::concat3(
                "ProfileNotFound { backend_name: ",
                text::debug_text(backend_name.as_str()).as_str(),
                " }",
            ),
        }
    }
}

/// An error as `{:?}` writes it.
pub open spec fn described(e: ErrorView) -> Seq<char> {
    match e {
        ErrorView::InvalidSpec { message } => "InvalidSpec { message: "@ + text::quoted(message)
            + " }"@,
        ErrorView::Transport { message } => "Transport { message: "@ + text::quoted(message)
            + " }"@,
        ErrorView::Timeout { timeout_ms } => "Timeout { timeout_ms: "@ + text::decimal(
            timeout_ms as nat,
        ) + " }"@,
        ErrorView::ProfileNotFound { backend_name } => "ProfileNotFound { backend_name: "@
            + text::quoted(backend_name) + " }"@,
    }
}

/// What a caller is told who gave a wrong argument.
pub open spec fn refusal(message: Seq<char>) -> ErrorView {
    ErrorView::Transport { message }
}

/// A caller-supplied argument was wrong.
///
/// The taxonomy has no variant for that, so it rides in `Transport`, as every
/// failure at run time does. The message is written to be actionable, since
/// the taxonomy will not carry that information.
pub(crate) fn invalid(message: String) -> (r: BackendError)
    ensures
        r@ == refusal(message@),
{
    BackendError::Transport { message }
}

} // verus!
