//! What a mutating route hands back to the HTTP layer: either an
//! unprocessable-request status for a structurally broken form, or a
//! redirect carrying a one-shot flash message.

use vstd::prelude::*;

verus! {

/// The kind of a flash message.
#[derive(Clone, Copy, Debug, PartialEq, Eq, Structural)]
pub enum MsgKind {
    Success,
    Warning,
}

/// A redirect to `target` together with the flash message the next page
/// render shows once.
#[derive(Debug)]
pub struct FlashRedirect {
    pub target: String,
    pub kind: MsgKind,
    pub message: String,
}

/// Outcome of a form-handling route. A missing or undecodable required
/// field gives `Unprocessable` and no flash message; everything else
/// redirects with one.
#[derive(Debug)]
pub enum PostResponse {
    Unprocessable,
    Redirect(FlashRedirect),
}

impl MsgKind {
    /// The kind as the cookie text the transport layer uses.
    pub fn text(&self) -> (r: &'static str)
        ensures
            self is Success ==> r@ == "success"@,
            self is Warning ==> r@ == "warning"@,
    {
        match self {
            MsgKind::Success => "success",
            MsgKind::Warning => "warning",
        }
    }
}

} // verus!
