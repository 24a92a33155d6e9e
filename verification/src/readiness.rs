//! Readiness events of the reactor.

use coreshift_core::reactor::Token;
use vstd::prelude::*;

verus! {

/// The handle that the reactor of `coreshift_core` gives for a registered descriptor.
#[verifier::external_type_specification]
#[verifier::external_body]
pub struct ExToken(Token);

/// Compares two handles with the `==` of `coreshift_core::reactor::Token`, a derived comparison
/// of the one integer inside: the result is true exactly when the handles are the same value.
#[verifier::external_body]
pub(crate) fn same_token(a: Token, b: Token) -> (r: bool)
    ensures
        r == (a == b),
{
    a == b
}

/// A descriptor is ready.
#[derive(Clone, Copy, Debug)]
pub struct Readiness {
    pub token: Token,
    pub readable: bool,
    pub error: bool,
    pub hangup: bool,
}

impl Readiness {
    /// The other side is gone.
    pub open spec fn gone(self) -> bool {
        self.hangup || self.error
    }
}

/// The other side is gone exactly when there is an error or a hangup, whether or not there is
/// something to read.
pub proof fn law_gone_by_error_or_hangup(event: Readiness)
    ensures
        event.error ==> event.gone(),
        event.hangup ==> event.gone(),
        event.gone() ==> event.error || event.hangup,
{
}

} // verus!
