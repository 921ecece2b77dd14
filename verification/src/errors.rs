use vstd::prelude::*;

verus! {

/// The error taxonomy of the broker.
///
/// Only `Storage` is fatal for a request (surfaced as a server error); all
/// authorization and upstream failures degrade to a redirect or a
/// placeholder payload.
#[derive(Clone, Copy, Debug, PartialEq, Eq, Structural)]
pub enum BrokerError {
    /// The callback was invoked without an authorization code.
    MissingAuthorizationCode,
    /// The provider rejected the code, or the exchange could not be made.
    TokenExchange,
    /// The cache was unreadable or unwritable at the storage level.
    Storage,
    /// No cache entry exists for the session; a normal outcome, rendered as
    /// a placeholder payload.
    NotFound,
    /// A cache entry exists but its contents cannot be parsed.
    CorruptEntry,
    /// The provider's authorize URL could not be constructed.
    Provider,
    /// A provider resource fetch failed; soft-failed to a placeholder.
    ProviderApi,
}

} // verus!
