//! The service capability: the pluggable request-handling unit invoked
//! once per decoded frame, together with the one concrete handler the
//! protocol ships, the identity service.

use vstd::prelude::*;

use crate::codec::Message;

verus! {

/// A failure surfaced by a service. The wire protocol has no error
/// frame, so the pipeline treats it as fatal to the connection.
#[derive(Clone, Copy, Debug, PartialEq, Eq, Structural)]
pub struct ServiceError;

/// A request handler: one response (or failure) per request, produced
/// synchronously from the pipeline's point of view. An implementation
/// declares its behaviour as a spec function, which is what the
/// pipeline's contracts are stated over.
pub trait Service: Sized {
    /// What the handler returns for the given request bytes: `Some` of
    /// the response bytes, or `None` when it fails.
    spec fn response(&self, req: Seq<u8>) -> Option<Seq<u8>>;

    /// Handles one request.
    fn call(&self, req: Message) -> (r: Result<Message, ServiceError>)
        ensures
            match self.response(req@) {
                Some(resp) => r matches Ok(m) && m@ == resp,
                None => r is Err,
            },
    ;
}

/// The identity service: echoes every request back unchanged and never
/// fails.
pub struct Echo;

impl Service for Echo {
    open spec fn response(&self, req: Seq<u8>) -> Option<Seq<u8>> {
        Some(req)
    }

    fn call(&self, req: Message) -> (r: Result<Message, ServiceError>) {
        Ok(req)
    }
}

} // verus!
