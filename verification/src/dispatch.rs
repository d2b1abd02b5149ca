//! Dispatch: one request in, one outcome out.
//!
//! A request is resolved against the route table; where a route answers,
//! the captured parameters are added to the request and the route's handler
//! is called with it, once.

use vstd::prelude::*;
use crate::params::Params;
use crate::trie::Trie;

verus! {

/// A request as the dispatcher sees it: the method and the path by which it
/// is resolved, the parameters it carries, and whatever else the handlers
/// need, which the dispatcher hands on untouched.
pub struct Request<T> {
    pub method: String,
    pub path: String,
    pub path_parameters: Params,
    pub payload: T,
}

/// How a dispatch ended.
#[derive(Debug, PartialEq, Eq)]
pub enum Outcome<V> {
    /// No route answers the request.
    NotFound,
    /// A route answers, and its handler failed. What it failed with is not
    /// passed on.
    HandlerFailed,
    /// A route answers, and its handler returned this value.
    Success(V),
}

/// The status of a response to a request that no route answers.
pub const STATUS_NOT_FOUND: i64 = 404;

/// The status of a response to a request whose handler failed.
pub const STATUS_INTERNAL_ERROR: i64 = 500;

/// The status of a response that carries a handler's value.
pub const STATUS_OK: i64 = 200;

impl<V> Outcome<V> {
    /// The outcome of a dispatch whose handler returned `result`.
    pub open spec fn of<E>(result: Result<V, E>) -> Outcome<V> {
        match result {
            Ok(value) => Outcome::Success(value),
            Err(_) => Outcome::HandlerFailed,
        }
    }

    /// The status that stands for an outcome.
    pub open spec fn status(self) -> int {
        match self {
            Outcome::NotFound => 404,
            Outcome::HandlerFailed => 500,
            Outcome::Success(_) => 200,
        }
    }

    /// Turns what a handler returned into the outcome of the dispatch: its
    /// value on success, and on failure no more than that it failed.
    pub fn from_result<E>(result: Result<V, E>) -> (outcome: Outcome<V>)
        ensures
            outcome == Outcome::of(result),
    {
        match result {
            Ok(value) => Outcome::Success(value),
            Err(_) => Outcome::HandlerFailed,
        }
    }

    /// The status code of the response that reports this outcome.
    pub fn status_code(&self) -> (code: i64)
        ensures
            code == self.status(),
    {
        match self {
            Outcome::NotFound => STATUS_NOT_FOUND,
            Outcome::HandlerFailed => STATUS_INTERNAL_ERROR,
            Outcome::Success(_) => STATUS_OK,
        }
    }

    /// The body of the response where the outcome is a failure; a success
    /// has the handler's value for its body.
    pub fn message(&self) -> (text: Option<&'static str>)
        ensures
            match self {
                Outcome::NotFound => text.is_some() && text.unwrap()@ == "Route not found"@,
                Outcome::HandlerFailed => text.is_some() && text.unwrap()@
                    == "Internal server error"@,
                Outcome::Success(_) => text.is_none(),
            },
    {
        match self {
            Outcome::NotFound => Some("Route not found"),
            Outcome::HandlerFailed => Some("Internal server error"),
            Outcome::Success(_) => None,
        }
    }

    /// The content type of the response: a success is sent as JSON, a
    /// failure has none.
    pub fn content_type(&self) -> (tag: Option<&'static str>)
        ensures
            match self {
                Outcome::Success(_) => tag.is_some() && tag.unwrap()@ == "application/json"@,
                _ => tag.is_none(),
            },
    {
        match self {
            Outcome::Success(_) => Some("application/json"),
            _ => None,
        }
    }
}

/// Whether `sent` is `request` with `captured` added to its parameters: the
/// captured ones supersede those of the same name, every other one stays,
/// and nothing else differs.
pub open spec fn enriched<T>(
    sent: Request<T>,
    request: Request<T>,
    captured: Map<Seq<char>, Seq<char>>,
) -> bool {
    &&& sent.method@ == request.method@
    &&& sent.path@ == request.path@
    &&& sent.payload == request.payload
    &&& sent.path_parameters@ == request.path_parameters@.union_prefer_right(captured)
}

/// Serves one request. Where no route answers its method and path, the
/// outcome is `NotFound` and no handler runs. Where one does, its handler
/// is called once, with the request and the captured parameters added to
/// it, and the outcome is what `Outcome::of` makes of its result.
pub fn dispatch<T, V, E, H: Fn(Request<T>) -> Result<V, E>>(
    table: &Trie<H>,
    request: Request<T>,
) -> (outcome: Outcome<V>)
    requires
        table.wf(),
        table@.route(request.method@, request.path@) matches Some((handler, captured))
            ==> forall|sent: Request<T>|
            enriched(sent, request, captured) ==> #[trigger] handler.requires((sent,)),
    ensures
        table@.route(request.method@, request.path@).is_none() ==> outcome
            == Outcome::<V>::NotFound,
        table@.route(request.method@, request.path@) matches Some((handler, captured))
            ==> exists|sent: Request<T>, result: Result<V, E>|
            {
                &&& enriched(sent, request, captured)
                &&& #[trigger] handler.ensures((sent,), result)
                &&& outcome == Outcome::of(result)
            },
{
    let found = table.route(request.method.as_str(), request.path.as_str());
    match found {
        Some((handler, captured)) => {
            let mut sent = request;
            sent.path_parameters.extend(captured);
            let ghost given = sent;
            proof {
                let resolved = table@.route(request.method@, request.path@).unwrap();
                assert(resolved.0 == *handler && resolved.1 == captured@);
                assert(enriched(given, request, resolved.1));
            }
            let result = (*handler)(sent);
            let outcome = Outcome::from_result(result);
            proof {
                let resolved = table@.route(request.method@, request.path@).unwrap();
                assert(resolved.0.ensures((given,), result));
            }
            outcome
        },
        None => Outcome::NotFound,
    }
}

} // verus!
