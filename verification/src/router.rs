//! The router: classifies each request by method and path and decides what
//! the gateway does, with no state carried between requests.
//!
//! The whole routing contract is the table in [`route_views`]: the fixed
//! proxy route forwards a build-time constant target (explicitly bypassing
//! the validator), the dynamic proxy route validates its `url` query
//! parameter, the root serves a fixed JSON payload, everything else is 404.

use vstd::prelude::*;
use vstd::string::StringExecFns;
use vstd::utf8::encode_utf8;

use crate::query::extract_param;
use crate::query::extract_spec;
use crate::response::GatewayResponse;
use crate::response::Message;
use crate::response::build_json;
use crate::response::build_text;
use crate::response::content_type_views;
use crate::response::json_message_bytes;
use crate::response::response_views;
use crate::strutil::str_eq;
use crate::validate::AllowList;
use crate::validate::RejectReason;
use crate::validate::ValidatedUrl;
use crate::validate::validate;
use crate::validate::validate_decision;

verus! {

/// The request method, as far as routing distinguishes it.
#[derive(Clone, Copy, PartialEq, Eq, Structural, Debug)]
pub enum HttpMethod {
    Get,
    /// Any method other than GET.
    Other,
}

/// What the router decides for one request: either a finished response, or
/// a target to fetch whose relayed result becomes the response.
pub enum RequestAction {
    Respond(GatewayResponse),
    Forward(ValidatedUrl),
}

/// The build-time constant target of the fixed proxy route.
pub open spec fn fixed_todo_target() -> Seq<char> {
    "https://jsonplaceholder.typicode.com/todos/1"@
}

/// The greeting served at the root route.
pub open spec fn demo_hello() -> Seq<char> {
    "Hi, dp from Hyper JSON"@
}

/// The raw query string at the character level.
pub open spec fn query_view(raw_query: Option<&str>) -> Option<Seq<char>> {
    match raw_query {
        Option::None => Option::None,
        Option::Some(q) => Option::Some(q@),
    }
}

/// A routing decision with every observable part spelled out: the status,
/// headers and body of an immediate response, or the exact forward target.
pub enum ActionModel {
    Respond((int, Seq<(Seq<char>, Seq<char>)>, Seq<u8>)),
    Forward(Seq<char>),
}

/// Everything observable about a [`RequestAction`].
pub open spec fn action_views(a: RequestAction) -> ActionModel {
    match a {
        RequestAction::Respond(g) => ActionModel::Respond(response_views(g)),
        RequestAction::Forward(v) => ActionModel::Forward(v.target@),
    }
}

/// An immediate plain-text response, as a routing decision.
pub open spec fn text_decision(status: int, text: Seq<char>) -> ActionModel {
    ActionModel::Respond(
        (status, content_type_views("text/plain; charset=utf-8"@), encode_utf8(text)),
    )
}

/// The routing table: what the gateway does for one request, as a function
/// of the method, the path, the raw query string and the allow-list alone.
pub open spec fn route_views(
    method: HttpMethod,
    path: Seq<char>,
    query: Option<Seq<char>>,
    allow: AllowList,
) -> ActionModel {
    if method is Get && path == "/proxy/todo"@ {
        ActionModel::Forward(fixed_todo_target())
    } else if method is Get && path == "/proxy"@ {
        match query {
            Option::None => text_decision(400, "Missing url query param"@),
            Option::Some(qs) => match extract_spec(qs, "url"@) {
                Option::None => text_decision(400, "Missing url query param"@),
                Option::Some(target) => match validate_decision(target, allow) {
                    Result::Ok(()) => ActionModel::Forward(target),
                    Result::Err(RejectReason::InvalidUrl) => text_decision(400, "Invalid url"@),
                    Result::Err(RejectReason::UnsupportedScheme) => text_decision(
                        400,
                        "Invalid url"@,
                    ),
                    Result::Err(RejectReason::HostNotAllowed) => text_decision(
                        403,
                        "Host not allowed"@,
                    ),
                },
            },
        }
    } else if method is Get && path == "/"@ {
        ActionModel::Respond(
            (200, content_type_views("application/json"@), json_message_bytes(demo_hello(), 8)),
        )
    } else {
        text_decision(404, "Not Found"@)
    }
}

/// Routes one request. The decision is exactly [`route_views`] of the
/// inputs, and every immediate response is well-formed.
pub fn handle_request(
    allow: &AllowList,
    method: HttpMethod,
    path: &str,
    raw_query: Option<&str>,
) -> (r: RequestAction)
    ensures
        action_views(r) == route_views(method, path@, query_view(raw_query), *allow),
        r matches RequestAction::Respond(g) ==> g.wf(),
{
    match method {
        HttpMethod::Get => {
            if str_eq(path, "/proxy/todo") {
                RequestAction::Forward(
                    ValidatedUrl {
                        target: String::from_str("https://jsonplaceholder.typicode.com/todos/1"),
                    },
                )
            } else if str_eq(path, "/proxy") {
                match extract_param(raw_query, "url") {
                    Option::None => RequestAction::Respond(
                        build_text("Missing url query param", 400),
                    ),
                    Option::Some(target) => match validate(allow, target.as_str()) {
                        Result::Ok(v) => RequestAction::Forward(v),
                        Result::Err(RejectReason::InvalidUrl) => RequestAction::Respond(
                            build_text("Invalid url", 400),
                        ),
                        Result::Err(RejectReason::UnsupportedScheme) => RequestAction::Respond(
                            build_text("Invalid url", 400),
                        ),
                        Result::Err(RejectReason::HostNotAllowed) => RequestAction::Respond(
                            build_text("Host not allowed", 403),
                        ),
                    },
                }
            } else if str_eq(path, "/") {
                let msg = Message { hello: String::from_str("Hi, dp from Hyper JSON"), number: 8 };
                RequestAction::Respond(build_json(&msg, 200))
            } else {
                RequestAction::Respond(build_text("Not Found", 404))
            }
        },
        HttpMethod::Other => RequestAction::Respond(build_text("Not Found", 404)),
    }
}

/// Routing is free of hidden state: two actions that both satisfy the
/// routing contract for the same request are observably identical — the
/// same status, headers and body, or the same forward target.
pub proof fn lemma_routing_deterministic(
    a1: RequestAction,
    a2: RequestAction,
    method: HttpMethod,
    path: Seq<char>,
    query: Option<Seq<char>>,
    allow: AllowList,
)
    requires
        action_views(a1) == route_views(method, path, query, allow),
        action_views(a2) == route_views(method, path, query, allow),
    ensures
        action_views(a1) == action_views(a2),
{
}

} // verus!
