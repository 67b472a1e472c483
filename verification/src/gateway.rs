//! The decision logic of the HTTP control endpoint.
//!
//! A request against the single endpoint path carries an
//! ampersand-delimited body naming a `device` serial and a `message`. The
//! gateway answers 404 off the path, 400 with a fixed text when a required
//! key is missing, 400 naming the device when it is not registered, and 202
//! with an empty body when it is. The 202 is sent before delivery is even
//! attempted: delivery is fire-and-forget, and a delivery failure is
//! answered only by removing the device from the registry.

use vstd::prelude::*;

use crate::params::parse_query;
use crate::params::parse_query_string;
use crate::registry::PeerId;
use crate::registry::Registry;
use crate::registry::Session;
use crate::text::str_eq;

verus! {

/// How a control request is answered, and — when it is accepted — what to
/// deliver afterwards.
#[derive(Debug, Clone, PartialEq, Eq)]
pub enum GatewayDecision {
    /// The path is not the endpoint: 404, empty body, nothing else happens.
    NotFound,
    /// A required key is missing, or the device is not registered: 400 with
    /// this body.
    BadRequest { body: String },
    /// The device is registered: 202, empty body, sent before the command
    /// is delivered to the device — acknowledgment is not a delivery
    /// guarantee. `payload` is the `message` value, taken literally.
    Accepted { serial: String, peer: PeerId, payload: String },
}

/// `GatewayDecision` at the specification level.
pub enum DecisionView {
    NotFound,
    BadRequest { body: Seq<char> },
    Accepted { serial: Seq<char>, peer: PeerId, payload: Seq<char> },
}

impl View for GatewayDecision {
    type V = DecisionView;

    open spec fn view(&self) -> DecisionView {
        match self {
            GatewayDecision::NotFound => DecisionView::NotFound,
            GatewayDecision::BadRequest { body } => DecisionView::BadRequest { body: body@ },
            GatewayDecision::Accepted { serial, peer, payload } => DecisionView::Accepted {
                serial: serial@,
                peer: *peer,
                payload: payload@,
            },
        }
    }
}

/// The fixed text answering a request that lacks a required key.
pub open spec fn missing_param_body() -> Seq<char> {
    "Missing \"device\" or \"message\" parameter."@
}

/// The text answering a request for an unregistered device.
pub open spec fn not_found_body(serial: Seq<char>) -> Seq<char> {
    "Device "@ + serial + " not found."@
}

/// Whether the parsed body carries both required keys.
pub open spec fn has_required(ps: Map<Seq<char>, Seq<char>>) -> bool {
    ps.contains_key("device"@) && ps.contains_key("message"@)
}

/// What the gateway decides, as a function of the request path, the raw
/// request body, and the registry contents.
pub open spec fn spec_decide<T>(
    path: Seq<char>,
    body: Seq<char>,
    m: Map<Seq<char>, Session<T>>,
) -> DecisionView {
    if path != "/"@ {
        DecisionView::NotFound
    } else {
        let ps = parse_query(body);
        if !has_required(ps) {
            DecisionView::BadRequest { body: missing_param_body() }
        } else if !m.contains_key(ps["device"@]) {
            DecisionView::BadRequest { body: not_found_body(ps["device"@]) }
        } else {
            DecisionView::Accepted {
                serial: ps["device"@],
                peer: m[ps["device"@]].peer_identity,
                payload: ps["message"@],
            }
        }
    }
}

/// Decide how to answer one control request. No I/O happens here: the
/// caller responds with `status_code` and the `BadRequest` text, and only
/// after responding delivers the accepted payload to the device.
pub fn gateway_decide<T>(path: &str, body: &str, registry: &Registry<T>) -> (d: GatewayDecision)
    requires
        registry.wf(),
    ensures
        d@ == spec_decide(path@, body@, registry@),
{
    if !str_eq(path, "/") {
        return GatewayDecision::NotFound;
    }
    let params = parse_query_string(body);
    if !params.contains_key("device") || !params.contains_key("message") {
        return GatewayDecision::BadRequest {
            body: String::from_str("Missing \"device\" or \"message\" parameter."),
        };
    }
    let device = params.get("device").unwrap();
    match registry.lookup(device.as_str()) {
        Some(session) => {
            let payload = params.get("message").unwrap().clone();
            GatewayDecision::Accepted { serial: device.clone(), peer: session.peer_identity, payload }
        },
        None => {
            let mut text = String::from_str("Device ");
            text.append(device.as_str());
            text.append(" not found.");
            GatewayDecision::BadRequest { body: text }
        },
    }
}

impl GatewayDecision {
    /// The HTTP status answering this decision.
    pub fn status_code(&self) -> (code: u16)
        ensures
            self@ is NotFound ==> code == 404,
            self@ is BadRequest ==> code == 400,
            self@ is Accepted ==> code == 202,
    {
        match self {
            GatewayDecision::NotFound => 404,
            GatewayDecision::BadRequest { .. } => 400,
            GatewayDecision::Accepted { .. } => 202,
        }
    }
}

/// A send failure unregisters the device: after the gateway, presenting the
/// registered session's own identity, removes a registered serial, the
/// removal has succeeded, the serial is gone, and any well-formed request
/// addressed to it is answered "device not found".
pub proof fn lemma_send_failure_then_not_found<T>(
    m: Map<Seq<char>, Session<T>>,
    serial: Seq<char>,
    body: Seq<char>,
)
    requires
        m.contains_key(serial),
        has_required(parse_query(body)),
        parse_query(body)["device"@] == serial,
    ensures
        crate::registry::remove_succeeds(m, serial, m[serial].peer_identity),
        !crate::registry::after_conditional_remove(
            m,
            serial,
            m[serial].peer_identity,
        ).contains_key(serial),
        spec_decide(
            "/"@,
            body,
            crate::registry::after_conditional_remove(m, serial, m[serial].peer_identity),
        ) == (DecisionView::BadRequest { body: not_found_body(serial) }),
{
}

} // verus!
