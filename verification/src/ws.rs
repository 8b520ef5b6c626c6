//! WebSocket event streaming for the panel.
//!
//! Browsers cannot set custom headers during the upgrade handshake, so the client offers its
//! token as a `Sec-WebSocket-Protocol` value and the handshake echoes the accepted one back.
//! Nothing else of the request is looked at; in particular no query parameter is.
use vstd::prelude::*;
use vstd::string::*;

use crate::header::HeaderValue;
#[allow(unused_imports)]
use crate::header::{header_text, law_header_text_is_whole, reads_as, unreadable};
use crate::slots::ConnectionSlots;
#[allow(unused_imports)]
use crate::slots::law_cap_holds;

verus! {

/// `verify` may give `answer` for a token with the characters `token`.
pub open spec fn may_answer<F: Fn(&str, &str, &str) -> bool>(
    verify: F,
    token: Seq<char>,
    api_token: &str,
    jwt_secret: &str,
    answer: bool,
) -> bool {
    exists|t: &str|
        #![trigger call_ensures(verify, (t, api_token, jwt_secret), answer)]
        t@ == token && call_ensures(verify, (t, api_token, jwt_secret), answer)
}

/// The offer authenticates the client: it is readable and `verify` accepts it.
pub open spec fn accepted<F: Fn(&str, &str, &str) -> bool>(
    offer: Seq<u8>,
    api_token: &str,
    jwt_secret: &str,
    verify: F,
) -> bool {
    header_text(offer) matches Some(token) && may_answer(
        verify,
        token,
        api_token,
        jwt_secret,
        true,
    )
}

/// The offer does not authenticate the client: it is unreadable, or `verify` turns it down.
pub open spec fn declined<F: Fn(&str, &str, &str) -> bool>(
    offer: Seq<u8>,
    api_token: &str,
    jwt_secret: &str,
    verify: F,
) -> bool {
    header_text(offer) matches Some(token) ==> may_answer(
        verify,
        token,
        api_token,
        jwt_secret,
        false,
    )
}

/// `offers[k]` is the first of the offers that authenticates the client.
pub open spec fn first_accepted<F: Fn(&str, &str, &str) -> bool>(
    offers: Seq<HeaderValue>,
    k: int,
    api_token: &str,
    jwt_secret: &str,
    verify: F,
) -> bool {
    &&& 0 <= k < offers.len()
    &&& accepted(offers[k]@, api_token, jwt_secret, verify)
    &&& forall|j: int| 0 <= j < k ==> declined(#[trigger] offers[j]@, api_token, jwt_secret, verify)
}

/// The bytes of a selected offer.
pub open spec fn bytes_of(selected: Option<HeaderValue>) -> Option<Seq<u8>> {
    match selected {
        Some(value) => Some(value@),
        None => None,
    }
}

/// What `select_auth_protocol` may return on these offers.
pub open spec fn selection<F: Fn(&str, &str, &str) -> bool>(
    offers: Seq<HeaderValue>,
    api_token: &str,
    jwt_secret: &str,
    verify: F,
    selected: Option<Seq<u8>>,
) -> bool {
    match selected {
        Some(bytes) => exists|k: int|
            #[trigger] first_accepted(offers, k, api_token, jwt_secret, verify) && bytes
                == offers[k]@,
        None => forall|j: int|
            0 <= j < offers.len() ==> declined(#[trigger] offers[j]@, api_token, jwt_secret, verify),
    }
}

/// Returns the offered `Sec-WebSocket-Protocol` value that authenticates the client, so the
/// handshake can echo it back. The first one that does wins.
///
/// `verify` is handed each readable offer in turn, with `api_token` and `jwt_secret`, and
/// answers whether it is the static API token or a valid JWT.
pub fn select_auth_protocol<F: Fn(&str, &str, &str) -> bool>(
    protocols: &Vec<HeaderValue>,
    api_token: &str,
    jwt_secret: &str,
    verify: F,
) -> (res: Option<HeaderValue>)
    requires
        forall|t: &str| call_requires(verify, (t, api_token, jwt_secret)),
    ensures
        selection(protocols@, api_token, jwt_secret, verify, bytes_of(res)),
        res matches Some(value) ==> exists|k: int|
            #![trigger protocols@[k]]
            0 <= k < protocols@.len() && value@ == protocols@[k]@ && (exists|t: &str|
                #![trigger call_ensures(verify, (t, api_token, jwt_secret), true)]
                reads_as(value@, t@) && call_ensures(verify, (t, api_token, jwt_secret), true)),
        res is None ==> forall|k: int|
            0 <= k < protocols@.len() ==> unreadable((#[trigger] protocols@[k])@) || (exists|
                t: &str,
            |
                #![trigger call_ensures(verify, (t, api_token, jwt_secret), false)]
                reads_as(protocols@[k]@, t@) && call_ensures(
                    verify,
                    (t, api_token, jwt_secret),
                    false,
                )),
{
    let mut i: usize = 0;
    while i < protocols.len()
        invariant
            i <= protocols@.len(),
            forall|t: &str| call_requires(verify, (t, api_token, jwt_secret)),
            forall|j: int|
                0 <= j < i ==> declined(
                    #[trigger] protocols@[j]@,
                    api_token,
                    jwt_secret,
                    verify,
                ),
        decreases protocols.len() - i,
    {
        if let Some(token) = protocols[i].to_str() {
            let t: &str = token.as_str();
            if verify(t, api_token, jwt_secret) {
                assert(accepted(protocols@[i as int]@, api_token, jwt_secret, verify));
                assert(first_accepted(protocols@, i as int, api_token, jwt_secret, verify));
                proof {
                    law_selected_offer_is_whole(
                        protocols@,
                        api_token,
                        jwt_secret,
                        verify,
                        protocols@[i as int]@,
                    );
                }
                return Some(protocols[i].clone());
            }
        }
        i += 1;
    }
    proof {
        law_every_offer_is_tried(protocols@, api_token, jwt_secret, verify);
    }
    None
}

/// How an upgrade request is answered.
#[derive(Debug)]
pub enum Handshake {
    /// With this status and body, without an upgrade.
    Refused { status: u16, body: &'static str },
    /// With an upgrade that echoes this protocol. The connection holds a slot.
    Upgraded { protocol: HeaderValue },
}

/// What an upgrade request is answered once `selected` is known, and what becomes of the slots.
pub open spec fn answered(
    selected: Option<Seq<u8>>,
    before: ConnectionSlots,
    after: ConnectionSlots,
    res: Handshake,
) -> bool {
    &&& after.wf()
    &&& after.limit() == before.limit()
    &&& match selected {
        None => {
            &&& res matches Handshake::Refused { status, body }
            &&& status == 401
            &&& body@ == "Missing or invalid auth token"@
            &&& after.in_use() == before.in_use()
        },
        Some(bytes) => if before.in_use() < before.limit() {
            &&& res matches Handshake::Upgraded { protocol }
            &&& protocol@ == bytes
            &&& after.in_use() == before.in_use() + 1
        } else {
            &&& res matches Handshake::Refused { status, body }
            &&& status == 503
            &&& body@ == "Too many WebSocket connections"@
            &&& after.in_use() == before.in_use()
        },
    }
}

/// Answers an upgrade request whose offers yielded `selected`: refused where none of them
/// authenticates the client, and where no slot is free; else upgraded, with a slot taken.
pub fn answer_upgrade(selected: Option<HeaderValue>, slots: &mut ConnectionSlots) -> (res:
    Handshake)
    requires
        old(slots).wf(),
    ensures
        answered(bytes_of(selected), *old(slots), *final(slots), res),
        final(slots).wf(),
        final(slots).limit() == old(slots).limit(),
        selected is None ==> (res matches Handshake::Refused { status, body } && status == 401
            && body@ == "Missing or invalid auth token"@),
        selected matches Some(value) ==> {
            &&& old(slots).free() > 0 ==> (res matches Handshake::Upgraded { protocol } && protocol@
                == value@)
            &&& old(slots).free() == 0 ==> (res matches Handshake::Refused { status, body }
                && status == 503 && body@ == "Too many WebSocket connections"@)
        },
        res is Upgraded ==> final(slots).free() == old(slots).free() - 1,
        res is Refused ==> final(slots).free() == old(slots).free(),
{
    match selected {
        None => Handshake::Refused { status: 401, body: "Missing or invalid auth token" },
        Some(protocol) => if slots.try_acquire() {
            Handshake::Upgraded { protocol }
        } else {
            Handshake::Refused { status: 503, body: "Too many WebSocket connections" }
        },
    }
}

/// GET /ws/events: answers the upgrade request of a client that offers `protocols`.
///
/// Without an offer that authenticates the client the answer is 401. When the cap on
/// concurrent connections is reached it is 503, before the upgrade, so the client gets a
/// meaningful error rather than a silent hang.
pub fn ws_events<F: Fn(&str, &str, &str) -> bool>(
    protocols: &Vec<HeaderValue>,
    api_token: &str,
    jwt_secret: &str,
    verify: F,
    slots: &mut ConnectionSlots,
) -> (res: Handshake)
    requires
        forall|t: &str| call_requires(verify, (t, api_token, jwt_secret)),
        old(slots).wf(),
    ensures
        exists|selected: Option<Seq<u8>>|
            #[trigger] selection(protocols@, api_token, jwt_secret, verify, selected) && answered(
                selected,
                *old(slots),
                *final(slots),
                res,
            ),
        final(slots).wf(),
        final(slots).limit() == old(slots).limit(),
        res matches Handshake::Upgraded { protocol } ==> {
            &&& old(slots).free() > 0
            &&& final(slots).free() == old(slots).free() - 1
            &&& exists|k: int|
                #![trigger protocols@[k]]
                0 <= k < protocols@.len() && protocol@ == protocols@[k]@
            &&& exists|t: &str|
                #![trigger call_ensures(verify, (t, api_token, jwt_secret), true)]
                reads_as(protocol@, t@) && call_ensures(verify, (t, api_token, jwt_secret), true)
        },
        res matches Handshake::Refused { status, body } ==> {
            &&& final(slots).free() == old(slots).free()
            &&& status == 401 || status == 503
            &&& status == 401 ==> body@ == "Missing or invalid auth token"@
            &&& status == 503 ==> body@ == "Too many WebSocket connections"@ && old(slots).free()
                == 0
        },
{
    let selected = select_auth_protocol(protocols, api_token, jwt_secret, verify);
    assert(selection(protocols@, api_token, jwt_secret, verify, bytes_of(selected)));
    answer_upgrade(selected, slots)
}

/// What the stream of a connection waits for.
#[derive(Debug)]
pub enum StreamInput {
    /// An event of the bus, as JSON; `None` where it cannot be written as JSON.
    Event(Option<String>),
    /// The connection fell behind and the bus dropped this many events.
    Lagged(u64),
    /// The bus is closed.
    BusClosed,
    /// The client closes the connection.
    ClientClosed,
    /// The client is gone without closing.
    ClientGone,
    /// The client sent anything else, or what it sent could not be read.
    ClientMessage,
}

/// What the stream of a connection does next.
#[derive(Debug)]
pub enum StreamAction {
    /// Send this text to the client.
    Send(String),
    /// Wait for the next input.
    Wait,
    /// End the connection, which gives its slot back.
    End,
}

/// The text that is sent on `input`.
pub open spec fn frame_of(input: StreamInput) -> Option<Seq<char>> {
    match input {
        StreamInput::Event(Some(json)) => Some(json@),
        _ => None,
    }
}

/// `input` ends the connection.
pub open spec fn ends(input: StreamInput) -> bool {
    input is BusClosed || input is ClientClosed || input is ClientGone
}

/// What the stream does on `input`.
pub fn on_input(input: StreamInput) -> (res: StreamAction)
    ensures
        match res {
            StreamAction::Send(text) => frame_of(input) == Some(text@),
            StreamAction::Wait => frame_of(input) is None && !ends(input),
            StreamAction::End => ends(input),
        },
        match input {
            StreamInput::Event(Some(json)) => res matches StreamAction::Send(text) && text@
                == json@,
            StreamInput::Event(None) => res is Wait,
            StreamInput::Lagged(_) => res is Wait,
            StreamInput::ClientMessage => res is Wait,
            StreamInput::BusClosed => res is End,
            StreamInput::ClientClosed => res is End,
            StreamInput::ClientGone => res is End,
        },
{
    match input {
        StreamInput::Event(json) => match json {
            Some(json) => StreamAction::Send(json),
            None => StreamAction::Wait,
        },
        StreamInput::Lagged(_) => StreamAction::Wait,
        StreamInput::BusClosed => StreamAction::End,
        StreamInput::ClientClosed => StreamAction::End,
        StreamInput::ClientGone => StreamAction::End,
        // Client messages are ignored for now.
        StreamInput::ClientMessage => StreamAction::Wait,
    }
}

/// What the stream does after a text was sent, or could not be: a client that cannot be
/// reached is disconnected.
pub fn after_send(delivered: bool) -> (res: StreamAction)
    ensures
        delivered ==> res is Wait,
        !delivered ==> res is End,
{
    if delivered {
        StreamAction::Wait
    } else {
        StreamAction::End
    }
}

/// A connection so far: what it has tried to send, and whether it is still open.
pub struct Session {
    pub sent: Seq<Seq<char>>,
    pub open: bool,
}

/// The connection after `inputs`, each with whether a text that it causes can be delivered.
pub open spec fn session(inputs: Seq<(StreamInput, bool)>) -> Session
    decreases inputs.len(),
{
    if inputs.len() == 0 {
        Session { sent: Seq::empty(), open: true }
    } else {
        let before = session(inputs.drop_last());
        let (input, delivered) = inputs.last();
        if !before.open || ends(input) {
            Session { sent: before.sent, open: false }
        } else {
            match frame_of(input) {
                Some(text) => Session { sent: before.sent.push(text), open: delivered },
                None => before,
            }
        }
    }
}

/// The texts that `inputs` cause, in order.
pub open spec fn frames(inputs: Seq<(StreamInput, bool)>) -> Seq<Seq<char>>
    decreases inputs.len(),
{
    if inputs.len() == 0 {
        Seq::empty()
    } else {
        match frame_of(inputs.last().0) {
            Some(text) => frames(inputs.drop_last()).push(text),
            None => frames(inputs.drop_last()),
        }
    }
}

/// While nothing ends the connection and every text is delivered, the client gets exactly the
/// events that can be written as JSON, in the order of the bus.
pub proof fn law_open_session_streams_every_event(inputs: Seq<(StreamInput, bool)>)
    requires
        forall|i: int|
            0 <= i < inputs.len() ==> !ends((#[trigger] inputs[i]).0) && (inputs[i].1
                || frame_of(inputs[i].0) is None),
    ensures
        session(inputs).open,
        session(inputs).sent == frames(inputs),
    decreases inputs.len(),
{
    if inputs.len() > 0 {
        assert(inputs.last() == inputs[inputs.len() - 1]);
        assert forall|i: int| 0 <= i < inputs.drop_last().len() implies !ends(
            (#[trigger] inputs.drop_last()[i]).0,
        ) && (inputs.drop_last()[i].1 || frame_of(inputs.drop_last()[i].0) is None) by {
            assert(inputs.drop_last()[i] == inputs[i]);
        }
        law_open_session_streams_every_event(inputs.drop_last());
    }
}

/// Once a connection has ended nothing more is sent on it, and it stays ended.
pub proof fn law_ended_session_sends_nothing(
    before: Seq<(StreamInput, bool)>,
    after: Seq<(StreamInput, bool)>,
)
    requires
        !session(before).open,
    ensures
        session(before + after) == session(before),
    decreases after.len(),
{
    if after.len() == 0 {
        assert(before + after == before);
    } else {
        assert((before + after).drop_last() == before + after.drop_last());
        law_ended_session_sends_nothing(before, after.drop_last());
    }
}

/// A connection ends exactly at an input that ends it, or at a text that cannot be delivered:
/// lagging behind, an event that cannot be written as JSON and other client messages do not
/// end it, and change nothing.
pub proof fn law_session_step(inputs: Seq<(StreamInput, bool)>, input: StreamInput, delivered: bool)
    requires
        session(inputs).open,
    ensures
        session(inputs.push((input, delivered))).open <==> !ends(input) && (frame_of(input) is Some
            ==> delivered),
        !ends(input) && frame_of(input) is None ==> session(inputs.push((input, delivered)))
            == session(inputs),
{
    assert(inputs.push((input, delivered)).drop_last() == inputs);
}

/// A client that offers a token which `verify` never turns down is never refused for want of
/// authentication.
pub proof fn law_accepted_token_authenticates<F: Fn(&str, &str, &str) -> bool>(
    offers: Seq<HeaderValue>,
    k: int,
    token: Seq<char>,
    api_token: &str,
    jwt_secret: &str,
    verify: F,
    selected: Option<Seq<u8>>,
)
    requires
        0 <= k < offers.len(),
        header_text(offers[k]@) == Some(token),
        !may_answer(verify, token, api_token, jwt_secret, false),
        selection(offers, api_token, jwt_secret, verify, selected),
    ensures
        selected is Some,
{
    if selected is None {
        assert(declined(offers[k]@, api_token, jwt_secret, verify));
    }
}

/// A client none of whose offers `verify` ever accepts, or that offers nothing, is refused
/// with 401 and takes no slot.
pub proof fn law_unauthenticated_is_refused<F: Fn(&str, &str, &str) -> bool>(
    offers: Seq<HeaderValue>,
    api_token: &str,
    jwt_secret: &str,
    verify: F,
    selected: Option<Seq<u8>>,
    before: ConnectionSlots,
    after: ConnectionSlots,
    res: Handshake,
)
    requires
        forall|j: int|
            0 <= j < offers.len() ==> !accepted(
                #[trigger] offers[j]@,
                api_token,
                jwt_secret,
                verify,
            ),
        selection(offers, api_token, jwt_secret, verify, selected),
        answered(selected, before, after, res),
    ensures
        res matches Handshake::Refused { status, body } && status == 401 && body@
            == "Missing or invalid auth token"@,
        after.in_use() == before.in_use(),
{
    if selected is Some {
        let k = choose|k: int| #[trigger]
            first_accepted(offers, k, api_token, jwt_secret, verify) && selected->0 == offers[k]@;
        assert(accepted(offers[k]@, api_token, jwt_secret, verify));
    }
}

/// Whatever is selected is one of the offers, byte for byte and in full length; `verify` was
/// handed all of it and accepted it, and every offer before it is unreadable or was turned
/// down.
pub proof fn law_selected_offer_is_whole<F: Fn(&str, &str, &str) -> bool>(
    offers: Seq<HeaderValue>,
    api_token: &str,
    jwt_secret: &str,
    verify: F,
    bytes: Seq<u8>,
)
    requires
        selection(offers, api_token, jwt_secret, verify, Some(bytes)),
    ensures
        exists|k: int|
            #![trigger offers[k]]
            {
                &&& 0 <= k < offers.len()
                &&& bytes.len() == offers[k]@.len()
                &&& forall|i: int| 0 <= i < bytes.len() ==> #[trigger] bytes[i] == offers[k]@[i]
                &&& forall|j: int|
                    0 <= j < k ==> unreadable((#[trigger] offers[j])@) || (exists|t: &str|
                        #![trigger call_ensures(verify, (t, api_token, jwt_secret), false)]
                        reads_as(offers[j]@, t@) && call_ensures(
                            verify,
                            (t, api_token, jwt_secret),
                            false,
                        ))
            },
        exists|k: int| #![trigger offers[k]] 0 <= k < offers.len() && bytes == offers[k]@,
        exists|t: &str|
            #![trigger call_ensures(verify, (t, api_token, jwt_secret), true)]
            reads_as(bytes, t@) && call_ensures(verify, (t, api_token, jwt_secret), true),
{
    let k = choose|k: int| #[trigger]
        first_accepted(offers, k, api_token, jwt_secret, verify) && bytes == offers[k]@;
    assert(accepted(offers[k]@, api_token, jwt_secret, verify));
    law_header_text_is_whole(bytes);
    assert forall|j: int| 0 <= j < k implies unreadable((#[trigger] offers[j])@) || (exists|
        t: &str,
    |
        #![trigger call_ensures(verify, (t, api_token, jwt_secret), false)]
        reads_as(offers[j]@, t@) && call_ensures(verify, (t, api_token, jwt_secret), false)) by {
        assert(declined(offers[j]@, api_token, jwt_secret, verify));
        law_header_text_is_whole(offers[j]@);
    }
    assert(bytes == offers[k]@);
}

/// Nothing is selected only where every offer is unreadable, or was handed to `verify` in full
/// and turned down.
pub proof fn law_every_offer_is_tried<F: Fn(&str, &str, &str) -> bool>(
    offers: Seq<HeaderValue>,
    api_token: &str,
    jwt_secret: &str,
    verify: F,
)
    requires
        selection(offers, api_token, jwt_secret, verify, None),
    ensures
        forall|k: int|
            0 <= k < offers.len() ==> unreadable((#[trigger] offers[k])@) || (exists|t: &str|
                #![trigger call_ensures(verify, (t, api_token, jwt_secret), false)]
                reads_as(offers[k]@, t@) && call_ensures(
                    verify,
                    (t, api_token, jwt_secret),
                    false,
                )),
{
    assert forall|k: int| 0 <= k < offers.len() implies unreadable((#[trigger] offers[k])@) || (
    exists|t: &str|
        #![trigger call_ensures(verify, (t, api_token, jwt_secret), false)]
        reads_as(offers[k]@, t@) && call_ensures(verify, (t, api_token, jwt_secret), false)) by {
        assert(declined(offers[k]@, api_token, jwt_secret, verify));
        law_header_text_is_whole(offers[k]@);
    }
}

/// A client one of whose offers `verify` always accepts, and never any other (in particular a
/// client that makes no other), gets exactly that offer echoed and takes one slot, as long as
/// there are fewer connections than the limit allows.
pub proof fn law_accepted_offer_is_echoed<F: Fn(&str, &str, &str) -> bool>(
    offers: Seq<HeaderValue>,
    k: int,
    token: Seq<char>,
    api_token: &str,
    jwt_secret: &str,
    verify: F,
    selected: Option<Seq<u8>>,
    before: ConnectionSlots,
    after: ConnectionSlots,
    res: Handshake,
)
    requires
        0 <= k < offers.len(),
        reads_as(offers[k]@, token),
        forall|t: &str|
            t@ == token ==> !#[trigger] call_ensures(verify, (t, api_token, jwt_secret), false),
        forall|j: int, t: &str|
            0 <= j < offers.len() && j != k && reads_as((#[trigger] offers[j])@, t@)
                ==> !#[trigger] call_ensures(verify, (t, api_token, jwt_secret), true),
        selection(offers, api_token, jwt_secret, verify, selected),
        answered(selected, before, after, res),
        before.in_use() < before.limit(),
    ensures
        res matches Handshake::Upgraded { protocol } && protocol@ == offers[k]@,
        after.in_use() == before.in_use() + 1,
        after.limit() == before.limit(),
{
    law_header_text_is_whole(offers[k]@);
    match selected {
        Some(bytes) => {
            let m = choose|m: int| #[trigger]
                first_accepted(offers, m, api_token, jwt_secret, verify) && bytes == offers[m]@;
            assert(accepted(offers[m]@, api_token, jwt_secret, verify));
            law_header_text_is_whole(offers[m]@);
            assert(m == k);
        },
        None => {
            assert(declined(offers[k]@, api_token, jwt_secret, verify));
        },
    }
}

/// An authenticated client is upgraded, with all of its offer echoed, and takes one slot
/// whenever there are fewer connections than the limit allows, however many there are.
pub proof fn law_authenticated_client_is_upgraded(
    bytes: Seq<u8>,
    before: ConnectionSlots,
    after: ConnectionSlots,
    res: Handshake,
)
    requires
        before.in_use() < before.limit(),
        answered(Some(bytes), before, after, res),
    ensures
        res matches Handshake::Upgraded { protocol } && protocol@.len() == bytes.len() && (forall|
            i: int,
        |
            0 <= i < bytes.len() ==> #[trigger] protocol@[i] == bytes[i]),
        after.in_use() == before.in_use() + 1,
        after.free() == before.free() - 1,
        after.limit() == before.limit(),
{
}

/// An authenticated client is refused only where all slots are taken, with 503, and an
/// unauthenticated one always, with 401. A refusal changes nothing.
pub proof fn law_refusals(
    selected: Option<Seq<u8>>,
    before: ConnectionSlots,
    after: ConnectionSlots,
    res: Handshake,
)
    requires
        before.wf(),
        answered(selected, before, after, res),
        res is Refused,
    ensures
        after.in_use() == before.in_use(),
        after.free() == before.free(),
        after.limit() == before.limit(),
        res matches Handshake::Refused { status, body } && {
            ||| {
                &&& status == 401
                &&& body@ == "Missing or invalid auth token"@
                &&& selected is None
            }
            ||| {
                &&& status == 503
                &&& body@ == "Too many WebSocket connections"@
                &&& selected is Some
                &&& before.in_use() == before.limit()
            }
        },
{
    law_cap_holds(before);
}

/// Of authenticated clients that come one after another to slots of which none is taken, as
/// many are upgraded as the limit allows, each with its own offer, and every later one is
/// refused with 503.
pub proof fn law_fresh_slots_admit_the_limit(
    states: Seq<ConnectionSlots>,
    offers: Seq<Seq<u8>>,
    answers: Seq<Handshake>,
    n: int,
)
    requires
        states.len() == answers.len() + 1,
        offers.len() == answers.len(),
        states[0].in_use() == 0,
        forall|i: int|
            0 <= i < answers.len() ==> answered(
                Some(offers[i]),
                states[i],
                states[i + 1],
                #[trigger] answers[i],
            ),
        0 <= n <= answers.len(),
    ensures
        states[n].limit() == states[0].limit(),
        states[n].in_use() == if n < states[0].limit() {
            n
        } else {
            states[0].limit() as int
        },
        n < answers.len() && n < states[0].limit() ==> (answers[n] matches Handshake::Upgraded {
            protocol,
        } && protocol@ == offers[n]),
        n < answers.len() && n >= states[0].limit() ==> (answers[n] matches Handshake::Refused {
            status,
            body,
        } && status == 503 && body@ == "Too many WebSocket connections"@),
    decreases n,
{
    if n > 0 {
        law_fresh_slots_admit_the_limit(states, offers, answers, n - 1);
        assert(answered(Some(offers[n - 1]), states[n - 1], states[n - 1 + 1], answers[n - 1]));
    }
    if n < answers.len() {
        assert(answered(Some(offers[n]), states[n], states[n + 1], answers[n]));
    }
}

/// A connection starts open, with nothing sent.
pub proof fn law_session_starts_open()
    ensures
        session(Seq::empty()).open,
        session(Seq::empty()).sent.len() == 0,
{
}

/// An event on an open connection is sent as the whole of its JSON, after all that was sent
/// before; the connection stays open if that is delivered, and ends if not.
pub proof fn law_event_is_sent_whole(
    inputs: Seq<(StreamInput, bool)>,
    json: String,
    delivered: bool,
)
    requires
        session(inputs).open,
    ensures
        ({
            let before = session(inputs);
            let after = session(inputs.push((StreamInput::Event(Some(json)), delivered)));
            &&& after.sent.len() == before.sent.len() + 1
            &&& forall|i: int|
                0 <= i < before.sent.len() ==> #[trigger] after.sent[i] == before.sent[i]
            &&& after.sent[before.sent.len() as int] == json@
            &&& after.open == delivered
        }),
{
    assert(inputs.push((StreamInput::Event(Some(json)), delivered)).drop_last() == inputs);
}

/// Falling behind, an event that cannot be written as JSON and other messages of the client
/// leave a connection as it is.
pub proof fn law_quiet_inputs_change_nothing(
    inputs: Seq<(StreamInput, bool)>,
    dropped: u64,
    delivered: bool,
)
    ensures
        session(inputs.push((StreamInput::Event(None), delivered))) == session(inputs),
        session(inputs.push((StreamInput::Lagged(dropped), delivered))) == session(inputs),
        session(inputs.push((StreamInput::ClientMessage, delivered))) == session(inputs),
{
    assert(inputs.push((StreamInput::Event(None), delivered)).drop_last() == inputs);
    assert(inputs.push((StreamInput::Lagged(dropped), delivered)).drop_last() == inputs);
    assert(inputs.push((StreamInput::ClientMessage, delivered)).drop_last() == inputs);
}

/// The end of the bus, and the client closing or being gone, end a connection, and nothing is
/// sent on that.
pub proof fn law_closing_inputs_end_the_session(
    inputs: Seq<(StreamInput, bool)>,
    delivered: bool,
)
    ensures
        !session(inputs.push((StreamInput::BusClosed, delivered))).open,
        !session(inputs.push((StreamInput::ClientClosed, delivered))).open,
        !session(inputs.push((StreamInput::ClientGone, delivered))).open,
        session(inputs.push((StreamInput::BusClosed, delivered))).sent == session(inputs).sent,
        session(inputs.push((StreamInput::ClientClosed, delivered))).sent == session(inputs).sent,
        session(inputs.push((StreamInput::ClientGone, delivered))).sent == session(inputs).sent,
{
    assert(inputs.push((StreamInput::BusClosed, delivered)).drop_last() == inputs);
    assert(inputs.push((StreamInput::ClientClosed, delivered)).drop_last() == inputs);
    assert(inputs.push((StreamInput::ClientGone, delivered)).drop_last() == inputs);
}

/// A client that can be reached gets every one of a row of events, each as the whole of its
/// JSON, in the order in which they came.
pub proof fn law_events_arrive_whole_and_in_order(
    inputs: Seq<(StreamInput, bool)>,
    events: Seq<String>,
)
    requires
        inputs.len() == events.len(),
        forall|i: int|
            0 <= i < inputs.len() ==> #[trigger] inputs[i] == (
                StreamInput::Event(Some(events[i])),
                true,
            ),
    ensures
        session(inputs).open,
        session(inputs).sent.len() == events.len(),
        forall|i: int|
            0 <= i < events.len() ==> #[trigger] session(inputs).sent[i] == events[i]@,
    decreases inputs.len(),
{
    if inputs.len() > 0 {
        let shorter = inputs.drop_last();
        assert forall|i: int| 0 <= i < shorter.len() implies #[trigger] shorter[i] == (
            StreamInput::Event(Some(events.drop_last()[i])),
            true,
        ) by {
            assert(shorter[i] == inputs[i]);
        }
        law_events_arrive_whole_and_in_order(shorter, events.drop_last());
        let last: int = inputs.len() - 1;
        assert(inputs.last() == inputs[last]);
        law_event_is_sent_whole(shorter, events[last], true);
        assert(shorter.push(inputs[last]) =~= inputs);
        assert forall|i: int| 0 <= i < events.len() implies #[trigger] session(inputs).sent[i]
            == events[i]@ by {
            if i < last {
                assert(session(inputs).sent[i] == session(shorter).sent[i]);
                assert(events.drop_last()[i] == events[i]);
            }
        }
    }
}

} // verus!
