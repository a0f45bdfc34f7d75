//! Answering the datagrams by which clients look for a server.
//!
//! The responder decides; the caller owns the socket. It carries out each
//! [`Action`] and reports what came of it as an [`Event`].

use vstd::prelude::*;

use crate::api_client::{member_value, ServerDiscoveryInfo};
use crate::net::IpAddr;
use crate::outside;
use crate::text;

verus! {

/// The error of a socket operation.
#[verifier::external_type_specification]
#[verifier::external_body]
pub struct ExIoError(std::io::Error);

/// Failure opening or inspecting the discovery socket.
#[derive(Debug)]
pub enum ServerDiscoveryError {
    /// The operating system rejected a socket operation.
    Socket(std::io::Error),
}

impl From<std::io::Error> for ServerDiscoveryError {
    fn from(error: std::io::Error) -> (result: Self) {
        ServerDiscoveryError::Socket(error)
    }
}

impl vstd::std_specs::convert::FromSpecImpl<std::io::Error> for ServerDiscoveryError {
    open spec fn obeys_from_spec() -> bool {
        true
    }

    open spec fn from_spec(error: std::io::Error) -> Self {
        ServerDiscoveryError::Socket(error)
    }
}

/// The message of a socket error with this text.
pub fn socket_message(text: &str) -> (message: String)
    ensures
        message@ == "discovery socket: "@ + text@,
{
    let mut message: String = "discovery socket: ".to_owned();
    message.append(text);
    message
}

/// `Display` of `std::io::Error`. What the text says depends on the operating
/// system and is left unsaid.
#[verifier::external_body]
fn error_text(error: &std::io::Error) -> (text: String) {
    error.to_string()
}

impl ServerDiscoveryError {
    /// What the error says.
    pub fn message(&self) -> (message: String)
        ensures
            text::starts_with(message@, "discovery socket: "@),
    {
        match self {
            ServerDiscoveryError::Socket(error) => {
                let text: String = error_text(error);
                let message: String = socket_message(text.as_str());
                proof {
                    let prefix = "discovery socket: "@;
                    assert(message@.take(prefix.len() as int) =~= prefix);
                }
                message
            },
        }
    }
}

/// The port that clients send their requests to.
pub const DISCOVERY_PORT: u16 = 7359;

/// The size of the buffer that takes any datagram whole.
pub const DATAGRAM_BUFFER: usize = 65535;

/// What a request says, up to the case of ASCII letters.
pub const REQUEST: &'static str = "who is jellyfinserver?";

/// A byte as a lower-case ASCII letter, where it is a letter.
pub open spec fn lower_byte(byte: u8) -> u8 {
    if 65 <= byte <= 90 {
        (byte + 32) as u8
    } else {
        byte
    }
}

/// Whether the request stands at `at` in a datagram.
pub open spec fn is_request_at(datagram: Seq<u8>, at: int) -> bool {
    &&& 0 <= at
    &&& at + REQUEST@.len() <= datagram.len()
    &&& forall|i: int|
        0 <= i < REQUEST@.len() ==> lower_byte(#[trigger] datagram[at + i]) as char == REQUEST@[i]
}

/// Whether a datagram is a request: the request stands anywhere in it, whatever
/// bytes stand around it.
pub open spec fn is_discovery_request(datagram: Seq<u8>) -> bool {
    exists|at: int| is_request_at(datagram, at)
}

fn request_stands_at(datagram: &[u8], wanted: &Vec<char>, at: usize) -> (stands: bool)
    requires
        wanted@ == REQUEST@,
        at + wanted@.len() <= datagram@.len(),
    ensures
        stands == is_request_at(datagram@, at as int),
{
    assert(datagram@.len() == datagram.len());
    for i in 0..wanted.len()
        invariant
            wanted@ == REQUEST@,
            at + wanted@.len() <= datagram@.len(),
            datagram@.len() == datagram.len(),
            forall|j: int|
                0 <= j < i ==> lower_byte(#[trigger] datagram@[at + j]) as char == REQUEST@[j],
    {
        let byte: u8 = datagram[at + i];
        let lower: u8 = if 65 <= byte && byte <= 90 {
            byte + 32
        } else {
            byte
        };
        if lower as char != wanted[i] {
            assert(lower_byte(datagram@[at + i]) as char != REQUEST@[i as int]);
            return false;
        }
    }
    true
}

/// Executable [`is_discovery_request`].
pub fn asks_for_server(datagram: &[u8]) -> (asks: bool)
    ensures
        asks == is_discovery_request(datagram@),
{
    let wanted: Vec<char> = text::chars_of(REQUEST);
    if datagram.len() < wanted.len() {
        return false;
    }
    let last: usize = datagram.len() - wanted.len();
    let mut at: usize = 0;
    while at <= last
        invariant
            wanted@ == REQUEST@,
            last == datagram@.len() - wanted@.len(),
            datagram@.len() == datagram.len(),
            at <= last + 1,
            forall|k: int| 0 <= k < at ==> !is_request_at(datagram@, k),
        decreases last + 1 - at,
    {
        if request_stands_at(datagram, &wanted, at) {
            return true;
        }
        if at == last {
            assert forall|k: int| !is_request_at(datagram@, k) by {}
            return false;
        }
        at = at + 1;
    }
    false
}

/// Where a datagram came from.
#[derive(Debug, Clone, Copy, PartialEq, Eq, Structural)]
pub struct Peer {
    pub ip: IpAddr,
    pub port: u16,
    /// Of an IPv6 peer; otherwise zero.
    pub flow_info: u32,
    /// Of an IPv6 peer; otherwise zero.
    pub scope_id: u32,
}

/// What the responder waits for.
#[derive(Debug, Clone, Copy, PartialEq, Eq, Structural)]
pub enum Stage {
    /// A datagram.
    Receiving,
    /// The address to give this peer.
    Resolving(Peer),
    /// Nothing any more.
    Stopped,
}

/// What came of an action.
#[derive(Debug)]
pub enum Event {
    Received { datagram: Vec<u8>, peer: Peer },
    ReceiveFailed,
    /// The address of the server for the peer, and its name at this moment.
    Resolved { address: String, name: String },
    ResolveFailed,
}

/// What the responder does next.
#[derive(Debug)]
pub enum Action {
    /// Wait for a datagram.
    Receive,
    /// Find out the address to give this peer.
    Resolve(Peer),
    /// Send the payload to the peer, whether that works or not, and wait for
    /// the next datagram.
    Reply { payload: Vec<u8>, peer: Peer },
    /// Stop.
    Stop,
}

/// The reply to a peer, from the facts of the server.
pub open spec fn reply_members(address: Seq<char>, id: Seq<char>, name: Seq<char>) -> Seq<
    (Seq<char>, Option<Seq<char>>),
> {
    seq![
        ("Address"@, Some(address)),
        ("Id"@, Some(id)),
        ("Name"@, Some(name)),
        ("EndpointAddress"@, None),
    ]
}

/// What follows once the payload of a reply is known or could not be made.
pub open spec fn after_payload(peer: Peer, payload: Option<Seq<u8>>, next: Stage, action: Action) -> bool {
    match payload {
        Some(bytes) => {
            &&& next == Stage::Receiving
            &&& action matches Action::Reply { payload: sent, peer: to } && sent@ == bytes && to
                == peer
        },
        None => next == Stage::Stopped && action is Stop,
    }
}

/// Sends the payload, or stops where there is none.
pub fn reply_with(peer: Peer, payload: Option<Vec<u8>>) -> (step: (Stage, Action))
    ensures
        after_payload(
            peer,
            match payload {
                Some(bytes) => Some(bytes@),
                None => None,
            },
            step.0,
            step.1,
        ),
{
    match payload {
        Some(payload) => (Stage::Receiving, Action::Reply { payload, peer }),
        None => (Stage::Stopped, Action::Stop),
    }
}

impl Stage {
    /// Whether `next` and `action` are what follows the event; `id` is the
    /// identifier of the server. A datagram that is no request, an address that
    /// is empty and a failure to receive leave the responder waiting for the
    /// next datagram; an address that cannot be found out stops it.
    pub open spec fn follows(self, id: Seq<char>, event: Event, next: Stage, action: Action) -> bool {
        match (self, event) {
            (Stage::Receiving, Event::Received { datagram, peer }) => if is_discovery_request(
                datagram@,
            ) {
                next == Stage::Resolving(peer) && action == Action::Resolve(peer)
            } else {
                next == Stage::Receiving && action is Receive
            },
            (Stage::Receiving, Event::ReceiveFailed) => next == Stage::Receiving && action
                is Receive,
            (Stage::Resolving(peer), Event::Resolved { address, name }) => if address@.len() == 0 {
                next == Stage::Receiving && action is Receive
            } else {
                after_payload(
                    peer,
                    outside::json_object(reply_members(address@, id, name@)),
                    next,
                    action,
                )
            },
            _ => next == Stage::Stopped && action is Stop,
        }
    }
}

/// The responder.
#[derive(Debug)]
pub struct Responder {
    pub stage: Stage,
    pub server_id: String,
}

impl Responder {
    /// A responder that waits for a datagram.
    pub fn new(server_id: String) -> (responder: Responder)
        ensures
            responder.stage == Stage::Receiving,
            responder.server_id == server_id,
    {
        Responder { stage: Stage::Receiving, server_id }
    }

    /// Takes what came of the action before, and gives the next one.
    pub fn step(&mut self, event: Event) -> (action: Action)
        ensures
            old(self).stage.follows(old(self).server_id@, event, final(self).stage, action),
            final(self).server_id == old(self).server_id,
    {
        match (self.stage, event) {
            (Stage::Receiving, Event::Received { datagram, peer }) => {
                if asks_for_server(datagram.as_slice()) {
                    self.stage = Stage::Resolving(peer);
                    Action::Resolve(peer)
                } else {
                    Action::Receive
                }
            },
            (Stage::Receiving, Event::ReceiveFailed) => Action::Receive,
            (Stage::Resolving(peer), Event::Resolved { address, name }) => {
                if text::chars_of(address.as_str()).len() == 0 {
                    self.stage = Stage::Receiving;
                    return Action::Receive;
                }
                let info: ServerDiscoveryInfo = ServerDiscoveryInfo {
                    address,
                    id: self.server_id.clone(),
                    name,
                    endpoint_address: None,
                };
                assert(info.spec_members() =~= reply_members(
                    address@,
                    old(self).server_id@,
                    name@,
                ));
                let (next, action) = reply_with(peer, info.to_json());
                self.stage = next;
                action
            },
            _ => {
                self.stage = Stage::Stopped;
                Action::Stop
            },
        }
    }
}

/// A reply goes to the peer that asked, and only to one that asked.
pub proof fn law_reply_goes_to_the_requesting_peer(
    id: Seq<char>,
    request: Event,
    asked: Stage,
    resolving: Action,
    resolved: Event,
    next: Stage,
    action: Action,
)
    requires
        Stage::Receiving.follows(id, request, asked, resolving),
        asked.follows(id, resolved, next, action),
        action is Reply,
    ensures
        request matches Event::Received { datagram, peer } && is_discovery_request(datagram@)
            && action->Reply_peer == peer,
{
}

/// A datagram that holds the request is answered however large it is and
/// whatever stands before and behind it.
pub proof fn law_request_is_found_anywhere(before: Seq<u8>, request: Seq<u8>, behind: Seq<u8>)
    requires
        request.len() == REQUEST@.len(),
        is_request_at(request, 0),
    ensures
        is_discovery_request(before + request + behind),
{
    let datagram = before + request + behind;
    let at = before.len() as int;
    assert forall|i: int| 0 <= i < REQUEST@.len() implies lower_byte(
        #[trigger] datagram[at + i],
    ) as char == REQUEST@[i] by {
        assert(datagram[at + i] == request[0 + i]);
    }
    assert(is_request_at(datagram, at));
}

/// A reply tells the address that was found for the peer, the identifier and the
/// name of the server, each under its own key, and a null endpoint.
pub proof fn law_reply_tells_address_identifier_and_name(
    address: Seq<char>,
    id: Seq<char>,
    name: Seq<char>,
)
    ensures
        reply_members(address, id, name).len() == 4,
        member_value(reply_members(address, id, name), "Address"@) == Some(Some(address)),
        member_value(reply_members(address, id, name), "Id"@) == Some(Some(id)),
        member_value(reply_members(address, id, name), "Name"@) == Some(Some(name)),
        member_value(reply_members(address, id, name), "EndpointAddress"@) == Some(
            None::<Seq<char>>,
        ),
{
    reveal_strlit("Address");
    reveal_strlit("Id");
    reveal_strlit("Name");
    reveal_strlit("EndpointAddress");
    assert("Address"@.len() == 7 && "Id"@.len() == 2 && "Name"@.len() == 4
        && "EndpointAddress"@.len() == 15);
    reveal_with_fuel(member_value, 5);
}

/// Nothing that arrives stops the responder: a datagram that is no request and a
/// failure to receive leave it waiting for the next one, and a request has the
/// address for its own sender found out.
pub proof fn law_no_datagram_stops_the_responder(
    id: Seq<char>,
    event: Event,
    next: Stage,
    action: Action,
)
    requires
        event is Received || event is ReceiveFailed,
        Stage::Receiving.follows(id, event, next, action),
    ensures
        match event {
            Event::Received { datagram, peer } => if is_discovery_request(datagram@) {
                next == Stage::Resolving(peer) && action == Action::Resolve(peer)
            } else {
                next == Stage::Receiving && action is Receive
            },
            _ => next == Stage::Receiving && action is Receive,
        },
        next != Stage::Stopped,
        !(action is Stop),
{
}

/// Once the address is known the reply is sent, whatever its text, and the
/// responder waits for the next datagram; it stops only where the address cannot
/// be found out or the reply cannot be written. No reply is sent where the
/// address is empty.
pub proof fn law_known_address_is_replied(
    id: Seq<char>,
    peer: Peer,
    address: String,
    name: String,
    next: Stage,
    action: Action,
)
    requires
        Stage::Resolving(peer).follows(id, Event::Resolved { address, name }, next, action),
    ensures
        address@.len() == 0 ==> next == Stage::Receiving && action is Receive,
        address@.len() > 0 ==> match outside::json_object(reply_members(address@, id, name@)) {
            Some(bytes) => {
                &&& next == Stage::Receiving
                &&& action matches Action::Reply { payload, peer: to } && payload@ == bytes && to
                    == peer
            },
            None => next == Stage::Stopped && action is Stop,
        },
{
}

/// A datagram is a request just where somewhere in it stand, one behind the
/// other, the letters of the request, each in either case, and its other
/// characters.
pub proof fn law_request_is_told_by_its_letters(datagram: Seq<u8>)
    ensures
        is_discovery_request(datagram) <==> exists|at: int| #[trigger]
            letters_stand_at(datagram, at),
{
    assert forall|at: int| is_request_at(datagram, at) implies #[trigger] letters_stand_at(
        datagram,
        at,
    ) by {
        assert forall|i: int| 0 <= i < REQUEST@.len() implies {
            let byte = #[trigger] datagram[at + i];
            ||| byte as char == REQUEST@[i]
            ||| 'a' <= REQUEST@[i] <= 'z' && byte as int + 32 == REQUEST@[i] as int
        } by {
            assert(lower_byte(datagram[at + i]) as char == REQUEST@[i]);
        }
    }
    assert forall|at: int| #[trigger] letters_stand_at(datagram, at) implies is_request_at(
        datagram,
        at,
    ) by {
        lemma_request_is_lower_case();
        assert forall|i: int| 0 <= i < REQUEST@.len() implies lower_byte(
            #[trigger] datagram[at + i],
        ) as char == REQUEST@[i] by {
            let byte = datagram[at + i];
            assert(byte as char == REQUEST@[i] || 'a' <= REQUEST@[i] <= 'z' && byte as int + 32
                == REQUEST@[i] as int);
        }
    }
    if is_discovery_request(datagram) {
        let at = choose|at: int| is_request_at(datagram, at);
        assert(letters_stand_at(datagram, at));
    }
    if exists|at: int| #[trigger] letters_stand_at(datagram, at) {
        let at = choose|at: int| #[trigger] letters_stand_at(datagram, at);
        assert(is_request_at(datagram, at));
    }
}

/// Whether the characters of the request stand at `at`, letters in either case.
pub open spec fn letters_stand_at(datagram: Seq<u8>, at: int) -> bool {
    &&& 0 <= at
    &&& at + REQUEST@.len() <= datagram.len()
    &&& forall|i: int|
        0 <= i < REQUEST@.len() ==> {
            let byte = #[trigger] datagram[at + i];
            ||| byte as char == REQUEST@[i]
            ||| 'a' <= REQUEST@[i] <= 'z' && byte as int + 32 == REQUEST@[i] as int
        }
}

/// The request is written without a capital letter.
proof fn lemma_request_is_lower_case()
    ensures
        forall|i: int|
            0 <= i < REQUEST@.len() ==> !('A' <= #[trigger] REQUEST@[i] <= 'Z'),
{
    reveal_strlit("who is jellyfinserver?");
    assert("who is jellyfinserver?"@ =~= seq![
        'w', 'h', 'o', ' ', 'i', 's', ' ', 'j', 'e', 'l', 'l', 'y', 'f', 'i', 'n', 's', 'e', 'r',
        'v', 'e', 'r', '?',
    ]);
}

/// Clients ask on UDP port 7359, and a datagram of any size that UDP allows is
/// taken whole.
pub proof fn law_any_datagram_is_taken_whole(length: u16)
    ensures
        DISCOVERY_PORT == 7359,
        length <= DATAGRAM_BUFFER,
{
}

} // verus!
