use ferrofin::api_client::ServerDiscoveryInfo;
use ferrofin::casing::{lower_invariant, previous_clean_value};
use ferrofin::interfaces::{
    entries_to_probe, enumerate, is_up, loopbacks, map_interfaces, Interface,
};
use ferrofin::macos_interfaces::{
    has_link, interface_name, is_administratively_up, is_up as link_is_up, LinkStep, Media,
    INVALID, NOT_SUPPORTED,
};
use ferrofin::net::IpAddr;
use ferrofin::server_discovery::{
    asks_for_server, reply_with, socket_message, Action, Event, Peer, Responder,
    ServerDiscoveryError, Stage, DATAGRAM_BUFFER, DISCOVERY_PORT,
};
use ferrofin::sqlite_casing::{
    argument, casing_input, casing_result, register_first, register_next, Argument, Mapping,
    Outcome, Registration, INVALID_TEXT,
};

// --- discovery -------------------------------------------------------------

fn object(members: &[(&str, Option<&str>)]) -> serde_json::Value {
    let mut map = serde_json::Map::new();
    for (key, value) in members {
        let value = match value {
            Some(text) => serde_json::Value::String((*text).to_owned()),
            None => serde_json::Value::Null,
        };
        map.insert((*key).to_owned(), value);
    }
    serde_json::Value::Object(map)
}

#[test]
fn discovery_serializes_all_four_keys_including_null_endpoint() {
    let response = ServerDiscoveryInfo {
        address: "http://192.168.1.2:8096".into(),
        id: "persisted-server-id".into(),
        name: "Living room".into(),
        endpoint_address: None,
    };
    let bytes = response.to_json().expect("serialize discovery");
    let json: serde_json::Value = serde_json::from_slice(&bytes).expect("JSON");
    assert_eq!(
        json,
        object(&[
            ("Address", Some("http://192.168.1.2:8096")),
            ("Id", Some("persisted-server-id")),
            ("Name", Some("Living room")),
            ("EndpointAddress", None),
        ])
    );
    assert_eq!(
        String::from_utf8(bytes).expect("text"),
        r#"{"Address":"http://192.168.1.2:8096","Id":"persisted-server-id","Name":"Living room","EndpointAddress":null}"#
    );
    let read = ServerDiscoveryInfo {
        address: json["Address"].as_str().expect("address").to_owned(),
        id: json["Id"].as_str().expect("id").to_owned(),
        name: json["Name"].as_str().expect("name").to_owned(),
        endpoint_address: json["EndpointAddress"].as_str().map(str::to_owned),
    };
    assert_eq!(read, response);
}

fn peer() -> Peer {
    Peer { ip: IpAddr::V4(0x7f00_0001), port: 51000, flow_info: 0, scope_id: 0 }
}

fn reply(responder: &mut Responder, request: &[u8], name: &str) -> Option<serde_json::Value> {
    let received = Event::Received { datagram: request.to_vec(), peer: peer() };
    match responder.step(received) {
        Action::Receive => return None,
        Action::Resolve(asked) => assert_eq!(asked, peer()),
        other => panic!("{other:?}"),
    }
    let resolved = Event::Resolved {
        address: "http://192.168.1.2:8096/jellyfin".to_owned(),
        name: name.to_owned(),
    };
    match responder.step(resolved) {
        Action::Reply { payload, peer: to } => {
            assert_eq!(to, peer(), "reply goes to the requesting endpoint");
            Some(serde_json::from_slice(&payload).expect("JSON reply"))
        }
        other => panic!("{other:?}"),
    }
}

#[test]
fn recognized_datagrams_reply_to_requesting_endpoint() {
    let mut responder = Responder::new("persisted-id".to_owned());
    for request in [
        b"who is JellyfinServer?".as_slice(),
        b"prefix WHO IS jElLyFiNsErVeR? suffix".as_slice(),
        b"\xffwho is JellyfinServer?\xfe".as_slice(),
    ] {
        assert_eq!(
            reply(&mut responder, request, "discovery-test"),
            Some(object(&[
                ("Address", Some("http://192.168.1.2:8096/jellyfin")),
                ("Id", Some("persisted-id")),
                ("Name", Some("discovery-test")),
                ("EndpointAddress", None),
            ]))
        );
    }
}

#[test]
fn unrelated_and_empty_datagrams_are_silent_then_valid_request_works() {
    let mut responder = Responder::new("persisted-id".to_owned());
    for request in [b"".as_slice(), b"who is some other server?".as_slice()] {
        assert_eq!(reply(&mut responder, request, "n"), None);
    }
    let answer = reply(&mut responder, b"who is JellyfinServer?", "n").expect("reply");
    assert_eq!(answer["Id"], "persisted-id");
}

#[test]
fn maximum_ipv4_datagram_is_not_truncated() {
    let mut responder = Responder::new("persisted-id".to_owned());
    let mut request = vec![b'x'; 65_507];
    let marker = b"who is JellyfinServer?";
    let offset = request.len() - marker.len();
    request[offset..].copy_from_slice(marker);
    assert!(request.len() <= DATAGRAM_BUFFER);
    let answer = reply(&mut responder, &request, "n").expect("reply");
    assert_eq!(answer["Id"], "persisted-id");
}

#[test]
fn next_response_uses_refreshed_friendly_name() {
    let mut responder = Responder::new("persisted-id".to_owned());
    let request = b"who is JellyfinServer?";
    assert_eq!(
        reply(&mut responder, request, "discovery-test").expect("reply")["Name"],
        "discovery-test"
    );
    assert_eq!(reply(&mut responder, request, "New name").expect("reply")["Name"], "New name");
}

#[test]
fn responder_survives_receive_errors_and_stops_on_resolution_errors() {
    assert_eq!(DISCOVERY_PORT, 7359);
    let mut responder = Responder::new("id".to_owned());
    assert!(matches!(responder.step(Event::ReceiveFailed), Action::Receive));
    let request = || Event::Received { datagram: b"WHO IS JELLYFINSERVER?".to_vec(), peer: peer() };
    assert!(matches!(responder.step(request()), Action::Resolve(_)));
    let empty = Event::Resolved { address: String::new(), name: "n".to_owned() };
    assert!(matches!(responder.step(empty), Action::Receive));
    assert_eq!(responder.stage, Stage::Receiving);
    assert!(matches!(responder.step(request()), Action::Resolve(_)));
    assert!(matches!(responder.step(Event::ResolveFailed), Action::Stop));
    assert_eq!(responder.stage, Stage::Stopped);
    assert!(matches!(responder.step(request()), Action::Stop));
}

#[test]
fn reply_without_a_payload_stops() {
    assert!(matches!(reply_with(peer(), None), (Stage::Stopped, Action::Stop)));
    match reply_with(peer(), Some(vec![1, 2])) {
        (Stage::Receiving, Action::Reply { payload, peer: to }) => {
            assert_eq!(payload, vec![1, 2]);
            assert_eq!(to, peer());
        }
        other => panic!("{other:?}"),
    }
}

#[test]
fn request_needs_every_character() {
    assert!(asks_for_server(b"xwho is jellyfinserver?x"));
    assert!(!asks_for_server(b"who is jellyfinserver"));
    assert!(!asks_for_server(b"who is jellyfin\xffserver?"));
}

#[test]
fn socket_errors_name_the_socket() {
    assert_eq!(socket_message("in use"), "discovery socket: in use");
    let error = ServerDiscoveryError::from(std::io::Error::new(std::io::ErrorKind::Other, "in use"));
    assert_eq!(error.message(), "discovery socket: in use");
}

// --- interfaces ------------------------------------------------------------

fn v4_interface(name: &str, index: Option<u32>) -> Interface {
    Interface {
        name: name.to_owned(),
        index,
        address: IpAddr::V4(0xc0a8_0102),
        prefix_length: 24,
    }
}

fn v6_interface(name: &str, index: Option<u32>) -> Interface {
    Interface {
        name: name.to_owned(),
        index,
        address: IpAddr::V6(0xfd00_0000_0000_0000_0000_0000_0000_0002),
        prefix_length: 64,
    }
}

#[test]
fn loopback_fallback_respects_enabled_families() {
    assert!(loopbacks(false, false).is_empty());
    let v4 = loopbacks(true, false);
    assert_eq!(v4.len(), 1);
    assert!(v4[0].address.is_ipv4());
    assert_eq!(v4[0].subnet.prefix_length, 8);
    let v6 = loopbacks(false, true);
    assert_eq!(v6.len(), 1);
    assert!(v6[0].address.is_ipv6());
    assert_eq!(loopbacks(true, true).len(), 2);
}

#[test]
fn adapter_keeps_prefix_index_and_name_and_rejects_down_or_unknown_index() {
    let interfaces = vec![
        v4_interface("lan", Some(5)),
        v4_interface("down", Some(6)),
        v4_interface("missing", None),
        v4_interface("overflow", Some(u32::MAX)),
    ];
    let result = map_interfaces(&interfaces, true, false, &vec![true, false, true, true]);
    assert_eq!(result.len(), 1);
    assert_eq!(result[0].name, "lan");
    assert_eq!(result[0].index, 5);
    assert_eq!(result[0].subnet.prefix_length, 24);
    assert_eq!(result[0].address, IpAddr::V4(0xc0a8_0102));
}

#[test]
fn adapter_maps_ipv6_and_checks_state_once_per_interface() {
    let interfaces = vec![v4_interface("lan", Some(5)), v6_interface("lan", Some(5))];
    assert_eq!(entries_to_probe(&interfaces), vec![0]);
    let up = vec![true, false];
    let result = map_interfaces(&interfaces, true, true, &up);
    assert_eq!(result.len(), 2);
    assert_eq!(result[1].subnet.prefix_length, 64);
    assert_eq!(result[1].address, IpAddr::V6(0xfd00_0000_0000_0000_0000_0000_0000_0002));
    assert!(map_interfaces(&interfaces, false, false, &up).is_empty());
    assert_eq!(map_interfaces(&interfaces, false, true, &up).len(), 1);
}

#[test]
fn no_usable_os_addresses_fall_back_to_enabled_loopbacks() {
    let interfaces = vec![v4_interface("down", Some(3))];
    let result = map_interfaces(&interfaces, true, true, &vec![false]);
    assert_eq!(result.len(), 2);
    assert!(result.iter().all(|interface| interface.address.is_loopback()));
    let failed = enumerate(&None, false, true, &Vec::new());
    assert_eq!(failed.len(), 1);
    assert_eq!(failed[0].address, IpAddr::V6(1));
    assert_eq!(failed[0].name, "lo");
}

#[test]
fn each_name_is_probed_at_its_first_entry() {
    let interfaces = vec![
        v4_interface("a", Some(1)),
        v4_interface("b", Some(2)),
        v6_interface("a", Some(1)),
        v6_interface("c", Some(3)),
    ];
    assert_eq!(entries_to_probe(&interfaces), vec![0, 1, 3]);
}

#[test]
fn linux_state_needs_running_and_the_up_flag() {
    let flags = |text: &str| Some(text.to_owned());
    assert!(is_up(true, &flags("0x1003\n")));
    assert!(!is_up(true, &flags("0x1002\n")));
    assert!(!is_up(false, &flags("0x1003\n")));
    assert!(is_up(true, &flags("0x0x3")));
    assert!(is_up(true, &flags("not hex")), "unreadable flags leave the running flag");
    assert!(is_up(true, &flags("0x100000002")), "too large to be read");
    assert!(is_up(true, &None));
    assert!(!is_up(false, &None));
}

#[test]
fn darwin_state_from_flags_and_media() {
    let name = interface_name("en0").expect("name");
    assert_eq!(&name[..4], b"en0\0");
    assert!(name[3..].iter().all(|byte| *byte == 0));
    assert!(interface_name("fifteen-letters").is_some());
    assert!(interface_name("sixteen-letters!").is_none());
    assert!(is_administratively_up(0x8863_u16 as i16));
    assert!(!is_administratively_up(0x8862_u16 as i16));
    assert_eq!(has_link(Media::Status(3)), Some(true));
    assert_eq!(has_link(Media::Status(1)), Some(false));
    assert_eq!(has_link(Media::Failed(Some(NOT_SUPPORTED))), Some(true));
    assert_eq!(has_link(Media::Failed(Some(INVALID))), Some(true));
    assert_eq!(has_link(Media::Failed(Some(1))), None);
    assert_eq!(has_link(Media::Failed(None)), None);
}

#[test]
fn darwin_media_counts_only_where_the_interface_is_up() {
    let (up, down) = (0x8863_u16 as i16, 0x8862_u16 as i16);
    assert_eq!(link_is_up(down, None), LinkStep::Known(false));
    assert_eq!(link_is_up(down, Some(Media::Status(3))), LinkStep::Known(false));
    assert_eq!(link_is_up(up, None), LinkStep::AskMedia);
    assert_eq!(link_is_up(up, Some(Media::Status(3))), LinkStep::Known(true));
    assert_eq!(link_is_up(up, Some(Media::Status(1))), LinkStep::Known(false));
    assert_eq!(link_is_up(up, Some(Media::Failed(Some(INVALID)))), LinkStep::Known(true));
    assert_eq!(link_is_up(up, Some(Media::Failed(Some(1)))), LinkStep::Failed);
    assert_eq!(link_is_up(up, Some(Media::Failed(None))), LinkStep::Failed);
}

// --- casing ----------------------------------------------------------------

#[test]
fn invariant_lower_case_has_no_context_and_keeps_the_length() {
    assert_eq!(lower_invariant("Élodie"), "élodie");
    assert_eq!(lower_invariant("GOJIRA [1]"), lower_invariant("Gojira [1]"));
    assert_eq!(lower_invariant("ΟΣ"), "οσ");
    assert_eq!(lower_invariant("ςσΣ"), "ςσσ");
    assert_eq!(lower_invariant("İI"), "İi");
    assert_eq!(lower_invariant("A\0É"), "a\0é");
    assert_eq!(lower_invariant(""), "");
}

#[test]
fn previous_clean_value_was_contextual() {
    assert_eq!(previous_clean_value("ΟΣ", "ΟΣ"), "ος");
    assert_eq!(previous_clean_value("  ", "ignored"), "  ");
    assert_eq!(previous_clean_value("É", "E"), "e");
}

#[test]
fn casing_arguments_and_results() {
    assert_eq!(argument(true, false, -1), Argument::Null);
    assert_eq!(argument(false, false, 3), Argument::OutOfMemory);
    assert_eq!(argument(false, true, -1), Argument::InvalidLength);
    assert_eq!(argument(false, true, 3), Argument::Text(3));
    assert_eq!(casing_input("A\0É".as_bytes()), Ok("A\0É".to_owned()));
    assert_eq!(casing_input(b"\xff"), Err(INVALID_TEXT));
    match casing_result(Some("a\0é".to_owned())) {
        Outcome::Text { text, length } => {
            assert_eq!(text, "a\0é");
            assert_eq!(length, 4);
        }
        other => panic!("{other:?}"),
    }
    assert!(matches!(casing_result(None), Outcome::Failed));
}

#[test]
fn functions_are_registered_in_order_until_one_fails() {
    let mut names = Vec::new();
    let mut step = register_first();
    let code = loop {
        match step {
            Registration::Register(mapping) => {
                names.push(mapping.name());
                step = register_next(mapping, 0);
            }
            Registration::Return(code) => break code,
        }
    };
    assert_eq!(code, 0);
    assert_eq!(
        names,
        vec![
            "ferrofin_sort_name",
            "ferrofin_previous_sort_name",
            "ferrofin_forced_sort_key",
            "ferrofin_previous_forced_sort_key",
            "ferrofin_lower_invariant",
            "ferrofin_upper_invariant",
            "ferrofin_clean_value",
            "ferrofin_previous_clean_value",
        ]
    );
    assert_eq!(register_next(Mapping::Lower, 21), Registration::Return(21));
}
