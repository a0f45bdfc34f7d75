use ferrofin::application_host::{
    FerrofinServerApplicationHost, HostNetworkInfo, RequestContext, SmartUrl, PRODUCT_NAME,
};
use ferrofin::base_url::{normalize_base_url, relocate, rewrite, Rewrite};
use ferrofin::net::IpAddr;
use ferrofin::virtual_paths::{
    replace_ignore_ascii_case, VirtualPathExpander, VIRTUAL_DATA_PATH,
    VIRTUAL_INTERNAL_METADATA_PATH,
};

// --- virtual paths ---------------------------------------------------------

fn expander() -> VirtualPathExpander {
    VirtualPathExpander::from_paths("/var/lib/ferrofin/data", "/var/lib/ferrofin/data/metadata")
}

#[test]
fn expands_the_metadata_token_as_jellyfin_stores_image_paths() {
    assert_eq!(
        expander().expand("%MetadataPath%/library/ab/abcdef/poster.jpg"),
        "/var/lib/ferrofin/data/metadata/library/ab/abcdef/poster.jpg"
    );
}

#[test]
fn expands_the_data_token_and_is_case_insensitive() {
    assert_eq!(
        expander().expand("%appdatapath%/collections/Favourites"),
        "/var/lib/ferrofin/data/collections/Favourites"
    );
}

#[test]
fn resolved_paths_pass_through_unchanged() {
    let media = "/srv/fastmedia/shows/S01E01-thumb.jpg";
    assert_eq!(expander().expand(media), media);
    assert_eq!(expander().expand(""), "");
}

#[test]
fn identity_keeps_the_tokens() {
    let stored = "%MetadataPath%/library/x.jpg";
    assert_eq!(VirtualPathExpander::identity().expand(stored), stored);
    assert_eq!(VirtualPathExpander::default().expand(stored), stored);
}

#[test]
fn expand_opt_maps_through() {
    assert_eq!(expander().expand_opt(None), None);
    assert_eq!(
        expander().expand_opt(Some("%MetadataPath%/x")).as_deref(),
        Some("/var/lib/ferrofin/data/metadata/x")
    );
}

#[test]
fn replacement_goes_left_to_right_over_every_occurrence() {
    assert_eq!(replace_ignore_ascii_case("aXbxc", "x", "--"), "a--b--c");
    assert_eq!(replace_ignore_ascii_case("aaa", "aa", "b"), "ba");
    assert_eq!(replace_ignore_ascii_case("é%T%é%t%", "%t%", "ü"), "éüéü");
    assert_eq!(replace_ignore_ascii_case("abc", "", "x"), "abc");
    assert_eq!(replace_ignore_ascii_case("a%T%b", "%t%", ""), "ab");
}

#[test]
fn both_tokens_are_expanded_in_one_path() {
    let expander = VirtualPathExpander::from_paths("/d", "/m");
    let stored = format!("{VIRTUAL_DATA_PATH}:{VIRTUAL_INTERNAL_METADATA_PATH}");
    assert_eq!(expander.expand(&stored), "/d:/m");
    let data_only = VirtualPathExpander::from_paths("/d", "");
    assert_eq!(data_only.expand(&stored), format!("/d:{VIRTUAL_INTERNAL_METADATA_PATH}"));
}

// --- base URL --------------------------------------------------------------

#[test]
fn normalization_handles_missing_and_extra_slashes() {
    for (input, expected) in [
        ("", ""),
        ("/", ""),
        ("   ", ""),
        ("jellyfin", "/jellyfin"),
        ("/jellyfin/", "/jellyfin"),
        ("/jellyfin///", "/jellyfin"),
        ("/media/jellyfin/", "/media/jellyfin"),
    ] {
        assert_eq!(normalize_base_url(input), expected);
    }
}

#[test]
fn base_path_normalization_is_idempotent() {
    for input in ["", "/", "///", "jellyfin", "/jellyfin///"] {
        let normalized = normalize_base_url(input);
        assert_eq!(normalize_base_url(&normalized), normalized);
    }
    assert_eq!(normalize_base_url("/jellyfin///"), "/jellyfin");
}

fn send(base: &str, target: &str) -> Rewrite {
    let (path, query) = match target.split_once('?') {
        Some((path, query)) => (path, Some(query)),
        None => (target, None),
    };
    rewrite(&normalize_base_url(base), None, None, path, query)
}

fn forwarded(rewrite: Rewrite) -> String {
    match rewrite {
        Rewrite::Forward(uri) => uri,
        other => panic!("not forwarded: {other:?}"),
    }
}

#[test]
fn prefix_is_stripped_before_case_routing_and_query_is_preserved() {
    assert_eq!(
        forwarded(send("jellyfin/", "/JeLlYfIn/system/info/public?key=Some%2FValue")),
        "/system/info/public?key=Some%2FValue"
    );
    assert_eq!(
        forwarded(send("/jellyfin///", "/jellyfin/System/Info/Public")),
        "/System/Info/Public"
    );
}

#[test]
fn missing_prefix_and_bare_mount_redirect_to_web() {
    for path in ["/", "/System/Info/Public", "/jellyfin", "/JELLYFIN/"] {
        match send("/jellyfin", path) {
            Rewrite::Redirect(location) => assert_eq!(location, "/jellyfin/web/", "{path}"),
            other => panic!("{path}: {other:?}"),
        }
    }
    assert!(matches!(send("/jellyfin", "/jellyfin-other"), Rewrite::NotFound));
}

#[test]
fn redirects_keep_mount_without_changing_external_locations() {
    assert_eq!(relocate("/jellyfin", b"/web/").as_deref(), Some("/jellyfin/web/"));
    assert_eq!(relocate("/jellyfin", b"https://example.org/"), None);
    assert_eq!(relocate("/jellyfin", b"//example.org/"), None);
}

#[test]
fn health_probes_work_at_root_and_under_mount() {
    for path in ["/health/live", "/health/ready", "/HEALTH/Ready"] {
        assert!(matches!(send("/jellyfin", path), Rewrite::Pass), "{path}");
    }
    for path in ["/health/live", "/health/ready"] {
        assert_eq!(forwarded(send("/jellyfin", &format!("/jellyfin{path}"))), path);
    }
}

#[test]
fn empty_base_preserves_root_routes() {
    assert!(matches!(send("", "/System/Info/Public"), Rewrite::Pass));
    assert!(matches!(send("/", "/web"), Rewrite::Pass));
}

#[test]
fn forwarded_uri_keeps_scheme_and_authority() {
    assert_eq!(
        forwarded(rewrite(
            "/jellyfin",
            Some("http"),
            Some("media.lan:8096"),
            "/jellyfin/x",
            Some("a=b"),
        )),
        "http://media.lan:8096/x?a=b"
    );
}

#[test]
fn uri_that_cannot_be_made_is_a_bad_request() {
    assert!(matches!(
        rewrite("/jellyfin", None, None, "/jellyfin/a b", None),
        Rewrite::BadRequest
    ));
    assert!(matches!(
        rewrite("/jellyfin", Some("http"), None, "/jellyfin/a", None),
        Rewrite::BadRequest
    ));
}

#[test]
fn location_that_is_no_text_or_no_header_is_kept() {
    assert_eq!(relocate("/jellyfin", b"/caf\xc3\xa9"), None);
    assert_eq!(relocate("/jelly\nfin", b"/web/"), None);
    assert_eq!(relocate("/jellyfin", b"web/"), None);
    assert_eq!(relocate("/jellyfin", b""), None);
    assert_eq!(relocate("/m\u{e9}dia", b"/web/").as_deref(), Some("/m\u{e9}dia/web/"));
    assert_eq!(relocate("/jellyfin", b"/a\tb").as_deref(), Some("/jellyfin/a\tb"));
    assert_eq!(relocate("/jellyfin", b"/a\x7fb"), None);
}

// --- application host ------------------------------------------------------

fn host(network: HostNetworkInfo) -> FerrofinServerApplicationHost {
    FerrofinServerApplicationHost::new("/srv/ferrofin/data", "/srv/ferrofin/metadata", network, "test-machine")
}

fn url(smart: SmartUrl) -> String {
    match smart {
        SmartUrl::Url(url) => url,
        other => panic!("not an address: {other:?}"),
    }
}

fn v4(a: u32, b: u32, c: u32, d: u32) -> IpAddr {
    IpAddr::V4((a << 24) | (b << 16) | (c << 8) | d)
}

#[test]
fn local_api_url_builds_scheme_host_port() {
    let h = host(HostNetworkInfo::default());
    assert_eq!(h.get_local_api_url("192.168.1.5", None, None), "http://192.168.1.5:8096");
    assert_eq!(
        h.get_local_api_url("192.168.1.5", Some("https"), Some(443)),
        "https://192.168.1.5"
    );
}

#[test]
fn local_api_url_passes_through_full_url() {
    let h = host(HostNetworkInfo::default());
    assert_eq!(
        h.get_local_api_url("https://jelly.example.com/", None, None),
        "https://jelly.example.com"
    );
}

#[test]
fn base_url_is_appended() {
    let h = host(HostNetworkInfo { base_url: "/jellyfin".to_owned(), ..Default::default() });
    assert_eq!(h.get_local_api_url("host", None, Some(8096)), "http://host:8096/jellyfin");
}

#[test]
fn published_url_wins() {
    let h = host(HostNetworkInfo {
        published_server_url: Some("https://public.example.com/".to_owned()),
        ..Default::default()
    });
    assert_eq!(
        url(h.get_smart_api_url(&RequestContext::default())),
        "https://public.example.com"
    );
}

#[test]
fn smart_url_echoes_request_host() {
    let h = host(HostNetworkInfo {
        enable_published_server_uri_by_request: true,
        ..Default::default()
    });
    let request = RequestContext {
        headers: vec![
            ("Host".to_owned(), "media.lan:8096".to_owned()),
            ("X-Forwarded-Proto".to_owned(), "http".to_owned()),
        ],
        ..Default::default()
    };
    assert_eq!(url(h.get_smart_api_url(&request)), "http://media.lan:8096");
}

#[test]
fn request_host_branch_precedes_published_url_and_omits_default_port() {
    let h = host(HostNetworkInfo {
        enable_published_server_uri_by_request: true,
        published_server_url: Some("https://configured.example.test".into()),
        ..Default::default()
    });
    for host in ["media.example.test", "media.example.test:443"] {
        let request = RequestContext {
            headers: vec![
                ("Host".into(), host.into()),
                ("X-Forwarded-Proto".into(), "https".into()),
            ],
            ..Default::default()
        };
        assert_eq!(url(h.get_smart_api_url(&request)), "https://media.example.test");
    }
}

#[test]
fn http_named_machine_is_a_hostname_not_a_complete_url() {
    let h = host(HostNetworkInfo::default());
    assert_eq!(h.get_local_api_url("http-media", None, None), "http://http-media:8096");
}

#[test]
fn explicit_published_url_wins_over_bind_and_network_overrides() {
    let h = host(HostNetworkInfo {
        published_server_url: Some("https://public.example.test/media/".into()),
        ..Default::default()
    })
    .with_network(v4(127, 0, 0, 1));
    assert_eq!(
        url(h.get_smart_api_url_for_peer(v4(10, 20, 0, 45))),
        "https://public.example.test/media"
    );
}

#[test]
fn local_url_formats_unbracketed_ipv6_literal() {
    let h = host(HostNetworkInfo::default());
    assert_eq!(h.get_local_api_url("fd12::2", None, None), "http://[fd12::2]:8096");
    assert_eq!(h.get_local_api_url("FD12:0:0:0:0:0:0:2", None, None), "http://[fd12::2]:8096");
}

#[test]
fn virtual_path_expand_and_reverse_roundtrip() {
    let h = host(HostNetworkInfo::default());
    let data = h.data_path.clone();
    let virtual_path = format!("{VIRTUAL_DATA_PATH}/subtitles/x.srt");
    let expanded = h.expand_virtual_path(&virtual_path);
    assert_eq!(expanded, format!("{data}/subtitles/x.srt"));
    assert_eq!(h.reverse_virtual_path(&expanded), virtual_path);
}

#[test]
fn explicit_http_bind_and_actual_port_constrain_advertisement() {
    let bind = v4(192, 168, 1, 2);
    let peer = v4(10, 20, 0, 45);
    let mut h = host(HostNetworkInfo {
        base_url: "/jellyfin/".into(),
        http_port: 0,
        ..Default::default()
    })
    .with_network(bind);
    h.set_bound_http_port(18096);
    assert_eq!(h.http_port(), 18096);
    match h.get_smart_api_url_for_peer(peer) {
        SmartUrl::Resolve { peer: asked, bind: bound } => {
            assert_eq!(asked, peer);
            assert_eq!(bound, Some(bind));
        }
        other => panic!("{other:?}"),
    }
    assert_eq!(h.resolved_url("192.168.1.2", None), "http://192.168.1.2:18096/jellyfin");
}

#[test]
fn smart_url_resolves_the_remote_endpoint() {
    let h = host(HostNetworkInfo::default()).with_network(IpAddr::V4(0));
    assert_eq!(h.http_bind, None);
    for (endpoint, expected) in [
        (Some("10.20.0.45:51000"), v4(10, 20, 0, 45)),
        (Some("10.20.0.45"), v4(10, 20, 0, 45)),
        (Some("[fd12::45]:80"), IpAddr::V6(0xfd12_0000_0000_0000_0000_0000_0000_0045)),
        (Some("fd12::45"), IpAddr::V6(0xfd12_0000_0000_0000_0000_0000_0000_0045)),
        (Some("elsewhere"), v4(127, 0, 0, 1)),
        (None, v4(127, 0, 0, 1)),
    ] {
        let request = RequestContext {
            remote_endpoint: endpoint.map(str::to_owned),
            ..Default::default()
        };
        match h.get_smart_api_url(&request) {
            SmartUrl::Resolve { peer, bind } => {
                assert_eq!(peer, expected, "{endpoint:?}");
                assert_eq!(bind, None);
            }
            other => panic!("{other:?}"),
        }
    }
    assert_eq!(h.resolved_url("fd12::2", None), "http://[fd12::2]:8096");
    assert_eq!(
        h.resolved_url("https://media.example.test:8443/jellyfin/", None),
        "https://media.example.test:8443/jellyfin"
    );
    assert_eq!(h.resolved_url("public.example", Some(9000)), "http://public.example:9000");
}

#[test]
fn without_a_network_the_address_is_under_localhost() {
    let h = host(HostNetworkInfo { listen_with_https: true, ..Default::default() });
    assert_eq!(url(h.get_smart_api_url_for_peer(v4(10, 0, 0, 1))), "https://localhost:8920");
    let blank = host(HostNetworkInfo {
        published_server_url: Some(String::new()),
        ..Default::default()
    });
    assert_eq!(url(blank.get_smart_api_url_for_peer(v4(10, 0, 0, 1))), "http://localhost:8096");
}

#[test]
fn request_host_forms() {
    let h = host(HostNetworkInfo {
        enable_published_server_uri_by_request: true,
        ..Default::default()
    });
    for (value, expected) in [
        ("[::1]:8097", "http://[::1]:8097"),
        ("[::1]", "http://[::1]"),
        ("[::1]x", "http://[::1]"),
        ("name:bad", "http://name"),
        ("name:+81", "http://name:81"),
        ("name:65536", "http://name"),
        ("[::1", "http://localhost:8096"),
    ] {
        let request = RequestContext {
            headers: vec![("hOST".to_owned(), value.to_owned())],
            ..Default::default()
        };
        assert_eq!(url(h.get_smart_api_url(&request)), expected, "{value}");
    }
}

#[test]
fn names_and_state_of_the_host() {
    let mut h = host(HostNetworkInfo::default());
    assert_eq!(h.name(), PRODUCT_NAME);
    assert_eq!(h.friendly_name(), "test-machine");
    h.refresh_server_name("Living room".to_owned());
    assert_eq!(h.friendly_name(), "Living room");
    h.refresh_server_name(" \t".to_owned());
    assert_eq!(h.friendly_name(), "test-machine");
    assert!(!h.core_startup_has_completed());
    h.mark_core_startup_complete();
    assert!(h.core_startup_has_completed());
    assert_eq!(h.https_port(), 8920);
    assert!(!h.listen_with_https());
}
