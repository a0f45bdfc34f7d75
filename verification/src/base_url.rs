//! Serving everything below a base path: stripping it from requests, and
//! keeping it in redirects. The health probes stay available at the root.

use vstd::prelude::*;

use crate::outside;
use crate::text;

verus! {

/// The base path in normal form: empty where it is blank, else with one slash
/// ahead of it and none at its end.
pub open spec fn normal_base(base: Seq<char>) -> Seq<char> {
    if text::is_blank(base) {
        Seq::empty()
    } else if base[0] == '/' {
        text::trim_end_slashes(base)
    } else {
        text::trim_end_slashes(seq!['/'] + base)
    }
}

/// Executable [`normal_base`].
pub fn normalize_base_url(base: &str) -> (normal: String)
    ensures
        normal@ == normal_base(base@),
{
    if text::blank(base) {
        return String::new();
    }
    let chars: Vec<char> = text::chars_of(base);
    assert(chars@.len() > 0);
    if chars[0] == '/' {
        text::without_end_slashes(base)
    } else {
        let mut rooted: String = String::new();
        rooted.push('/');
        rooted.append(base);
        assert(rooted@ =~= seq!['/'] + base@);
        text::without_end_slashes(rooted.as_str())
    }
}

/// A base path in normal form is empty, or begins with a slash and does not end
/// in one.
pub proof fn law_normal_base_is_a_mount(base: Seq<char>)
    ensures
        normal_base(base).len() > 0 ==> normal_base(base)[0] == '/' && normal_base(base).last()
            != '/',
{
    if !text::is_blank(base) {
        text::lemma_trim_end_slashes(base);
        text::lemma_trim_end_slashes(seq!['/'] + base);
    }
}

/// Normalizing a base path again changes nothing.
pub proof fn law_normalization_is_idempotent(base: Seq<char>)
    ensures
        normal_base(normal_base(base)) == normal_base(base),
{
    law_normal_base_is_a_mount(base);
    let normal = normal_base(base);
    if normal.len() > 0 {
        assert(!text::is_white_space('/'));
        assert(!text::is_white_space(normal[0]));
        assert(!text::is_blank(normal));
        assert(text::trim_end_slashes(normal) == normal);
    } else {
        assert(text::is_blank(normal));
    }
}

/// What becomes of a request.
pub enum MountRoute {
    /// It is served as it is.
    Pass,
    /// It is sent to this path.
    Redirect(Seq<char>),
    /// Nothing is served there.
    NotFound,
    /// It is served as a request for this path and query.
    Forward(Seq<char>),
}

/// Whether a path is a health probe, whatever its case.
pub open spec fn is_health_probe(path: Seq<char>) -> bool {
    text::same_ignoring_case(path, "/health/live"@) || text::same_ignoring_case(
        path,
        "/health/ready"@,
    )
}

/// `suffix` with the query, where there is one.
pub open spec fn with_query(suffix: Seq<char>, query: Option<Seq<char>>) -> Seq<char> {
    match query {
        Some(text) => suffix + seq!['?'] + text,
        None => suffix,
    }
}

/// What becomes of a request for `path`. Without a base, and for a health
/// probe at the root, it passes. One that lacks the base, whatever its case, or
/// asks for the base alone is sent to the web client. One that goes on behind
/// the base within a segment asks for something else. Any other is stripped of
/// the base.
pub open spec fn mount_route(base: Seq<char>, path: Seq<char>, query: Option<Seq<char>>) -> MountRoute {
    let suffix = path.skip(base.len() as int);
    if base.len() == 0 || is_health_probe(path) {
        MountRoute::Pass
    } else if !text::starts_ignoring_case(path, base) || suffix.len() == 0 || suffix == seq!['/'] {
        MountRoute::Redirect(base + "/web/"@)
    } else if suffix[0] != '/' {
        MountRoute::NotFound
    } else {
        MountRoute::Forward(with_query(suffix, query))
    }
}

/// [`MountRoute`] as a value.
#[derive(Debug)]
pub enum Route {
    Pass,
    Redirect(String),
    NotFound,
    Forward(String),
}

impl View for Route {
    type V = MountRoute;

    open spec fn view(&self) -> MountRoute {
        match self {
            Route::Pass => MountRoute::Pass,
            Route::Redirect(location) => MountRoute::Redirect(location@),
            Route::NotFound => MountRoute::NotFound,
            Route::Forward(target) => MountRoute::Forward(target@),
        }
    }
}

/// Executable [`mount_route`].
pub fn route(base: &str, path: &str, query: Option<&str>) -> (route: Route)
    ensures
        route@ == mount_route(base@, path@, outside::optional_view(query)),
{
    let base_chars: Vec<char> = text::chars_of(base);
    if base_chars.len() == 0 || text::equal_ignoring_case(path, "/health/live")
        || text::equal_ignoring_case(path, "/health/ready") {
        return Route::Pass;
    }
    let chars: Vec<char> = text::chars_of(path);
    let ghost suffix = path@.skip(base@.len() as int);
    let has_prefix: bool = text::begins_ignoring_case(path, base);
    if !has_prefix || chars.len() == base_chars.len() || (chars.len() - base_chars.len() == 1
        && chars[base_chars.len()] == '/') {
        let mut location: String = base.to_owned();
        location.append("/web/");
        proof {
            if has_prefix && chars@.len() - base_chars@.len() == 1 {
                assert(suffix =~= seq!['/']);
            }
        }
        return Route::Redirect(location);
    }
    assert(suffix != seq!['/']) by {
        assert(seq!['/'].len() == 1 && seq!['/'][0] == '/');
        assert(suffix[0] == chars@[base_chars@.len() as int]);
    }
    if chars[base_chars.len()] != '/' {
        return Route::NotFound;
    }
    let mut target: String = text::text_between(&chars, base_chars.len(), chars.len());
    assert(target@ =~= suffix);
    match query {
        Some(value) => {
            target.push('?');
            target.append(value);
            assert(target@ =~= with_query(suffix, Some(value@)));
        },
        None => {},
    }
    Route::Forward(target)
}

/// What is done with a request.
#[derive(Debug)]
pub enum Rewrite {
    /// Serve it as it is, and keep the answer as it is.
    Pass,
    /// Answer `302 Found` with this location.
    Redirect(String),
    /// Answer `404 Not Found`.
    NotFound,
    /// Answer `400 Bad Request`.
    BadRequest,
    /// Serve it under this URI, and relocate the answer with [`relocate`].
    Forward(String),
}

/// What is done with a request that takes this route, where `uri` is the URI
/// made for the path and query that it is forwarded to.
pub open spec fn rewritten(route: MountRoute, uri: Option<Seq<char>>, rewrite: Rewrite) -> bool {
    match route {
        MountRoute::Pass => rewrite is Pass,
        MountRoute::Redirect(location) => rewrite matches Rewrite::Redirect(to) && to@ == location,
        MountRoute::NotFound => rewrite is NotFound,
        MountRoute::Forward(_) => match uri {
            Some(target) => rewrite matches Rewrite::Forward(to) && to@ == target,
            None => rewrite is BadRequest,
        },
    }
}

/// Whether `result` is what is done with a request: the base path is stripped
/// from it, and the URI keeps its scheme and authority.
pub open spec fn is_rewrite(
    base: Seq<char>,
    scheme: Option<Seq<char>>,
    authority: Option<Seq<char>>,
    path: Seq<char>,
    query: Option<Seq<char>>,
    result: Rewrite,
) -> bool {
    let route = mount_route(base, path, query);
    let uri = match route {
        MountRoute::Forward(target) => outside::uri_text(scheme, authority, target),
        _ => None,
    };
    rewritten(route, uri, result)
}

/// The base path is stripped from a request ahead of routing. The URI keeps its
/// scheme and authority; one that cannot be made is a bad request.
pub fn rewrite(
    base: &str,
    scheme: Option<&str>,
    authority: Option<&str>,
    path: &str,
    query: Option<&str>,
) -> (result: Rewrite)
    ensures
        is_rewrite(
            base@,
            outside::optional_view(scheme),
            outside::optional_view(authority),
            path@,
            outside::optional_view(query),
            result,
        ),
{
    match route(base, path, query) {
        Route::Pass => Rewrite::Pass,
        Route::Redirect(location) => Rewrite::Redirect(location),
        Route::NotFound => Rewrite::NotFound,
        Route::Forward(target) => match outside::assemble_uri(scheme, authority, target.as_str()) {
            Some(uri) => Rewrite::Forward(uri),
            None => Rewrite::BadRequest,
        },
    }
}

/// Whether a location is a path from the root of the application: an absolute
/// URL, a network path and a relative path are not.
pub open spec fn is_rooted(location: Seq<char>) -> bool {
    location.len() > 0 && location[0] == '/' && !(location.len() > 1 && location[1] == '/')
}

/// The location of an answer below the base path, or nothing where the answer
/// keeps its location: where it is not a rooted path, or the two together
/// cannot be a header value.
pub open spec fn relocated(base: Seq<char>, location: Seq<u8>) -> Option<Seq<char>> {
    let text = Seq::new(location.len(), |i: int| location[i] as char);
    if outside::is_header_text(location) && is_rooted(text) && outside::is_header_value(
        base + text,
    ) {
        Some(base + text)
    } else {
        None
    }
}

/// Executable [`relocated`]; `location` holds the bytes of the header.
pub fn relocate(base: &str, location: &[u8]) -> (result: Option<String>)
    ensures
        match result {
            Some(text) => relocated(base@, location@) == Some(text@),
            None => relocated(base@, location@) is None,
        },
{
    match outside::header_text(location) {
        Some(path) => {
            let chars: Vec<char> = text::chars_of(path.as_str());
            if chars.len() > 0 && chars[0] == '/' && !(chars.len() > 1 && chars[1] == '/') {
                let mut moved: String = base.to_owned();
                moved.append(path.as_str());
                if outside::can_be_header_value(moved.as_str()) {
                    return Some(moved);
                }
            }
            None
        },
        None => None,
    }
}

/// A path that the base is stripped from is the base, whatever its case, and
/// then the path that is served.
pub proof fn law_forwarded_path_is_below_the_base(base: Seq<char>, path: Seq<char>)
    requires
        mount_route(base, path, None) is Forward,
    ensures
        mount_route(base, path, None) matches MountRoute::Forward(target) && {
            &&& path =~= path.take(base.len() as int) + target
            &&& text::same_ignoring_case(path.take(base.len() as int), base)
            &&& target.len() > 1
            &&& target[0] == '/'
        },
{
    assert(path.subrange(0, base.len() as int) =~= path.take(base.len() as int));
    let suffix = path.skip(base.len() as int);
    if suffix.len() == 1 {
        assert(suffix =~= seq!['/']);
    }
}

/// A location that the application made for a path of its own leads back to
/// that path: below the base, it is stripped to what it was.
pub proof fn law_relocated_path_is_served_as_it_was(base: Seq<char>, location: Seq<char>)
    requires
        base.len() > 0,
        is_rooted(location),
        location.len() > 1,
        !is_health_probe(base + location),
    ensures
        mount_route(base, base + location, None) == MountRoute::Forward(location),
{
    let path = base + location;
    assert(path.subrange(0, base.len() as int) =~= base);
    text::lemma_same_ignoring_case_reflexive(base);
    assert(path.skip(base.len() as int) =~= location);
    assert(location != seq!['/']) by {
        assert(seq!['/'].len() == 1);
    }
}

/// The health probes are served at the root and below the base.
pub proof fn law_health_probes_are_served(base: Seq<char>, query: Option<Seq<char>>)
    requires
        base.len() > 0,
    ensures
        mount_route(base, "/health/live"@, query) is Pass,
        mount_route(base, "/health/ready"@, query) is Pass,
        mount_route(base, base + "/health/live"@, None) == MountRoute::Forward("/health/live"@),
        mount_route(base, base + "/health/ready"@, None) == MountRoute::Forward("/health/ready"@),
{
    text::lemma_same_ignoring_case_reflexive("/health/live"@);
    text::lemma_same_ignoring_case_reflexive("/health/ready"@);
    reveal_strlit("/health/live");
    reveal_strlit("/health/ready");
    assert(!is_health_probe(base + "/health/live"@)) by {
        if base.len() == 1 {
            assert((base + "/health/live"@)[1] == '/');
            assert(text::lower_char('/') != text::lower_char('h'));
        }
    }
    assert(!is_health_probe(base + "/health/ready"@));
    law_relocated_path_is_served_as_it_was(base, "/health/live"@);
    law_relocated_path_is_served_as_it_was(base, "/health/ready"@);
}

/// The query of a request takes no part in where it goes, and is kept behind
/// the path that it is forwarded to.
pub proof fn law_query_is_kept(base: Seq<char>, path: Seq<char>, query: Seq<char>)
    ensures
        match mount_route(base, path, None) {
            MountRoute::Forward(target) => mount_route(base, path, Some(query))
                == MountRoute::Forward(target + seq!['?'] + query),
            other => mount_route(base, path, Some(query)) == other,
        },
{
}

/// Without a base every request passes as it is.
pub proof fn law_nothing_is_stripped_without_a_base(path: Seq<char>, query: Option<Seq<char>>)
    ensures
        mount_route(Seq::empty(), path, query) is Pass,
{
}

/// Below a base, `head` being the base in any case: what follows it from a slash
/// on is served, the base alone or with a slash leads to the web client, and the
/// base as the start of a longer segment is not found.
pub proof fn law_base_is_stripped_in_any_case(
    base: Seq<char>,
    head: Seq<char>,
    rest: Seq<char>,
)
    requires
        base.len() > 0,
        text::same_ignoring_case(head, base),
        !is_health_probe(head + rest),
    ensures
        mount_route(base, head + rest, None) == if rest.len() > 1 && rest[0] == '/' {
            MountRoute::Forward(rest)
        } else if rest.len() == 0 || rest[0] == '/' {
            MountRoute::Redirect(base + "/web/"@)
        } else {
            MountRoute::NotFound
        },
{
    let path = head + rest;
    assert(path.subrange(0, base.len() as int) =~= head);
    assert(path.skip(base.len() as int) =~= rest);
    assert(seq!['/'].len() == 1 && seq!['/'][0] == '/');
    if rest.len() == 1 && rest[0] == '/' {
        assert(rest =~= seq!['/']);
    }
}

/// A request that does not begin with the base, in any case, is sent to the web
/// client below the base, unless it is a health probe.
pub proof fn law_requests_beside_the_base_go_to_the_web_client(
    base: Seq<char>,
    path: Seq<char>,
    query: Option<Seq<char>>,
)
    requires
        base.len() > 0,
        !is_health_probe(path),
        path.len() < base.len() || !text::same_ignoring_case(path.take(base.len() as int), base),
    ensures
        mount_route(base, path, query) == MountRoute::Redirect(base + "/web/"@),
{
    if path.len() >= base.len() {
        assert(path.subrange(0, base.len() as int) =~= path.take(base.len() as int));
    }
}

/// Slashes at the end of a base path, and a missing one at its start, make no
/// difference to its normal form; nothing else of it is changed.
pub proof fn law_normal_base_ignores_slashes(base: Seq<char>)
    requires
        !text::is_blank(base),
    ensures
        normal_base(base.push('/')) == normal_base(base),
        base[0] != '/' ==> normal_base(seq!['/'] + base) == normal_base(base),
        base[0] == '/' ==> normal_base(base).is_prefix_of(base),
        base[0] != '/' ==> normal_base(base).is_prefix_of(seq!['/'] + base),
        base[0] == '/' && base.last() != '/' ==> normal_base(base) == base,
        base[0] != '/' && base.last() != '/' ==> normal_base(base) == seq!['/'] + base,
{
    let rooted = seq!['/'] + base;
    let i = choose|i: int| 0 <= i < base.len() && !text::is_white_space(#[trigger] base[i]);
    assert(base.push('/')[i] == base[i]);
    assert(rooted[i + 1] == base[i]);
    assert(!text::is_blank(base.push('/')) && !text::is_blank(rooted));
    assert(base.push('/').drop_last() =~= base);
    assert((seq!['/'] + base.push('/')).drop_last() =~= rooted);
    text::lemma_trim_end_slashes(base);
    text::lemma_trim_end_slashes(rooted);
}

/// A location that is no path from the root, which is empty, relative, an
/// absolute URL or a network path, stays as it is; one that is moved is the base
/// and then what it was.
pub proof fn law_only_rooted_locations_are_moved(base: Seq<char>, location: Seq<u8>)
    ensures
        location.len() == 0 ==> relocated(base, location) is None,
        location.len() > 0 && location[0] != '/' as u8 ==> relocated(base, location) is None,
        location.len() > 1 && location[1] == '/' as u8 ==> relocated(base, location) is None,
        relocated(base, location) matches Some(moved) ==> {
            &&& moved.len() == base.len() + location.len()
            &&& base.is_prefix_of(moved)
            &&& forall|i: int|
                0 <= i < location.len() ==> moved[base.len() + i] == #[trigger] location[i] as char
        },
{
    let text = Seq::new(location.len(), |i: int| location[i] as char);
    if location.len() > 0 {
        assert(text[0] == location[0] as char);
    }
    if location.len() > 1 {
        assert(text[1] == location[1] as char);
    }
}

/// A request below the base is served under the URI with the scheme and the
/// authority that it came with and the path that is left; where there is no such
/// URI it is a bad request. Every other request is answered by its route alone.
pub proof fn law_forwarded_request_keeps_scheme_and_authority(
    base: Seq<char>,
    scheme: Option<Seq<char>>,
    authority: Option<Seq<char>>,
    path: Seq<char>,
    query: Option<Seq<char>>,
    result: Rewrite,
)
    requires
        is_rewrite(base, scheme, authority, path, query, result),
    ensures
        match mount_route(base, path, query) {
            MountRoute::Pass => result is Pass,
            MountRoute::Redirect(location) => result matches Rewrite::Redirect(to) && to@ == location,
            MountRoute::NotFound => result is NotFound,
            MountRoute::Forward(target) => match outside::uri_text(scheme, authority, target) {
                Some(uri) => result matches Rewrite::Forward(to) && to@ == uri,
                None => result is BadRequest,
            },
        },
{
}

/// No path but the two probes is one: a path is a probe just where it is
/// `/health/` and then `live` or `ready`, in any case.
pub proof fn law_only_two_paths_are_probes(path: Seq<char>)
    ensures
        is_health_probe(path) <==> path.len() >= 8 && text::same_ignoring_case(
            path.take(8),
            "/health/"@,
        ) && (text::same_ignoring_case(path.skip(8), "live"@) || text::same_ignoring_case(
            path.skip(8),
            "ready"@,
        )),
{
    reveal_strlit("/health/");
    reveal_strlit("live");
    reveal_strlit("ready");
    reveal_strlit("/health/live");
    reveal_strlit("/health/ready");
    assert("/health/live"@ =~= "/health/"@ + "live"@);
    assert("/health/ready"@ =~= "/health/"@ + "ready"@);
    if path.len() >= 8 {
        assert(path =~= path.take(8) + path.skip(8));
        lemma_same_in_parts(path.take(8), path.skip(8), "/health/"@, "live"@);
        lemma_same_in_parts(path.take(8), path.skip(8), "/health/"@, "ready"@);
    }
}

/// Texts are the same up to case just where their parts of the same length are.
proof fn lemma_same_in_parts(a: Seq<char>, b: Seq<char>, c: Seq<char>, d: Seq<char>)
    requires
        a.len() == c.len(),
    ensures
        text::same_ignoring_case(a + b, c + d) <==> text::same_ignoring_case(a, c)
            && text::same_ignoring_case(b, d),
{
    if text::same_ignoring_case(a + b, c + d) {
        assert forall|i: int| 0 <= i < a.len() implies text::lower_char(#[trigger] a[i])
            == text::lower_char(c[i]) by {
            assert((a + b)[i] == a[i] && (c + d)[i] == c[i]);
        }
        assert forall|i: int| 0 <= i < b.len() implies text::lower_char(#[trigger] b[i])
            == text::lower_char(d[i]) by {
            assert((a + b)[a.len() + i] == b[i] && (c + d)[c.len() + i] == d[i]);
        }
    }
}

/// A blank base path is none.
pub proof fn law_blank_base_is_none(base: Seq<char>)
    requires
        text::is_blank(base),
    ensures
        normal_base(base).len() == 0,
{
}

} // verus!
