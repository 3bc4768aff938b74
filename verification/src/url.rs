//! Addresses: the workspace URL and the warehouse of an HTTP path.

use crate::text;
use vstd::prelude::*;

verus! {

/// Whether `s` names its scheme.
pub open spec fn has_scheme(s: Seq<char>) -> bool {
    text::has_prefix(s, "http://"@) || text::has_prefix(s, "https://"@)
}

/// `s` under the scheme that it names, or else under `https`.
pub open spec fn under_scheme(s: Seq<char>) -> Seq<char> {
    if has_scheme(s) {
        s
    } else {
        "https://"@ + s
    }
}

/// The workspace URL that `input` stands for: without white space around it,
/// closing slashes and then closing `/default` parts, and with a scheme.
pub open spec fn base_url(input: Seq<char>) -> Seq<char> {
    under_scheme(
        text::without_tail(text::without_tail(text::trimmed(input), "/"@), "/default"@),
    )
}

/// Brings a host or workspace address into the form of a base URL.
pub fn normalize_base_url(input: &str) -> (r: String)
    ensures
        r@ == base_url(input@),
{
    let chars: Vec<char> = text::chars_of(input);
    let value: &[char] = text::trim_tail(
        text::trim_tail(text::trim(chars.as_slice()), "/"),
        "/default",
    );
    let mut out: String = String::new();
    if !text::starts_with(value, "http://") && !text::starts_with(value, "https://") {
        out.append("https://");
    }
    let rest: String = text::text_of(value);
    out.append(rest.as_str());
    proof {
        assert(Seq::<char>::empty() + value@ =~= value@);
        assert(Seq::<char>::empty() + "https://"@ + value@ =~= "https://"@ + value@);
    }
    out
}

/// What follows the scheme of a Databricks connection string.
pub open spec fn after_driver_scheme(input: Seq<char>) -> Option<Seq<char>> {
    match text::after_prefix(input, "jdbc:databricks://"@) {
        Some(rest) => Some(rest),
        None => text::after_prefix(input, "databricks://"@),
    }
}

/// The host of a Databricks connection string: what follows its scheme, up to
/// the first `;` or `/`, without closing `:443`.
pub open spec fn connection_host(input: Seq<char>) -> Option<Seq<char>> {
    match after_driver_scheme(input) {
        Some(rest) => {
            let host = text::without_tail(
                text::before(text::before(rest, ";"@), "/"@),
                ":443"@,
            );
            if host.len() == 0 {
                None
            } else {
                Some(host)
            }
        },
        None => None,
    }
}

/// The `https` URL of a connection string's host.
pub open spec fn connection_url(input: Seq<char>) -> Option<Seq<char>> {
    match connection_host(input) {
        Some(host) => Some("https://"@ + host),
        None => None,
    }
}

/// Reads the workspace URL out of a Databricks connection string.
pub fn base_url_from_connection_string(input: &str) -> (r: Option<String>)
    ensures
        match r {
            Some(url) => connection_url(input@) == Some(url@),
            None => connection_url(input@) is None,
        },
{
    let chars: Vec<char> = text::chars_of(input);
    let stripped: &[char] = match text::strip_prefix(chars.as_slice(), "jdbc:databricks://") {
        Some(rest) => rest,
        None => match text::strip_prefix(chars.as_slice(), "databricks://") {
            Some(rest) => rest,
            None => {
                return None;
            },
        },
    };
    let host: &[char] = text::trim_tail(
        text::cut_before(text::cut_before(stripped, ";"), "/"),
        ":443",
    );
    if host.len() == 0 {
        None
    } else {
        let mut url: String = String::new();
        url.append("https://");
        let name: String = text::text_of(host);
        url.append(name.as_str());
        assert(Seq::<char>::empty() + "https://"@ + host@ =~= "https://"@ + host@);
        Some(url)
    }
}

/// The part of `s` between the first copy of `mark` and the second, or the end.
pub open spec fn second_part(s: Seq<char>, mark: Seq<char>) -> Option<Seq<char>> {
    match text::sides(s, mark) {
        Some((_, rest)) => match text::sides(rest, mark) {
            Some((part, _)) => Some(part),
            None => Some(rest),
        },
        None => None,
    }
}

/// The warehouse that an HTTP path names: what follows `/warehouses/`, up to the
/// first `/`, `;` or `?`, without white space around it.
pub open spec fn warehouse_id(path: Seq<char>) -> Option<Seq<char>> {
    match second_part(path, "/warehouses/"@) {
        Some(part) => {
            let id = text::trimmed(text::before(part, "/;?"@));
            if id.len() == 0 {
                None
            } else {
                Some(id)
            }
        },
        None => None,
    }
}

/// Reads the warehouse id out of an HTTP path.
pub fn warehouse_id_from_http_path(path: &str) -> (r: Option<String>)
    ensures
        match r {
            Some(id) => warehouse_id(path@) == Some(id@),
            None => warehouse_id(path@) is None,
        },
{
    let chars: Vec<char> = text::chars_of(path);
    let rest: &[char] = match text::split_once(chars.as_slice(), "/warehouses/") {
        Some((_, rest)) => rest,
        None => {
            return None;
        },
    };
    let part: &[char] = match text::split_once(rest, "/warehouses/") {
        Some((part, _)) => part,
        None => rest,
    };
    let id: &[char] = text::trim(text::cut_before(part, "/;?"));
    if id.len() == 0 {
        None
    } else {
        Some(text::text_of(id))
    }
}

// --------------------------------------------------------------------- laws

/// A base URL names its scheme.
pub proof fn base_urls_name_their_scheme(input: Seq<char>)
    ensures
        has_scheme(base_url(input)),
{
    let s = text::without_tail(text::without_tail(text::trimmed(input), "/"@), "/default"@);
    assert(("https://"@ + s).take("https://"@.len() as int) =~= "https://"@);
}

/// The host of a connection string is not empty, holds neither `;` nor `/`, and
/// does not end in `:443`.
pub proof fn connection_hosts_are_bare(input: Seq<char>)
    ensures
        connection_host(input) matches Some(host) ==> {
            &&& host.len() > 0
            &&& !host.contains(';')
            &&& !host.contains('/')
            &&& host.len() >= 4 ==> host.skip(host.len() - 4) != ":443"@
        },
{
    if let Some(rest) = after_driver_scheme(input) {
        let outer = text::before(rest, ";"@);
        let inner = text::before(outer, "/"@);
        let host = text::without_tail(inner, ":443"@);
        reveal_strlit(";");
        reveal_strlit("/");
        reveal_strlit(":443");
        text::before_holds_no_stop(rest, ";"@);
        text::before_holds_no_stop(outer, "/"@);
        text::without_tail_has_none(inner, ":443"@);
        assert(";"@[0] == ';' && "/"@[0] == '/');
        assert(";"@.contains(';') && "/"@.contains('/'));
        assert forall|c: char| host.contains(c) implies inner.contains(c) by {
            let i = host.index_of(c);
            assert(inner[i] == c);
        }
        if host.contains('/') {
            assert(inner.contains('/'));
        }
        if host.contains(';') {
            assert(inner.contains(';'));
            assert(outer.contains(';'));
        }
    }
}

/// The id of a warehouse is not empty, has no white space around it, and holds
/// none of `/`, `;` and `?`.
pub proof fn warehouse_ids_are_bare(path: Seq<char>)
    ensures
        warehouse_id(path) matches Some(id) ==> {
            &&& id.len() > 0
            &&& text::trimmed(id) == id
            &&& !id.contains('/')
            &&& !id.contains(';')
            &&& !id.contains('?')
        },
{
    if let Some(part) = second_part(path, "/warehouses/"@) {
        let cut = text::before(part, "/;?"@);
        reveal_strlit("/;?");
        text::before_holds_no_stop(part, "/;?"@);
        text::trimmed_twice(cut);
        text::trimmed_is_part(cut);
        let stops = "/;?"@;
        assert(stops[0] == '/' && stops[1] == ';' && stops[2] == '?');
        assert(stops.contains('/') && stops.contains(';') && stops.contains('?'));
    }
}

/// A text names its scheme exactly where it begins with `http://` or `https://`.
pub proof fn schemes_come_first(s: Seq<char>)
    ensures
        has_scheme(s) <==> "http://"@.is_prefix_of(s) || "https://"@.is_prefix_of(s),
{
    assert("http://"@.is_prefix_of(s) <==> "http://"@.len() <= s.len() && s.take(
        "http://"@.len() as int,
    ) == "http://"@);
    assert("https://"@.is_prefix_of(s) <==> "https://"@.len() <= s.len() && s.take(
        "https://"@.len() as int,
    ) == "https://"@);
}

/// Whether `s` ends in `tail`.
pub open spec fn ends_in(s: Seq<char>, tail: Seq<char>) -> bool {
    exists|front: Seq<char>| s == #[trigger] (front + tail)
}

/// An address that has no white space around it and ends neither in a slash nor in
/// `/default` is its own base URL where it names its scheme, and stands behind
/// `https://` where it does not.
pub proof fn plain_addresses_stay(s: Seq<char>)
    requires
        s.len() > 0 ==> !text::is_white(s[0]) && !text::is_white(s.last()),
        !ends_in(s, "/"@),
        !ends_in(s, "/default"@),
    ensures
        "http://"@.is_prefix_of(s) || "https://"@.is_prefix_of(s) ==> base_url(s) == s,
        !("http://"@.is_prefix_of(s) || "https://"@.is_prefix_of(s)) ==> base_url(s) == "https://"@
            + s,
{
    lemma_plain_stays(s);
    schemes_come_first(s);
    lemma_tails();
    text::tails_go_one_by_one(s, "/"@);
    text::tails_go_one_by_one(s, "/default"@);
}

/// A text without white space at its ends is its own trimmed text.
proof fn lemma_plain_stays(s: Seq<char>)
    requires
        s.len() > 0 ==> !text::is_white(s[0]) && !text::is_white(s.last()),
    ensures
        text::trimmed(s) == s,
{
    let none = Seq::<char>::empty();
    assert(none + s + none =~= s);
    text::trimming_drops_white_space_alone(none, s, none);
}

/// What the tails of addresses are made of.
proof fn lemma_tails()
    ensures
        "/"@ == seq!['/'],
        "/default"@.len() == 8,
        "/default"@[0] == '/',
        "/default"@[7] == 't',
        !text::is_white('/'),
        !text::is_white('t'),
{
    reveal_strlit("/");
    reveal_strlit("/default");
    assert("/"@ =~= seq!['/']);
}

/// White space around an address, closing slashes, and a closing `/default` make no
/// difference to its base URL.
pub proof fn address_tails_make_no_difference(
    front: Seq<char>,
    s: Seq<char>,
    back: Seq<char>,
)
    requires
        forall|i: int| 0 <= i < front.len() ==> text::is_white(#[trigger] front[i]),
        forall|i: int| 0 <= i < back.len() ==> text::is_white(#[trigger] back[i]),
        s.len() > 0,
        !text::is_white(s[0]),
        !text::is_white(s.last()),
    ensures
        base_url(front + s + back) == base_url(s),
        base_url(s + "/"@) == base_url(s),
        !ends_in(s, "/"@) ==> base_url(s + "/default"@) == base_url(s),
{
    lemma_tails();
    lemma_plain_stays(s);
    text::trimming_drops_white_space_alone(front, s, back);
    let slashed = s + "/"@;
    assert(slashed.last() == '/' && slashed[0] == s[0]);
    lemma_plain_stays(slashed);
    text::tails_go_one_by_one(s, "/"@);
    let named = s + "/default"@;
    assert(named.last() == 't' && named[0] == s[0]);
    lemma_plain_stays(named);
    text::tails_go_one_by_one(named, "/"@);
    text::tails_go_one_by_one(s, "/default"@);
    if ends_in(named, "/"@) {
        let other = choose|other: Seq<char>| named == #[trigger] (other + "/"@);
        assert((other + "/"@).last() == '/');
    }
}

/// The URL of a connection string is that of the host behind its scheme, up to a
/// closing `:443`, a path or parameters; and only a Databricks connection string with
/// a host has one.
pub proof fn connection_strings_name_their_host(
    scheme: Seq<char>,
    host: Seq<char>,
    port: Seq<char>,
    rest: Seq<char>,
)
    requires
        scheme == "jdbc:databricks://"@ || scheme == "databricks://"@,
        forall|i: int| 0 <= i < host.len() ==> #[trigger] host[i] != ';' && host[i] != '/',
        !ends_in(host, ":443"@),
        port.len() == 0 || port == ":443"@,
        rest.len() == 0 || rest[0] == ';' || rest[0] == '/',
    ensures
        host.len() > 0 ==> connection_url(scheme + host + port + rest) == Some("https://"@ + host),
        host.len() == 0 ==> connection_url(scheme + host + port + rest) is None,
{
    let input = scheme + host + port + rest;
    let behind = host + port + rest;
    assert(input =~= scheme + behind);
    lemma_driver_schemes(scheme, behind);
    reveal_strlit(";");
    reveal_strlit("/");
    reveal_strlit(":443");
    assert(";"@ =~= seq![';'] && "/"@ =~= seq!['/']);
    assert(":443"@ =~= seq![':', '4', '4', '3']);
    let named = host + port;
    assert forall|i: int| 0 <= i < named.len() implies #[trigger] named[i] != ';' && named[i]
        != '/' by {
        if i < host.len() {
            assert(named[i] == host[i]);
        }
    }
    assert(behind =~= named + rest);
    lemma_host_is_cut(named, rest);
    text::tails_go_one_by_one(host, ":443"@);
    if port.len() == 0 {
        assert(named =~= host);
    }
}

/// What follows the scheme of a connection string is what stands behind it.
proof fn lemma_driver_schemes(scheme: Seq<char>, behind: Seq<char>)
    requires
        scheme == "jdbc:databricks://"@ || scheme == "databricks://"@,
    ensures
        after_driver_scheme(scheme + behind) == Some(behind),
{
    text::prefixes_come_first(scheme + behind, scheme, behind);
    if scheme != "jdbc:databricks://"@ {
        reveal_strlit("jdbc:databricks://");
        reveal_strlit("databricks://");
        let long = "jdbc:databricks://"@;
        let s = scheme + behind;
        assert(long[0] == 'j' && scheme[0] == 'd');
        if long.len() <= s.len() && s.take(long.len() as int) == long {
            assert(s.take(long.len() as int)[0] == s[0]);
        }
    }
}

/// A host is what stands before a path or parameters.
proof fn lemma_host_is_cut(named: Seq<char>, rest: Seq<char>)
    requires
        forall|i: int| 0 <= i < named.len() ==> #[trigger] named[i] != ';' && named[i] != '/',
        rest.len() == 0 || rest[0] == ';' || rest[0] == '/',
    ensures
        text::before(text::before(named + rest, ";"@), "/"@) == named,
{
    reveal_strlit(";");
    reveal_strlit("/");
    let semi = ";"@;
    let slash = "/"@;
    assert(semi =~= seq![';'] && slash =~= seq!['/']);
    assert(semi[0] == ';' && slash[0] == '/');
    assert(semi.contains(';') && slash.contains('/'));
    if rest.len() == 0 {
        assert(named + rest =~= named);
        text::cuts_come_before_the_first_stop(named, ';', rest, semi);
        text::cuts_come_before_the_first_stop(named, '/', rest, slash);
    } else if rest[0] == ';' {
        assert(named + rest =~= named + seq![';'] + rest.skip(1));
        text::cuts_come_before_the_first_stop(named, ';', rest.skip(1), semi);
        text::cuts_come_before_the_first_stop(named, '/', rest, slash);
    } else {
        text::lemma_before_is_prefix(rest, semi);
        let kept = text::before(rest, semi);
        text::lemma_before_behind(named, rest, semi);
        assert(kept.len() > 0 && kept[0] == '/');
        assert(named + kept =~= named + seq!['/'] + kept.skip(1));
        text::cuts_come_before_the_first_stop(named, '/', kept.skip(1), slash);
    }
}

/// A text that is no Databricks connection string has no URL.
pub proof fn other_strings_name_no_host(input: Seq<char>)
    requires
        !"jdbc:databricks://"@.is_prefix_of(input),
        !"databricks://"@.is_prefix_of(input),
    ensures
        connection_url(input) is None,
{
    if text::has_prefix(input, "jdbc:databricks://"@) {
        assert("jdbc:databricks://"@.is_prefix_of(input));
    }
    if text::has_prefix(input, "databricks://"@) {
        assert("databricks://"@.is_prefix_of(input));
    }
}

/// The warehouse of an HTTP path is what stands behind the first `/warehouses/`, up to
/// a slash, a semicolon or a question mark, without white space around it.
pub proof fn paths_name_their_warehouse(
    a: Seq<char>,
    front: Seq<char>,
    id: Seq<char>,
    back: Seq<char>,
    rest: Seq<char>,
)
    requires
        forall|j: int|
            0 <= j < a.len() ==> !#[trigger] text::occurs_at(
                a + "/warehouses/"@ + (front + id + back + rest),
                "/warehouses/"@,
                j,
            ),
        forall|i: int| 0 <= i < front.len() ==> text::is_white(#[trigger] front[i]),
        forall|i: int| 0 <= i < back.len() ==> text::is_white(#[trigger] back[i]),
        id.len() > 0 ==> !text::is_white(id[0]) && !text::is_white(id.last()),
        forall|i: int|
            0 <= i < id.len() ==> #[trigger] id[i] != '/' && id[i] != ';' && id[i] != '?',
        rest.len() == 0 || rest[0] == '/' || rest[0] == ';' || rest[0] == '?',
    ensures
        id.len() > 0 ==> warehouse_id(a + "/warehouses/"@ + (front + id + back + rest)) == Some(id),
        id.len() == 0 ==> warehouse_id(a + "/warehouses/"@ + (front + id + back + rest)) is None,
{
    let mark = "/warehouses/"@;
    let padded = front + id + back;
    let behind = padded + rest;
    text::marks_divide_at_the_first(a, mark, behind);
    assert forall|i: int| 0 <= i < padded.len() implies !"/;?"@.contains(#[trigger] padded[i]) by {
        lemma_stops(padded[i]);
        if i < front.len() {
            assert(padded[i] == front[i]);
            assert(text::is_white(front[i]));
        } else if i < front.len() + id.len() {
            assert(padded[i] == id[i - front.len()]);
        } else {
            assert(padded[i] == back[i - front.len() - id.len()]);
            assert(text::is_white(back[i - front.len() - id.len()]));
        }
    }
    lemma_part_is_cut(padded, rest);
    text::trimming_drops_white_space_alone(front, id, back);
}

/// What ends the id of a warehouse.
proof fn lemma_stops(c: char)
    ensures
        "/;?"@.contains(c) <==> c == '/' || c == ';' || c == '?',
{
    reveal_strlit("/;?");
    let stops = "/;?"@;
    assert(stops.len() == 3 && stops[0] == '/' && stops[1] == ';' && stops[2] == '?');
    if stops.contains(c) {
        let i = stops.index_of(c);
        assert(stops[i] == c);
    }
}

/// What stands before the next mark begins as the text does, up to the first stop.
proof fn lemma_part_is_cut(padded: Seq<char>, rest: Seq<char>)
    requires
        forall|i: int| 0 <= i < padded.len() ==> !"/;?"@.contains(#[trigger] padded[i]),
        rest.len() == 0 || rest[0] == '/' || rest[0] == ';' || rest[0] == '?',
    ensures
        ({
            let behind = padded + rest;
            let part = match text::sides(behind, "/warehouses/"@) {
                Some((part, _)) => part,
                None => behind,
            };
            text::before(part, "/;?"@) == padded
        }),
{
    let mark = "/warehouses/"@;
    let stops = "/;?"@;
    reveal_strlit("/warehouses/");
    assert(mark.len() == 12 && mark[0] == '/');
    let behind = padded + rest;
    let part = match text::sides(behind, mark) {
        Some((part, _)) => part,
        None => behind,
    };
    text::lemma_found(behind, mark);
    if let Some(i) = text::found(behind, mark) {
        assert(behind.subrange(i, i + mark.len())[0] == behind[i]);
        if i < padded.len() {
            assert(behind[i] == padded[i]);
            lemma_stops('/');
        }
        assert(part == behind.take(i));
    }
    assert(part.len() >= padded.len());
    let more = part.skip(padded.len() as int);
    assert(part =~= padded + more);
    if more.len() > 0 {
        assert(more[0] == rest[0]);
        lemma_stops(more[0]);
        assert(part =~= padded + seq![more[0]] + more.skip(1));
        text::cuts_come_before_the_first_stop(padded, more[0], more.skip(1), stops);
    } else {
        assert(part =~= padded);
        text::cuts_come_before_the_first_stop(padded, '/', more, stops);
    }
}

/// A path without `/warehouses/` names no warehouse.
pub proof fn other_paths_name_no_warehouse(path: Seq<char>)
    requires
        !text::occurs(path, "/warehouses/"@),
    ensures
        warehouse_id(path) is None,
{
}

} // verus!
