//! Settings of a request, wherever in it they stand.

use crate::json::{Json, JsonView};
use crate::json;
use crate::text;
use vstd::prelude::*;

verus! {

/// The list of the one item that there is, or of none.
pub open spec fn at_most_one(item: Option<JsonView>) -> Seq<JsonView> {
    match item {
        Some(v) => seq![v],
        None => Seq::empty(),
    }
}

/// The member `key` of the member `outer`.
pub open spec fn inner_member(request: JsonView, outer: Seq<char>, key: Seq<char>) -> Option<
    JsonView,
> {
    match request.member(outer) {
        Some(v) => v.member(key),
        None => None,
    }
}

/// The places in which a request may hold a setting, first place first.
pub open spec fn containers(request: JsonView) -> Seq<JsonView> {
    seq![request] + at_most_one(request.member("profile"@)) + at_most_one(
        request.member("options"@),
    ) + at_most_one(request.member("auth"@)) + at_most_one(request.member("secrets"@))
        + at_most_one(inner_member(request, "profile"@, "options"@)) + at_most_one(
        inner_member(request, "profile"@, "auth"@),
    ) + at_most_one(inner_member(request, "profile"@, "secrets"@))
}

/// What each of a list of documents says.
pub open spec fn said(s: Seq<&Json>) -> Seq<JsonView> {
    Seq::new(s.len(), |i: int| s[i]@)
}

/// Adds a container where it is there.
fn push_container<'a>(out: &mut Vec<&'a Json>, item: Option<&'a Json>)
    ensures
        said(final(out)@) == said(old(out)@) + at_most_one(
            match item {
                Some(v) => Some(v@),
                None => None,
            },
        ),
{
    match item {
        Some(v) => {
            out.push(v);
            assert(said(out@) =~= said(old(out)@) + seq![v@]);
        },
        None => {
            assert(said(out@) =~= said(old(out)@) + Seq::<JsonView>::empty());
        },
    }
}

/// The member `key` of the member `outer`.
fn inner<'a>(request: &'a Json, outer: &str, key: &str) -> (r: Option<&'a Json>)
    ensures
        match r {
            Some(v) => inner_member(request@, outer@, key@) == Some(v@),
            None => inner_member(request@, outer@, key@) is None,
        },
{
    match request.get(outer) {
        Some(v) => v.get(key),
        None => None,
    }
}

/// Lists the places in which a request may hold a setting.
pub fn request_containers<'a>(request: &'a Json) -> (r: Vec<&'a Json>)
    ensures
        said(r@) == containers(request@),
{
    let mut out: Vec<&'a Json> = Vec::new();
    out.push(request);
    assert(said(out@) =~= seq![request@]);
    push_container(&mut out, request.get("profile"));
    push_container(&mut out, request.get("options"));
    push_container(&mut out, request.get("auth"));
    push_container(&mut out, request.get("secrets"));
    push_container(&mut out, inner(request, "profile", "options"));
    push_container(&mut out, inner(request, "profile", "auth"));
    push_container(&mut out, inner(request, "profile", "secrets"));
    out
}

/// The text of a setting's value. Only strings, numbers and truth values have
/// one.
pub open spec fn scalar_text(v: JsonView) -> Seq<char> {
    match v {
        JsonView::Text(s) => s,
        JsonView::Number(n) => n,
        JsonView::Bool(b) => if b {
            "true"@
        } else {
            "false"@
        },
        _ => Seq::empty(),
    }
}

/// The text of a setting's value.
fn scalar(v: &Json) -> (r: String)
    ensures
        r@ == scalar_text(v@),
{
    match v {
        Json::Text(s) => s.clone(),
        Json::Number(n) => json::number_display(n),
        Json::Bool(b) => {
            let mut out: String = String::new();
            out.append(
                if *b {
                    "true"
                } else {
                    "false"
                },
            );
            assert(out@ =~= scalar_text(v@));
            out
        },
        _ => String::new(),
    }
}

/// The setting `field` of a container: its text without white space around it,
/// where that is not empty.
pub open spec fn setting(container: JsonView, field: Seq<char>) -> Option<Seq<char>> {
    match container.member(field) {
        Some(v) => if text::trimmed(scalar_text(v)).len() > 0 {
            Some(text::trimmed(scalar_text(v)))
        } else {
            None
        },
        None => None,
    }
}

/// The first of the settings `fields` that a container has.
pub open spec fn first_setting(container: JsonView, fields: Seq<Seq<char>>) -> Option<Seq<char>>
    decreases fields.len(),
{
    if fields.len() == 0 {
        None
    } else if setting(container, fields[0]) is Some {
        setting(container, fields[0])
    } else {
        first_setting(container, fields.skip(1))
    }
}

/// The first of the settings `fields` in the first of `places` that has one.
pub open spec fn first_placed(places: Seq<JsonView>, fields: Seq<Seq<char>>) -> Option<Seq<char>>
    decreases places.len(),
{
    if places.len() == 0 {
        None
    } else if first_setting(places[0], fields) is Some {
        first_setting(places[0], fields)
    } else {
        first_placed(places.skip(1), fields)
    }
}

/// The setting that a request has under one of the names `fields`.
pub open spec fn option_text(request: JsonView, fields: Seq<Seq<char>>) -> Option<Seq<char>> {
    first_placed(containers(request), fields)
}

/// Looks for the settings `fields` in one container.
fn setting_in(container: &Json, fields: &[&str]) -> (r: Option<String>)
    ensures
        match r {
            Some(s) => first_setting(container@, json::words(fields@)) == Some(s@),
            None => first_setting(container@, json::words(fields@)) is None,
        },
{
    let ghost names = json::words(fields@);
    let mut i: usize = 0;
    assert(names.skip(0) =~= names);
    while i < fields.len()
        invariant
            i <= fields@.len(),
            names == json::words(fields@),
            first_setting(container@, names) == first_setting(container@, names.skip(i as int)),
        decreases fields@.len() - i,
    {
        assert(names.skip(i as int).skip(1) =~= names.skip(i + 1));
        match container.get(fields[i]) {
            Some(v) => {
                let full: String = scalar(v);
                let chars: Vec<char> = text::chars_of(full.as_str());
                let value: &[char] = text::trim(chars.as_slice());
                if value.len() > 0 {
                    return Some(text::text_of(value));
                }
            },
            None => {},
        }
        i += 1;
    }
    None
}

/// Looks a setting up under one of the names `fields`.
pub fn option_string(request: &Json, fields: &[&str]) -> (r: Option<String>)
    ensures
        match r {
            Some(s) => option_text(request@, json::words(fields@)) == Some(s@),
            None => option_text(request@, json::words(fields@)) is None,
        },
{
    let places: Vec<&Json> = request_containers(request);
    let ghost all = containers(request@);
    let ghost names = json::words(fields@);
    let mut i: usize = 0;
    assert(all.skip(0) =~= all);
    while i < places.len()
        invariant
            i <= places@.len(),
            all == containers(request@),
            said(places@) == all,
            names == json::words(fields@),
            first_placed(all, names) == first_placed(all.skip(i as int), names),
        decreases places@.len() - i,
    {
        proof {
            assert(all[i as int] == places@[i as int]@);
            assert(all.skip(i as int).skip(1) =~= all.skip(i + 1));
        }
        match setting_in(places[i], fields) {
            Some(s) => {
                return Some(s);
            },
            None => {},
        }
        i += 1;
    }
    None
}

/// The first place that has one of the settings decides, whatever the places
/// behind it hold.
pub proof fn the_first_place_wins(request: JsonView, fields: Seq<Seq<char>>, i: int)
    requires
        0 <= i < containers(request).len(),
        first_setting(containers(request)[i], fields) is Some,
        forall|j: int|
            0 <= j < i ==> first_setting(#[trigger] containers(request)[j], fields) is None,
    ensures
        option_text(request, fields) == first_setting(containers(request)[i], fields),
{
    lemma_first_placed(containers(request), fields, i);
}

/// `the_first_place_wins`, over any list of places.
proof fn lemma_first_placed(places: Seq<JsonView>, fields: Seq<Seq<char>>, i: int)
    requires
        0 <= i < places.len(),
        first_setting(places[i], fields) is Some,
        forall|j: int| 0 <= j < i ==> first_setting(#[trigger] places[j], fields) is None,
    ensures
        first_placed(places, fields) == first_setting(places[i], fields),
    decreases places.len(),
{
    if i > 0 {
        assert(first_setting(places[0], fields) is None);
        assert forall|j: int| 0 <= j < i - 1 implies first_setting(
            #[trigger] places.skip(1)[j],
            fields,
        ) is None by {
            assert(places.skip(1)[j] == places[j + 1]);
        }
        lemma_first_placed(places.skip(1), fields, i - 1);
    }
}

/// A setting at the top level of a request wins over every other place.
pub proof fn top_level_setting_wins(request: JsonView, fields: Seq<Seq<char>>)
    requires
        first_setting(request, fields) is Some,
    ensures
        option_text(request, fields) == first_setting(request, fields),
{
    assert(containers(request)[0] == request);
}

/// A setting is never empty and has no white space around it.
pub proof fn settings_are_trimmed(request: JsonView, fields: Seq<Seq<char>>)
    ensures
        option_text(request, fields) matches Some(s) ==> s.len() > 0 && text::trimmed(s) == s,
{
    placed_are_trimmed(containers(request), fields);
}

/// `settings_are_trimmed`, over any list of places.
proof fn placed_are_trimmed(places: Seq<JsonView>, fields: Seq<Seq<char>>)
    ensures
        first_placed(places, fields) matches Some(s) ==> s.len() > 0 && text::trimmed(s) == s,
    decreases places.len(),
{
    if places.len() > 0 {
        fields_are_trimmed(places[0], fields);
        placed_are_trimmed(places.skip(1), fields);
    }
}

/// `settings_are_trimmed`, over one place.
proof fn fields_are_trimmed(place: JsonView, fields: Seq<Seq<char>>)
    ensures
        first_setting(place, fields) matches Some(s) ==> s.len() > 0 && text::trimmed(s) == s,
    decreases fields.len(),
{
    if fields.len() > 0 {
        match place.member(fields[0]) {
            Some(v) => text::trimmed_twice(scalar_text(v)),
            None => {},
        }
        fields_are_trimmed(place, fields.skip(1));
    }
}

/// The text of a setting: that of a string, the notation of a number, or the word for
/// a truth value, without white space around it; a blank one, another value, and a
/// member that is not there are no setting.
pub proof fn settings_are_scalars(
    container: JsonView,
    field: Seq<char>,
    s: Seq<char>,
)
    ensures
        ({
            let value = container.member(field);
            let plain = value == Some(JsonView::Text(s)) || value == Some(JsonView::Number(s));
            &&& plain && text::trimmed(s).len() > 0 ==> setting(container, field) == Some(
                text::trimmed(s),
            )
            &&& plain && text::trimmed(s).len() == 0 ==> setting(container, field) is None
            &&& value == Some(JsonView::Bool(true)) ==> setting(container, field) == Some("true"@)
            &&& value == Some(JsonView::Bool(false)) ==> setting(container, field) == Some(
                "false"@,
            )
            &&& value is None ==> setting(container, field) is None
            &&& (value matches Some(v) ==> v is Null || v is Array || v is Object ==> setting(
                container,
                field,
            ) is None)
        }),
{
    reveal_strlit("true");
    reveal_strlit("false");
    let none = Seq::<char>::empty();
    assert("true"@.len() == 4 && "true"@[0] == 't' && "true"@.last() == 'e');
    assert("false"@.len() == 5 && "false"@[0] == 'f' && "false"@.last() == 'e');
    assert(none + "true"@ + none =~= "true"@);
    assert(none + "false"@ + none =~= "false"@);
    assert(none + none + none =~= none);
    text::trimming_drops_white_space_alone(none, "true"@, none);
    text::trimming_drops_white_space_alone(none, "false"@, none);
    text::trimming_drops_white_space_alone(none, none, none);
}

/// In one place the names are tried in their order: the first that is set gives the
/// setting, and where none is set, there is none.
pub proof fn names_are_tried_in_order(container: JsonView, fields: Seq<Seq<char>>, i: int)
    requires
        0 <= i <= fields.len(),
        forall|j: int| 0 <= j < i ==> setting(container, #[trigger] fields[j]) is None,
    ensures
        i == fields.len() ==> first_setting(container, fields) is None,
        i < fields.len() && setting(container, fields[i]) is Some ==> first_setting(
            container,
            fields,
        ) == setting(container, fields[i]),
    decreases fields.len(),
{
    if i > 0 {
        assert(setting(container, fields[0]) is None);
        let rest = fields.skip(1);
        assert forall|j: int| 0 <= j < i - 1 implies setting(container, #[trigger] rest[j]) is None by {
            assert(rest[j] == fields[j + 1]);
        }
        names_are_tried_in_order(container, rest, i - 1);
    }
}

/// The place that comes `k`th: the request, its profile, options, auth and secrets,
/// and then the options, auth and secrets of its profile.
pub open spec fn place(request: JsonView, k: int) -> Option<JsonView> {
    if k == 0 {
        Some(request)
    } else if k == 1 {
        request.at(seq!["profile"@])
    } else if k == 2 {
        request.at(seq!["options"@])
    } else if k == 3 {
        request.at(seq!["auth"@])
    } else if k == 4 {
        request.at(seq!["secrets"@])
    } else if k == 5 {
        request.at(seq!["profile"@, "options"@])
    } else if k == 6 {
        request.at(seq!["profile"@, "auth"@])
    } else {
        request.at(seq!["profile"@, "secrets"@])
    }
}

/// A setting is looked for in the request, its profile, its options, its auth, its
/// secrets, and then in the options, auth and secrets of its profile: the first of
/// these places that has it decides, and where none has it, there is none.
pub proof fn places_are_tried_in_order(request: JsonView, fields: Seq<Seq<char>>, k: int)
    requires
        0 <= k <= 8,
        forall|j: int|
            0 <= j < k ==> (#[trigger] place(request, j) matches Some(p) ==> first_setting(
                p,
                fields,
            ) is None),
    ensures
        k == 8 ==> option_text(request, fields) is None,
        k < 8 ==> (place(request, k) matches Some(p) ==> first_setting(p, fields) is Some
            ==> option_text(request, fields) == first_setting(p, fields)),
{
    lemma_paths(request);
    let a = seq![request];
    let b = a + at_most_one(request.member("profile"@));
    let c = b + at_most_one(request.member("options"@));
    let d = c + at_most_one(request.member("auth"@));
    let e = d + at_most_one(request.member("secrets"@));
    let f = e + at_most_one(inner_member(request, "profile"@, "options"@));
    let g = f + at_most_one(inner_member(request, "profile"@, "auth"@));
    lemma_one_place(request, fields);
    lemma_more_places(a, request.member("profile"@), fields);
    lemma_more_places(b, request.member("options"@), fields);
    lemma_more_places(c, request.member("auth"@), fields);
    lemma_more_places(d, request.member("secrets"@), fields);
    lemma_more_places(e, inner_member(request, "profile"@, "options"@), fields);
    lemma_more_places(f, inner_member(request, "profile"@, "auth"@), fields);
    lemma_more_places(g, inner_member(request, "profile"@, "secrets"@), fields);
    assert(0 < k ==> place(request, 0) == Some(request));
    assert(1 < k ==> place(request, 1) == request.member("profile"@));
    assert(2 < k ==> place(request, 2) == request.member("options"@));
    assert(3 < k ==> place(request, 3) == request.member("auth"@));
    assert(4 < k ==> place(request, 4) == request.member("secrets"@));
    assert(5 < k ==> place(request, 5) == inner_member(request, "profile"@, "options"@));
    assert(6 < k ==> place(request, 6) == inner_member(request, "profile"@, "auth"@));
    assert(7 < k ==> place(request, 7) == inner_member(request, "profile"@, "secrets"@));
}

/// The places are reached through the members of the request.
proof fn lemma_paths(request: JsonView)
    ensures
        request.at(seq!["profile"@]) == request.member("profile"@),
        request.at(seq!["options"@]) == request.member("options"@),
        request.at(seq!["auth"@]) == request.member("auth"@),
        request.at(seq!["secrets"@]) == request.member("secrets"@),
        request.at(seq!["profile"@, "options"@]) == inner_member(
            request,
            "profile"@,
            "options"@,
        ),
        request.at(seq!["profile"@, "auth"@]) == inner_member(request, "profile"@, "auth"@),
        request.at(seq!["profile"@, "secrets"@]) == inner_member(
            request,
            "profile"@,
            "secrets"@,
        ),
{
    lemma_path(request, "profile"@, "options"@);
    lemma_path(request, "profile"@, "auth"@);
    lemma_path(request, "profile"@, "secrets"@);
    lemma_path(request, "options"@, "auth"@);
    lemma_path(request, "auth"@, "auth"@);
    lemma_path(request, "secrets"@, "auth"@);
}

/// Paths of one and of two members.
proof fn lemma_path(v: JsonView, outer: Seq<char>, key: Seq<char>)
    ensures
        v.at(seq![outer]) == v.member(outer),
        v.at(seq![outer, key]) == inner_member(v, outer, key),
{
    let none = Seq::<Seq<char>>::empty();
    assert(seq![outer] =~= seq![outer] + none);
    assert(seq![outer, key] =~= seq![outer] + seq![key]);
    assert(seq![key] =~= seq![key] + none);
    json::members_are_found_by_their_keys(v, Map::empty(), outer, none);
    json::members_are_found_by_their_keys(v, Map::empty(), outer, seq![key]);
    if let Some(inner) = v.member(outer) {
        json::members_are_found_by_their_keys(inner, Map::empty(), key, none);
        if let Some(last) = inner.member(key) {
            json::members_are_found_by_their_keys(last, Map::empty(), key, none);
        }
    }
}

/// One place is looked at alone.
proof fn lemma_one_place(v: JsonView, fields: Seq<Seq<char>>)
    ensures
        first_placed(seq![v], fields) == first_setting(v, fields),
{
    assert(seq![v].skip(1) =~= Seq::<JsonView>::empty());
    assert(first_placed(Seq::<JsonView>::empty(), fields) is None);
}

/// A place behind others counts where none of them has the setting.
proof fn lemma_more_places(places: Seq<JsonView>, item: Option<JsonView>, fields: Seq<Seq<char>>)
    ensures
        first_placed(places + at_most_one(item), fields) == if first_placed(places, fields) is Some {
            first_placed(places, fields)
        } else {
            match item {
                Some(v) => first_setting(v, fields),
                None => None,
            }
        },
    decreases places.len(),
{
    let all = places + at_most_one(item);
    match item {
        Some(v) => {
            if places.len() == 0 {
                assert(all =~= seq![v]);
                lemma_one_place(v, fields);
            } else {
                assert(all[0] == places[0]);
                assert(all.skip(1) =~= places.skip(1) + at_most_one(item));
                lemma_more_places(places.skip(1), item, fields);
            }
        },
        None => {
            assert(all =~= places);
        },
    }
}

} // verus!
