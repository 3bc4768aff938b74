//! The parameters of a JDBC connection string.

use crate::json;
use crate::text;
use vstd::hash_map::StringHashMap;
use vstd::prelude::*;

verus! {

/// The parameters of a connection string, by their names in lower case.
pub struct JdbcParams {
    values: StringHashMap<String>,
}

impl View for JdbcParams {
    type V = Map<Seq<char>, Seq<char>>;

    closed spec fn view(&self) -> Map<Seq<char>, Seq<char>> {
        self.values@.map_values(|s: String| s@)
    }
}

impl JdbcParams {
    /// No parameters.
    pub fn new() -> (r: JdbcParams)
        ensures
            r@ == Map::<Seq<char>, Seq<char>>::empty(),
    {
        let r: JdbcParams = JdbcParams { values: StringHashMap::new() };
        assert(r@ =~= Map::<Seq<char>, Seq<char>>::empty());
        r
    }

    /// Sets the parameter `name`.
    fn insert(&mut self, name: String, value: String)
        ensures
            final(self)@ == old(self)@.insert(name@, value@),
    {
        self.values.insert(name, value);
        assert(self@ =~= old(self)@.insert(name@, value@));
    }

    /// The value of the parameter `name`.
    pub fn get(&self, name: &str) -> (r: Option<&String>)
        ensures
            match r {
                Some(v) => self@.contains_key(name@) && self@[name@] == v@,
                None => !self@.contains_key(name@),
            },
    {
        self.values.get(name)
    }
}

/// `params` with the parameter that `part` sets: a name and a value around the
/// first `=`, both without white space around them, where the value is not empty.
pub open spec fn with_part(
    params: Map<Seq<char>, Seq<char>>,
    part: Seq<char>,
) -> Map<Seq<char>, Seq<char>> {
    match text::sides(part, "="@) {
        Some((name, value)) => if text::trimmed(value).len() > 0 {
            params.insert(text::lowered(text::trimmed(name)), text::trimmed(value))
        } else {
            params
        },
        None => params,
    }
}

/// The parameters that `parts` set, one after the other.
pub open spec fn with_parts(parts: Seq<Seq<char>>) -> Map<Seq<char>, Seq<char>>
    decreases parts.len(),
{
    if parts.len() == 0 {
        Map::empty()
    } else {
        with_part(with_parts(parts.drop_last()), parts.last())
    }
}

/// The parameters of a connection string: what its parts behind the first `;`
/// set.
pub open spec fn params_of(input: Seq<char>) -> Map<Seq<char>, Seq<char>> {
    with_parts(text::pieces(input, ';').skip(1))
}

/// Reads the parameters of a connection string.
pub fn parse_jdbc_params(input: &str) -> (r: JdbcParams)
    ensures
        r@ == params_of(input@),
{
    let chars: Vec<char> = text::chars_of(input);
    let parts: Vec<&[char]> = text::split(chars.as_slice(), ';');
    let ghost all = text::pieces(input@, ';').skip(1);
    let mut params: JdbcParams = JdbcParams::new();
    let mut i: usize = 1;
    proof {
        text::lemma_pieces_nonempty(input@, ';');
        assert(all.take(0) =~= Seq::<Seq<char>>::empty());
    }
    while i < parts.len()
        invariant
            1 <= i <= parts@.len(),
            text::spelled(parts@).skip(1) == all,
            params@ == with_parts(all.take(i - 1)),
        decreases parts@.len() - i,
    {
        proof {
            assert(all[i - 1] == parts@[i as int]@);
            assert(all.take(i as int).drop_last() =~= all.take(i - 1));
        }
        match text::split_once(parts[i], "=") {
            Some((name, value)) => {
                let value: &[char] = text::trim(value);
                if value.len() > 0 {
                    params.insert(text::lower(text::trim(name)), text::text_of(value));
                }
            },
            None => {},
        }
        i += 1;
    }
    assert(all.take(i - 1) =~= all);
    params
}

/// The value of the first of the parameters `names` that is there; names are
/// looked up in lower case.
pub open spec fn param(
    params: Map<Seq<char>, Seq<char>>,
    names: Seq<Seq<char>>,
) -> Option<Seq<char>>
    decreases names.len(),
{
    if names.len() == 0 {
        None
    } else if params.contains_key(text::lowered(names[0])) {
        Some(params[text::lowered(names[0])])
    } else {
        param(params, names.skip(1))
    }
}

/// Looks the parameters `fields` up, in that order.
pub fn jdbc_param(params: &JdbcParams, fields: &[&str]) -> (r: Option<String>)
    ensures
        match r {
            Some(v) => param(params@, json::words(fields@)) == Some(v@),
            None => param(params@, json::words(fields@)) is None,
        },
{
    let ghost names = json::words(fields@);
    let mut i: usize = 0;
    assert(names.skip(0) =~= names);
    while i < fields.len()
        invariant
            i <= fields@.len(),
            names == json::words(fields@),
            param(params@, names) == param(params@, names.skip(i as int)),
        decreases fields@.len() - i,
    {
        assert(names.skip(i as int).skip(1) =~= names.skip(i + 1));
        let name: Vec<char> = text::chars_of(fields[i]);
        let key: String = text::lower(name.as_slice());
        match params.get(key.as_str()) {
            Some(v) => {
                return Some(v.clone());
            },
            None => {},
        }
        i += 1;
    }
    None
}

/// Parameters have names in lower case, and values that are trimmed and not
/// empty.
pub proof fn params_are_trimmed(input: Seq<char>)
    ensures
        forall|name: Seq<char>| #[trigger]
            params_of(input).contains_key(name) ==> {
                &&& params_of(input)[name].len() > 0
                &&& text::trimmed(params_of(input)[name]) == params_of(input)[name]
                &&& text::lowered(name) == name
            },
{
    parts_are_trimmed(text::pieces(input, ';').skip(1));
}

/// `params_are_trimmed`, over any list of parts.
proof fn parts_are_trimmed(parts: Seq<Seq<char>>)
    ensures
        forall|name: Seq<char>| #[trigger]
            with_parts(parts).contains_key(name) ==> {
                &&& with_parts(parts)[name].len() > 0
                &&& text::trimmed(with_parts(parts)[name]) == with_parts(parts)[name]
                &&& text::lowered(name) == name
            },
    decreases parts.len(),
{
    if parts.len() > 0 {
        parts_are_trimmed(parts.drop_last());
        match text::sides(parts.last(), "="@) {
            Some((name, value)) => {
                text::trimmed_twice(value);
                text::lowered_twice(text::trimmed(name));
            },
            None => {},
        }
        let front = with_parts(parts.drop_last());
        assert forall|name: Seq<char>| #[trigger]
            with_parts(parts).contains_key(name) implies {
            &&& with_parts(parts)[name].len() > 0
            &&& text::trimmed(with_parts(parts)[name]) == with_parts(parts)[name]
            &&& text::lowered(name) == name
        } by {
            assert(front.contains_key(name) || front != with_parts(parts));
        }
    }
}

/// What is looked up is one of the parameters.
pub proof fn param_is_a_value(params: Map<Seq<char>, Seq<char>>, names: Seq<Seq<char>>)
    ensures
        param(params, names) matches Some(v) ==> exists|name: Seq<char>| #[trigger]
            params.contains_key(name) && params[name] == v,
    decreases names.len(),
{
    if names.len() > 0 {
        if params.contains_key(text::lowered(names[0])) {
            assert(params[text::lowered(names[0])] == param(params, names)->0);
        } else {
            param_is_a_value(params, names.skip(1));
        }
    }
}

/// Parameters are found whatever the case of the letters in which they are asked
/// for.
pub proof fn lookup_ignores_case(
    params: Map<Seq<char>, Seq<char>>,
    a: Seq<Seq<char>>,
    b: Seq<Seq<char>>,
)
    requires
        a.len() == b.len(),
        forall|i: int| 0 <= i < a.len() ==> text::lowered(#[trigger] a[i]) == text::lowered(b[i]),
    ensures
        param(params, a) == param(params, b),
    decreases a.len(),
{
    if a.len() > 0 {
        assert(text::lowered(a[0]) == text::lowered(b[0]));
        assert forall|i: int| 0 <= i < a.len() - 1 implies text::lowered(#[trigger] a.skip(1)[i])
            == text::lowered(b.skip(1)[i]) by {
            assert(a.skip(1)[i] == a[i + 1]);
        }
        lookup_ignores_case(params, a.skip(1), b.skip(1));
    }
}

/// The last part of a connection string that sets a parameter decides its value.
pub proof fn later_parts_win(parts: Seq<Seq<char>>, part: Seq<char>)
    requires
        text::sides(part, "="@) matches Some((_, value)) && text::trimmed(value).len() > 0,
    ensures
        text::sides(part, "="@) matches Some((name, value)) ==> {
            let key = text::lowered(text::trimmed(name));
            &&& with_parts(parts.push(part)).contains_key(key)
            &&& with_parts(parts.push(part))[key] == text::trimmed(value)
        },
{
    assert(parts.push(part).drop_last() =~= parts);
}

/// A part behind a semicolon sets the parameter that its name gives in lower case to
/// its value, both without white space around them, and no other; a part with a blank
/// value sets none.
pub proof fn each_part_sets_its_parameter(input: Seq<char>, name: Seq<char>, value: Seq<char>)
    requires
        forall|i: int| 0 <= i < name.len() ==> #[trigger] name[i] != ';' && name[i] != '=',
        forall|i: int| 0 <= i < value.len() ==> #[trigger] value[i] != ';',
    ensures
        ({
            let before = params_of(input);
            let after = params_of(input + seq![';'] + (name + seq!['='] + value));
            &&& text::trimmed(value).len() > 0 ==> after == before.insert(
                text::lowered(text::trimmed(name)),
                text::trimmed(value),
            )
            &&& text::trimmed(value).len() == 0 ==> after == before
        }),
{
    let part = name + seq!['='] + value;
    lemma_one_part_more(input, part);
    reveal_strlit("=");
    assert("="@ =~= seq!['=']);
    assert forall|j: int| 0 <= j < name.len() implies !#[trigger] text::occurs_at(
        name + "="@ + value,
        "="@,
        j,
    ) by {
        if text::occurs_at(part, "="@, j) {
            assert(part.subrange(j, j + 1)[0] == name[j]);
        }
    }
    text::marks_divide_at_the_first(name, "="@, value);
}

/// The parts of a connection string set its parameters one after the other.
proof fn lemma_one_part_more(input: Seq<char>, part: Seq<char>)
    requires
        forall|i: int| 0 <= i < part.len() ==> #[trigger] part[i] != ';',
    ensures
        params_of(input + seq![';'] + part) == with_part(params_of(input), part),
{
    text::splitting_undoes_joining(input, ';', part);
    text::splitting_undoes_joining(part, ';', part);
    text::lemma_pieces_nonempty(input, ';');
    let parts = text::pieces(input, ';').skip(1);
    assert(text::pieces(input + seq![';'] + part, ';').skip(1) =~= parts.push(part));
    assert(parts.push(part).drop_last() =~= parts);
}

/// What stands before the first semicolon, and a part without an equals sign, set no
/// parameter.
pub proof fn other_parts_set_nothing(input: Seq<char>, part: Seq<char>)
    requires
        forall|i: int| 0 <= i < part.len() ==> #[trigger] part[i] != ';' && part[i] != '=',
    ensures
        params_of(input + seq![';'] + part) == params_of(input),
        !input.contains(';') ==> params_of(input).dom() == Set::<Seq<char>>::empty(),
{
    lemma_one_part_more(input, part);
    reveal_strlit("=");
    assert("="@ =~= seq!['=']);
    assert forall|j: int| !#[trigger] text::occurs_at(part, "="@, j) by {
        if text::occurs_at(part, "="@, j) {
            assert(part.subrange(j, j + 1)[0] == part[j]);
        }
    }
    if !input.contains(';') {
        text::splitting_undoes_joining(input, ';', part);
        assert(text::pieces(input, ';').skip(1) =~= Seq::<Seq<char>>::empty());
        assert(params_of(input).dom() =~= Set::<Seq<char>>::empty());
    }
}

/// Names are looked up in their order and in lower case: the first that is there
/// gives the value, and where none is there, there is no value.
pub proof fn the_first_name_wins(
    params: Map<Seq<char>, Seq<char>>,
    names: Seq<Seq<char>>,
    i: int,
)
    requires
        0 <= i <= names.len(),
        forall|j: int|
            0 <= j < i ==> !params.contains_key(text::lowered(#[trigger] names[j])),
    ensures
        i == names.len() ==> param(params, names) is None,
        i < names.len() && params.contains_key(text::lowered(names[i])) ==> param(params, names)
            == Some(params[text::lowered(names[i])]),
    decreases names.len(),
{
    if i > 0 {
        assert(!params.contains_key(text::lowered(names[0])));
        let rest = names.skip(1);
        assert forall|j: int| 0 <= j < i - 1 implies !params.contains_key(
            text::lowered(#[trigger] rest[j]),
        ) by {
            assert(rest[j] == names[j + 1]);
        }
        the_first_name_wins(params, rest, i - 1);
    }
}

} // verus!
