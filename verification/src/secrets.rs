//! What must not be shown: collecting secrets, and masking them in messages.

use crate::jdbc;
use crate::text;
use vstd::prelude::*;

verus! {

/// The texts of a list of strings.
pub open spec fn texts(s: Seq<String>) -> Seq<Seq<char>> {
    Seq::new(s.len(), |i: int| s[i]@)
}

/// `values` with `value` added, without white space around it, unless it is then
/// empty or there already.
pub open spec fn with_secret(values: Seq<Seq<char>>, value: Seq<char>) -> Seq<Seq<char>> {
    let secret = text::trimmed(value);
    if secret.len() == 0 || values.contains(secret) {
        values
    } else {
        values.push(secret)
    }
}

/// Adds a value to the list of secrets.
pub fn push_sensitive(values: &mut Vec<String>, value: Option<&str>)
    ensures
        texts(final(values)@) == match value {
            Some(v) => with_secret(texts(old(values)@), v@),
            None => texts(old(values)@),
        },
{
    if let Some(given) = value {
        let chars: Vec<char> = text::chars_of(given);
        let secret: &[char] = text::trim(chars.as_slice());
        if secret.len() == 0 {
            return;
        }
        let secret: String = text::text_of(secret);
        let mut i: usize = 0;
        while i < values.len()
            invariant
                *values == *old(values),
                i <= values@.len(),
                value == Some(given),
                secret@ == text::trimmed(given@),
                forall|j: int| 0 <= j < i ==> texts(values@)[j] != secret@,
            decreases values@.len() - i,
        {
            if text::same_text(values[i].as_str(), secret.as_str()) {
                assert(texts(values@)[i as int] == secret@);
                return;
            }
            i += 1;
        }
        values.push(secret);
        assert(texts(values@) =~= texts(old(values)@).push(secret@));
    }
}

/// `values` with each of `more` added.
pub open spec fn with_secrets(values: Seq<Seq<char>>, more: Seq<Seq<char>>) -> Seq<Seq<char>>
    decreases more.len(),
{
    if more.len() == 0 {
        values
    } else {
        with_secret(with_secrets(values, more.drop_last()), more.last())
    }
}

/// The authority of a URL in front of `@`: what stands between `://` and the
/// next `/`, up to the first `@`.
pub open spec fn url_auth(url: Seq<char>) -> Option<Seq<char>> {
    match text::sides(url, "://"@) {
        Some((_, rest)) => Some(text::before(text::before(rest, "/"@), "@"@)),
        None => None,
    }
}

/// `values` with the parts of the authority of `url`, where `:` divides it.
pub open spec fn with_url_auth(values: Seq<Seq<char>>, url: Seq<char>) -> Seq<Seq<char>> {
    match url_auth(url) {
        Some(auth) => if auth.contains(':') {
            with_secrets(values, text::pieces(auth, ':'))
        } else {
            values
        },
        None => values,
    }
}

/// Adds the credentials that a URL carries to the list of secrets.
pub fn collect_url_auth(url: &str, values: &mut Vec<String>)
    ensures
        texts(final(values)@) == with_url_auth(texts(old(values)@), url@),
{
    let chars: Vec<char> = text::chars_of(url);
    let rest: &[char] = match text::split_once(chars.as_slice(), "://") {
        Some((_, rest)) => rest,
        None => {
            return;
        },
    };
    let auth: &[char] = text::cut_before(text::cut_before(rest, "/"), "@");
    let parts: Vec<&[char]> = text::split(auth, ':');
    proof {
        text::lemma_pieces_divided(auth@, ':');
    }
    if parts.len() > 1 {
        let ghost all = text::pieces(auth@, ':');
        let mut i: usize = 0;
        assert(all.take(0) =~= Seq::<Seq<char>>::empty());
        while i < parts.len()
            invariant
                i <= parts@.len(),
                text::spelled(parts@) == all,
                texts(values@) == with_secrets(texts(old(values)@), all.take(i as int)),
            decreases parts@.len() - i,
        {
            let part: String = text::text_of(parts[i]);
            push_sensitive(values, Some(part.as_str()));
            proof {
                assert(all[i as int] == parts@[i as int]@);
                assert(all.take(i + 1).drop_last() =~= all.take(i as int));
            }
            i += 1;
        }
        assert(all.take(i as int) =~= all);
    }
}

/// `values` with the parameter `name`, where it is there.
pub open spec fn with_param(
    values: Seq<Seq<char>>,
    params: Map<Seq<char>, Seq<char>>,
    name: Seq<char>,
) -> Seq<Seq<char>> {
    if params.contains_key(name) {
        with_secret(values, params[name])
    } else {
        values
    }
}

/// `values` with the passwords and tokens of a connection string.
pub open spec fn with_jdbc_secrets(values: Seq<Seq<char>>, input: Seq<char>) -> Seq<Seq<char>> {
    let params = jdbc::params_of(input);
    with_param(with_param(with_param(values, params, "pwd"@), params, "password"@), params, "token"@)
}

/// Adds one parameter of a connection string to the list of secrets.
fn push_param(values: &mut Vec<String>, params: &jdbc::JdbcParams, name: &str)
    ensures
        texts(final(values)@) == with_param(texts(old(values)@), params@, name@),
{
    match params.get(name) {
        Some(value) => push_sensitive(values, Some(value.as_str())),
        None => push_sensitive(values, None),
    }
}

/// Adds the passwords and tokens of a connection string to the list of secrets.
pub fn collect_jdbc_secrets(input: &str, values: &mut Vec<String>)
    ensures
        texts(final(values)@) == with_jdbc_secrets(texts(old(values)@), input@),
{
    let params: jdbc::JdbcParams = jdbc::parse_jdbc_params(input);
    push_param(values, &params, "pwd");
    push_param(values, &params, "password");
    push_param(values, &params, "token");
}

// ------------------------------------------------------------------ masking

/// `message` with every copy of `secret` masked. An empty secret masks nothing.
pub open spec fn hidden(message: Seq<char>, secret: Seq<char>) -> Seq<char> {
    if secret.len() == 0 {
        message
    } else {
        text::replaced(message, secret, "****"@)
    }
}

/// `message` with every copy of each of `values` masked, one value after the
/// other.
pub open spec fn all_hidden(message: Seq<char>, values: Seq<Seq<char>>) -> Seq<char>
    decreases values.len(),
{
    if values.len() == 0 {
        message
    } else {
        hidden(all_hidden(message, values.drop_last()), values.last())
    }
}

/// `message` as it may be shown: with the base URL and then every secret masked.
pub open spec fn redacted(
    message: Seq<char>,
    base_url: Seq<char>,
    values: Seq<Seq<char>>,
) -> Seq<char> {
    all_hidden(text::replaced(message, base_url, "<databricks-url>"@), values)
}

/// Masks the base URL and every secret in a message.
pub fn redact_message(message: &str, base_url: &str, values: &Vec<String>) -> (r: String)
    ensures
        r@ == redacted(message@, base_url@, texts(values@)),
{
    let mut out: String = text::replace(message, base_url, "<databricks-url>");
    let ghost start = out@;
    let ghost all = texts(values@);
    let mut i: usize = 0;
    assert(all.take(0) =~= Seq::<Seq<char>>::empty());
    while i < values.len()
        invariant
            i <= values@.len(),
            all == texts(values@),
            out@ == all_hidden(start, all.take(i as int)),
        decreases values@.len() - i,
    {
        proof {
            assert(all[i as int] == values@[i as int]@);
            assert(all.take(i + 1).drop_last() =~= all.take(i as int));
        }
        if !values[i].as_str().is_empty() {
            out = text::replace(out.as_str(), values[i].as_str(), "****");
        }
        i += 1;
    }
    assert(all.take(i as int) =~= all);
    out
}

/// A shown message contains none of the secrets: each of them is gone, where it
/// is clear of the mask.
pub proof fn redaction_hides_secrets(
    message: Seq<char>,
    base_url: Seq<char>,
    values: Seq<Seq<char>>,
    i: int,
)
    requires
        0 <= i < values.len(),
        text::clear_of(values[i], "****"@),
    ensures
        !text::occurs(redacted(message, base_url, values), values[i]),
{
    hiding_hides(text::replaced(message, base_url, "<databricks-url>"@), values, i);
}

/// `redaction_hides_secrets`, for the values alone.
proof fn hiding_hides(message: Seq<char>, values: Seq<Seq<char>>, i: int)
    requires
        0 <= i < values.len(),
        text::clear_of(values[i], "****"@),
    ensures
        !text::occurs(all_hidden(message, values), values[i]),
    decreases values.len(),
{
    let front = all_hidden(message, values.drop_last());
    if i < values.len() - 1 {
        hiding_hides(message, values.drop_last(), i);
    }
    if values.last().len() > 0 {
        text::replacing_leaves_none(front, values.last(), "****"@, values[i]);
    }
}

/// Masking secrets makes no copy of a text that is clear of the mask.
proof fn hiding_adds_nothing(message: Seq<char>, values: Seq<Seq<char>>, t: Seq<char>)
    requires
        !text::occurs(message, t),
        text::clear_of(t, "****"@),
    ensures
        !text::occurs(all_hidden(message, values), t),
    decreases values.len(),
{
    if values.len() > 0 {
        hiding_adds_nothing(message, values.drop_last(), t);
        if values.last().len() > 0 {
            text::replacing_leaves_none(
                all_hidden(message, values.drop_last()),
                values.last(),
                "****"@,
                t,
            );
        }
    }
}

/// A shown message does not contain the base URL, where that is clear of what is
/// put in its place and of the mask.
pub proof fn redaction_hides_base_url(
    message: Seq<char>,
    base_url: Seq<char>,
    values: Seq<Seq<char>>,
)
    requires
        text::clear_of(base_url, "<databricks-url>"@),
        text::clear_of(base_url, "****"@),
    ensures
        !text::occurs(redacted(message, base_url, values), base_url),
{
    text::replacing_leaves_none(message, base_url, "<databricks-url>"@, base_url);
    hiding_adds_nothing(
        text::replaced(message, base_url, "<databricks-url>"@),
        values,
        base_url,
    );
}

/// A message without the base URL and without any secret is shown as it is.
pub proof fn other_messages_are_unchanged(
    message: Seq<char>,
    base_url: Seq<char>,
    values: Seq<Seq<char>>,
)
    requires
        base_url.len() > 0,
        !text::occurs(message, base_url),
        forall|i: int| 0 <= i < values.len() && values[i].len() > 0 ==> !text::occurs(
            message,
            #[trigger] values[i],
        ),
    ensures
        redacted(message, base_url, values) == message,
{
    text::replacing_nothing(message, base_url, "<databricks-url>"@);
    hiding_nothing(message, values);
}

/// `other_messages_are_unchanged`, for the values alone.
proof fn hiding_nothing(message: Seq<char>, values: Seq<Seq<char>>)
    requires
        forall|i: int| 0 <= i < values.len() && values[i].len() > 0 ==> !text::occurs(
            message,
            #[trigger] values[i],
        ),
    ensures
        all_hidden(message, values) == message,
    decreases values.len(),
{
    if values.len() > 0 {
        assert forall|i: int|
            0 <= i < values.len() - 1 && values.drop_last()[i].len() > 0 implies !text::occurs(
            message,
            #[trigger] values.drop_last()[i],
        ) by {
            assert(values.drop_last()[i] == values[i]);
        }
        hiding_nothing(message, values.drop_last());
        assert(values.last() == values[values.len() - 1]);
        if values.last().len() > 0 {
            text::replacing_nothing(message, values.last(), "****"@);
        }
    }
}

/// A secret in which the mask's star does not occur is clear of the mask.
pub proof fn starless_secrets_are_clear(secret: Seq<char>)
    requires
        secret.len() > 0,
        !secret.contains('*'),
    ensures
        text::clear_of(secret, "****"@),
{
    reveal_strlit("****");
    assert forall|i: int| 0 <= i < secret.len() implies !"****"@.contains(
        #[trigger] secret[i],
    ) by {
        if "****"@.contains(secret[i]) {
            let j = "****"@.index_of(secret[i]);
            assert("****"@[j] == '*');
            assert(secret.contains('*'));
        }
    }
    text::different_letters_are_clear(secret, "****"@);
}

// --------------------------------------------------- what the list is like

/// Whether the entries of a list of secrets are trimmed, not empty and all
/// different.
pub open spec fn well_kept(values: Seq<Seq<char>>) -> bool {
    &&& forall|i: int|
        0 <= i < values.len() ==> (#[trigger] values[i]).len() > 0 && text::trimmed(values[i])
            == values[i]
    &&& values.no_duplicates()
}

/// Adding a secret keeps the list well kept and what was in it; and a secret that
/// is not blank is in the list afterwards.
pub proof fn adding_a_secret(values: Seq<Seq<char>>, value: Seq<char>)
    requires
        well_kept(values),
    ensures
        well_kept(with_secret(values, value)),
        values.is_prefix_of(with_secret(values, value)),
        text::trimmed(value).len() > 0 ==> with_secret(values, value).contains(
            text::trimmed(value),
        ),
{
    let secret = text::trimmed(value);
    text::trimmed_twice(value);
    if secret.len() > 0 && !values.contains(secret) {
        let after = values.push(secret);
        assert(after.last() == secret);
        assert(values =~= after.take(values.len() as int));
    }
}

/// What a prefix of a list contains, the list contains.
pub proof fn lemma_prefix_contains(a: Seq<Seq<char>>, b: Seq<Seq<char>>)
    requires
        a.is_prefix_of(b),
    ensures
        forall|x: Seq<char>| #[trigger] a.contains(x) ==> b.contains(x),
{
    assert forall|x: Seq<char>| #[trigger] a.contains(x) implies b.contains(x) by {
        let i = a.index_of(x);
        assert(b[i] == x);
    }
}

/// `adding_a_secret`, for a list of values.
pub proof fn adding_secrets(values: Seq<Seq<char>>, more: Seq<Seq<char>>)
    requires
        well_kept(values),
    ensures
        well_kept(with_secrets(values, more)),
        values.is_prefix_of(with_secrets(values, more)),
        forall|i: int|
            0 <= i < more.len() && text::trimmed(#[trigger] more[i]).len() > 0 ==> with_secrets(
                values,
                more,
            ).contains(text::trimmed(more[i])),
    decreases more.len(),
{
    if more.len() > 0 {
        let front = with_secrets(values, more.drop_last());
        adding_secrets(values, more.drop_last());
        adding_a_secret(front, more.last());
        lemma_prefix_contains(front, with_secrets(values, more));
        assert forall|i: int|
            0 <= i < more.len() && text::trimmed(#[trigger] more[i]).len()
                > 0 implies with_secrets(values, more).contains(text::trimmed(more[i])) by {
            if i < more.len() - 1 {
                assert(more.drop_last()[i] == more[i]);
            }
        }
    }
}

/// `adding_a_secret`, for the credentials of a URL.
pub proof fn adding_url_auth(values: Seq<Seq<char>>, url: Seq<char>)
    requires
        well_kept(values),
    ensures
        well_kept(with_url_auth(values, url)),
        values.is_prefix_of(with_url_auth(values, url)),
        url_auth(url) matches Some(auth) ==> auth.contains(':') ==> forall|i: int|
            0 <= i < text::pieces(auth, ':').len() && text::trimmed(
                #[trigger] text::pieces(auth, ':')[i],
            ).len() > 0 ==> with_url_auth(values, url).contains(
                text::trimmed(text::pieces(auth, ':')[i]),
            ),
{
    match url_auth(url) {
        Some(auth) => {
            adding_secrets(values, text::pieces(auth, ':'));
        },
        None => {},
    }
}

/// `adding_a_secret`, for the passwords and tokens of a connection string.
pub proof fn adding_jdbc_secrets(values: Seq<Seq<char>>, input: Seq<char>)
    requires
        well_kept(values),
    ensures
        well_kept(with_jdbc_secrets(values, input)),
        values.is_prefix_of(with_jdbc_secrets(values, input)),
        ({
            let params = jdbc::params_of(input);
            let after = with_jdbc_secrets(values, input);
            &&& params.contains_key("pwd"@) ==> after.contains(params["pwd"@])
            &&& params.contains_key("password"@) ==> after.contains(params["password"@])
            &&& params.contains_key("token"@) ==> after.contains(params["token"@])
        }),
{
    let params = jdbc::params_of(input);
    let one = with_param(values, params, "pwd"@);
    let two = with_param(one, params, "password"@);
    let three = with_param(two, params, "token"@);
    jdbc::params_are_trimmed(input);
    if params.contains_key("pwd"@) {
        adding_a_secret(values, params["pwd"@]);
    }
    if params.contains_key("password"@) {
        adding_a_secret(one, params["password"@]);
    }
    if params.contains_key("token"@) {
        adding_a_secret(two, params["token"@]);
    }
    lemma_prefix_contains(one, two);
    lemma_prefix_contains(two, three);
}

/// A list of strings says each of its texts in its place.
pub proof fn texts_are_in_their_place(s: Seq<String>)
    ensures
        texts(s).len() == s.len(),
        forall|i: int| 0 <= i < s.len() ==> #[trigger] texts(s)[i] == s[i]@,
{
}

/// Secrets are kept in the order in which they come, without white space around them:
/// one that is new and not blank is put at the end, and any other changes nothing.
pub proof fn secrets_are_kept_in_order(
    values: Seq<Seq<char>>,
    more: Seq<Seq<char>>,
    value: Seq<char>,
)
    ensures
        text::trimmed(value).len() == 0 ==> with_secret(values, value) == values,
        values.contains(text::trimmed(value)) ==> with_secret(values, value) == values,
        text::trimmed(value).len() > 0 && !values.contains(text::trimmed(value)) ==> with_secret(
            values,
            value,
        ) == values + seq![text::trimmed(value)],
        with_secrets(values, Seq::empty()) == values,
        with_secrets(values, more + seq![value]) == with_secret(with_secrets(values, more), value),
{
    let secret = text::trimmed(value);
    assert(values + seq![secret] =~= values.push(secret));
    assert((more + seq![value]).drop_last() =~= more);
}

/// The credentials of a URL are what stands behind its `://`, up to a slash or an at
/// sign.
pub proof fn credentials_stand_before_the_host(
    scheme: Seq<char>,
    auth: Seq<char>,
    rest: Seq<char>,
)
    requires
        forall|j: int|
            0 <= j < scheme.len() ==> !#[trigger] text::occurs_at(
                scheme + "://"@ + (auth + rest),
                "://"@,
                j,
            ),
        forall|i: int| 0 <= i < auth.len() ==> #[trigger] auth[i] != '/' && auth[i] != '@',
        rest.len() == 0 || rest[0] == '/' || rest[0] == '@',
    ensures
        url_auth(scheme + "://"@ + (auth + rest)) == Some(auth),
{
    text::marks_divide_at_the_first(scheme, "://"@, auth + rest);
    reveal_strlit("/");
    reveal_strlit("@");
    let slash = "/"@;
    let sign = "@"@;
    assert(slash =~= seq!['/'] && sign =~= seq!['@']);
    assert(slash[0] == '/' && sign[0] == '@');
    assert(slash.contains('/') && sign.contains('@'));
    if rest.len() == 0 {
        assert(auth + rest =~= auth);
        text::cuts_come_before_the_first_stop(auth, '/', rest, slash);
        text::cuts_come_before_the_first_stop(auth, '@', rest, sign);
    } else if rest[0] == '/' {
        assert(auth + rest =~= auth + seq!['/'] + rest.skip(1));
        text::cuts_come_before_the_first_stop(auth, '/', rest.skip(1), slash);
        text::cuts_come_before_the_first_stop(auth, '@', rest, sign);
    } else {
        text::lemma_before_is_prefix(rest, slash);
        text::lemma_before_behind(auth, rest, slash);
        let kept = text::before(rest, slash);
        assert(kept.len() > 0 && kept[0] == '@');
        assert(auth + kept =~= auth + seq!['@'] + kept.skip(1));
        text::cuts_come_before_the_first_stop(auth, '@', kept.skip(1), sign);
    }
}

/// Credentials are hidden part by part, as colons divide them; without a colon, and in
/// a text that is no URL, there are none.
pub proof fn credentials_are_divided_by_colons(values: Seq<Seq<char>>, url: Seq<char>)
    ensures
        url_auth(url) matches Some(auth) ==> auth.contains(':') ==> with_url_auth(values, url)
            == with_secrets(values, text::pieces(auth, ':')),
        url_auth(url) matches Some(auth) ==> !auth.contains(':') ==> with_url_auth(values, url)
            == values,
        !text::occurs(url, "://"@) ==> with_url_auth(values, url) == values,
{
}

/// The parameter `name`, where it is there.
pub open spec fn given(params: Map<Seq<char>, Seq<char>>, name: Seq<char>) -> Seq<Seq<char>> {
    if params.contains_key(name) {
        seq![params[name]]
    } else {
        Seq::empty()
    }
}

/// A connection string hides its parameters `pwd`, `password` and `token`, in that
/// order, and no others.
pub proof fn connection_strings_hide_three_parameters(values: Seq<Seq<char>>, input: Seq<char>)
    ensures
        ({
            let params = jdbc::params_of(input);
            with_jdbc_secrets(values, input) == with_secrets(
                values,
                given(params, "pwd"@) + given(params, "password"@) + given(params, "token"@),
            )
        }),
{
    let params = jdbc::params_of(input);
    let none = Seq::<Seq<char>>::empty();
    let one = given(params, "pwd"@);
    let two = one + given(params, "password"@);
    let three = two + given(params, "token"@);
    assert(with_secrets(values, none) == values);
    lemma_given(values, none, params, "pwd"@);
    lemma_given(values, one, params, "password"@);
    lemma_given(values, two, params, "token"@);
    assert(none + one =~= one);
}

/// A parameter that is there is one secret more.
proof fn lemma_given(
    values: Seq<Seq<char>>,
    more: Seq<Seq<char>>,
    params: Map<Seq<char>, Seq<char>>,
    name: Seq<char>,
)
    ensures
        with_secrets(values, more + given(params, name)) == with_param(
            with_secrets(values, more),
            params,
            name,
        ),
{
    if params.contains_key(name) {
        secrets_are_kept_in_order(values, more, params[name]);
    } else {
        assert(more + given(params, name) =~= more);
    }
}

/// A message is shown with the base URL replaced by `<databricks-url>`, and then with
/// one secret after the other replaced by `****`, where it is not empty.
pub proof fn messages_are_masked_in_order(
    message: Seq<char>,
    base_url: Seq<char>,
    values: Seq<Seq<char>>,
    secret: Seq<char>,
)
    ensures
        redacted(message, base_url, Seq::empty()) == text::replaced(
            message,
            base_url,
            "<databricks-url>"@,
        ),
        secret.len() > 0 ==> redacted(message, base_url, values + seq![secret]) == text::replaced(
            redacted(message, base_url, values),
            secret,
            "****"@,
        ),
        secret.len() == 0 ==> redacted(message, base_url, values + seq![secret]) == redacted(
            message,
            base_url,
            values,
        ),
{
    assert((values + seq![secret]).drop_last() =~= values);
}

/// A message with one secret in it is shown as it is around that secret, which is
/// masked.
pub proof fn messages_stay_around_a_secret(
    a: Seq<char>,
    secret: Seq<char>,
    b: Seq<char>,
    base_url: Seq<char>,
)
    requires
        secret.len() > 0,
        base_url.len() > 0,
        !text::occurs(a + secret + b, base_url),
        !text::occurs(b, secret),
        forall|j: int| 0 <= j < a.len() ==> !#[trigger] text::occurs_at(a + secret + b, secret, j),
    ensures
        redacted(a + secret + b, base_url, seq![secret]) == a + "****"@ + b,
{
    let message = a + secret + b;
    let none = Seq::<Seq<char>>::empty();
    text::replacing_nothing(message, base_url, "<databricks-url>"@);
    messages_are_masked_in_order(message, base_url, none, secret);
    assert(none + seq![secret] =~= seq![secret]);
    text::replacing_goes_from_the_left(a, secret, b, "****"@);
    text::replacing_nothing(b, secret, "****"@);
}

} // verus!
