//! Cookie headers reduced to the fields that a login needs.

use crate::error::CookieError;
use crate::string_map::StringMap;
use crate::text;
use vstd::prelude::*;

verus! {

/// One cookie as Firefox stores it.
pub struct FirefoxCookie {
    pub name: String,
    pub value: String,
}

/// Cookie values by cookie name.
pub type Values = Map<Seq<char>, Seq<char>>;

/// The cookies that a login needs, in the order in which a header lists them.
pub open spec fn login_names() -> Seq<Seq<char>> {
    seq!["SESSDATA"@, "bili_jct"@, "DedeUserID"@]
}

/// Whether `name` has a value that is not empty.
pub open spec fn has_value(values: Values, name: Seq<char>) -> bool {
    values.contains_key(name) && values[name].len() > 0
}

/// A cookie as a header lists it.
pub open spec fn field(name: Seq<char>, value: Seq<char>) -> Seq<char> {
    name + seq!['='] + value
}

/// `header` with the cookie `name` appended, if that has a value.
pub open spec fn with_field(header: Seq<char>, values: Values, name: Seq<char>) -> Seq<char> {
    if !has_value(values, name) {
        header
    } else if header.len() == 0 {
        field(name, values[name])
    } else {
        header + seq![';', ' '] + field(name, values[name])
    }
}

/// The header that lists the login cookies that have a value.
pub open spec fn minimal_header(values: Values) -> Seq<char> {
    login_names().fold_left(
        Seq::empty(),
        |header: Seq<char>, name: Seq<char>| with_field(header, values, name),
    )
}

/// The header to log in with, if there is a session.
pub open spec fn login_header(values: Values) -> Option<Seq<char>> {
    if has_value(values, "SESSDATA"@) {
        Some(minimal_header(values))
    } else {
        None
    }
}

/// The name and the value that one item of a header gives.
pub open spec fn header_pair(item: Seq<char>) -> Option<(Seq<char>, Seq<char>)> {
    match text::split_once_on(text::trimmed(item), '=') {
        Some((name, value)) => Some((text::trimmed(name), text::trimmed(value))),
        None => None,
    }
}

/// The values that header items give. A later item wins over an earlier one.
pub open spec fn item_values(items: Seq<Seq<char>>) -> Values
    decreases items.len(),
{
    if items.len() == 0 {
        Map::empty()
    } else {
        let before = item_values(items.drop_last());
        match header_pair(items.last()) {
            Some((name, value)) => before.insert(name, value),
            None => before,
        }
    }
}

/// The values that a cookie header gives.
pub open spec fn header_values(header: Seq<char>) -> Values {
    item_values(text::split_on(header, ';'))
}

/// The reduced form of a cookie header, if it holds a session.
pub open spec fn minimal_cookie(header: Seq<char>) -> Option<Seq<char>> {
    login_header(header_values(header))
}

/// The values of stored cookies. Cookies without a name or a value do not count,
/// and a later cookie wins over an earlier one.
pub open spec fn stored_values(cookies: Seq<FirefoxCookie>) -> Values
    decreases cookies.len(),
{
    if cookies.len() == 0 {
        Map::empty()
    } else {
        let before = stored_values(cookies.drop_last());
        let cookie = cookies.last();
        if cookie.name@.len() > 0 && cookie.value@.len() > 0 {
            before.insert(cookie.name@, cookie.value@)
        } else {
            before
        }
    }
}

/// Appends the cookie `name` to `header`, if it has a value.
fn push_field(header: &mut String, values: &StringMap, name: &str)
    ensures
        final(header)@ == with_field(old(header)@, values@, name@),
{
    match values.get(name) {
        Some(value) => {
            if !value.is_empty() {
                proof {
                    reveal_strlit("; ");
                    reveal_strlit("=");
                }
                assert("; "@ == seq![';', ' ']);
                assert("="@ == seq!['=']);
                let ghost before = header@;
                if !header.as_str().is_empty() {
                    header.append("; ");
                }
                header.append(name);
                header.append("=");
                header.append(value);
                assert(header@ == with_field(before, values@, name@));
            }
        },
        None => {},
    }
}

/// The header that lists the login cookies of `values`, in a fixed order.
pub fn minimal_cookie_values(values: &StringMap) -> (res: Result<String, CookieError>)
    ensures
        match res {
            Ok(header) => login_header(values@) == Some(header@),
            Err(e) => login_header(values@) is None && e == CookieError::MissingSession,
        },
{
    let session = match values.get("SESSDATA") {
        Some(value) => !value.is_empty(),
        None => false,
    };
    if !session {
        return Err(CookieError::MissingSession);
    }
    let mut header: String = String::new();
    push_field(&mut header, values, "SESSDATA");
    push_field(&mut header, values, "bili_jct");
    push_field(&mut header, values, "DedeUserID");
    proof {
        lemma_minimal_header(values@);
    }
    Ok(header)
}

proof fn lemma_minimal_header(values: Values)
    ensures
        minimal_header(values) == with_field(
            with_field(
                with_field(Seq::empty(), values, "SESSDATA"@),
                values,
                "bili_jct"@,
            ),
            values,
            "DedeUserID"@,
        ),
{
    let names = login_names();
    reveal_with_fuel(Seq::fold_left, 4);
    assert(names.drop_last() == seq!["SESSDATA"@, "bili_jct"@]);
    assert(names.drop_last().drop_last() == seq!["SESSDATA"@]);
    assert(names.drop_last().drop_last().drop_last() == Seq::<Seq<char>>::empty());
}

/// The header for the cookies that Firefox stores.
pub fn cookie_header(cookies: Vec<FirefoxCookie>) -> (res: Result<String, CookieError>)
    ensures
        match res {
            Ok(header) => login_header(stored_values(cookies@)) == Some(header@),
            Err(e) => login_header(stored_values(cookies@)) is None && e
                == CookieError::MissingSession,
        },
{
    let mut values = StringMap::new();
    let mut i: usize = 0;
    while i < cookies.len()
        invariant
            i <= cookies.len(),
            values@ == stored_values(cookies@.take(i as int)),
        decreases cookies.len() - i,
    {
        let cookie = &cookies[i];
        assert(cookies@.take(i + 1).drop_last() == cookies@.take(i as int));
        if !cookie.name.as_str().is_empty() && !cookie.value.as_str().is_empty() {
            values.insert(cookie.name.clone(), cookie.value.clone());
        }
        i = i + 1;
    }
    assert(cookies@.take(i as int) == cookies@);
    minimal_cookie_values(&values)
}

/// The values that a cookie header gives.
fn read_header(header: &str) -> (res: StringMap)
    ensures
        res@ == header_values(header@),
{
    let items = text::split(header, ';');
    let ghost pieces = text::texts(items@);
    let mut values = StringMap::new();
    let mut i: usize = 0;
    while i < items.len()
        invariant
            pieces == text::texts(items@),
            i <= items.len(),
            values@ == item_values(pieces.take(i as int)),
        decreases items.len() - i,
    {
        assert(pieces.take(i + 1).drop_last() == pieces.take(i as int));
        assert(pieces.take(i + 1).last() == items@[i as int]@);
        match text::split_once(text::trim(items[i]), '=') {
            Some((name, value)) => {
                values.insert(text::trim(name).to_owned(), text::trim(value).to_owned());
            },
            None => {},
        }
        i = i + 1;
    }
    assert(pieces.take(i as int) == pieces);
    values
}

/// `header` reduced to the login cookies, in a fixed order.
pub fn minimal_bili_cookie(header: &str) -> (res: Result<String, CookieError>)
    ensures
        match res {
            Ok(cookie) => minimal_cookie(header@) == Some(cookie@),
            Err(e) => minimal_cookie(header@) is None && e == CookieError::MissingSession,
        },
{
    let values = read_header(header);
    minimal_cookie_values(&values)
}

/// The values that are kept of `values`: those of the login cookies, unless empty.
pub open spec fn login_values(values: Values) -> Values {
    values.restrict(
        Set::new(|name: Seq<char>| login_names().contains(name) && has_value(values, name)),
    )
}

/// Whether a header can carry `value`: it holds no item separator, and neither
/// starts nor ends with white space.
pub open spec fn is_carried(value: Seq<char>) -> bool {
    !value.contains(';') && text::is_trimmed(value)
}

proof fn lemma_item_values(items: Seq<Seq<char>>, name: Seq<char>)
    requires
        forall|i: int| 0 <= i < items.len() ==> !#[trigger] items[i].contains(';'),
    ensures
        item_values(items).contains_key(name) ==> is_carried(item_values(items)[name]),
    decreases items.len(),
{
    if items.len() > 0 {
        let item = items.last();
        lemma_item_values(items.drop_last(), name);
        text::lemma_trimmed(item);
        text::lemma_find(text::trimmed(item), '=');
        match text::split_once_on(text::trimmed(item), '=') {
            Some((n, v)) => {
                text::lemma_trimmed(v);
                assert forall|c: char| v.contains(c) implies item.contains(c) by {
                    let i = choose|i: int| 0 <= i < v.len() && v[i] == c;
                    let at = text::find(text::trimmed(item), '=');
                    assert(text::trimmed(item)[at + 1 + i] == c);
                }
                assert(!items[items.len() - 1].contains(';'));
            },
            None => {},
        }
    }
}

/// The login names are told apart by the parser: none holds a separator, an equals
/// sign or white space.
proof fn lemma_login_names()
    ensures
        forall|i: int|
            0 <= i < login_names().len() ==> {
                let name = #[trigger] login_names()[i];
                &&& name.len() > 0
                &&& is_carried(name)
                &&& !name.contains('=')
            },
        "SESSDATA"@ != "bili_jct"@,
        "SESSDATA"@ != "DedeUserID"@,
        "bili_jct"@ != "DedeUserID"@,
{
    reveal_strlit("SESSDATA");
    reveal_strlit("bili_jct");
    reveal_strlit("DedeUserID");
    assert("SESSDATA"@[0] != "bili_jct"@[0]);
}

/// A field gives its name and its value back, with or without a space in front.
proof fn lemma_field(name: Seq<char>, value: Seq<char>)
    requires
        name.len() > 0,
        value.len() > 0,
        is_carried(name),
        is_carried(value),
        !name.contains('='),
    ensures
        !field(name, value).contains(';'),
        field(name, value).len() > 0,
        !(seq![' '] + field(name, value)).contains(';'),
        header_pair(field(name, value)) == Some((name, value)),
        header_pair(seq![' '] + field(name, value)) == Some((name, value)),
{
    let f = field(name, value);
    assert(f.first() == name.first());
    assert(f.last() == value.last());
    text::lemma_trimmed_stays(f);
    text::lemma_trimmed_after_space(' ', f);
    text::lemma_find_is(f, '=', name.len() as int);
    assert(f.take(name.len() as int) == name);
    assert(f.skip(name.len() as int + 1) == value);
    text::lemma_trimmed_stays(name);
    text::lemma_trimmed_stays(value);
    assert forall|i: int| 0 <= i < f.len() implies f[i] != ';' by {
        if i < name.len() {
            assert(f[i] == name[i]);
        } else if i > name.len() {
            assert(f[i] == value[i - name.len() - 1]);
        }
    }
}

/// One more item adds its value to those of the items before it.
proof fn lemma_item_values_push(items: Seq<Seq<char>>, item: Seq<char>)
    ensures
        item_values(items.push(item)) == match header_pair(item) {
            Some((name, value)) => item_values(items).insert(name, value),
            None => item_values(items),
        },
{
    assert(items.push(item).drop_last() == items);
}

/// A field appended to a header is one more item, with a space in front.
proof fn lemma_split_append(header: Seq<char>, last: Seq<char>)
    requires
        !last.contains(';'),
    ensures
        text::split_on(header + seq![';', ' '] + last, ';') == text::split_on(header, ';').push(
            seq![' '] + last,
        ),
{
    let item = seq![' '] + last;
    assert(!item.contains(';')) by {
        assert forall|k: int| 0 <= k < item.len() implies item[k] != ';' by {
            if k > 0 {
                assert(item[k] == last[k - 1]);
            }
        }
    }
    assert(header + seq![';', ' '] + last == header.push(';') + item);
    text::lemma_split_on_joined(header, ';', item);
    text::lemma_split_on_single(item, ';');
}

/// Appending a field to a header adds its value to what the header gives.
proof fn lemma_with_field(header: Seq<char>, values: Values, name: Seq<char>)
    requires
        has_value(values, name) ==> {
            &&& name.len() > 0
            &&& is_carried(name)
            &&& !name.contains('=')
            &&& is_carried(values[name])
        },
    ensures
        header.len() > 0 && has_value(values, name) ==> header_values(
            with_field(header, values, name),
        ) == header_values(header).insert(name, values[name]),
        header.len() == 0 && has_value(values, name) ==> header_values(
            with_field(header, values, name),
        ) == Map::<Seq<char>, Seq<char>>::empty().insert(name, values[name]),
{
    if has_value(values, name) {
        let value = values[name];
        lemma_field(name, value);
        if header.len() > 0 {
            lemma_split_append(header, field(name, value));
            lemma_item_values_push(
                text::split_on(header, ';'),
                seq![' '] + field(name, value),
            );
        } else {
            text::lemma_split_on_single(field(name, value), ';');
            let none = Seq::<Seq<char>>::empty();
            assert(seq![field(name, value)] == none.push(field(name, value)));
            lemma_item_values_push(none, field(name, value));
        }
    }
}

/// Reading a reduced header gives back exactly the login cookies that went into
/// it, as long as a header can carry their values.
pub proof fn law_login_header_reads_back(values: Values)
    requires
        forall|name: Seq<char>|
            login_names().contains(name) && #[trigger] has_value(values, name) ==> is_carried(
                values[name],
            ),
    ensures
        login_header(values) matches Some(header) ==> header_values(header) == login_values(
            values,
        ),
{
    lemma_login_names();
    lemma_minimal_header(values);
    let names = login_names();
    assert(names[0] == "SESSDATA"@ && names[1] == "bili_jct"@ && names[2] == "DedeUserID"@);
    if has_value(values, names[0]) {
        let none = Seq::<char>::empty();
        let first = with_field(none, values, names[0]);
        let second = with_field(first, values, names[1]);
        let third = with_field(second, values, names[2]);
        lemma_with_field(none, values, names[0]);
        lemma_with_field(first, values, names[1]);
        lemma_with_field(second, values, names[2]);
        assert(first.len() > 0 && second.len() > 0);
        assert forall|name: Seq<char>| names.contains(name) implies name == names[0] || name
            == names[1] || name == names[2] by {}
        assert(header_values(third) =~= login_values(values));
    }
}

/// The reduced form of a header gives the same login cookies as the header, and
/// no other cookie: only the login fields are retained.
pub proof fn law_only_login_fields_are_retained(header: Seq<char>)
    ensures
        minimal_cookie(header) matches Some(cookie) ==> header_values(cookie) == login_values(
            header_values(header),
        ),
{
    text::lemma_split_on_pieces(header, ';');
    let values = header_values(header);
    assert forall|name: Seq<char>|
        login_names().contains(name) && #[trigger] has_value(values, name) implies is_carried(
        values[name],
    ) by {
        lemma_item_values(text::split_on(header, ';'), name);
    }
    law_login_header_reads_back(values);
}

/// A reduced header is its own reduced form.
pub proof fn law_reduction_is_stable(header: Seq<char>)
    ensures
        minimal_cookie(header) matches Some(cookie) ==> minimal_cookie(cookie) == Some(cookie),
{
    law_only_login_fields_are_retained(header);
    let values = header_values(header);
    let kept = login_values(values);
    lemma_minimal_header(values);
    lemma_minimal_header(kept);
    let names = login_names();
    assert(names[0] == "SESSDATA"@ && names[1] == "bili_jct"@ && names[2] == "DedeUserID"@);
    assert(forall|i: int| 0 <= i < 3 ==> names.contains(#[trigger] names[i]));
}

/// Whether `cookies` holds a cookie with this name and this value.
pub open spec fn lists(cookies: Seq<FirefoxCookie>, name: Seq<char>, value: Seq<char>) -> bool {
    exists|i: int|
        0 <= i < cookies.len() && (#[trigger] cookies[i]).name@ == name && cookies[i].value@
            == value
}

/// Whether no two cookies have the same name.
pub open spec fn distinct_names(cookies: Seq<FirefoxCookie>) -> bool {
    forall|i: int, j: int|
        0 <= i < j < cookies.len() ==> (#[trigger] cookies[i]).name@ != (
        #[trigger] cookies[j]).name@
}

proof fn lemma_stored_values(cookies: Seq<FirefoxCookie>, name: Seq<char>)
    requires
        distinct_names(cookies),
    ensures
        ({
            let values = stored_values(cookies);
            &&& values.contains_key(name) ==> name.len() > 0 && values[name].len() > 0 && lists(
                cookies,
                name,
                values[name],
            )
            &&& forall|value: Seq<char>|
                name.len() > 0 && value.len() > 0 && #[trigger] lists(cookies, name, value)
                    ==> values.contains_key(name) && values[name] == value
        }),
    decreases cookies.len(),
{
    if cookies.len() > 0 {
        let before = cookies.drop_last();
        let last = cookies.last();
        let values = stored_values(cookies);
        lemma_stored_values(before, name);
        if values.contains_key(name) {
            if last.name@ == name && last.value@.len() > 0 {
                assert(cookies[cookies.len() - 1].value@ == values[name]);
            } else {
                let i = choose|i: int|
                    0 <= i < before.len() && (#[trigger] before[i]).name@ == name
                        && before[i].value@ == values[name];
                assert(cookies[i] == before[i]);
            }
        }
        assert forall|value: Seq<char>|
            name.len() > 0 && value.len() > 0 && #[trigger] lists(
                cookies,
                name,
                value,
            ) implies values.contains_key(name) && values[name] == value by {
            let i = choose|i: int|
                0 <= i < cookies.len() && (#[trigger] cookies[i]).name@ == name
                    && cookies[i].value@ == value;
            if i < cookies.len() - 1 {
                assert(before[i] == cookies[i]);
                assert(lists(before, name, value));
                assert(cookies[cookies.len() - 1].name@ != name);
            }
        }
    }
}

/// The header does not depend on the order in which the cookies are listed.
pub proof fn law_header_ignores_cookie_order(a: Seq<FirefoxCookie>, b: Seq<FirefoxCookie>)
    requires
        distinct_names(a),
        distinct_names(b),
        forall|name: Seq<char>, value: Seq<char>| lists(a, name, value) == lists(b, name, value),
    ensures
        login_header(stored_values(a)) == login_header(stored_values(b)),
{
    let left = stored_values(a);
    let right = stored_values(b);
    assert forall|name: Seq<char>|
        #![trigger left.dom().contains(name)]
        #![trigger right.dom().contains(name)]
        left.contains_key(name) == right.contains_key(name) && (left.contains_key(name)
            ==> left[name] == right[name]) by {
        lemma_stored_values(a, name);
        lemma_stored_values(b, name);
        if left.contains_key(name) {
            assert(lists(b, name, left[name]));
        }
        if right.contains_key(name) {
            assert(lists(a, name, right[name]));
        }
    }
    assert(left =~= right);
}

/// The values that the items of a header give `name`, in order.
pub open spec fn values_named(items: Seq<Seq<char>>, name: Seq<char>) -> Seq<Seq<char>>
    decreases items.len(),
{
    if items.len() == 0 {
        Seq::empty()
    } else {
        let before = values_named(items.drop_last(), name);
        match header_pair(items.last()) {
            Some((found, value)) => if found == name {
                before.push(value)
            } else {
                before
            },
            None => before,
        }
    }
}

proof fn lemma_last_value_counts(items: Seq<Seq<char>>, name: Seq<char>)
    ensures
        item_values(items).contains_key(name) <==> values_named(items, name).len() > 0,
        values_named(items, name).len() > 0 ==> item_values(items)[name] == values_named(
            items,
            name,
        ).last(),
    decreases items.len(),
{
    if items.len() > 0 {
        lemma_last_value_counts(items.drop_last(), name);
    }
}

/// The reduced form of a header depends on nothing but the values that its items give each
/// login cookie, in order.
pub proof fn law_only_login_items_count(header: Seq<char>, other: Seq<char>)
    requires
        forall|i: int|
            0 <= i < login_names().len() ==> values_named(
                text::split_on(header, ';'),
                #[trigger] login_names()[i],
            ) == values_named(text::split_on(other, ';'), login_names()[i]),
    ensures
        minimal_cookie(header) == minimal_cookie(other),
{
    let names = login_names();
    let items = text::split_on(header, ';');
    let others = text::split_on(other, ';');
    assert(names[0] == "SESSDATA"@ && names[1] == "bili_jct"@ && names[2] == "DedeUserID"@);
    assert forall|i: int| 0 <= i < names.len() implies {
        let name = #[trigger] names[i];
        &&& has_value(item_values(items), name) == has_value(item_values(others), name)
        &&& has_value(item_values(items), name) ==> item_values(items)[name] == item_values(
            others,
        )[name]
    } by {
        lemma_last_value_counts(items, names[i]);
        lemma_last_value_counts(others, names[i]);
    }
    lemma_minimal_header(item_values(items));
    lemma_minimal_header(item_values(others));
}

/// There is a header exactly if `SESSDATA` has a value that is not empty, and it is spelled
/// out here: the whole values of the login cookies, in this order, each only if it is not
/// empty.
pub proof fn law_login_header_is_spelled_out(values: Values)
    ensures
        login_header(values) is Some <==> values.contains_key("SESSDATA"@)
            && values["SESSDATA"@].len() > 0,
        login_header(values) matches Some(header) ==> header == "SESSDATA="@ + values["SESSDATA"@]
            + (if values.contains_key("bili_jct"@) && values["bili_jct"@].len() > 0 {
            "; bili_jct="@ + values["bili_jct"@]
        } else {
            ""@
        }) + (if values.contains_key("DedeUserID"@) && values["DedeUserID"@].len() > 0 {
            "; DedeUserID="@ + values["DedeUserID"@]
        } else {
            ""@
        }),
{
    lemma_minimal_header(values);
    reveal_strlit("");
    reveal_strlit("SESSDATA");
    reveal_strlit("bili_jct");
    reveal_strlit("DedeUserID");
    reveal_strlit("SESSDATA=");
    reveal_strlit("; bili_jct=");
    reveal_strlit("; DedeUserID=");
    assert("SESSDATA"@ + seq!['='] == "SESSDATA="@);
    assert(seq![';', ' '] + "bili_jct"@ + seq!['='] == "; bili_jct="@);
    assert(seq![';', ' '] + "DedeUserID"@ + seq!['='] == "; DedeUserID="@);
    if has_value(values, "SESSDATA"@) {
        let session = values["SESSDATA"@];
        let first = "SESSDATA="@ + session;
        let token = if has_value(values, "bili_jct"@) {
            "; bili_jct="@ + values["bili_jct"@]
        } else {
            ""@
        };
        let user = if has_value(values, "DedeUserID"@) {
            "; DedeUserID="@ + values["DedeUserID"@]
        } else {
            ""@
        };
        assert(with_field(Seq::empty(), values, "SESSDATA"@) == first);
        let second = with_field(first, values, "bili_jct"@);
        assert(second == first + token);
        let third = with_field(second, values, "DedeUserID"@);
        assert(third == first + token + user);
    }
}

/// An item of a header gives what stands before its first equals sign as the name and all
/// that follows as the value, without the white space around both; an item without an
/// equals sign gives nothing.
pub proof fn law_item_is_split_at_first_equals_sign(
    a: Seq<char>,
    name: Seq<char>,
    b: Seq<char>,
    c: Seq<char>,
    value: Seq<char>,
    d: Seq<char>,
    other: Seq<char>,
)
    requires
        text::all_space(a),
        text::all_space(b),
        text::all_space(c),
        text::all_space(d),
        !name.contains('='),
        text::is_trimmed(name),
        text::is_trimmed(value),
        !other.contains('='),
    ensures
        header_pair(a + name + b + seq!['='] + c + value + d) == Some((name, value)),
        header_pair(other) is None,
{
    text::law_sides_of_a_separator_are_trimmed(a, name, b, '=', c, value, d);
    text::lemma_trimmed(other);
    text::law_first_separator_splits(text::trimmed(other), '=', Seq::empty());
}

/// Of the items that give a name a value, the last one counts, and a name that no item
/// gives has no value.
pub proof fn law_last_item_counts(
    items: Seq<Seq<char>>,
    name: Seq<char>,
    value: Seq<char>,
    k: int,
)
    requires
        -1 <= k < items.len(),
        k >= 0 ==> header_pair(items[k]) == Some((name, value)),
        forall|j: int|
            k < j < items.len() ==> !(header_pair(#[trigger] items[j]) matches Some((found, _))
                && found == name),
    ensures
        item_values(items).contains_key(name) <==> k >= 0,
        k >= 0 ==> item_values(items)[name] == value,
    decreases items.len(),
{
    if items.len() > 0 && k < items.len() - 1 {
        let front = items.drop_last();
        assert forall|j: int| k < j < front.len() implies !(header_pair(
            #[trigger] front[j],
        ) matches Some((found, _)) && found == name) by {
            assert(front[j] == items[j]);
        }
        law_last_item_counts(front, name, value, k);
        assert(!(header_pair(items[items.len() - 1]) matches Some((found, _)) && found == name));
    }
}

/// The reduced form of a header carries the whole value of the last session in it, wherever
/// that stands and whatever else the header holds.
pub proof fn law_last_session_is_carried(
    items: Seq<Seq<char>>,
    k: int,
    a: Seq<char>,
    value: Seq<char>,
    d: Seq<char>,
)
    requires
        0 <= k < items.len(),
        forall|i: int| 0 <= i < items.len() ==> !(#[trigger] items[i]).contains(';'),
        text::all_space(a),
        text::all_space(d),
        text::is_trimmed(value),
        value.len() > 0,
        items[k] == a + "SESSDATA="@ + value + d,
        forall|j: int|
            k < j < items.len() ==> !(header_pair(#[trigger] items[j]) matches Some((found, _))
                && found == "SESSDATA"@),
    ensures
        minimal_cookie(text::joined_by(items, ';')) matches Some(cookie) && text::begins_with(
            cookie,
            "SESSDATA="@ + value,
        ),
{
    reveal_strlit("SESSDATA");
    reveal_strlit("SESSDATA=");
    let none = Seq::<char>::empty();
    let name = "SESSDATA"@;
    assert("SESSDATA="@ == name + seq!['=']);
    assert(a + "SESSDATA="@ + value + d == a + name + none + seq!['='] + none + value + d);
    law_item_is_split_at_first_equals_sign(a, name, none, none, value, d, none);
    law_last_item_counts(items, name, value, k);
    text::law_joined_pieces_are_split(items, ';');
    let values = item_values(items);
    law_login_header_is_spelled_out(values);
    let cookie = login_header(values)->Some_0;
    let rest = cookie.skip(("SESSDATA="@ + value).len() as int);
    assert(cookie == "SESSDATA="@ + value + rest);
    text::law_prefix_stands_in_front(cookie, "SESSDATA="@ + value, rest);
}

/// Of the stored cookies of one name, the last one whose value is not empty counts, with its
/// whole value, and a name without such a cookie has no value.
pub proof fn law_last_stored_cookie_counts(cookies: Seq<FirefoxCookie>, name: Seq<char>, k: int)
    requires
        name.len() > 0,
        -1 <= k < cookies.len(),
        k >= 0 ==> cookies[k].name@ == name && cookies[k].value@.len() > 0,
        forall|j: int|
            k < j < cookies.len() ==> (#[trigger] cookies[j]).name@ != name
                || cookies[j].value@.len() == 0,
    ensures
        stored_values(cookies).contains_key(name) <==> k >= 0,
        k >= 0 ==> stored_values(cookies)[name] == cookies[k].value@,
    decreases cookies.len(),
{
    if cookies.len() > 0 && k < cookies.len() - 1 {
        let front = cookies.drop_last();
        assert forall|j: int| k < j < front.len() implies (#[trigger] front[j]).name@ != name
            || front[j].value@.len() == 0 by {
            assert(front[j] == cookies[j]);
        }
        law_last_stored_cookie_counts(front, name, k);
        assert(cookies[cookies.len() - 1].name@ != name || cookies[cookies.len()
            - 1].value@.len() == 0);
    }
}

} // verus!
