//! The login cookies in a Firefox cookie database, and the search through profiles.

use crate::cookies;
use crate::cookies::FirefoxCookie;
use crate::error::CookieError;
use crate::text;
use vstd::prelude::*;

verus! {

/// A row of the table `moz_cookies`. A column without a value is `None`.
pub struct MozCookie {
    pub name: Option<String>,
    pub value: Option<String>,
    pub host: Option<String>,
    pub path: Option<String>,
    /// In seconds after the Unix epoch; zero for a cookie that does not expire.
    pub expiry: Option<i64>,
    /// What scopes the cookie to a container; empty for one outside of containers.
    pub origin_attributes: Option<String>,
    pub last_accessed: Option<i64>,
}

/// The hosts under which the cookies of a site are stored.
pub struct HostNames {
    pub domain: String,
    pub bare: String,
    pub www: String,
}

/// `host` without its leading dots.
pub open spec fn bare_host(host: Seq<char>) -> Seq<char>
    decreases host.len(),
{
    if host.len() > 0 && host[0] == '.' {
        bare_host(host.skip(1))
    } else {
        host
    }
}

/// Whether a column holds exactly this text.
pub open spec fn column_is(column: Option<String>, wanted: Seq<char>) -> bool {
    column matches Some(found) && found@ == wanted
}

/// Whether a row belongs to the site `host`.
pub open spec fn is_of_host(row: MozCookie, host: Seq<char>) -> bool {
    let bare = bare_host(host);
    ||| column_is(row.host, "."@ + bare)
    ||| column_is(row.host, bare)
    ||| column_is(row.host, "www."@ + bare)
}

/// Whether a row has not expired at the time `now`.
pub open spec fn is_unexpired(row: MozCookie, now: i64) -> bool {
    row.expiry matches Some(expiry) && (expiry == 0 || expiry > now)
}

/// Whether a row is a login cookie.
pub open spec fn is_login_row(row: MozCookie) -> bool {
    ||| column_is(row.name, "SESSDATA"@)
    ||| column_is(row.name, "bili_jct"@)
    ||| column_is(row.name, "DedeUserID"@)
}

/// Whether a row is read: an unexpired login cookie of the site, for all its paths,
/// outside of containers.
pub open spec fn is_wanted(row: MozCookie, host: Seq<char>, now: i64) -> bool {
    &&& is_of_host(row, host)
    &&& column_is(row.path, "/"@)
    &&& is_unexpired(row, now)
    &&& column_is(row.origin_attributes, ""@)
    &&& is_login_row(row)
}

/// When a row was last accessed. A row without that time comes before all others.
pub open spec fn access_key(row: MozCookie) -> int {
    match row.last_accessed {
        Some(time) => time as int,
        None => i64::MIN - 1,
    }
}

/// The index `k` of a row put behind the last index in `order` whose row was not
/// accessed later.
pub open spec fn with_row(rows: Seq<MozCookie>, order: Seq<int>, k: int) -> Seq<int>
    decreases order.len(),
{
    if order.len() == 0 || access_key(rows[order.last()]) <= access_key(rows[k]) {
        order.push(k)
    } else {
        with_row(rows, order.drop_last(), k).push(order.last())
    }
}

/// The indices of the wanted rows among the first `n`, in the order of their last
/// access.
pub open spec fn access_order(rows: Seq<MozCookie>, host: Seq<char>, now: i64, n: int) -> Seq<int>
    decreases n,
{
    if n <= 0 {
        Seq::empty()
    } else {
        let before = access_order(rows, host, now, n - 1);
        if is_wanted(rows[n - 1], host, now) {
            with_row(rows, before, n - 1)
        } else {
            before
        }
    }
}

/// Whether some wanted row has no value.
pub open spec fn lacks_value(rows: Seq<MozCookie>, host: Seq<char>, now: i64) -> bool {
    exists|k: int|
        0 <= k < rows.len() && is_wanted(#[trigger] rows[k], host, now) && rows[k].value is None
}

/// Whether `cookies` are the rows with the indices `order`.
pub open spec fn are_rows(cookies: Seq<FirefoxCookie>, rows: Seq<MozCookie>, order: Seq<int>) -> bool {
    &&& cookies.len() == order.len()
    &&& forall|i: int|
        0 <= i < order.len() ==> {
            let row = rows[#[trigger] order[i]];
            &&& row.name matches Some(name) && name@ == cookies[i].name@
            &&& row.value matches Some(value) && value@ == cookies[i].value@
        }
}

/// The values that the rows with the indices `order` give. A later row wins over an
/// earlier one, and a row with an empty name or value does not count.
pub open spec fn row_values(rows: Seq<MozCookie>, order: Seq<int>) -> cookies::Values
    decreases order.len(),
{
    if order.len() == 0 {
        Map::empty()
    } else {
        let before = row_values(rows, order.drop_last());
        let row = rows[order.last()];
        let name = row.name->Some_0@;
        let value = row.value->Some_0@;
        if name.len() > 0 && value.len() > 0 {
            before.insert(name, value)
        } else {
            before
        }
    }
}

/// The values of the wanted rows.
pub open spec fn database_values(rows: Seq<MozCookie>, host: Seq<char>, now: i64) -> cookies::Values {
    row_values(rows, access_order(rows, host, now, rows.len() as int))
}

/// The hosts under which the cookies of the site `host` are stored.
pub fn host_names(host: &str) -> (res: HostNames)
    ensures
        res.domain@ == "."@ + bare_host(host@),
        res.bare@ == bare_host(host@),
        res.www@ == "www."@ + bare_host(host@),
{
    let chars = text::chars_of(host);
    let mut from: usize = 0;
    assert(host@.skip(0) == host@);
    while from < chars.len() && chars[from] == '.'
        invariant
            chars@ == host@,
            from <= chars.len(),
            bare_host(host@) == bare_host(host@.skip(from as int)),
        decreases chars.len() - from,
    {
        assert(host@.skip(from as int).skip(1) == host@.skip(from + 1));
        from = from + 1;
    }
    let bare = host.substring_char(from, chars.len());
    assert(bare@ == host@.skip(from as int));
    let mut domain: String = ".".to_owned();
    domain.append(bare);
    let mut www: String = "www.".to_owned();
    www.append(bare);
    HostNames { domain, bare: bare.to_owned(), www }
}

fn column_equals(column: &Option<String>, wanted: &str) -> (res: bool)
    ensures
        res == column_is(*column, wanted@),
{
    match column {
        Some(found) => text::same_text(found.as_str(), wanted),
        None => false,
    }
}

fn wants(row: &MozCookie, names: &HostNames, Ghost(host): Ghost<Seq<char>>, now: i64) -> (res: bool)
    requires
        names.domain@ == "."@ + bare_host(host),
        names.bare@ == bare_host(host),
        names.www@ == "www."@ + bare_host(host),
    ensures
        res == is_wanted(*row, host, now),
{
    let of_host = column_equals(&row.host, names.domain.as_str()) || column_equals(
        &row.host,
        names.bare.as_str(),
    ) || column_equals(&row.host, names.www.as_str());
    let unexpired = match row.expiry {
        Some(expiry) => expiry == 0 || expiry > now,
        None => false,
    };
    let of_login = column_equals(&row.name, "SESSDATA") || column_equals(&row.name, "bili_jct")
        || column_equals(&row.name, "DedeUserID");
    of_host && column_equals(&row.path, "/") && unexpired && column_equals(
        &row.origin_attributes,
        "",
    ) && of_login
}

/// Whether `a` was accessed later than `b`.
fn accessed_later(a: &MozCookie, b: &MozCookie) -> (res: bool)
    ensures
        res == (access_key(*a) > access_key(*b)),
{
    match (a.last_accessed, b.last_accessed) {
        (Some(x), Some(y)) => x > y,
        (Some(_), None) => true,
        (None, _) => false,
    }
}

proof fn lemma_with_row(rows: Seq<MozCookie>, order: Seq<int>, k: int, at: int)
    requires
        0 <= at <= order.len(),
        forall|i: int|
            at <= i < order.len() ==> access_key(rows[#[trigger] order[i]]) > access_key(rows[k]),
        at > 0 ==> access_key(rows[order[at - 1]]) <= access_key(rows[k]),
    ensures
        with_row(rows, order, k) == order.insert(at, k),
    decreases order.len(),
{
    if at == order.len() {
        assert(order.push(k) == order.insert(at, k));
    } else {
        let front = order.drop_last();
        assert forall|i: int| at <= i < front.len() implies access_key(rows[#[trigger] front[i]])
            > access_key(rows[k]) by {
            assert(front[i] == order[i]);
        }
        assert(access_key(rows[order[order.len() - 1]]) > access_key(rows[k]));
        lemma_with_row(rows, front, k, at);
        assert(front.insert(at, k).push(order.last()) == order.insert(at, k));
    }
}

/// The numbers of a list of indices.
spec fn ints(order: Seq<usize>) -> Seq<int> {
    order.map_values(|k: usize| k as int)
}

/// The indices of the wanted rows, in the order of their last access.
fn order_rows(rows: &Vec<MozCookie>, host: &str, now: i64) -> (res: Vec<usize>)
    ensures
        ints(res@) == access_order(rows@, host@, now, rows.len() as int),
        forall|i: int|
            0 <= i < res.len() ==> #[trigger] res@[i] < rows.len() && is_wanted(
                rows@[res@[i] as int],
                host@,
                now,
            ),
        forall|k: int|
            0 <= k < rows.len() && is_wanted(#[trigger] rows@[k], host@, now) ==> exists|i: int|
                0 <= i < res.len() && #[trigger] res@[i] == k,
{
    let names = host_names(host);
    let mut order: Vec<usize> = Vec::new();
    assert(ints(order@) == Seq::<int>::empty());
    let mut k: usize = 0;
    while k < rows.len()
        invariant
            names.domain@ == "."@ + bare_host(host@),
            names.bare@ == bare_host(host@),
            names.www@ == "www."@ + bare_host(host@),
            k <= rows.len(),
            ints(order@) == access_order(rows@, host@, now, k as int),
            forall|i: int|
                0 <= i < order.len() ==> #[trigger] order@[i] < k && is_wanted(
                    rows@[order@[i] as int],
                    host@,
                    now,
                ),
            forall|j: int|
                0 <= j < k && is_wanted(#[trigger] rows@[j], host@, now) ==> exists|i: int|
                    0 <= i < order.len() && #[trigger] order@[i] == j,
        decreases rows.len() - k,
    {
        if wants(&rows[k], &names, Ghost(host@), now) {
            let mut at: usize = order.len();
            while at > 0 && accessed_later(&rows[order[at - 1]], &rows[k])
                invariant
                    k < rows.len(),
                    forall|i: int| 0 <= i < order.len() ==> #[trigger] order@[i] < k,
                    at <= order.len(),
                    forall|i: int|
                        at <= i < order.len() ==> access_key(rows@[#[trigger] order@[i] as int])
                            > access_key(rows@[k as int]),
                decreases at,
            {
                at = at - 1;
            }
            let ghost held = order@;
            let ghost before = ints(order@);
            proof {
                assert forall|i: int| at <= i < before.len() implies access_key(
                    rows@[#[trigger] before[i]],
                ) > access_key(rows@[k as int]) by {
                    assert(before[i] == order@[i]);
                }
                lemma_with_row(rows@, before, k as int, at as int);
            }
            order.insert(at, k);
            assert(ints(order@) == before.insert(at as int, k as int));
            assert forall|j: int|
                0 <= j < k + 1 && is_wanted(#[trigger] rows@[j], host@, now) implies exists|i: int|
                0 <= i < order.len() && #[trigger] order@[i] == j by {
                if j == k {
                    assert(order@[at as int] == k);
                } else {
                    let i = choose|i: int| 0 <= i < held.len() && #[trigger] held[i] == j;
                    if i < at {
                        assert(order@[i] == j);
                    } else {
                        assert(order@[i + 1] == j);
                    }
                }
            }
        }
        k = k + 1;
    }
    order
}

/// The login cookies among `rows` that are read for the site `host` at the time `now`,
/// in the order of their last access. A wanted cookie without a value is an error.
pub fn select_cookies(rows: &Vec<MozCookie>, host: &str, now: i64) -> (res: Result<
    Vec<FirefoxCookie>,
    CookieError,
>)
    ensures
        match res {
            Ok(cookies) => !lacks_value(rows@, host@, now) && are_rows(
                cookies@,
                rows@,
                access_order(rows@, host@, now, rows.len() as int),
            ),
            Err(e) => lacks_value(rows@, host@, now) && e == CookieError::NullValue,
        },
{
    let order = order_rows(rows, host, now);
    let ghost indices = access_order(rows@, host@, now, rows.len() as int);
    let mut found: Vec<FirefoxCookie> = Vec::new();
    let mut i: usize = 0;
    while i < order.len()
        invariant
            ints(order@) == indices,
            forall|j: int|
                0 <= j < order.len() ==> #[trigger] order@[j] < rows.len() && is_wanted(
                    rows@[order@[j] as int],
                    host@,
                    now,
                ),
            i <= order.len(),
            are_rows(found@, rows@, indices.take(i as int)),
            forall|j: int|
                0 <= j < i ==> rows@[#[trigger] order@[j] as int].value is Some,
        decreases order.len() - i,
    {
        let row = &rows[order[i]];
        assert(is_wanted(*row, host@, now));
        match (&row.name, &row.value) {
            (Some(name), Some(value)) => {
                let ghost before = found@;
                found.push(FirefoxCookie { name: name.clone(), value: value.clone() });
                assert(are_rows(found@, rows@, indices.take(i + 1))) by {
                    assert(indices[i as int] == order@[i as int]);
                    assert forall|j: int| 0 <= j < i + 1 implies {
                        let row = rows@[#[trigger] indices.take(i + 1)[j]];
                        &&& row.name matches Some(name) && name@ == found@[j].name@
                        &&& row.value matches Some(value) && value@ == found@[j].value@
                    } by {
                        if j < i {
                            assert(indices.take(i + 1)[j] == indices.take(i as int)[j]);
                            assert(found@[j] == before[j]);
                        }
                    }
                }
            },
            _ => {
                return Err(CookieError::NullValue);
            },
        }
        i = i + 1;
    }
    assert(indices.take(i as int) == indices);
    assert(!lacks_value(rows@, host@, now)) by {
        if lacks_value(rows@, host@, now) {
            let k = choose|k: int|
                0 <= k < rows.len() && is_wanted(#[trigger] rows@[k], host@, now)
                    && rows@[k].value is None;
            let j = choose|j: int| 0 <= j < order.len() && #[trigger] order@[j] == k;
            assert(rows@[order@[j] as int].value is Some);
        }
    }
    Ok(found)
}

proof fn lemma_row_values(found: Seq<FirefoxCookie>, rows: Seq<MozCookie>, order: Seq<int>)
    requires
        are_rows(found, rows, order),
    ensures
        cookies::stored_values(found) == row_values(rows, order),
    decreases order.len(),
{
    if order.len() > 0 {
        assert forall|i: int| 0 <= i < order.drop_last().len() implies {
            let row = rows[#[trigger] order.drop_last()[i]];
            &&& row.name matches Some(name) && name@ == found.drop_last()[i].name@
            &&& row.value matches Some(value) && value@ == found.drop_last()[i].value@
        } by {
            assert(order[i] == order.drop_last()[i]);
        }
        lemma_row_values(found.drop_last(), rows, order.drop_last());
        assert(order[order.len() - 1] == order.last());
    }
}

/// The header for the login cookies among `rows`, for the site `host` at the time `now`.
pub fn read_firefox_cookies(rows: &Vec<MozCookie>, host: &str, now: i64) -> (res: Result<
    String,
    CookieError,
>)
    ensures
        match res {
            Ok(header) => !lacks_value(rows@, host@, now) && cookies::login_header(
                database_values(rows@, host@, now),
            ) == Some(header@),
            Err(CookieError::NullValue) => lacks_value(rows@, host@, now),
            Err(e) => e == CookieError::MissingSession && !lacks_value(rows@, host@, now)
                && cookies::login_header(database_values(rows@, host@, now)) is None,
        },
{
    match select_cookies(rows, host, now) {
        Ok(found) => {
            proof {
                lemma_row_values(
                    found@,
                    rows@,
                    access_order(rows@, host@, now, rows.len() as int),
                );
            }
            cookies::cookie_header(found)
        },
        Err(e) => Err(e),
    }
}

/// Whether the row with index `a` is read before the one with index `b`: it was accessed
/// earlier, or at the same time and is stored earlier.
pub open spec fn read_before(rows: Seq<MozCookie>, a: int, b: int) -> bool {
    access_key(rows[a]) < access_key(rows[b]) || (access_key(rows[a]) == access_key(rows[b]) && a
        < b)
}

proof fn lemma_with_row_members(rows: Seq<MozCookie>, order: Seq<int>, k: int)
    requires
        forall|i: int| 0 <= i < order.len() ==> #[trigger] order[i] < k,
        forall|i: int, j: int|
            0 <= i < j < order.len() ==> read_before(
                rows,
                #[trigger] order[i],
                #[trigger] order[j],
            ),
    ensures
        ({
            let after = with_row(rows, order, k);
            &&& forall|i: int, j: int|
                0 <= i < j < after.len() ==> read_before(
                    rows,
                    #[trigger] after[i],
                    #[trigger] after[j],
                )
            &&& forall|x: int| after.contains(x) <==> x == k || order.contains(x)
        }),
    decreases order.len(),
{
    let after = with_row(rows, order, k);
    let n = order.len() as int;
    if n == 0 || access_key(rows[order.last()]) <= access_key(rows[k]) {
        assert forall|i: int, j: int| 0 <= i < j < after.len() implies read_before(
            rows,
            #[trigger] after[i],
            #[trigger] after[j],
        ) by {
            assert(after[i] == order[i]);
            if j < n {
                assert(after[j] == order[j]);
            } else if i < n - 1 {
                assert(read_before(rows, order[i], order[n - 1]));
            }
        }
        assert forall|x: int| after.contains(x) <==> x == k || order.contains(x) by {
            if order.contains(x) {
                let i = choose|i: int| 0 <= i < order.len() && order[i] == x;
                assert(after[i] == x);
            }
            assert(after[n] == k);
        }
    } else {
        let front = order.drop_last();
        let head = with_row(rows, front, k);
        assert forall|i: int, j: int| 0 <= i < j < front.len() implies read_before(
            rows,
            #[trigger] front[i],
            #[trigger] front[j],
        ) by {
            assert(front[i] == order[i] && front[j] == order[j]);
        }
        assert forall|i: int| 0 <= i < front.len() implies #[trigger] front[i] < k by {
            assert(front[i] == order[i]);
        }
        lemma_with_row_members(rows, front, k);
        assert forall|i: int, j: int| 0 <= i < j < after.len() implies read_before(
            rows,
            #[trigger] after[i],
            #[trigger] after[j],
        ) by {
            assert(after[i] == head[i]);
            if j < head.len() {
                assert(after[j] == head[j]);
            } else {
                assert(head.contains(head[i]));
                if head[i] != k {
                    let m = choose|m: int| 0 <= m < front.len() && front[m] == head[i];
                    assert(order[m] == head[i]);
                    assert(read_before(rows, order[m], order[n - 1]));
                }
            }
        }
        assert forall|x: int| after.contains(x) <==> x == k || order.contains(x) by {
            if x == k {
                assert(head.contains(x));
            }
            if order.contains(x) {
                let i = choose|i: int| 0 <= i < order.len() && order[i] == x;
                if i < n - 1 {
                    assert(front[i] == x);
                    assert(head.contains(x));
                } else {
                    assert(after[after.len() - 1] == x);
                }
            }
            if head.contains(x) {
                let i = choose|i: int| 0 <= i < head.len() && head[i] == x;
                assert(after[i] == x);
            }
            if after.contains(x) {
                let i = choose|i: int| 0 <= i < after.len() && after[i] == x;
                if i < head.len() {
                    assert(head[i] == x);
                    assert(head.contains(x));
                    if x != k {
                        let m = choose|m: int| 0 <= m < front.len() && front[m] == x;
                        assert(order[m] == x);
                    }
                } else {
                    assert(order[n - 1] == x);
                }
            }
        }
    }
}

/// Exactly the wanted rows are read, each once, in the order of their last access.
pub proof fn law_wanted_rows_are_read_in_order(
    rows: Seq<MozCookie>,
    host: Seq<char>,
    now: i64,
    n: int,
)
    requires
        0 <= n <= rows.len(),
    ensures
        ({
            let order = access_order(rows, host, now, n);
            &&& forall|k: int|
                #![trigger order.contains(k)]
                #![trigger rows[k]]
                order.contains(k) <==> 0 <= k < n && is_wanted(rows[k], host, now)
            &&& forall|i: int, j: int|
                0 <= i < j < order.len() ==> read_before(
                    rows,
                    #[trigger] order[i],
                    #[trigger] order[j],
                )
        }),
    decreases n,
{
    if n > 0 {
        let before = access_order(rows, host, now, n - 1);
        law_wanted_rows_are_read_in_order(rows, host, now, n - 1);
        assert forall|i: int| 0 <= i < before.len() implies #[trigger] before[i] < n - 1 by {
            assert(before.contains(before[i]));
        }
        lemma_with_row_members(rows, before, n - 1);
        let order = access_order(rows, host, now, n);
        assert forall|k: int|
            #![trigger order.contains(k)]
            #![trigger rows[k]]
            order.contains(k) <==> 0 <= k < n && is_wanted(rows[k], host, now) by {
            assert(order.contains(k) <==> before.contains(k) || (k == n - 1 && is_wanted(
                rows[n - 1],
                host,
                now,
            )));
        }
    }
}

proof fn lemma_row_values_source(rows: Seq<MozCookie>, order: Seq<int>, name: Seq<char>)
    ensures
        row_values(rows, order).contains_key(name) ==> exists|i: int|
            0 <= i < order.len() && rows[#[trigger] order[i]].name->Some_0@ == name
                && rows[order[i]].value->Some_0@ == row_values(rows, order)[name],
    decreases order.len(),
{
    if order.len() > 0 && row_values(rows, order).contains_key(name) {
        let front = order.drop_last();
        let last = order.len() - 1;
        lemma_row_values_source(rows, front, name);
        if rows[order[last]].name->Some_0@ == name && rows[order[last]].value->Some_0@.len() > 0
            && name.len() > 0 {
            assert(rows[order[last]].value->Some_0@ == row_values(rows, order)[name]);
        } else {
            let i = choose|i: int|
                0 <= i < front.len() && rows[#[trigger] front[i]].name->Some_0@ == name
                    && rows[front[i]].value->Some_0@ == row_values(rows, front)[name];
            assert(order[i] == front[i]);
        }
    }
}

/// Every value that the database gives comes from a row that has not expired, belongs to
/// the site, holds for all paths and is outside of containers.
pub proof fn law_only_live_cookies_are_used(
    rows: Seq<MozCookie>,
    host: Seq<char>,
    now: i64,
    name: Seq<char>,
)
    requires
        database_values(rows, host, now).contains_key(name),
    ensures
        exists|k: int|
            0 <= k < rows.len() && is_wanted(#[trigger] rows[k], host, now) && column_is(
                rows[k].name,
                name,
            ) && rows[k].value->Some_0@ == database_values(rows, host, now)[name],
{
    let order = access_order(rows, host, now, rows.len() as int);
    law_wanted_rows_are_read_in_order(rows, host, now, rows.len() as int);
    lemma_row_values_source(rows, order, name);
    let i = choose|i: int|
        0 <= i < order.len() && rows[#[trigger] order[i]].name->Some_0@ == name
            && rows[order[i]].value->Some_0@ == row_values(rows, order)[name];
    assert(order.contains(order[i]));
    assert(is_wanted(rows[order[i]], host, now));
}

/// What to do next in the search for a profile whose cookies can be read.
pub enum SearchAction {
    /// Read the profile with this index.
    Read(usize),
    /// The search ends with this header.
    Found(String),
    /// The search ends without a header: the profile with this index was the last one,
    /// and this is why it could not be read.
    Failed(usize, String),
    /// There is no profile to search.
    Nothing,
}

/// What a `SearchAction` says.
pub enum SearchStep {
    Read(int),
    Found(Seq<char>),
    Failed(int, Seq<char>),
    Nothing,
}

impl View for SearchAction {
    type V = SearchStep;

    open spec fn view(&self) -> SearchStep {
        match *self {
            SearchAction::Read(profile) => SearchStep::Read(profile as int),
            SearchAction::Found(header) => SearchStep::Found(header@),
            SearchAction::Failed(profile, cause) => SearchStep::Failed(profile as int, cause@),
            SearchAction::Nothing => SearchStep::Nothing,
        }
    }
}

/// What reading a profile gave: its header, or why it could not be read.
pub type Reading = Result<Seq<char>, Seq<char>>;

/// What reading a profile gave, as text.
pub open spec fn reading_of(outcome: Result<String, String>) -> Reading {
    match outcome {
        Ok(header) => Ok(header@),
        Err(cause) => Err(cause@),
    }
}

/// What follows when the profile with the index `tried`, of `count` profiles, was read
/// with this outcome.
pub open spec fn after_reading(count: int, tried: int, reading: Reading) -> SearchStep {
    match reading {
        Ok(header) => SearchStep::Found(header),
        Err(cause) => if tried + 1 < count {
            SearchStep::Read(tried + 1)
        } else {
            SearchStep::Failed(tried, cause)
        },
    }
}

/// How a search through `count` profiles starts.
pub open spec fn search_start(count: int) -> SearchStep {
    if count > 0 {
        SearchStep::Read(0)
    } else {
        SearchStep::Nothing
    }
}

/// Starts the search through `count` profiles.
pub fn start_search(count: usize) -> (res: SearchAction)
    ensures
        res@ == search_start(count as int),
{
    if count > 0 {
        SearchAction::Read(0)
    } else {
        SearchAction::Nothing
    }
}

/// Goes on after the profile with the index `tried` was read with this outcome: the
/// first profile that can be read ends the search.
pub fn continue_search(count: usize, tried: usize, outcome: Result<String, String>) -> (res:
    SearchAction)
    requires
        tried < count,
    ensures
        res@ == after_reading(count as int, tried as int, reading_of(outcome)),
{
    match outcome {
        Ok(header) => SearchAction::Found(header),
        Err(cause) => if tried + 1 < count {
            SearchAction::Read(tried + 1)
        } else {
            SearchAction::Failed(tried, cause)
        },
    }
}

/// How the search ends, once the profile with the index `from` is to be read, where
/// reading each profile gives `readings`.
pub open spec fn search_end(readings: Seq<Reading>, from: int) -> SearchStep
    decreases readings.len() - from,
{
    if 0 <= from < readings.len() {
        match after_reading(readings.len() as int, from, readings[from]) {
            SearchStep::Read(next) => if next > from {
                search_end(readings, next)
            } else {
                SearchStep::Nothing
            },
            end => end,
        }
    } else {
        SearchStep::Nothing
    }
}

proof fn lemma_search_end(readings: Seq<Reading>, from: int, k: int)
    requires
        0 <= from <= k < readings.len(),
        forall|i: int| from <= i < k ==> #[trigger] readings[i] is Err,
        readings[k] is Ok || k == readings.len() - 1,
    ensures
        search_end(readings, from) == match readings[k] {
            Ok(header) => SearchStep::Found(header),
            Err(cause) => SearchStep::Failed(k, cause),
        },
    decreases k - from,
{
    if from < k {
        assert(readings[from] is Err);
        lemma_search_end(readings, from + 1, k);
    }
}

/// The search ends with the first profile that can be read; where none can, with the
/// failure of the last one.
pub proof fn law_first_readable_profile_wins(readings: Seq<Reading>, k: int)
    requires
        0 <= k < readings.len(),
        forall|i: int| 0 <= i < k ==> #[trigger] readings[i] is Err,
        readings[k] is Ok || k == readings.len() - 1,
    ensures
        search_start(readings.len() as int) == SearchStep::Read(0),
        search_end(readings, 0) == match readings[k] {
            Ok(header) => SearchStep::Found(header),
            Err(cause) => SearchStep::Failed(k, cause),
        },
{
    lemma_search_end(readings, 0, k);
}

/// All leading dots of a host are passed over, and nothing else of it.
pub proof fn law_leading_dots_make_no_difference(dots: Seq<char>, bare: Seq<char>)
    requires
        forall|i: int| 0 <= i < dots.len() ==> #[trigger] dots[i] == '.',
        bare.len() > 0 ==> bare[0] != '.',
    ensures
        bare_host(dots + bare) == bare,
    decreases dots.len(),
{
    if dots.len() == 0 {
        assert(dots + bare == bare);
    } else {
        let rest = dots.skip(1);
        assert forall|i: int| 0 <= i < rest.len() implies #[trigger] rest[i] == '.' by {
            assert(rest[i] == dots[i + 1]);
        }
        assert((dots + bare)[0] == dots[0]);
        assert((dots + bare).skip(1) == rest + bare);
        law_leading_dots_make_no_difference(rest, bare);
    }
}

/// Which rows are read for a site, column by column: those of the domain, of the bare host
/// and of its `www` host, for the path `/`, outside of containers, with one of the three
/// login names, that never expire or expire later than now, however much later. Dots in
/// front of the site make no difference.
pub proof fn law_columns_decide_what_is_read(
    row: MozCookie,
    dots: Seq<char>,
    bare: Seq<char>,
    now: i64,
)
    requires
        forall|i: int| 0 <= i < dots.len() ==> #[trigger] dots[i] == '.',
        bare.len() > 0 ==> bare[0] != '.',
    ensures
        is_wanted(row, dots + bare, now) <==> {
            &&& row.host matches Some(host) && (host@ == "."@ + bare || host@ == bare || host@
                == "www."@ + bare)
            &&& row.path matches Some(path) && path@ == "/"@
            &&& row.expiry matches Some(expiry) && (expiry == 0 || expiry > now)
            &&& row.origin_attributes matches Some(origin) && origin@.len() == 0
            &&& row.name matches Some(name) && (name@ == "SESSDATA"@ || name@ == "bili_jct"@
                || name@ == "DedeUserID"@)
        },
{
    law_leading_dots_make_no_difference(dots, bare);
    reveal_strlit("");
    if let Some(origin) = row.origin_attributes {
        assert(origin@.len() == 0 ==> origin@ == ""@);
    }
}

/// A row that is read is also read with any later expiry and at any earlier time, and one
/// that never expires is read at any time.
pub proof fn law_later_expiry_is_read_too(
    row: MozCookie,
    later: MozCookie,
    host: Seq<char>,
    now: i64,
    other: i64,
)
    requires
        is_wanted(row, host, now),
        later == (MozCookie { expiry: later.expiry, ..row }),
        later.expiry is Some,
        later.expiry == Some(0i64) || (row.expiry->Some_0 > 0 && later.expiry->Some_0
            >= row.expiry->Some_0 && other <= now),
    ensures
        is_wanted(later, host, other),
{
}

/// A row is never read once the time has reached its expiry, unless it never expires.
pub proof fn law_expired_row_is_not_read(row: MozCookie, host: Seq<char>, now: i64, expiry: i64)
    requires
        row.expiry == Some(expiry),
        expiry != 0,
        expiry <= now,
    ensures
        !is_wanted(row, host, now),
{
}

/// Rows are read in the order of their last access, as the column says: those without one
/// first, and those of the same time in the order in which they are stored.
pub proof fn law_last_access_orders_rows(
    rows: Seq<MozCookie>,
    host: Seq<char>,
    now: i64,
    i: int,
    j: int,
)
    requires
        0 <= i < j < access_order(rows, host, now, rows.len() as int).len(),
    ensures
        ({
            let order = access_order(rows, host, now, rows.len() as int);
            match (rows[order[i]].last_accessed, rows[order[j]].last_accessed) {
                (Some(x), Some(y)) => x < y || (x == y && order[i] < order[j]),
                (None, Some(_)) => true,
                (None, None) => order[i] < order[j],
                (Some(_), None) => false,
            }
        }),
{
    let order = access_order(rows, host, now, rows.len() as int);
    law_wanted_rows_are_read_in_order(rows, host, now, rows.len() as int);
    assert(read_before(rows, order[i], order[j]));
}

proof fn lemma_last_row_counts(rows: Seq<MozCookie>, order: Seq<int>, p: int)
    requires
        0 <= p < order.len(),
        rows[order[p]].name->Some_0@.len() > 0,
        rows[order[p]].value->Some_0@.len() > 0,
        forall|q: int|
            p < q < order.len() ==> rows[#[trigger] order[q]].name->Some_0@
                != rows[order[p]].name->Some_0@ || rows[order[q]].value->Some_0@.len() == 0,
    ensures
        row_values(rows, order).contains_key(rows[order[p]].name->Some_0@),
        row_values(rows, order)[rows[order[p]].name->Some_0@] == rows[order[p]].value->Some_0@,
    decreases order.len(),
{
    if p < order.len() - 1 {
        let front = order.drop_last();
        assert(front[p] == order[p]);
        assert forall|q: int| p < q < front.len() implies rows[#[trigger] front[q]].name->Some_0@
            != rows[front[p]].name->Some_0@ || rows[front[q]].value->Some_0@.len() == 0 by {
            assert(front[q] == order[q]);
        }
        lemma_last_row_counts(rows, front, p);
        assert(order[order.len() - 1] == order.last());
    }
}

/// Of the rows of one name that are read and have a value, the one that was accessed last
/// counts, with its whole value.
pub proof fn law_last_accessed_row_counts(
    rows: Seq<MozCookie>,
    host: Seq<char>,
    now: i64,
    k: int,
    name: Seq<char>,
    value: Seq<char>,
)
    requires
        0 <= k < rows.len(),
        is_wanted(rows[k], host, now),
        rows[k].name matches Some(found) && found@ == name,
        rows[k].value matches Some(found) && found@ == value,
        value.len() > 0,
        forall|j: int|
            #![trigger rows[j]]
            0 <= j < rows.len() && j != k && is_wanted(rows[j], host, now) ==> rows[j].value is Some
                && (rows[j].name->Some_0@ != name || rows[j].value->Some_0@.len() == 0 || match (
                rows[j].last_accessed,
                rows[k].last_accessed,
            ) {
                (Some(x), Some(y)) => x < y || (x == y && j < k),
                (None, Some(_)) => true,
                (None, None) => j < k,
                (Some(_), None) => false,
            }),
    ensures
        database_values(rows, host, now).contains_key(name),
        database_values(rows, host, now)[name] == value,
{
    let n = rows.len() as int;
    let order = access_order(rows, host, now, n);
    law_wanted_rows_are_read_in_order(rows, host, now, n);
    assert(order.contains(k));
    let p = choose|p: int| 0 <= p < order.len() && order[p] == k;
    reveal_strlit("SESSDATA");
    reveal_strlit("bili_jct");
    reveal_strlit("DedeUserID");
    assert forall|q: int| p < q < order.len() implies rows[#[trigger] order[q]].name->Some_0@
        != rows[order[p]].name->Some_0@ || rows[order[q]].value->Some_0@.len() == 0 by {
        assert(order.contains(order[q]));
        assert(read_before(rows, order[p], order[q]));
        assert(is_wanted(rows[order[q]], host, now));
    }
    lemma_last_row_counts(rows, order, p);
}

/// A database that holds a session which has not expired, however far ahead its expiry
/// lies, gives a header, whatever else it holds, as long as no row lacks its value.
pub proof fn law_unexpired_session_is_found(
    rows: Seq<MozCookie>,
    dots: Seq<char>,
    bare: Seq<char>,
    now: i64,
    k: int,
)
    requires
        forall|i: int| 0 <= i < dots.len() ==> #[trigger] dots[i] == '.',
        bare.len() > 0 ==> bare[0] != '.',
        forall|i: int| 0 <= i < rows.len() ==> (#[trigger] rows[i]).value is Some,
        0 <= k < rows.len(),
        rows[k].name matches Some(name) && name@ == "SESSDATA"@,
        rows[k].value->Some_0@.len() > 0,
        rows[k].host matches Some(host) && (host@ == "."@ + bare || host@ == bare || host@
            == "www."@ + bare),
        rows[k].path matches Some(path) && path@ == "/"@,
        rows[k].origin_attributes matches Some(origin) && origin@.len() == 0,
        rows[k].expiry matches Some(expiry) && (expiry == 0 || expiry > now),
    ensures
        !lacks_value(rows, dots + bare, now),
        cookies::login_header(database_values(rows, dots + bare, now)) is Some,
{
    let host = dots + bare;
    let n = rows.len() as int;
    let order = access_order(rows, host, now, n);
    law_columns_decide_what_is_read(rows[k], dots, bare, now);
    law_wanted_rows_are_read_in_order(rows, host, now, n);
    assert(order.contains(k));
    let p = choose|p: int| 0 <= p < order.len() && order[p] == k;
    lemma_some_row_counts(rows, order, p);
    cookies::law_login_header_is_spelled_out(row_values(rows, order));
}

/// A name with a value in some row has a value that is not empty.
proof fn lemma_some_row_counts(rows: Seq<MozCookie>, order: Seq<int>, p: int)
    requires
        0 <= p < order.len(),
        rows[order[p]].name matches Some(name) && name@ == "SESSDATA"@,
        rows[order[p]].value->Some_0@.len() > 0,
    ensures
        row_values(rows, order).contains_key("SESSDATA"@),
        row_values(rows, order)["SESSDATA"@].len() > 0,
    decreases order.len(),
{
    reveal_strlit("SESSDATA");
    if p < order.len() - 1 {
        let front = order.drop_last();
        assert(front[p] == order[p]);
        lemma_some_row_counts(rows, front, p);
    }
}

/// A row that is read and has no value is an error, and only such a row is.
pub proof fn law_only_rows_that_are_read_need_a_value(
    rows: Seq<MozCookie>,
    host: Seq<char>,
    now: i64,
    k: int,
)
    requires
        0 <= k < rows.len(),
    ensures
        is_wanted(rows[k], host, now) && rows[k].value is None ==> lacks_value(rows, host, now),
        (forall|i: int|
            0 <= i < rows.len() && is_wanted(rows[i], host, now) ==> (
            #[trigger] rows[i]).value is Some) ==> !lacks_value(rows, host, now),
{
}

/// A search without profiles has nothing to read, and any other starts with the first.
pub proof fn law_search_starts_with_the_first_profile(count: int)
    requires
        0 <= count,
    ensures
        count == 0 ==> search_start(count) == SearchStep::Nothing,
        count > 0 ==> search_start(count) == SearchStep::Read(0),
{
}

/// After a profile that cannot be read the next one is read, as long as there is one; a
/// profile that can be read ends the search with its whole header.
pub proof fn law_profiles_are_read_one_by_one(
    count: int,
    tried: int,
    header: Seq<char>,
    cause: Seq<char>,
)
    requires
        0 <= tried < count,
    ensures
        after_reading(count, tried, Ok(header)) == SearchStep::Found(header),
        tried < count - 1 ==> after_reading(count, tried, Err(cause)) == SearchStep::Read(
            tried + 1,
        ),
        tried == count - 1 ==> after_reading(count, tried, Err(cause)) == SearchStep::Failed(
            tried,
            cause,
        ),
{
}

/// A step of the search says its profile, its header and its cause, whole, and so does a
/// reading.
pub proof fn law_search_steps_say_what_they_hold(profile: usize, text: String)
    ensures
        SearchAction::Read(profile)@ == SearchStep::Read(profile as int),
        SearchAction::Found(text)@ == SearchStep::Found(text@),
        SearchAction::Failed(profile, text)@ == SearchStep::Failed(profile as int, text@),
        SearchAction::Nothing@ == SearchStep::Nothing,
        reading_of(Ok(text)) == Ok::<Seq<char>, Seq<char>>(text@),
        reading_of(Err(text)) == Err::<Seq<char>, Seq<char>>(text@),
{
}

/// The cookies that are selected are the rows that are read, each with its whole name and
/// its whole value.
pub proof fn law_selected_cookies_are_their_rows(
    found: Seq<FirefoxCookie>,
    rows: Seq<MozCookie>,
    order: Seq<int>,
    i: int,
)
    requires
        are_rows(found, rows, order),
        0 <= i < order.len(),
    ensures
        found.len() == order.len(),
        rows[order[i]].name matches Some(name) && found[i].name@ == name@,
        rows[order[i]].value matches Some(value) && found[i].value@ == value@,
{
}

} // verus!
