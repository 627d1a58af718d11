//! Request headers from the run's configuration, validated and collected
//! into the header map that every fetch sends.

use vstd::prelude::*;

use reqwest::header::HeaderMap;

verus! {

#[verifier::external_type_specification]
#[verifier::external_body]
#[verifier::reject_recursive_types(T)]
pub struct ExHeaderMap<T>(reqwest::header::HeaderMap<T>);

#[verifier::external_type_specification]
#[verifier::external_body]
pub struct ExHeaderValue(reqwest::header::HeaderValue);

/// The values of one configured header: one value, which replaces any
/// earlier value of that header, or several, which are added after them.
pub enum HeadersValue {
    Single(String),
    Multiple(Vec<String>),
}

pub ghost enum HeadersValueView {
    Single(Seq<char>),
    Multiple(Seq<Seq<char>>),
}

impl View for HeadersValue {
    type V = HeadersValueView;

    open spec fn view(&self) -> HeadersValueView {
        match self {
            HeadersValue::Single(v) => HeadersValueView::Single(v@),
            HeadersValue::Multiple(vs) => HeadersValueView::Multiple(vs.deep_view()),
        }
    }
}

/// A character that may stand in a header name.
pub open spec fn is_token_char(c: char) -> bool {
    ||| ('a' <= c && c <= 'z')
    ||| ('A' <= c && c <= 'Z')
    ||| ('0' <= c && c <= '9')
    ||| c == '!' || c == '#' || c == '$' || c == '%' || c == '&' || c == '\''
    ||| c == '*' || c == '+' || c == '-' || c == '.' || c == '^' || c == '_'
    ||| c == '`' || c == '|' || c == '~'
}

pub open spec fn ascii_lowercase(c: char) -> char {
    if 'A' <= c && c <= 'Z' {
        ((c as u32) + 32) as char
    } else {
        c
    }
}

/// The name that `reqwest::header::HeaderName::from_str` makes of `name`, as
/// its `as_str` gives it: `name` lowercased, where it has 1 to 65535
/// characters, all of them token characters; else `None`.
pub open spec fn header_name_of(name: Seq<char>) -> Option<Seq<char>> {
    if 0 < name.len() <= 65535 && forall|i: int| 0 <= i < name.len() ==> is_token_char(name[i]) {
        Some(name.map_values(|c: char| ascii_lowercase(c)))
    } else {
        None
    }
}

/// What a header map holds: for each header name, its values in order.
pub uninterp spec fn header_contents(m: HeaderMap) -> Map<Seq<char>, Seq<Seq<char>>>;

/// A header value may hold any character but the control characters other
/// than tab.
pub open spec fn header_value_ok(v: Seq<char>) -> bool {
    forall|i: int| 0 <= i < v.len() ==> (v[i] == '\t' || (v[i] as u32 >= 32 && v[i] as u32 != 127))
}

/// Relies on `reqwest::header::HeaderName::from_str`, which accepts a name
/// of 1 to 65535 bytes that its table of token characters maps to nonzero
/// bytes, and keeps those bytes lowercased.
#[verifier::external_body]
fn header_name_ok(name: &str) -> (r: bool)
    ensures
        r == header_name_of(name@) is Some,
{
    <reqwest::header::HeaderName as std::str::FromStr>::from_str(name).is_ok()
}

pub open spec fn no_headers() -> Map<Seq<char>, Seq<Seq<char>>> {
    Map::empty()
}

/// Relies on `reqwest::header::HeaderMap::new`: a new map holds nothing.
#[verifier::external_body]
fn new_header_map() -> (r: HeaderMap)
    ensures
        header_contents(r) == no_headers(),
{
    HeaderMap::new()
}

/// Relies on `reqwest::header::HeaderMap::try_insert`: the value replaces
/// every earlier value of the name; where the map cannot grow it fails and
/// leaves the map as it was. It can grow while it holds fewer than 6554
/// names: it grows its index table, of at most 32768 slots, only once five
/// times its count of names reaches the table's size.
#[verifier::external_body]
fn insert_header(m: &mut HeaderMap, name: &str, value: &str) -> (r: bool)
    requires
        header_name_of(name@) is Some,
        header_value_ok(value@),
    ensures
        r ==> header_contents(*final(m)) == header_contents(*old(m)).insert(header_name_of(name@)->0, seq![value@]),
        !r ==> header_contents(*final(m)) == header_contents(*old(m)),
        header_contents(*old(m)).dom().finite() && header_contents(*old(m)).dom().len() < 6554 ==> r,
{
    match (name.parse::<reqwest::header::HeaderName>(), value.parse::<reqwest::header::HeaderValue>()) {
        (Ok(n), Ok(v)) => m.try_insert(n, v).is_ok(),
        _ => false,
    }
}

/// The values a map holds for `name`.
pub open spec fn values_of(m: Map<Seq<char>, Seq<Seq<char>>>, name: Seq<char>) -> Seq<Seq<char>> {
    if m.contains_key(name) {
        m[name]
    } else {
        Seq::empty()
    }
}

/// Relies on `reqwest::header::HeaderMap::try_append`: the value follows the
/// earlier values of the name; where the map cannot grow it fails and leaves
/// the map as it was, which happens only as for `insert_header`.
#[verifier::external_body]
fn append_header(m: &mut HeaderMap, name: &str, value: &str) -> (r: bool)
    requires
        header_name_of(name@) is Some,
        header_value_ok(value@),
    ensures
        r ==> header_contents(*final(m)) == header_contents(*old(m)).insert(
            header_name_of(name@)->0,
            values_of(header_contents(*old(m)), header_name_of(name@)->0).push(value@),
        ),
        !r ==> header_contents(*final(m)) == header_contents(*old(m)),
        header_contents(*old(m)).dom().finite() && header_contents(*old(m)).dom().len() < 6554 ==> r,
{
    match (name.parse::<reqwest::header::HeaderName>(), value.parse::<reqwest::header::HeaderValue>()) {
        (Ok(n), Ok(v)) => m.try_append(n, v).is_ok(),
        _ => false,
    }
}


/// Whether `v` may be sent as a header value.
pub fn valid_header_value(v: &str) -> (r: bool)
    ensures
        r == header_value_ok(v@),
{
    let n = v.unicode_len();
    let mut i: usize = 0;
    while i < n
        invariant
            n == v@.len(),
            i <= n,
            forall|k: int| 0 <= k < i ==> (v@[k] == '\t' || (v@[k] as u32 >= 32 && v@[k] as u32 != 127)),
        decreases n - i,
    {
        let c = v.get_char(i);
        if !(c == '\t' || (c as u32 >= 32 && c as u32 != 127)) {
            return false;
        }
        i += 1;
    }
    true
}

/// The configured header `name` with `values` is valid: the name is a header
/// name, and every value may be sent.
pub open spec fn entry_ok(name: Seq<char>, values: HeadersValueView) -> bool {
    &&& header_name_of(name) is Some
    &&& match values {
        HeadersValueView::Single(v) => header_value_ok(v),
        HeadersValueView::Multiple(vs) => forall|j: int| 0 <= j < vs.len() ==> header_value_ok(vs[j]),
    }
}

/// The headers `m` with the configured values of the header named `name` applied.
pub open spec fn with_entry(m: Map<Seq<char>, Seq<Seq<char>>>, name: Seq<char>, values: HeadersValueView) -> Map<Seq<char>, Seq<Seq<char>>> {
    match values {
        HeadersValueView::Single(v) => m.insert(name, seq![v]),
        HeadersValueView::Multiple(vs) => if vs.len() == 0 {
            m
        } else {
            m.insert(name, values_of(m, name) + vs)
        },
    }
}

pub open spec fn entry_views(entries: Seq<(String, HeadersValue)>) -> Seq<(Seq<char>, HeadersValueView)> {
    entries.map_values(|e: (String, HeadersValue)| (e.0@, e.1@))
}

/// The headers that the configured entries give, applied in order, or `None`
/// where one of them is invalid.
pub open spec fn headers_of(entries: Seq<(Seq<char>, HeadersValueView)>) -> Option<Map<Seq<char>, Seq<Seq<char>>>>
    decreases entries.len(),
{
    if entries.len() == 0 {
        Some(Map::empty())
    } else {
        match headers_of(entries.drop_last()) {
            None => None,
            Some(m) => {
                let (name, values) = entries.last();
                if entry_ok(name, values) {
                    Some(with_entry(m, header_name_of(name)->0, values))
                } else {
                    None
                }
            },
        }
    }
}

/// Once a leading run of entries is invalid, so is the whole list.
proof fn lemma_headers_stay_invalid(entries: Seq<(Seq<char>, HeadersValueView)>, k: int)
    requires
        0 <= k <= entries.len(),
        headers_of(entries.take(k)) is None,
    ensures
        headers_of(entries) is None,
    decreases entries.len() - k,
{
    if k < entries.len() {
        assert(entries.take(k + 1).drop_last() =~= entries.take(k));
        lemma_headers_stay_invalid(entries, k + 1);
    } else {
        assert(entries.take(k) =~= entries);
    }
}

/// Collects the configured headers into a header map. Fails where a name or
/// a value is invalid; succeeds where all are valid and there are fewer
/// entries than a header map can take names; a map that holds headers holds
/// exactly those that the entries give.
#[verifier::loop_isolation(false)]
pub fn parse_headers(headers: &Vec<(String, HeadersValue)>) -> (r: Option<HeaderMap>)
    ensures
        headers_of(entry_views(headers@)) is None ==> r is None,
        r matches Some(m) ==> headers_of(entry_views(headers@)) == Some(header_contents(m)),
        headers_of(entry_views(headers@)) is Some && headers@.len() < 6554 ==> r is Some,
{
    let ghost ev = entry_views(headers@);
    let mut map = new_header_map();
    let mut i: usize = 0;
    proof {
        assert(ev.take(0) =~= Seq::<(Seq<char>, HeadersValueView)>::empty());
    }
    while i < headers.len()
        invariant
            i <= headers.len(),
            ev == entry_views(headers@),
            headers_of(ev.take(i as int)) == Some(header_contents(map)),
            header_contents(map).dom().finite(),
            header_contents(map).dom().len() <= i,
        decreases headers.len() - i,
    {
        let ghost before = header_contents(map);
        proof {
            assert(ev.take(i + 1).drop_last() =~= ev.take(i as int));
            assert(ev.take(i + 1).last() == ev[i as int]);
        }
        let name = headers[i].0.as_str();
        if !header_name_ok(name) {
            proof {
                lemma_headers_stay_invalid(ev, i + 1);
            }
            return None;
        }
        match &headers[i].1 {
            HeadersValue::Single(v) => {
                if !valid_header_value(v.as_str()) {
                    proof {
                        lemma_headers_stay_invalid(ev, i + 1);
                    }
                    return None;
                }
                if !insert_header(&mut map, name, v.as_str()) {
                    return None;
                }
            },
            HeadersValue::Multiple(vs) => {
                let ghost vv = vs.deep_view();
                let mut j: usize = 0;
                while j < vs.len()
                    invariant
                        j <= vs.len(),
                        vv == vs.deep_view(),
                        forall|k: int| 0 <= k < j ==> header_value_ok(vv[k]),
                    decreases vs.len() - j,
                {
                    proof {
                        assert(vv[j as int] == vs@[j as int]@);
                    }
                    if !valid_header_value(vs[j].as_str()) {
                        proof {
                            assert(ev[i as int].1 == HeadersValueView::Multiple(vv));
                            assert(!entry_ok(ev[i as int].0, ev[i as int].1));
                            lemma_headers_stay_invalid(ev, i + 1);
                        }
                        return None;
                    }
                    j += 1;
                }
                let mut j: usize = 0;
                while j < vs.len()
                    invariant
                        j <= vs.len(),
                        vv == vs.deep_view(),
                        forall|k: int| 0 <= k < vs.len() ==> header_value_ok(vv[k]),
                        header_name_of(name@) is Some,
                        header_contents(map).dom().finite(),
                        j == 0 ==> header_contents(map).dom().len() <= i,
                        j > 0 ==> header_contents(map).dom().len() <= i + 1,
                        j == 0 ==> header_contents(map) == before,
                        j > 0 ==> header_contents(map) == before.insert(
                            header_name_of(name@)->0,
                            values_of(before, header_name_of(name@)->0) + vv.take(j as int),
                        ),
                    decreases vs.len() - j,
                {
                    let ghost prev = header_contents(map);
                    proof {
                        assert(vv[j as int] == vs@[j as int]@);
                    }
                    if !append_header(&mut map, name, vs[j].as_str()) {
                        return None;
                    }
                    proof {
                        let key = header_name_of(name@)->0;
                        assert(vv.take(j + 1) =~= vv.take(j as int).push(vv[j as int]));
                        if j == 0 {
                            assert(values_of(before, key) + vv.take(1) =~= values_of(before, key).push(vv[0]));
                        } else {
                            assert(values_of(prev, key) == values_of(before, key) + vv.take(j as int));
                            assert(values_of(before, key) + vv.take(j + 1) =~= (values_of(before, key) + vv.take(j as int)).push(vv[j as int]));
                        }
                    }
                    j += 1;
                }
                proof {
                    assert(vv.take(vs.len() as int) =~= vv);
                }
            },
        }
        i += 1;
    }
    proof {
        assert(ev.take(headers.len() as int) =~= ev);
    }
    Some(map)
}

} // verus!
