use vstd::prelude::*;
use crate::contest::{Contest, ContestView, Host, views};
use crate::error::FetchError;
use crate::order::{sort_by_start, sorted_by_start, sort_contests, lemma_sort_by_start};
use crate::tokyo::{is_utc_representable, utc_representable};

verus! {

/// Contest list of the JSON provider (regular rounds only).
pub const CODEFORCES_API_URL: &'static str = "https://codeforces.com/api/contest.list?gym=false";

/// A JSON value of serde_json, converted as soon as it is parsed.
#[verifier::external_type_specification]
#[verifier::external_body]
pub struct ExValue(serde_json::Value);

/// A JSON document as the library reads it. Numbers that are not an `i64`
/// are kept only as `OtherNumber`.
#[derive(Debug)]
pub enum Json {
    Null,
    Bool(bool),
    Int(i64),
    OtherNumber,
    Str(String),
    Array(Vec<Json>),
    Object(Vec<(String, Json)>),
}

/// The document that serde_json parses from `text`, converted to `Json`.
pub uninterp spec fn json_of(text: Seq<char>) -> Option<Json>;

/// Relies on `serde_json::from_str` into `serde_json::Value`: parses a JSON
/// document; `None` where the text is not one. The outcome depends on the
/// text alone.
#[verifier::external_body]
fn parse_json(text: &str) -> (r: Option<Json>)
    ensures
        r == json_of(text@),
{
    serde_json::from_str::<serde_json::Value>(text).ok().map(json_from_value)
}

/// Converts serde_json's `Value` one for one; a number through `Number::as_i64`.
#[verifier::external_body]
fn json_from_value(v: serde_json::Value) -> Json {
    match v {
        serde_json::Value::Null => Json::Null,
        serde_json::Value::Bool(b) => Json::Bool(b),
        serde_json::Value::Number(n) => n.as_i64().map_or(Json::OtherNumber, Json::Int),
        serde_json::Value::String(s) => Json::Str(s),
        serde_json::Value::Array(a) => Json::Array(a.into_iter().map(json_from_value).collect()),
        serde_json::Value::Object(o) => Json::Object(o.into_iter().map(|(k, x)| (k, json_from_value(x))).collect()),
    }
}

/// The value of the first member named `key`.
pub open spec fn lookup_in(members: Seq<(String, Json)>, key: Seq<char>) -> Option<Json>
    decreases members.len(),
{
    if members.len() == 0 {
        None
    } else if members[0].0@ == key {
        Some(members[0].1)
    } else {
        lookup_in(members.skip(1), key)
    }
}

/// The member `key` of an object; `None` for anything else.
pub open spec fn lookup(j: Json, key: Seq<char>) -> Option<Json> {
    match j {
        Json::Object(m) => lookup_in(m@, key),
        _ => None,
    }
}

/// What an element of the list gives: its string `name` and its integer
/// `startTimeSeconds`.
pub open spec fn entry_of(j: Json) -> Option<(Seq<char>, i64)> {
    match (lookup(j, "name"@), lookup(j, "startTimeSeconds"@)) {
        (Some(Json::Str(n)), Some(Json::Int(t))) => Some((n@, t)),
        _ => None,
    }
}

/// The entries of the document's `result` array, where it is an array whose
/// every element gives an entry.
pub open spec fn entries_of(doc: Json) -> Option<Seq<(Seq<char>, i64)>> {
    match lookup(doc, "result"@) {
        Some(Json::Array(items)) => if forall|i: int| 0 <= i < items@.len() ==> (#[trigger] entry_of(items@[i])) is Some {
            Some(items@.map_values(|j: Json| entry_of(j)->Some_0))
        } else {
            None
        },
        _ => None,
    }
}

pub open spec fn entry_views(s: Seq<(String, i64)>) -> Seq<(Seq<char>, i64)> {
    s.map_values(|e: (String, i64)| (e.0@, e.1))
}

/// The contest that an entry of the list stands for: it has no url.
pub open spec fn entry_contest(e: (Seq<char>, i64)) -> ContestView {
    ContestView { name: e.0, start_time: e.1 as int, url: None, host: Host::Codeforces }
}

pub open spec fn entry_contests(s: Seq<(Seq<char>, i64)>) -> Seq<ContestView> {
    s.map_values(|e: (Seq<char>, i64)| entry_contest(e))
}

/// What the entries turn into: contests sorted by start time, or an error
/// where some start cannot be held.
pub open spec fn entries_outcome(e: Seq<(Seq<char>, i64)>) -> Result<Seq<ContestView>, FetchError> {
    if exists|i: int| 0 <= i < e.len() && !utc_representable(#[trigger] e[i].1) {
        Err(FetchError::TimestampOutOfRange)
    } else {
        Ok(sort_by_start(entry_contests(e)))
    }
}

/// What the provider's response `body` turns into.
pub open spec fn codeforces_outcome(body: Seq<char>) -> Result<Seq<ContestView>, FetchError> {
    match json_of(body) {
        None => Err(FetchError::MalformedJson),
        Some(doc) => match entries_of(doc) {
            None => Err(FetchError::MissingField),
            Some(e) => entries_outcome(e),
        },
    }
}

/// Turns the list's entries (name, start in seconds since the Unix epoch)
/// into contests sorted by start time; fails where a start cannot be held.
pub fn contests_from_entries(entries: Vec<(String, i64)>) -> (r: Result<Vec<Contest>, FetchError>)
    ensures
        match r {
            Ok(v) => entries_outcome(entry_views(entries@)) == Ok::<Seq<ContestView>, FetchError>(views(v@)),
            Err(e) => entries_outcome(entry_views(entries@)) == Err::<Seq<ContestView>, FetchError>(e),
        },
{
    let ghost ev = entry_views(entries@);
    let mut rest = entries;
    let mut out: Vec<Contest> = Vec::new();
    let n: usize = rest.len();
    let mut i: usize = 0;
    while rest.len() > 0
        invariant
            i + rest@.len() == n,
            n == entries@.len(),
            ev == entry_views(entries@),
            rest@ == entries@.skip(i as int),
            views(out@) == entry_contests(ev.take(i as int)),
            forall|k: int| 0 <= k < i ==> utc_representable(#[trigger] ev[k].1),
        decreases rest@.len(),
    {
        let e = rest.remove(0);
        proof {
            assert(e == entries@[i as int]);
            assert(ev[i as int] == (e.0@, e.1));
            assert(rest@ =~= entries@.skip(i as int + 1));
        }
        let (name, seconds) = e;
        if !is_utc_representable(seconds) {
            return Err(FetchError::TimestampOutOfRange);
        }
        let c = Contest::new(name, seconds, None, Host::Codeforces);
        proof {
            assert(c@ == entry_contest(ev[i as int]));
            assert(ev.take(i as int + 1) =~= ev.take(i as int).push(ev[i as int]));
            assert(entry_contests(ev.take(i as int + 1)) =~= entry_contests(ev.take(i as int)).push(c@));
        }
        let ghost before = out@;
        out.push(c);
        proof {
            assert(views(out@) =~= views(before).push(c@));
        }
        i = i + 1;
    }
    proof {
        assert(ev.take(i as int) =~= ev);
    }
    Ok(sort_contests(out))
}

/// The value of the first member named `key` of an object.
fn member<'a>(j: &'a Json, key: &String) -> (r: Option<&'a Json>)
    ensures
        match r {
            Some(v) => lookup(*j, key@) == Some(*v),
            None => lookup(*j, key@) is None,
        },
{
    match j {
        Json::Object(m) => {
            let mut i: usize = 0;
            proof {
                assert(m@.skip(0) =~= m@);
            }
            let ghost found = lookup(*j, key@);
            while i < m.len()
                invariant
                    i <= m@.len(),
                    found == lookup_in(m@, key@),
                    found == lookup(*j, key@),
                    lookup_in(m@, key@) == lookup_in(m@.skip(i as int), key@),
                decreases m@.len() - i,
            {
                proof {
                    assert(m@.skip(i as int)[0] == m@[i as int]);
                    assert(m@.skip(i as int).skip(1) =~= m@.skip(i as int + 1));
                }
                if m[i].0 == *key {
                    proof {
                        assert(m@[i as int].0@ == key@);
                        assert(lookup_in(m@.skip(i as int), key@) == Some(m@[i as int].1));
                    }
                    return Some(&m[i].1);
                }
                proof {
                    assert(lookup_in(m@.skip(i as int), key@) == lookup_in(m@.skip(i as int).skip(1), key@));
                }
                i = i + 1;
            }
            None
        },
        _ => None,
    }
}

/// Reads the `result` array of the provider's contest list, taking `name`
/// and `startTimeSeconds` of each element. Any missing or mistyped member
/// fails the whole list.
pub fn entries_from_json(body: &str) -> (r: Result<Vec<(String, i64)>, FetchError>)
    ensures
        match r {
            Ok(v) => json_of(body@) is Some && entries_of(json_of(body@)->Some_0) == Some(entry_views(v@)),
            Err(e) => (json_of(body@) is None && e == FetchError::MalformedJson) || (json_of(body@) is Some
                && entries_of(json_of(body@)->Some_0) is None && e == FetchError::MissingField),
        },
{
    let doc = match parse_json(body) {
        Some(d) => d,
        None => {
            return Err(FetchError::MalformedJson);
        },
    };
    let result_key = String::from_str("result");
    let name_key = String::from_str("name");
    let start_key = String::from_str("startTimeSeconds");
    proof {
        reveal_strlit("result");
        reveal_strlit("name");
        reveal_strlit("startTimeSeconds");
    }
    let items = match member(&doc, &result_key) {
        Some(Json::Array(a)) => a,
        _ => {
            return Err(FetchError::MissingField);
        },
    };
    let mut entries: Vec<(String, i64)> = Vec::new();
    let mut i: usize = 0;
    while i < items.len()
        invariant
            i <= items@.len(),
            result_key@ == "result"@,
            name_key@ == "name"@,
            start_key@ == "startTimeSeconds"@,
            lookup(doc, "result"@) == Some(Json::Array(*items)),
            json_of(body@) == Some(doc),
            entries@.len() == i,
            forall|k: int| 0 <= k < i ==> (#[trigger] entry_of(items@[k])) == Some(entry_views(entries@)[k]),
        decreases items@.len() - i,
    {
        let item = &items[i];
        let name = match member(item, &name_key) {
            Some(Json::Str(s)) => s.clone(),
            _ => {
                proof {
                    assert(entry_of(items@[i as int]) is None);
                    assert(!(forall|k: int| 0 <= k < items@.len() ==> (#[trigger] entry_of(items@[k])) is Some));
                }
                return Err(FetchError::MissingField);
            },
        };
        let seconds = match member(item, &start_key) {
            Some(Json::Int(t)) => *t,
            _ => {
                proof {
                    assert(entry_of(items@[i as int]) is None);
                    assert(!(forall|k: int| 0 <= k < items@.len() ==> (#[trigger] entry_of(items@[k])) is Some));
                }
                return Err(FetchError::MissingField);
            },
        };
        let ghost before = entries@;
        entries.push((name, seconds));
        proof {
            assert(entry_views(entries@)[i as int] == (name@, seconds));
            assert forall|k: int| 0 <= k < i implies entry_views(entries@)[k] == entry_views(before)[k] by {
                assert(entries@[k] == before[k]);
            }
        }
        i = i + 1;
    }
    proof {
        assert(items@.map_values(|j: Json| entry_of(j)->Some_0) =~= entry_views(entries@));
    }
    Ok(entries)
}

/// Contests of the JSON provider's list, sorted by start time. Every contest
/// comes from that provider and has no url.
pub fn codeforces_contests(body: &str) -> (r: Result<Vec<Contest>, FetchError>)
    ensures
        match r {
            Ok(v) => codeforces_outcome(body@) == Ok::<Seq<ContestView>, FetchError>(views(v@)),
            Err(e) => codeforces_outcome(body@) == Err::<Seq<ContestView>, FetchError>(e),
        },
        r is Ok ==> forall|i: int|
            0 <= i < r->Ok_0@.len() ==> {
                &&& (#[trigger] r->Ok_0@[i]).host == Host::Codeforces
                &&& r->Ok_0@[i].url is None
                &&& utc_representable(r->Ok_0@[i].start_time)
            },
        r is Ok ==> sorted_by_start(views(r->Ok_0@)),
{
    let entries = match entries_from_json(body) {
        Ok(e) => e,
        Err(e) => {
            return Err(e);
        },
    };
    let ghost e = entry_views(entries@);
    let r = contests_from_entries(entries);
    proof {
        if r is Ok {
            let v = r->Ok_0@;
            let m = entry_contests(e);
            lemma_sort_by_start(m);
            assert forall|i: int| 0 <= i < v.len() implies {
                &&& (#[trigger] v[i]).host == Host::Codeforces
                &&& v[i].url is None
                &&& utc_representable(v[i].start_time)
            } by {
                assert(views(v)[i] == v[i]@);
                assert(sort_by_start(m).contains(v[i]@));
                let k = choose|k: int| 0 <= k < m.len() && m[k] == v[i]@;
                assert(m[k] == entry_contest(e[k]));
                assert(utc_representable(e[k].1));
            }
        }
    }
    r
}

} // verus!
