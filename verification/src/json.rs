//! JSON values as the watch and the host send them, and the questions the
//! plugin asks of them. A string member `data` may hold a JSON text of its
//! own, which is parsed and searched in turn.
use vstd::prelude::*;
use crate::text::{chars_of, eq_chars, string_of, trim, trim_chars};
use crate::totp::{totp_views, TOTPInfo, TotpModel};

verus! {

/// A JSON value. A number holds what `as_u64` and `as_i64` give for it;
/// an object holds its members in the order in which the parser lists them.
#[derive(Debug)]
pub enum Json {
    Null,
    Bool(bool),
    Number(Option<u64>, Option<i64>),
    Str(String),
    Array(Vec<Json>),
    Object(Vec<(String, Json)>),
}

/// Every string of `v`, member names included, is shorter than `n`
/// characters.
pub open spec fn strings_below(v: Json, n: nat) -> bool
    decreases v,
{
    match v {
        Json::Str(s) => s@.len() < n,
        Json::Array(items) => forall|i: int|
            0 <= i < items@.len() ==> strings_below(#[trigger] items@[i], n),
        Json::Object(entries) => forall|i: int|
            0 <= i < entries@.len() ==> (#[trigger] entries@[i]).0@.len() < n && strings_below(
                entries@[i].1,
                n,
            ),
        _ => true,
    }
}

/// What `serde_json::from_str::<Value>` gives for a text, as a [`Json`].
pub uninterp spec fn json_parse(text: Seq<char>) -> Option<Json>;

proof fn lemma_strings_below_mono(v: Json, n: nat, m: nat)
    requires
        strings_below(v, n),
        n <= m,
    ensures
        strings_below(v, m),
    decreases v,
{
    match v {
        Json::Array(items) => {
            assert forall|i: int| 0 <= i < items@.len() implies strings_below(
                #[trigger] items@[i],
                m,
            ) by {
                lemma_strings_below_mono(items@[i], n, m);
            }
        },
        Json::Object(entries) => {
            assert forall|i: int| 0 <= i < entries@.len() implies (#[trigger] entries@[i]).0@.len()
                < m && strings_below(entries@[i].1, m) by {
                lemma_strings_below_mono(entries@[i].1, n, m);
            }
        },
        _ => {},
    }
}

proof fn lemma_items_bound(v: Json, k: int) -> (n: nat)
    requires
        v is Array,
        0 <= k <= v->Array_0@.len(),
    ensures
        forall|i: int| 0 <= i < k ==> strings_below(#[trigger] v->Array_0@[i], n),
    decreases v, 0nat, k,
{
    let items = v->Array_0;
    if k == 0 {
        0
    } else {
        let a = lemma_items_bound(v, k - 1);
        assert(decreases_to!(v => items@[k - 1]));
        let b = lemma_json_bound(items@[k - 1]);
        let n = if a < b {
            b
        } else {
            a
        };
        assert forall|i: int| 0 <= i < k implies strings_below(#[trigger] items@[i], n) by {
            if i < k - 1 {
                lemma_strings_below_mono(items@[i], a, n);
            } else {
                lemma_strings_below_mono(items@[i], b, n);
            }
        }
        n
    }
}

proof fn lemma_entries_bound(v: Json, k: int) -> (n: nat)
    requires
        v is Object,
        0 <= k <= v->Object_0@.len(),
    ensures
        forall|i: int|
            0 <= i < k ==> (#[trigger] v->Object_0@[i]).0@.len() < n && strings_below(
                v->Object_0@[i].1,
                n,
            ),
    decreases v, 0nat, k,
{
    let entries = v->Object_0;
    if k == 0 {
        0
    } else {
        let a = lemma_entries_bound(v, k - 1);
        assert(decreases_to!(v => entries@[k - 1].1));
        let b = lemma_json_bound(entries@[k - 1].1);
        let c = entries@[k - 1].0@.len() + 1;
        let n = if a < b {
            if b < c {
                c
            } else {
                b
            }
        } else {
            if a < c {
                c
            } else {
                a
            }
        };
        assert forall|i: int| 0 <= i < k implies (#[trigger] entries@[i]).0@.len() < n
            && strings_below(entries@[i].1, n) by {
            if i < k - 1 {
                lemma_strings_below_mono(entries@[i].1, a, n);
            } else {
                lemma_strings_below_mono(entries@[i].1, b, n);
            }
        }
        n
    }
}

/// Every value has a bound on the length of its strings.
pub proof fn lemma_json_bound(v: Json) -> (n: nat)
    ensures
        strings_below(v, n),
    decreases v, 1nat, 0int,
{
    match v {
        Json::Str(s) => s@.len() + 1,
        Json::Array(items) => lemma_items_bound(v, items@.len() as int),
        Json::Object(entries) => lemma_entries_bound(v, entries@.len() as int),
        _ => 0,
    }
}

/// A bound on the length of the strings of `v`.
pub open spec fn json_bound(v: Json) -> nat {
    choose|n: nat| strings_below(v, n)
}

pub proof fn lemma_json_bound_holds(v: Json)
    ensures
        strings_below(v, json_bound(v)),
{
    let n = lemma_json_bound(v);
    assert(strings_below(v, n));
}

/// `serde_json::from_str::<serde_json::Value>`: the value that `text`
/// holds, when it is a JSON text. Each string of the result, member names
/// included, is written between two quotes in `text`, and escapes never
/// make a string longer than its spelling, so each is shorter than `text`.
#[verifier::external_body]
pub(crate) fn parse_json(text: &str) -> (r: Option<Json>)
    ensures
        r == json_parse(text@),
        r matches Some(v) ==> strings_below(v, text@.len()),
{
    serde_json::from_str::<serde_json::Value>(text).ok().map(json_from_value)
}

/// `serde_json::Value`, the parser's value type, carried through opaque.
#[verifier::external_type_specification]
#[verifier::external_body]
pub struct ExJsonValue(serde_json::Value);

/// A `serde_json::Value` as a [`Json`], member by member.
#[verifier::external_body]
fn json_from_value(value: serde_json::Value) -> Json {
    match value {
        serde_json::Value::Null => Json::Null,
        serde_json::Value::Bool(b) => Json::Bool(b),
        serde_json::Value::Number(n) => Json::Number(n.as_u64(), n.as_i64()),
        serde_json::Value::String(s) => Json::Str(s),
        serde_json::Value::Array(a) => Json::Array(a.into_iter().map(json_from_value).collect()),
        serde_json::Value::Object(m) => Json::Object(
            m.into_iter().map(|(k, v)| (k, json_from_value(v))).collect(),
        ),
    }
}

/// The value of the first member named `key`.
pub open spec fn obj_get(entries: Seq<(String, Json)>, key: Seq<char>) -> Option<Json>
    decreases entries.len(),
{
    if entries.len() == 0 {
        None
    } else if entries[0].0@ == key {
        Some(entries[0].1)
    } else {
        obj_get(entries.drop_first(), key)
    }
}

/// The text of a string value.
pub open spec fn str_value(o: Option<Json>) -> Option<Seq<char>> {
    match o {
        Some(Json::Str(s)) => Some(s@),
        _ => None,
    }
}

/// The `as_u64` of a number value.
pub open spec fn u64_value(o: Option<Json>) -> Option<u64> {
    match o {
        Some(Json::Number(Some(u), _)) => Some(u),
        _ => None,
    }
}

/// The text of the string member `data`.
pub open spec fn data_text(entries: Seq<(String, Json)>) -> Option<Seq<char>> {
    str_value(obj_get(entries, "data"@))
}

/// Whether `data` holds a JSON text that can be searched within the bound.
pub open spec fn has_nested(entries: Seq<(String, Json)>, n: nat) -> bool {
    &&& data_text(entries) is Some
    &&& data_text(entries)->0.len() < n
    &&& json_parse(data_text(entries)->0) is Some
}

/// The value that the member `data` holds.
pub open spec fn nested(entries: Seq<(String, Json)>) -> Json {
    json_parse(data_text(entries)->0)->0
}

/// Whether the message says that the watch application is ready: an object
/// whose `action` is `"ready"`; else, if its `data` holds a JSON text, what
/// that text says; else whether one of its members says so.
pub open spec fn ready_b(v: Json, n: nat) -> bool
    decreases n, v,
{
    match v {
        Json::Object(entries) => if str_value(obj_get(entries@, "action"@)) == Some("ready"@) {
            true
        } else if has_nested(entries@, n) {
            ready_b(nested(entries@), data_text(entries@)->0.len())
        } else {
            exists|i: int| 0 <= i < entries@.len() && ready_b(#[trigger] entries@[i].1, n)
        },
        _ => false,
    }
}

/// Whether the message reports a successful push: an object whose `action`
/// is `"push_response"` and whose `status` is a string tells by whether that
/// string is `"success"`; else, if its `data` holds a JSON text, what that
/// text says; else whether one of its members reports it.
pub open spec fn push_ok_b(v: Json, n: nat) -> bool
    decreases n, v,
{
    match v {
        Json::Object(entries) => if str_value(obj_get(entries@, "action"@)) == Some(
            "push_response"@,
        ) && str_value(obj_get(entries@, "status"@)) is Some {
            str_value(obj_get(entries@, "status"@)) == Some("success"@)
        } else if has_nested(entries@, n) {
            push_ok_b(nested(entries@), data_text(entries@)->0.len())
        } else {
            exists|i: int| 0 <= i < entries@.len() && push_ok_b(#[trigger] entries@[i].1, n)
        },
        _ => false,
    }
}

/// The count that a message reports: an object's member `count`,
/// `accountCount` or `totpCount` (the first of them that is an unsigned
/// integer); else what the JSON text in its `data` reports; else what its
/// first reporting member reports. An array reports what its first
/// reporting element reports; a string what the JSON text in it reports.
pub open spec fn count_b(v: Json, n: nat) -> Option<u64>
    decreases n, v,
{
    match v {
        Json::Object(entries) => if u64_value(obj_get(entries@, "count"@)) is Some {
            u64_value(obj_get(entries@, "count"@))
        } else if u64_value(obj_get(entries@, "accountCount"@)) is Some {
            u64_value(obj_get(entries@, "accountCount"@))
        } else if u64_value(obj_get(entries@, "totpCount"@)) is Some {
            u64_value(obj_get(entries@, "totpCount"@))
        } else if has_nested(entries@, n) && count_b(
            nested(entries@),
            data_text(entries@)->0.len(),
        ) is Some {
            count_b(nested(entries@), data_text(entries@)->0.len())
        } else if exists|i: int|
            0 <= i < entries@.len() && count_b(#[trigger] entries@[i].1, n) is Some && (forall|j: int|
                0 <= j < i ==> count_b(#[trigger] entries@[j].1, n) is None) {
            let i = choose|i: int|
                0 <= i < entries@.len() && count_b(#[trigger] entries@[i].1, n) is Some && (forall|
                    j: int,
                | 0 <= j < i ==> count_b(#[trigger] entries@[j].1, n) is None);
            count_b(entries@[i].1, n)
        } else {
            None
        },
        Json::Array(items) => if exists|i: int|
            0 <= i < items@.len() && count_b(#[trigger] items@[i], n) is Some && (forall|j: int|
                0 <= j < i ==> count_b(#[trigger] items@[j], n) is None) {
            let i = choose|i: int|
                0 <= i < items@.len() && count_b(#[trigger] items@[i], n) is Some && (forall|j: int|
                    0 <= j < i ==> count_b(#[trigger] items@[j], n) is None);
            count_b(items@[i], n)
        } else {
            None
        },
        Json::Str(s) => if s@.len() < n && json_parse(s@) is Some {
            count_b(json_parse(s@)->0, s@.len())
        } else {
            None
        },
        _ => None,
    }
}

/// The account that one item of a backup list describes: an object with
/// string members `key` and `name`, and optionally `usr`.
pub open spec fn backup_item(item: Json) -> Option<TotpModel> {
    match item {
        Json::Object(e) => if str_value(obj_get(e@, "key"@)) is Some && str_value(
            obj_get(e@, "name"@),
        ) is Some {
            Some(
                TotpModel {
                    name: str_value(obj_get(e@, "name"@))->0,
                    usr: match str_value(obj_get(e@, "usr"@)) {
                        Some(u) => u,
                        None => Seq::<char>::empty(),
                    },
                    key: str_value(obj_get(e@, "key"@))->0,
                    algorithm: "SHA1"@,
                    digits: 6,
                    period: 30,
                },
            )
        } else {
            None
        },
        _ => None,
    }
}

/// The accounts of the items of a backup list that describe one.
pub open spec fn backup_items(items: Seq<Json>) -> Seq<TotpModel>
    decreases items.len(),
{
    if items.len() == 0 {
        Seq::<TotpModel>::empty()
    } else {
        backup_items(items.drop_last()) + match backup_item(items.last()) {
            Some(t) => seq![t],
            None => Seq::<TotpModel>::empty(),
        }
    }
}

/// The backup list that a message carries: an object whose `action` is
/// `"backup_response"` and whose `list` is an array; else the list that the
/// JSON text in its `data` carries; else the list of its first member that
/// carries one.
pub open spec fn backup_b(v: Json, n: nat) -> Option<Seq<TotpModel>>
    decreases n, v,
{
    match v {
        Json::Object(entries) => if str_value(obj_get(entries@, "action"@)) == Some(
            "backup_response"@,
        ) && obj_get(entries@, "list"@) matches Some(Json::Array(_)) {
            Some(backup_items(obj_get(entries@, "list"@)->0->Array_0@))
        } else if has_nested(entries@, n) && backup_b(
            nested(entries@),
            data_text(entries@)->0.len(),
        ) is Some {
            backup_b(nested(entries@), data_text(entries@)->0.len())
        } else if exists|i: int|
            0 <= i < entries@.len() && backup_b(#[trigger] entries@[i].1, n) is Some && (forall|
                j: int,
            | 0 <= j < i ==> backup_b(#[trigger] entries@[j].1, n) is None) {
            let i = choose|i: int|
                0 <= i < entries@.len() && backup_b(#[trigger] entries@[i].1, n) is Some && (forall|
                    j: int,
                | 0 <= j < i ==> backup_b(#[trigger] entries@[j].1, n) is None);
            backup_b(entries@[i].1, n)
        } else {
            None
        },
        _ => None,
    }
}

/// The account count that a message reports.
pub open spec fn message_count(v: Json) -> Option<u64> {
    count_b(v, json_bound(v))
}

/// The backup list that a message carries.
pub open spec fn message_backup(v: Json) -> Option<Seq<TotpModel>> {
    backup_b(v, json_bound(v))
}

/// What the plugin takes from an input event's trimmed payload `t`, given
/// the JSON value it holds, if any: a JSON string gives that string, a JSON
/// object its first string member among `value`, `text`, `input` and
/// `content`; anything else gives `t` itself.
pub open spec fn event_value_from(t: Seq<char>, parsed: Option<Json>) -> Seq<char> {
    match parsed {
        Some(Json::Str(s)) => s@,
        Some(Json::Object(e)) => if str_value(obj_get(e@, "value"@)) is Some {
            str_value(obj_get(e@, "value"@))->0
        } else if str_value(obj_get(e@, "text"@)) is Some {
            str_value(obj_get(e@, "text"@))->0
        } else if str_value(obj_get(e@, "input"@)) is Some {
            str_value(obj_get(e@, "input"@))->0
        } else if str_value(obj_get(e@, "content"@)) is Some {
            str_value(obj_get(e@, "content"@))->0
        } else {
            t
        },
        _ => t,
    }
}

/// What the plugin takes from the payload of an input event: nothing from
/// a blank payload, else what the trimmed payload gives.
pub open spec fn event_value(p: Seq<char>) -> Seq<char> {
    let t = trim(p);
    if t.len() == 0 {
        Seq::<char>::empty()
    } else {
        event_value_from(t, json_parse(t))
    }
}

/// Whether the message says that the watch application is ready.
pub open spec fn message_is_ready(v: Json) -> bool {
    ready_b(v, json_bound(v))
}

/// Whether the message reports a successful push.
pub open spec fn message_push_ok(v: Json) -> bool {
    push_ok_b(v, json_bound(v))
}

/// Whether the string `s` holds the text `lit`.
pub fn text_is(s: &String, lit: &str) -> (r: bool)
    ensures
        r == (s@ == lit@),
{
    let a = chars_of(s.as_str());
    let b = chars_of(lit);
    eq_chars(&a, &b)
}

/// The value of the first member named `key`.
pub fn obj_get_exec<'a>(entries: &'a Vec<(String, Json)>, key: &str) -> (r: Option<&'a Json>)
    ensures
        r matches Some(j) ==> obj_get(entries@, key@) == Some(*j) && exists|i: int|
            0 <= i < entries@.len() && entries@[i].1 == *j,
        r is None ==> obj_get(entries@, key@) is None,
{
    let mut i: usize = 0;
    assert(entries@.skip(0) =~= entries@);
    while i < entries.len()
        invariant
            i <= entries.len(),
            obj_get(entries@, key@) == obj_get(entries@.skip(i as int), key@),
        decreases entries.len() - i,
    {
        assert(entries@.skip(i as int)[0] == entries@[i as int]);
        assert(entries@.skip(i as int).drop_first() =~= entries@.skip(i + 1));
        if text_is(&entries[i].0, key) {
            return Some(&entries[i].1);
        }
        i = i + 1;
    }
    None
}

/// The text of the string member `key`.
fn str_member<'a>(entries: &'a Vec<(String, Json)>, key: &str) -> (r: Option<&'a String>)
    ensures
        r matches Some(s) ==> str_value(obj_get(entries@, key@)) == Some(s@) && exists|i: int|
            0 <= i < entries@.len() && entries@[i].1 == Json::Str(*s),
        r is None ==> str_value(obj_get(entries@, key@)) is None,
{
    match obj_get_exec(entries, key) {
        Some(Json::Str(s)) => Some(s),
        _ => None,
    }
}

fn ready_rec(v: &Json, Ghost(n): Ghost<nat>) -> (r: bool)
    requires
        strings_below(*v, n),
    ensures
        r == ready_b(*v, n),
    decreases n, *v,
{
    match v {
        Json::Object(entries) => {
            match str_member(entries, "action") {
                Some(a) => {
                    if text_is(a, "ready") {
                        return true;
                    }
                },
                None => {},
            }
            match str_member(entries, "data") {
                Some(ds) => {
                    proof {
                        let k = choose|k: int| 0 <= k < entries@.len() && entries@[k].1 == Json::Str(*ds);
                        assert(strings_below(entries@[k].1, n));
                    }
                    match parse_json(ds.as_str()) {
                        Some(inner) => {
                            return ready_rec(&inner, Ghost(ds@.len()));
                        },
                        None => {},
                    }
                },
                None => {},
            }
            let mut i: usize = 0;
            assert forall|j: int| 0 <= j < entries@.len() implies strings_below(
                #[trigger] entries@[j].1,
                n,
            ) && decreases_to!(*v => entries@[j].1) by {
                assert(entries@[j].0@.len() < n && strings_below(entries@[j].1, n));
            }
            while i < entries.len()
                invariant
                    i <= entries.len(),
                    forall|j: int| 0 <= j < entries@.len() ==> strings_below(
                        #[trigger] entries@[j].1,
                        n,
                    ) && decreases_to!(*v => entries@[j].1),
                    *v == Json::Object(*entries),
                    !has_nested(entries@, n),
                    forall|j: int| 0 <= j < i ==> !ready_b(#[trigger] entries@[j].1, n),
                decreases entries.len() - i,
            {
                assert(strings_below(entries@[i as int].1, n));
                if ready_rec(&entries[i].1, Ghost(n)) {
                    return true;
                }
                i = i + 1;
            }
            false
        },
        _ => false,
    }
}

/// Whether the message says that the watch application is ready.
pub fn check_is_ready(value: &Json) -> (r: bool)
    ensures
        r == message_is_ready(*value),
{
    proof {
        lemma_json_bound_holds(*value);
    }
    ready_rec(value, Ghost(json_bound(*value)))
}

fn push_ok_rec(v: &Json, Ghost(n): Ghost<nat>) -> (r: bool)
    requires
        strings_below(*v, n),
    ensures
        r == push_ok_b(*v, n),
    decreases n, *v,
{
    match v {
        Json::Object(entries) => {
            match str_member(entries, "action") {
                Some(a) => {
                    if text_is(a, "push_response") {
                        match str_member(entries, "status") {
                            Some(st) => {
                                return text_is(st, "success");
                            },
                            None => {},
                        }
                    }
                },
                None => {},
            }
            match str_member(entries, "data") {
                Some(ds) => {
                    proof {
                        let k = choose|k: int|
                            0 <= k < entries@.len() && entries@[k].1 == Json::Str(*ds);
                        assert(strings_below(entries@[k].1, n));
                    }
                    match parse_json(ds.as_str()) {
                        Some(inner) => {
                            return push_ok_rec(&inner, Ghost(ds@.len()));
                        },
                        None => {},
                    }
                },
                None => {},
            }
            let mut i: usize = 0;
            assert forall|j: int| 0 <= j < entries@.len() implies strings_below(
                #[trigger] entries@[j].1,
                n,
            ) && decreases_to!(*v => entries@[j].1) by {
                assert(entries@[j].0@.len() < n && strings_below(entries@[j].1, n));
            }
            while i < entries.len()
                invariant
                    i <= entries.len(),
                    forall|j: int| 0 <= j < entries@.len() ==> strings_below(
                        #[trigger] entries@[j].1,
                        n,
                    ) && decreases_to!(*v => entries@[j].1),
                    *v == Json::Object(*entries),
                    !has_nested(entries@, n),
                    !(str_value(obj_get(entries@, "action"@)) == Some("push_response"@)
                        && str_value(obj_get(entries@, "status"@)) is Some),
                    forall|j: int| 0 <= j < i ==> !push_ok_b(#[trigger] entries@[j].1, n),
                decreases entries.len() - i,
            {
                assert(strings_below(entries@[i as int].1, n));
                if push_ok_rec(&entries[i].1, Ghost(n)) {
                    return true;
                }
                i = i + 1;
            }
            false
        },
        _ => false,
    }
}

/// Whether the message reports a successful push.
pub fn check_push_success(value: &Json) -> (r: bool)
    ensures
        r == message_push_ok(*value),
{
    proof {
        lemma_json_bound_holds(*value);
    }
    push_ok_rec(value, Ghost(json_bound(*value)))
}

/// The `as_u64` of the member `key`.
fn u64_member(entries: &Vec<(String, Json)>, key: &str) -> (r: Option<u64>)
    ensures
        r == u64_value(obj_get(entries@, key@)),
{
    match obj_get_exec(entries, key) {
        Some(Json::Number(Some(u), _)) => Some(*u),
        _ => None,
    }
}

fn count_rec(v: &Json, Ghost(n): Ghost<nat>) -> (r: Option<u64>)
    requires
        strings_below(*v, n),
    ensures
        r == count_b(*v, n),
    decreases n, *v,
{
    match v {
        Json::Object(entries) => {
            match u64_member(entries, "count") {
                Some(c) => {
                    return Some(c);
                },
                None => {},
            }
            match u64_member(entries, "accountCount") {
                Some(c) => {
                    return Some(c);
                },
                None => {},
            }
            match u64_member(entries, "totpCount") {
                Some(c) => {
                    return Some(c);
                },
                None => {},
            }
            match str_member(entries, "data") {
                Some(ds) => {
                    proof {
                        let k = choose|k: int|
                            0 <= k < entries@.len() && entries@[k].1 == Json::Str(*ds);
                        assert(strings_below(entries@[k].1, n));
                    }
                    match parse_json(ds.as_str()) {
                        Some(inner) => {
                            match count_rec(&inner, Ghost(ds@.len())) {
                                Some(c) => {
                                    return Some(c);
                                },
                                None => {},
                            }
                        },
                        None => {},
                    }
                },
                None => {},
            }
            let mut i: usize = 0;
            assert forall|j: int| 0 <= j < entries@.len() implies strings_below(
                #[trigger] entries@[j].1,
                n,
            ) && decreases_to!(*v => entries@[j].1) by {
                assert(entries@[j].0@.len() < n && strings_below(entries@[j].1, n));
            }
            while i < entries.len()
                invariant
                    i <= entries.len(),
                    forall|j: int| 0 <= j < entries@.len() ==> strings_below(
                        #[trigger] entries@[j].1,
                        n,
                    ) && decreases_to!(*v => entries@[j].1),
                    *v == Json::Object(*entries),
                    !(has_nested(entries@, n) && count_b(
                        nested(entries@),
                        data_text(entries@)->0.len(),
                    ) is Some),
                    u64_value(obj_get(entries@, "count"@)) is None,
                    u64_value(obj_get(entries@, "accountCount"@)) is None,
                    u64_value(obj_get(entries@, "totpCount"@)) is None,
                    forall|j: int| 0 <= j < i ==> count_b(#[trigger] entries@[j].1, n) is None,
                decreases entries.len() - i,
            {
                assert(strings_below(entries@[i as int].1, n));
                match count_rec(&entries[i].1, Ghost(n)) {
                    Some(c) => {
                        proof {
                            let ii = i as int;
                            assert(0 <= ii < entries@.len() && count_b(entries@[ii].1, n) is Some
                                && (forall|j: int|
                                0 <= j < ii ==> count_b(#[trigger] entries@[j].1, n) is None));
                            let w = choose|w: int|
                                0 <= w < entries@.len() && count_b(#[trigger] entries@[w].1, n)
                                    is Some && (forall|j: int|
                                    0 <= j < w ==> count_b(#[trigger] entries@[j].1, n) is None);
                            if w < ii {
                                assert(count_b(entries@[w].1, n) is None);
                            }
                            if ii < w {
                                assert(count_b(entries@[ii].1, n) is None);
                            }
                        }
                        return Some(c);
                    },
                    None => {},
                }
                i = i + 1;
            }
            None
        },
        Json::Array(items) => {
            let mut i: usize = 0;
            assert forall|j: int| 0 <= j < items@.len() implies strings_below(
                #[trigger] items@[j],
                n,
            ) && decreases_to!(*v => items@[j]) by {}
            while i < items.len()
                invariant
                    i <= items.len(),
                    forall|j: int| 0 <= j < items@.len() ==> strings_below(#[trigger] items@[j], n)
                        && decreases_to!(*v => items@[j]),
                    *v == Json::Array(*items),
                    forall|j: int| 0 <= j < i ==> count_b(#[trigger] items@[j], n) is None,
                decreases items.len() - i,
            {
                match count_rec(&items[i], Ghost(n)) {
                    Some(c) => {
                        proof {
                            let ii = i as int;
                            assert(0 <= ii < items@.len() && count_b(items@[ii], n) is Some && (
                            forall|j: int| 0 <= j < ii ==> count_b(#[trigger] items@[j], n) is None));
                            let w = choose|w: int|
                                0 <= w < items@.len() && count_b(#[trigger] items@[w], n) is Some
                                    && (forall|j: int|
                                    0 <= j < w ==> count_b(#[trigger] items@[j], n) is None);
                            if w < ii {
                                assert(count_b(items@[w], n) is None);
                            }
                            if ii < w {
                                assert(count_b(items@[ii], n) is None);
                            }
                        }
                        return Some(c);
                    },
                    None => {},
                }
                i = i + 1;
            }
            None
        },
        Json::Str(text) => {
            match parse_json(text.as_str()) {
                Some(inner) => count_rec(&inner, Ghost(text@.len())),
                None => None,
            }
        },
        _ => None,
    }
}

/// The account count that a message reports.
pub fn find_count_value(value: &Json) -> (r: Option<u64>)
    ensures
        r == message_count(*value),
{
    proof {
        lemma_json_bound_holds(*value);
    }
    count_rec(value, Ghost(json_bound(*value)))
}

/// The account that one item of a backup list describes.
pub fn parse_backup_item(item: &Json) -> (r: Option<TOTPInfo>)
    ensures
        r matches Some(t) ==> backup_item(*item) == Some(t@),
        r is None ==> backup_item(*item) is None,
{
    match item {
        Json::Object(e) => {
            let key = match str_member(e, "key") {
                Some(k) => k.clone(),
                None => return None,
            };
            let name = match str_member(e, "name") {
                Some(nm) => nm.clone(),
                None => return None,
            };
            let usr = match str_member(e, "usr") {
                Some(u) => u.clone(),
                None => String::new(),
            };
            Some(
                TOTPInfo {
                    name,
                    usr,
                    key,
                    algorithm: "SHA1".to_string(),
                    digits: 6,
                    period: 30,
                },
            )
        },
        _ => None,
    }
}

/// The accounts of the items of a backup list that describe one.
fn backup_list_items(items: &Vec<Json>) -> (r: Vec<TOTPInfo>)
    ensures
        totp_views(r@) == backup_items(items@),
{
    let mut list: Vec<TOTPInfo> = Vec::new();
    let mut i: usize = 0;
    assert(items@.take(0) =~= Seq::<Json>::empty());
    assert(totp_views(list@) =~= Seq::<TotpModel>::empty());
    while i < items.len()
        invariant
            i <= items.len(),
            totp_views(list@) == backup_items(items@.take(i as int)),
        decreases items.len() - i,
    {
        assert(items@.take(i + 1).drop_last() =~= items@.take(i as int));
        assert(items@.take(i + 1).last() == items@[i as int]);
        let ghost before = totp_views(list@);
        match parse_backup_item(&items[i]) {
            Some(t) => {
                list.push(t);
                assert(totp_views(list@) =~= before + seq![t@]);
            },
            None => {
                assert(before + Seq::<TotpModel>::empty() =~= before);
            },
        }
        i = i + 1;
    }
    assert(items@.take(items.len() as int) =~= items@);
    list
}

fn backup_rec(v: &Json, Ghost(n): Ghost<nat>) -> (r: Option<Vec<TOTPInfo>>)
    requires
        strings_below(*v, n),
    ensures
        r matches Some(l) ==> backup_b(*v, n) == Some(totp_views(l@)),
        r is None ==> backup_b(*v, n) is None,
    decreases n, *v,
{
    match v {
        Json::Object(entries) => {
            match str_member(entries, "action") {
                Some(a) => {
                    if text_is(a, "backup_response") {
                        match obj_get_exec(entries, "list") {
                            Some(Json::Array(items)) => {
                                return Some(backup_list_items(items));
                            },
                            _ => {},
                        }
                    }
                },
                None => {},
            }
            match str_member(entries, "data") {
                Some(ds) => {
                    proof {
                        let k = choose|k: int|
                            0 <= k < entries@.len() && entries@[k].1 == Json::Str(*ds);
                        assert(strings_below(entries@[k].1, n));
                    }
                    match parse_json(ds.as_str()) {
                        Some(inner) => {
                            match backup_rec(&inner, Ghost(ds@.len())) {
                                Some(l) => {
                                    return Some(l);
                                },
                                None => {},
                            }
                        },
                        None => {},
                    }
                },
                None => {},
            }
            let mut i: usize = 0;
            assert forall|j: int| 0 <= j < entries@.len() implies strings_below(
                #[trigger] entries@[j].1,
                n,
            ) && decreases_to!(*v => entries@[j].1) by {
                assert(entries@[j].0@.len() < n && strings_below(entries@[j].1, n));
            }
            while i < entries.len()
                invariant
                    i <= entries.len(),
                    forall|j: int| 0 <= j < entries@.len() ==> strings_below(
                        #[trigger] entries@[j].1,
                        n,
                    ) && decreases_to!(*v => entries@[j].1),
                    *v == Json::Object(*entries),
                    !(has_nested(entries@, n) && backup_b(
                        nested(entries@),
                        data_text(entries@)->0.len(),
                    ) is Some),
                    !(str_value(obj_get(entries@, "action"@)) == Some("backup_response"@) && obj_get(
                        entries@,
                        "list"@,
                    ) matches Some(Json::Array(_))),
                    forall|j: int| 0 <= j < i ==> backup_b(#[trigger] entries@[j].1, n) is None,
                decreases entries.len() - i,
            {
                assert(strings_below(entries@[i as int].1, n));
                match backup_rec(&entries[i].1, Ghost(n)) {
                    Some(l) => {
                        proof {
                            let ii = i as int;
                            assert(0 <= ii < entries@.len() && backup_b(entries@[ii].1, n) is Some
                                && (forall|j: int|
                                0 <= j < ii ==> backup_b(#[trigger] entries@[j].1, n) is None));
                            let w = choose|w: int|
                                0 <= w < entries@.len() && backup_b(#[trigger] entries@[w].1, n)
                                    is Some && (forall|j: int|
                                    0 <= j < w ==> backup_b(#[trigger] entries@[j].1, n) is None);
                            if w < ii {
                                assert(backup_b(entries@[w].1, n) is None);
                            }
                            if ii < w {
                                assert(backup_b(entries@[ii].1, n) is None);
                            }
                        }
                        return Some(l);
                    },
                    None => {},
                }
                i = i + 1;
            }
            None
        },
        _ => None,
    }
}

/// The backup list that a message carries.
pub fn find_backup_list(value: &Json) -> (r: Option<Vec<TOTPInfo>>)
    ensures
        r matches Some(l) ==> message_backup(*value) == Some(totp_views(l@)),
        r is None ==> message_backup(*value) is None,
{
    proof {
        lemma_json_bound_holds(*value);
    }
    backup_rec(value, Ghost(json_bound(*value)))
}

/// The string member among `value`, `text`, `input` and `content` that
/// comes first in that order.
fn first_text_member(e: &Vec<(String, Json)>) -> (r: Option<String>)
    ensures
        r matches Some(s) ==> (if str_value(obj_get(e@, "value"@)) is Some {
            str_value(obj_get(e@, "value"@))->0
        } else if str_value(obj_get(e@, "text"@)) is Some {
            str_value(obj_get(e@, "text"@))->0
        } else if str_value(obj_get(e@, "input"@)) is Some {
            str_value(obj_get(e@, "input"@))->0
        } else {
            str_value(obj_get(e@, "content"@))->0
        }) == s@,
        r is None <==> (str_value(obj_get(e@, "value"@)) is None && str_value(
            obj_get(e@, "text"@),
        ) is None && str_value(obj_get(e@, "input"@)) is None && str_value(
            obj_get(e@, "content"@),
        ) is None),
{
    match str_member(e, "value") {
        Some(s) => return Some(s.clone()),
        None => {},
    }
    match str_member(e, "text") {
        Some(s) => return Some(s.clone()),
        None => {},
    }
    match str_member(e, "input") {
        Some(s) => return Some(s.clone()),
        None => {},
    }
    match str_member(e, "content") {
        Some(s) => Some(s.clone()),
        None => None,
    }
}

/// What the plugin takes from an input event's trimmed payload, given the
/// JSON value it holds, if any.
pub fn event_text(trimmed: String, parsed: Option<Json>) -> (r: String)
    ensures
        r@ == event_value_from(trimmed@, parsed),
{
    match parsed {
        Some(Json::Str(text)) => text,
        Some(Json::Object(e)) => match first_text_member(&e) {
            Some(s) => s,
            None => trimmed,
        },
        _ => trimmed,
    }
}

/// What the plugin takes from the payload of an input event.
pub fn extract_event_value(payload: &str) -> (r: String)
    ensures
        r@ == event_value(payload@),
{
    let p = chars_of(payload);
    let t = trim_chars(&p);
    if t.len() == 0 {
        return String::new();
    }
    let trimmed = string_of(&t);
    let parsed = parse_json(trimmed.as_str());
    event_text(trimmed, parsed)
}

} // verus!
