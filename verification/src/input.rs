//! The text that the user enters: one or more account URIs, Google export
//! URIs, or a JSON list of accounts.
use vstd::prelude::*;
use vstd::utf8::*;
use crate::json::{obj_get, parse_json, str_value, Json, json_parse, obj_get_exec};
use crate::migration::{google_uri_model, parse_google_migration_uri};
use crate::proto::{proto_error_text, ProtoError};
use crate::text::{chars_of, split_chars, split_on, string_of, trim, trim_chars, views};
use crate::totp::{totp_views, TOTPInfo, TotpModel};
use crate::uri::{
    ci_prefix,
    parse_totp_uri,
    splits_at,
    strip_case_insensitive_prefix,
    totp_uri_model,
    uri_error_text,
    UriError,
};

verus! {

/// Why the entered text gives no account.
#[derive(Clone, Copy, Debug, PartialEq, Eq)]
pub enum InputError {
    /// An `otpauth://totp/` URI is unusable.
    Uri(UriError),
    /// A Google export payload is not a valid protobuf message.
    Proto(ProtoError),
    /// A Google export URI has no `data` parameter.
    MissingData,
    /// The `data` of a Google export URI is not Base64.
    BadBase64,
    /// A Google export holds no TOTP account.
    NoAccounts,
    /// The text holds no entry.
    EmptyInput,
    /// No entry gave an account.
    NothingParsed,
}

/// The message shown to the user for an input error.
pub open spec fn input_error_text(e: InputError) -> Seq<char> {
    match e {
        InputError::Uri(u) => uri_error_text(u),
        InputError::Proto(p) => proto_error_text(p),
        InputError::MissingData => "Google 导出 URI 缺少 data 参数"@,
        InputError::BadBase64 => "Google 导出 data 不是有效的 Base64"@,
        InputError::NoAccounts => "Google 导出数据中没有 TOTP 账号"@,
        InputError::EmptyInput => "URI 为空"@,
        InputError::NothingParsed => "没有解析到可用账号"@,
    }
}

impl InputError {
    /// The message shown to the user.
    pub fn message(&self) -> (m: String)
        ensures
            m@ == input_error_text(*self),
    {
        match self {
            InputError::Uri(e) => e.message(),
            InputError::Proto(e) => e.message(),
            InputError::MissingData => "Google 导出 URI 缺少 data 参数".to_string(),
            InputError::BadBase64 => "Google 导出 data 不是有效的 Base64".to_string(),
            InputError::NoAccounts => "Google 导出数据中没有 TOTP 账号".to_string(),
            InputError::EmptyInput => "URI 为空".to_string(),
            InputError::NothingParsed => "没有解析到可用账号".to_string(),
        }
    }
}

/// The trimmed, non-empty pieces among `pieces`.
pub open spec fn nonempty_trimmed(pieces: Seq<Seq<char>>) -> Seq<Seq<char>>
    decreases pieces.len(),
{
    if pieces.len() == 0 {
        Seq::<Seq<char>>::empty()
    } else {
        let rest = nonempty_trimmed(pieces.drop_last());
        let t = trim(pieces.last());
        if t.len() > 0 {
            rest.push(t)
        } else {
            rest
        }
    }
}

/// The entries of an input: its lines, each split at NUL characters,
/// trimmed, the empty ones left out. (`str::lines` ends a line at `\n`, and
/// the `\r` before it that it also drops is white space that trimming
/// drops anyway, so splitting at every `\n` gives the same entries.)
pub open spec fn input_entries(s: Seq<char>) -> Seq<Seq<char>> {
    nonempty_trimmed(split_on(s, '\n', '\0'))
}

/// The decimal digits of a number.
pub open spec fn nat_digits(n: nat) -> Seq<char>
    decreases n,
{
    if n < 10 {
        seq![(0x30 + n) as char]
    } else {
        nat_digits(n / 10).push((0x30 + n % 10) as char)
    }
}

/// The decimal text of an integer, as `i64::to_string` gives it.
pub open spec fn i64_text(i: i64) -> Seq<char> {
    if i < 0 {
        seq!['-'] + nat_digits((-(i as int)) as nat)
    } else {
        nat_digits(i as nat)
    }
}

/// The account name of an item of a JSON list: a string as it is, an
/// integer in decimal, a boolean as `true` or `false`, anything else empty.
pub open spec fn json_usr(o: Option<Json>) -> Seq<char> {
    match o {
        Some(Json::Str(s)) => s@,
        Some(Json::Number(_, Some(i))) => i64_text(i),
        Some(Json::Bool(b)) => if b {
            "true"@
        } else {
            "false"@
        },
        _ => Seq::<char>::empty(),
    }
}

/// The account of an item of a JSON list: an object with a non-empty
/// string `key`.
pub open spec fn json_item(item: Json) -> Option<TotpModel> {
    match item {
        Json::Object(e) => {
            let key = match str_value(obj_get(e@, "key"@)) {
                Some(k) => k,
                None => Seq::<char>::empty(),
            };
            if key.len() > 0 {
                Some(
                    TotpModel {
                        name: match str_value(obj_get(e@, "name"@)) {
                            Some(nm) => nm,
                            None => Seq::<char>::empty(),
                        },
                        usr: json_usr(obj_get(e@, "usr"@)),
                        key,
                        algorithm: "SHA1"@,
                        digits: 6,
                        period: 30,
                    },
                )
            } else {
                None
            }
        },
        _ => None,
    }
}

/// The accounts of the items of a JSON list.
pub open spec fn json_items(items: Seq<Json>) -> Seq<TotpModel>
    decreases items.len(),
{
    if items.len() == 0 {
        Seq::<TotpModel>::empty()
    } else {
        json_items(items.drop_last()) + match json_item(items.last()) {
            Some(t) => seq![t],
            None => Seq::<TotpModel>::empty(),
        }
    }
}

/// Whether the trimmed input looks like a JSON array or object.
pub open spec fn bracketed(t: Seq<char>) -> bool {
    t.len() > 0 && ((t[0] == '[' && t.last() == ']') || (t[0] == '{' && t.last() == '}'))
}

/// The accounts of a JSON value: those of the items of an array, or of a
/// single object; none of any other value.
pub open spec fn json_value_accounts(v: Json) -> Seq<TotpModel> {
    match v {
        Json::Array(items) => json_items(items@),
        Json::Object(e) => json_items(seq![v]),
        _ => Seq::<TotpModel>::empty(),
    }
}

/// The accounts that the input gives read as JSON, when it looks like a
/// JSON array or object and is one.
pub open spec fn json_input_accounts(t: Seq<char>) -> Option<Seq<TotpModel>> {
    if bracketed(t) && json_parse(t) is Some {
        Some(json_value_accounts(json_parse(t)->0))
    } else {
        None
    }
}

/// The accounts of one entry: a Google export URI, or an `otpauth://totp/`
/// URI.
pub open spec fn entry_result(part: Seq<char>) -> Result<Seq<TotpModel>, InputError> {
    if ci_prefix(part, "otpauth-migration://offline"@) {
        google_uri_model(part)
    } else {
        match totp_uri_model(part) {
            Ok(m) => Ok(seq![m]),
            Err(e) => Err(InputError::Uri(e)),
        }
    }
}

/// The accounts of all the entries, in order.
pub open spec fn all_accounts(parts: Seq<Seq<char>>) -> Seq<TotpModel>
    decreases parts.len(),
{
    if parts.len() == 0 {
        Seq::<TotpModel>::empty()
    } else {
        all_accounts(parts.drop_last()) + match entry_result(parts.last()) {
            Ok(l) => l,
            Err(_) => Seq::<TotpModel>::empty(),
        }
    }
}

/// The error of the first entry that gives one.
pub open spec fn first_error(parts: Seq<Seq<char>>) -> Option<InputError>
    decreases parts.len(),
{
    if parts.len() == 0 {
        None
    } else {
        match first_error(parts.drop_last()) {
            Some(e) => Some(e),
            None => match entry_result(parts.last()) {
                Err(e) => Some(e),
                Ok(_) => None,
            },
        }
    }
}

/// The accounts that the input gives: those of its JSON form when that
/// gives any; else those of all its entries, or the first entry error when
/// no entry gives any.
pub open spec fn input_model(input: Seq<char>) -> Result<Seq<TotpModel>, InputError> {
    let t = trim(input);
    if json_input_accounts(t) is Some && json_input_accounts(t)->0.len() > 0 {
        Ok(json_input_accounts(t)->0)
    } else {
        let parts = input_entries(input);
        if parts.len() == 0 {
            Err(InputError::EmptyInput)
        } else if all_accounts(parts).len() > 0 {
            Ok(all_accounts(parts))
        } else {
            match first_error(parts) {
                Some(e) => Err(e),
                None => Err(InputError::NothingParsed),
            }
        }
    }
}

/// Whether matching the URI prefixes on an entry splits no character: the
/// 27-byte Google export prefix always, the 15-byte TOTP prefix on the
/// entries that are not Google exports.
pub open spec fn entry_splits_cleanly(part: Seq<char>) -> bool {
    &&& splits_at(part, 27)
    &&& (!ci_prefix(part, "otpauth-migration://offline"@) ==> splits_at(part, 15))
}

/// Whether reading the input never splits a character while matching the
/// URI prefixes (it holds whenever the JSON form gives accounts).
pub open spec fn input_splits_cleanly(input: Seq<char>) -> bool {
    let t = trim(input);
    ||| json_input_accounts(t) is Some && json_input_accounts(t)->0.len() > 0
    ||| forall|i: int|
        0 <= i < input_entries(input).len() ==> entry_splits_cleanly(
            #[trigger] input_entries(input)[i],
        )
}

/// The entries of an input: its lines split at NUL characters, trimmed,
/// the empty ones left out.
pub fn split_input_entries(input: &str) -> (r: Vec<String>)
    ensures
        r@.map_values(|s: String| s@) == input_entries(input@),
{
    let c = chars_of(input);
    let pieces = split_chars(&c, '\n', '\0');
    let ghost ps = views(pieces@);
    let mut out: Vec<String> = Vec::new();
    let mut i: usize = 0;
    assert(ps.take(0) =~= Seq::<Seq<char>>::empty());
    assert(out@.map_values(|s: String| s@) =~= Seq::<Seq<char>>::empty());
    while i < pieces.len()
        invariant
            i <= pieces.len(),
            ps == views(pieces@),
            ps == split_on(input@, '\n', '\0'),
            out@.map_values(|s: String| s@) == nonempty_trimmed(ps.take(i as int)),
        decreases pieces.len() - i,
    {
        assert(ps.take(i + 1).drop_last() =~= ps.take(i as int));
        assert(ps.take(i + 1).last() == pieces@[i as int]@);
        let t = trim_chars(&pieces[i]);
        if t.len() > 0 {
            let ghost before = out@.map_values(|s: String| s@);
            let ts = string_of(&t);
            out.push(ts);
            assert(out@.map_values(|s: String| s@) =~= before.push(t@));
        }
        i = i + 1;
    }
    assert(ps.take(pieces.len() as int) =~= ps);
    out
}

/// The decimal digits of a number.
pub fn nat_digits_exec(m: u64) -> (r: Vec<char>)
    ensures
        r@ == nat_digits(m as nat),
    decreases m,
{
    if m < 10 {
        let mut v: Vec<char> = Vec::new();
        v.push(((0x30 + m) as u8) as char);
        v
    } else {
        let mut v = nat_digits_exec(m / 10);
        v.push(((0x30 + m % 10) as u8) as char);
        v
    }
}

/// The decimal text of an integer.
pub fn i64_to_text(i: i64) -> (r: Vec<char>)
    ensures
        r@ == i64_text(i),
{
    if i < 0 {
        let m = (-(i as i128)) as u64;
        let digits = nat_digits_exec(m);
        let mut out: Vec<char> = Vec::new();
        out.push('-');
        let mut k: usize = 0;
        while k < digits.len()
            invariant
                k <= digits.len(),
                out@ == seq!['-'] + digits@.take(k as int),
            decreases digits.len() - k,
        {
            out.push(digits[k]);
            k = k + 1;
            assert(out@ =~= seq!['-'] + digits@.take(k as int));
        }
        assert(digits@.take(digits.len() as int) =~= digits@);
        out
    } else {
        nat_digits_exec(i as u64)
    }
}

/// The account name of an item of a JSON list.
fn json_usr_exec(o: Option<&Json>) -> (r: String)
    ensures
        r@ == json_usr(match o {
            Some(j) => Some(*j),
            None => None,
        }),
{
    match o {
        Some(Json::Str(s)) => s.clone(),
        Some(Json::Number(_, Some(i))) => string_of(&i64_to_text(*i)),
        Some(Json::Bool(b)) => if *b {
            "true".to_string()
        } else {
            "false".to_string()
        },
        _ => String::new(),
    }
}

/// The account of an item of a JSON list.
fn json_item_exec(item: &Json) -> (r: Option<TOTPInfo>)
    ensures
        r matches Some(t) ==> json_item(*item) == Some(t@),
        r is None ==> json_item(*item) is None,
{
    match item {
        Json::Object(e) => {
            let name = match obj_get_exec(e, "name") {
                Some(Json::Str(s)) => s.clone(),
                _ => String::new(),
            };
            let usr = json_usr_exec(obj_get_exec(e, "usr"));
            let key = match obj_get_exec(e, "key") {
                Some(Json::Str(s)) => s.clone(),
                _ => String::new(),
            };
            if !key.as_str().is_empty() {
                Some(
                    TOTPInfo {
                        name,
                        usr,
                        key,
                        algorithm: "SHA1".to_string(),
                        digits: 6,
                        period: 30,
                    },
                )
            } else {
                None
            }
        },
        _ => None,
    }
}

/// The accounts of the items of a JSON list.
fn json_items_exec(items: &Vec<Json>) -> (r: Vec<TOTPInfo>)
    ensures
        totp_views(r@) == json_items(items@),
{
    let mut list: Vec<TOTPInfo> = Vec::new();
    let mut i: usize = 0;
    assert(items@.take(0) =~= Seq::<Json>::empty());
    assert(totp_views(list@) =~= Seq::<TotpModel>::empty());
    while i < items.len()
        invariant
            i <= items.len(),
            totp_views(list@) == json_items(items@.take(i as int)),
        decreases items.len() - i,
    {
        assert(items@.take(i + 1).drop_last() =~= items@.take(i as int));
        assert(items@.take(i + 1).last() == items@[i as int]);
        let ghost before = totp_views(list@);
        match json_item_exec(&items[i]) {
            Some(t) => {
                list.push(t);
                assert(totp_views(list@) =~= before + seq![t@]);
            },
            None => {
                assert(before + Seq::<TotpModel>::empty() =~= before);
            },
        }
        i = i + 1;
    }
    assert(items@.take(items.len() as int) =~= items@);
    list
}

/// Whether an entry can have its URI prefixes matched without splitting a
/// character.
pub fn entry_is_clean(part: &str) -> (r: bool)
    ensures
        r == entry_splits_cleanly(part@),
{
    proof {
        reveal_strlit("otpauth-migration://offline");
        assert(vstd::utf8::is_ascii_chars("otpauth-migration://offline"@));
        vstd::utf8::is_ascii_chars_encode_utf8("otpauth-migration://offline"@);
    }
    let n = part.as_bytes().len();
    let at27 = n < 27 || part.is_char_boundary(27);
    if !at27 {
        return false;
    }
    match strip_case_insensitive_prefix(part, "otpauth-migration://offline") {
        Some(_) => true,
        None => n < 15 || part.is_char_boundary(15),
    }
}

/// Whether reading the input never splits a character while matching the
/// URI prefixes. Reading an input for which this is false stops the
/// program, as the matching would.
pub fn input_is_clean(input: &str) -> (r: bool)
    ensures
        r == input_splits_cleanly(input@),
{
    match json_accounts_exec(input) {
        Some(l) => {
            if l.len() > 0 {
                return true;
            }
        },
        None => {},
    }
    let parts = split_input_entries(input);
    let ghost ps = parts@.map_values(|s: String| s@);
    let mut i: usize = 0;
    while i < parts.len()
        invariant
            i <= parts.len(),
            ps == parts@.map_values(|s: String| s@),
            ps == input_entries(input@),
            forall|k: int| 0 <= k < i ==> entry_splits_cleanly(#[trigger] ps[k]),
            !(json_input_accounts(trim(input@)) is Some && json_input_accounts(trim(input@))->0.len()
                > 0),
        decreases parts.len() - i,
    {
        assert(ps[i as int] == parts@[i as int]@);
        if !entry_is_clean(parts[i].as_str()) {
            assert(!entry_splits_cleanly(input_entries(input@)[i as int]));
            return false;
        }
        i = i + 1;
    }
    true
}

/// The accounts that the trimmed input gives read as JSON.
fn json_accounts_exec(input: &str) -> (r: Option<Vec<TOTPInfo>>)
    ensures
        r matches Some(l) ==> json_input_accounts(trim(input@)) == Some(totp_views(l@)),
        r is None ==> json_input_accounts(trim(input@)) is None,
{
    let c = chars_of(input);
    let t = trim_chars(&c);
    let n = t.len();
    if !(n > 0 && ((t[0] == '[' && t[n - 1] == ']') || (t[0] == '{' && t[n - 1] == '}'))) {
        return None;
    }
    let ts = string_of(&t);
    match parse_json(ts.as_str()) {
        Some(value) => Some(accounts_of_json(value)),
        None => None,
    }
}

/// The accounts of a JSON value: those of the items of an array, or of a
/// single object; none of any other value.
pub fn accounts_of_json(value: Json) -> (r: Vec<TOTPInfo>)
    ensures
        totp_views(r@) == json_value_accounts(value),
{
    let ghost v = value;
    match value {
        Json::Array(items) => json_items_exec(&items),
        Json::Object(e) => {
            let mut one: Vec<Json> = Vec::new();
            one.push(Json::Object(e));
            assert(one@ =~= seq![v]);
            json_items_exec(&one)
        },
        _ => {
            let empty: Vec<TOTPInfo> = Vec::new();
            assert(totp_views(empty@) =~= Seq::<TotpModel>::empty());
            empty
        },
    }
}

/// The accounts of one entry.
fn parse_entry(part: &str) -> (r: Result<Vec<TOTPInfo>, InputError>)
    requires
        entry_splits_cleanly(part@),
    ensures
        r matches Ok(l) ==> entry_result(part@) == Ok::<Seq<TotpModel>, InputError>(totp_views(l@)),
        r matches Err(e) ==> entry_result(part@) == Err::<Seq<TotpModel>, InputError>(e),
{
    proof {
        reveal_strlit("otpauth-migration://offline");
        assert(vstd::utf8::is_ascii_chars("otpauth-migration://offline"@));
        vstd::utf8::is_ascii_chars_encode_utf8("otpauth-migration://offline"@);
    }
    if strip_case_insensitive_prefix(part, "otpauth-migration://offline").is_some() {
        parse_google_migration_uri(part)
    } else {
        match parse_totp_uri(part) {
            Ok(totp) => {
                let mut v: Vec<TOTPInfo> = Vec::new();
                v.push(totp);
                assert(totp_views(v@) =~= seq![totp@]);
                Ok(v)
            },
            Err(e) => Err(InputError::Uri(e)),
        }
    }
}

/// The accounts that the entered text gives: a JSON list of accounts, or
/// lines of `otpauth://totp/` and Google export URIs.
pub fn parse_totp_input(input: &str) -> (r: Result<Vec<TOTPInfo>, InputError>)
    requires
        input_splits_cleanly(input@),
    ensures
        r matches Ok(l) ==> input_model(input@) == Ok::<Seq<TotpModel>, InputError>(totp_views(l@)),
        r matches Err(e) ==> input_model(input@) == Err::<Seq<TotpModel>, InputError>(e),
{
    match json_accounts_exec(input) {
        Some(l) => {
            if l.len() > 0 {
                return Ok(l);
            }
        },
        None => {},
    }
    let parts = split_input_entries(input);
    let ghost ps = parts@.map_values(|s: String| s@);
    if parts.len() == 0 {
        return Err(InputError::EmptyInput);
    }
    let mut all: Vec<TOTPInfo> = Vec::new();
    let mut first_err: Option<InputError> = None;
    let mut i: usize = 0;
    assert(ps.take(0) =~= Seq::<Seq<char>>::empty());
    assert(totp_views(all@) =~= Seq::<TotpModel>::empty());
    while i < parts.len()
        invariant
            i <= parts.len(),
            ps == parts@.map_values(|s: String| s@),
            ps == input_entries(input@),
            forall|k: int| 0 <= k < ps.len() ==> entry_splits_cleanly(#[trigger] ps[k]),
            totp_views(all@) == all_accounts(ps.take(i as int)),
            first_err == first_error(ps.take(i as int)),
        decreases parts.len() - i,
    {
        assert(ps.take(i + 1).drop_last() =~= ps.take(i as int));
        assert(ps.take(i + 1).last() == ps[i as int]);
        assert(ps[i as int] == parts@[i as int]@);
        let ghost before = totp_views(all@);
        match parse_entry(parts[i].as_str()) {
            Ok(list) => {
                let mut list = list;
                let ghost lv = totp_views(list@);
                all.append(&mut list);
                assert(totp_views(all@) =~= before + lv);
            },
            Err(e) => {
                if first_err.is_none() {
                    first_err = Some(e);
                }
                assert(totp_views(all@) =~= before + Seq::<TotpModel>::empty());
            },
        }
        i = i + 1;
    }
    assert(ps.take(parts.len() as int) =~= ps);
    if all.len() > 0 {
        Ok(all)
    } else {
        match first_err {
            Some(e) => Err(e),
            None => Err(InputError::NothingParsed),
        }
    }
}

} // verus!
