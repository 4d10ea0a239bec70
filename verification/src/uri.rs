//! `otpauth://totp/...` URIs: prefix matching, query parameters, decimal
//! numbers and the account they describe.
use vstd::prelude::*;
use vstd::utf8::*;
use crate::encoding::{lemma_ascii_bytes_prefix, lemma_encode_ascii_prefix};
use crate::percent::{ascii_bytes, lossy_text, pct_decode_bytes, percent_decode_with_plus_mode};
use crate::text::{
    ascii_lower,
    chars_of,
    eq_chars,
    split_chars,
    split_on,
    split_once,
    split_once_chars,
    string_of,
    trim,
    trim_chars,
    upper_text,
    upper_chars,
    views,
};
use crate::totp::{TOTPInfo, TotpModel};

verus! {

broadcast use vstd::utf8::group_utf8_lib;

/// ASCII lower-case of a byte, as `u8::to_ascii_lowercase` gives it.
pub open spec fn lower_byte(b: u8) -> u8 {
    if 0x41 <= b <= 0x5a {
        (b + 32) as u8
    } else {
        b
    }
}

/// Whether `v` starts with `p`, ignoring ASCII case.
pub open spec fn ci_prefix(v: Seq<char>, p: Seq<char>) -> bool {
    &&& v.len() >= p.len()
    &&& forall|i: int| 0 <= i < p.len() ==> ascii_lower(#[trigger] v[i]) == ascii_lower(p[i])
}

/// The rest of `v` after the prefix `p` (ASCII case ignored), if it has it.
pub open spec fn strip_ci(v: Seq<char>, p: Seq<char>) -> Option<Seq<char>> {
    if ci_prefix(v, p) {
        Some(v.skip(p.len() as int))
    } else {
        None
    }
}

/// The UTF-8 encoding of `v` is shorter than `k` bytes or has a character
/// boundary at byte `k`: splitting the text at byte `k` is then defined.
pub open spec fn splits_at(v: Seq<char>, k: nat) -> bool {
    encode_utf8(v).len() < k || is_char_boundary(encode_utf8(v), k as int)
}

/// A component of a URI after percent-decoding, with `+` read as a space
/// when `plus_as_space` holds.
pub open spec fn decoded(v: Seq<char>, plus_as_space: bool) -> Seq<char> {
    lossy_text(pct_decode_bytes(encode_utf8(v), plus_as_space))
}

/// The raw value of the first `name=value` part among `parts` whose name
/// is `key`; parts without `=` are passed over.
pub open spec fn lookup(parts: Seq<Seq<char>>, key: Seq<char>) -> Option<Seq<char>>
    decreases parts.len(),
{
    if parts.len() == 0 {
        None
    } else {
        match split_once(parts[0], '=') {
            Some((name, value)) => if name == key {
                Some(value)
            } else {
                lookup(parts.drop_first(), key)
            },
            None => lookup(parts.drop_first(), key),
        }
    }
}

/// The decoded value of the query parameter `key` of `query`.
pub open spec fn query_param(query: Seq<char>, key: Seq<char>, plus_as_space: bool) -> Option<
    Seq<char>,
> {
    match lookup(split_on(query, '&', '&'), key) {
        Some(v) => Some(decoded(v, plus_as_space)),
        None => None,
    }
}

pub open spec fn is_digit(c: char) -> bool {
    '0' <= c <= '9'
}

/// `s` without one leading `+`.
pub open spec fn sign_stripped(s: Seq<char>) -> Seq<char> {
    if s.len() > 0 && s[0] == '+' {
        s.drop_first()
    } else {
        s
    }
}

/// Every character of `d` is a decimal digit.
pub open spec fn all_digits(d: Seq<char>) -> bool {
    forall|i: int| 0 <= i < d.len() ==> is_digit(#[trigger] d[i])
}

/// The number that a sequence of decimal digits spells.
pub open spec fn digits_value(s: Seq<char>) -> nat
    decreases s.len(),
{
    if s.len() == 0 {
        0
    } else {
        digits_value(s.drop_last()) * 10 + ((s.last() as u32) - 0x30) as nat
    }
}

/// `str::parse::<u32>`: an optional `+` and then at least one decimal digit,
/// spelling a number that fits in 32 bits.
pub open spec fn parse_u32_spec(s: Seq<char>) -> Option<u32> {
    let d = sign_stripped(s);
    if d.len() > 0 && all_digits(d) && digits_value(d) <= u32::MAX {
        Some(digits_value(d) as u32)
    } else {
        None
    }
}

/// The issuer and account that a decoded label names: `issuer:account`
/// when the part before the first `:` is not blank, else only an account.
pub open spec fn label_parts(label: Seq<char>) -> (Seq<char>, Seq<char>) {
    match split_once(label, ':') {
        Some((i, a)) => if trim(i).len() > 0 {
            (trim(i), trim(a))
        } else {
            (Seq::<char>::empty(), trim(label))
        },
        None => (Seq::<char>::empty(), trim(label)),
    }
}

/// The part of a URI after its scheme and type, split into label and query.
pub open spec fn label_and_query(rest: Seq<char>) -> (Seq<char>, Seq<char>) {
    match split_once(rest, '?') {
        Some((l, q)) => (l, q),
        None => (rest, Seq::<char>::empty()),
    }
}

/// Why a text is not a usable `otpauth://totp/` URI.
#[derive(Clone, Copy, Debug, PartialEq, Eq)]
pub enum UriError {
    /// It does not start with `otpauth://totp/`.
    NotTotp,
    /// It has no non-empty `secret` parameter.
    MissingSecret,
}

/// The message shown to the user for an unusable URI.
pub open spec fn uri_error_text(e: UriError) -> Seq<char> {
    match e {
        UriError::NotTotp => "URI 格式错误或不是 TOTP 类型"@,
        UriError::MissingSecret => "缺少必需参数: secret"@,
    }
}

impl UriError {
    /// The message shown to the user.
    pub fn message(&self) -> (m: String)
        ensures
            m@ == uri_error_text(*self),
    {
        match self {
            UriError::NotTotp => "URI 格式错误或不是 TOTP 类型".to_string(),
            UriError::MissingSecret => "缺少必需参数: secret".to_string(),
        }
    }
}

/// The value of an optional decimal parameter, or `default`.
pub open spec fn number_or(v: Option<Seq<char>>, default: u32) -> u32 {
    match v {
        Some(d) => match parse_u32_spec(d) {
            Some(n) => n,
            None => default,
        },
        None => default,
    }
}

/// The account that an `otpauth://totp/` URI describes.
pub open spec fn totp_uri_model(uri: Seq<char>) -> Result<TotpModel, UriError> {
    match strip_ci(uri, "otpauth://totp/"@) {
        None => Err(UriError::NotTotp),
        Some(rest) => {
            let (label_raw, query) = label_and_query(rest);
            let (issuer_from_path, account) = label_parts(decoded(label_raw, true));
            match query_param(query, "secret"@, true) {
                Some(secret) => if secret.len() > 0 {
                    Ok(
                        TotpModel {
                            name: match query_param(query, "issuer"@, true) {
                                Some(i) => if i.len() > 0 {
                                    i
                                } else if issuer_from_path.len() == 0 {
                                    "Unknown"@
                                } else {
                                    issuer_from_path
                                },
                                None => if issuer_from_path.len() == 0 {
                                    "Unknown"@
                                } else {
                                    issuer_from_path
                                },
                            },
                            usr: if account.len() == 0 {
                                "Unknown"@
                            } else {
                                account
                            },
                            key: secret,
                            algorithm: upper_text(
                                match query_param(query, "algorithm"@, true) {
                                    Some(a) => a,
                                    None => "SHA1"@,
                                },
                            ),
                            digits: number_or(query_param(query, "digits"@, true), 6),
                            period: number_or(query_param(query, "period"@, true), 30),
                        },
                    )
                } else {
                    Err(UriError::MissingSecret)
                },
                None => Err(UriError::MissingSecret),
            }
        },
    }
}

/// `str::eq_ignore_ascii_case` on byte strings.
fn eq_ignore_ascii_case_bytes(a: &[u8], b: &[u8]) -> (r: bool)
    ensures
        r == (a@.len() == b@.len() && forall|i: int|
            0 <= i < a@.len() ==> lower_byte(#[trigger] a@[i]) == lower_byte(b@[i])),
{
    if a.len() != b.len() {
        return false;
    }
    let mut i: usize = 0;
    while i < a.len()
        invariant
            i <= a.len() == b.len(),
            forall|k: int| 0 <= k < i ==> lower_byte(#[trigger] a@[k]) == lower_byte(b@[k]),
        decreases a.len() - i,
    {
        let x = if 0x41 <= a[i] && a[i] <= 0x5a {
            a[i] + 32
        } else {
            a[i]
        };
        let y = if 0x41 <= b[i] && b[i] <= 0x5a {
            b[i] + 32
        } else {
            b[i]
        };
        if x != y {
            return false;
        }
        i = i + 1;
    }
    true
}

proof fn lemma_lower_ascii(c: char)
    requires
        '\0' <= c <= '\u{7f}',
    ensures
        lower_byte(c as u8) == ascii_lower(c) as u8,
        (ascii_lower(c) as u32) < 128,
        c as u8 as u32 == c as u32,
{
}

/// Whether the bytes `v` start with the bytes `p`, ASCII case ignored.
pub open spec fn ci_byte_prefix(v: Seq<u8>, p: Seq<u8>) -> bool {
    &&& v.len() >= p.len()
    &&& forall|i: int| 0 <= i < p.len() ==> lower_byte(#[trigger] v[i]) == lower_byte(p[i])
}

/// With an ASCII prefix, a text starts with it (case ignored) exactly when
/// its encoding starts with the prefix's bytes; the rest of the text is
/// then encoded by the rest of the bytes.
proof fn lemma_ci_prefix_bytes(v: Seq<char>, p: Seq<char>)
    requires
        is_ascii_chars(p),
    ensures
        encode_utf8(p) == ascii_bytes(p),
        ci_prefix(v, p) <==> ci_byte_prefix(encode_utf8(v), encode_utf8(p)),
        ci_prefix(v, p) ==> encode_utf8(v.skip(p.len() as int)) == encode_utf8(v).skip(
            p.len() as int,
        ),
{
    let k = p.len() as int;
    let b = encode_utf8(v);
    is_ascii_chars_encode_utf8(p);
    assert(encode_utf8(p) =~= ascii_bytes(p));
    if ci_prefix(v, p) {
        assert forall|i: int| 0 <= i < k implies '\0' <= #[trigger] v.take(k)[i] <= '\u{7f}' by {
            assert(v.take(k)[i] == v[i]);
            assert(ascii_lower(v[i]) == ascii_lower(p[i]));
            assert('\0' <= p[i] <= '\u{7f}');
        }
        lemma_encode_ascii_prefix(v, k);
        assert forall|i: int| 0 <= i < k implies lower_byte(#[trigger] b[i]) == lower_byte(
            encode_utf8(p)[i],
        ) by {
            assert(v.take(k)[i] == v[i]);
            assert('\0' <= v[i] <= '\u{7f}');
            assert('\0' <= p[i] <= '\u{7f}');
            lemma_lower_ascii(v[i]);
            lemma_lower_ascii(p[i]);
            assert(b[i] == (ascii_bytes(v.take(k)) + encode_utf8(v.skip(k)))[i]);
            assert(encode_utf8(p)[i] == p[i] as u8);
        }
        assert(b.skip(k) =~= encode_utf8(v.skip(k)));
    }
    if ci_byte_prefix(b, encode_utf8(p)) {
        assert forall|i: int| 0 <= i < k implies b[i] < 0x80 by {
            assert(encode_utf8(p)[i] == p[i] as u8);
            assert('\0' <= p[i] <= '\u{7f}');
            lemma_lower_ascii(p[i]);
        }
        lemma_ascii_bytes_prefix(v, k);
        lemma_encode_ascii_prefix(v, k);
        assert forall|i: int| 0 <= i < k implies ascii_lower(#[trigger] v[i]) == ascii_lower(p[i]) by {
            assert(v.take(k)[i] == v[i]);
            assert('\0' <= v[i] <= '\u{7f}');
            assert('\0' <= p[i] <= '\u{7f}');
            lemma_lower_ascii(v[i]);
            lemma_lower_ascii(p[i]);
            assert(b[i] == (ascii_bytes(v.take(k)) + encode_utf8(v.skip(k)))[i]);
            assert(encode_utf8(p)[i] == p[i] as u8);
        }
    }
}

/// The rest of `value` after `prefix`, when the bytes of `value` start
/// with those of `prefix` ignoring ASCII case. (Matching ends at the
/// prefix's byte length, which must fall on a character boundary of
/// `value`: `str::split_at` stops the program otherwise.)
pub fn strip_case_insensitive_prefix<'a>(value: &'a str, prefix: &str) -> (r: Option<&'a str>)
    requires
        splits_at(value@, encode_utf8(prefix@).len()),
    ensures
        r is Some <==> ci_byte_prefix(encode_utf8(value@), encode_utf8(prefix@)),
        r matches Some(rest) ==> encode_utf8(rest@) == encode_utf8(value@).skip(
            encode_utf8(prefix@).len() as int,
        ),
        is_ascii_chars(prefix@) ==> (r is Some <==> ci_prefix(value@, prefix@)),
        is_ascii_chars(prefix@) ==> (r matches Some(rest) ==> rest@ == value@.skip(
            prefix@.len() as int,
        )),
{
    proof {
        if is_ascii_chars(prefix@) {
            lemma_ci_prefix_bytes(value@, prefix@);
        }
    }
    let value_bytes = value.as_bytes();
    let prefix_bytes = prefix.as_bytes();
    if value_bytes.len() < prefix_bytes.len() {
        return None;
    }
    let plen = prefix_bytes.len();
    assert(is_char_boundary(encode_utf8(value@), plen as int));
    let (candidate, rest) = value.split_at(plen);
    let cand_bytes = candidate.as_bytes();
    let same = eq_ignore_ascii_case_bytes(cand_bytes, prefix_bytes);
    proof {
        let b = encode_utf8(value@);
        assert(cand_bytes@ =~= b.subrange(0, plen as int));
        assert forall|i: int| 0 <= i < plen implies #[trigger] b[i] == b.subrange(0, plen as int)[i] by {}
        assert(encode_utf8(rest@) =~= b.skip(plen as int));
        if is_ascii_chars(prefix@) && same {
            encode_utf8_decode_utf8(rest@);
            encode_utf8_decode_utf8(value@.skip(prefix@.len() as int));
        }
    }
    if same {
        Some(rest)
    } else {
        None
    }
}

proof fn lemma_digits_value_grows(d: Seq<char>, j: int)
    requires
        0 <= j <= d.len(),
        forall|i: int| 0 <= i < d.len() ==> is_digit(#[trigger] d[i]),
    ensures
        digits_value(d.take(j)) <= digits_value(d),
    decreases d.len() - j,
{
    if j < d.len() {
        lemma_digits_value_grows(d, j + 1);
        assert(d.take(j + 1).drop_last() =~= d.take(j));
        assert(is_digit(d[j]));
    } else {
        assert(d.take(j) =~= d);
    }
}

/// `str::parse::<u32>` on a character vector.
pub fn parse_u32(s: &Vec<char>) -> (r: Option<u32>)
    ensures
        r == parse_u32_spec(s@),
{
    let ghost d = sign_stripped(s@);
    let start: usize = if s.len() > 0 && s[0] == '+' {
        1
    } else {
        0
    };
    assert(d =~= s@.skip(start as int));
    if start == s.len() {
        return None;
    }
    let mut value: u64 = 0;
    let mut i: usize = start;
    assert(d.take(0) =~= Seq::<char>::empty());
    while i < s.len()
        invariant
            start <= i <= s.len(),
            d == s@.skip(start as int),
            d == sign_stripped(s@),
            forall|k: int| 0 <= k < i - start ==> is_digit(#[trigger] d[k]),
            value == digits_value(d.take(i - start)),
            value <= u32::MAX,
        decreases s.len() - i,
    {
        let c = s[i];
        assert(d[i - start] == c);
        if !(c >= '0' && c <= '9') {
            assert(!is_digit(d[i - start]));
            assert(!(forall|k: int| 0 <= k < d.len() ==> is_digit(#[trigger] d[k])));
            return None;
        }
        let digit = (c as u32) - 0x30;
        assert(d.take(i - start + 1).drop_last() =~= d.take(i - start));
        value = value * 10 + digit as u64;
        i = i + 1;
        assert(value == digits_value(d.take(i - start)));
        if value > 0xffff_ffff {
            proof {
                if forall|k: int| 0 <= k < d.len() ==> is_digit(#[trigger] d[k]) {
                    lemma_digits_value_grows(d, i - start);
                    assert(digits_value(d) > u32::MAX);
                }
            }
            return None;
        }
    }
    assert(d.take(d.len() as int) =~= d);
    Some(value as u32)
}

/// The raw value of the first `key=value` part of the query.
fn lookup_chars(query: &Vec<char>, key: &Vec<char>) -> (r: Option<Vec<char>>)
    ensures
        r matches Some(v) ==> lookup(split_on(query@, '&', '&'), key@) == Some(v@),
        r is None ==> lookup(split_on(query@, '&', '&'), key@) is None,
{
    let parts = split_chars(query, '&', '&');
    let ghost ps = views(parts@);
    let mut i: usize = 0;
    assert(ps.skip(0) =~= ps);
    while i < parts.len()
        invariant
            i <= parts.len(),
            ps == views(parts@),
            ps == split_on(query@, '&', '&'),
            lookup(ps, key@) == lookup(ps.skip(i as int), key@),
        decreases parts.len() - i,
    {
        let part = &parts[i];
        assert(ps.skip(i as int)[0] == part@);
        assert(ps.skip(i as int).drop_first() =~= ps.skip(i + 1));
        match split_once_chars(part, '=') {
            Some((name, value)) => {
                if eq_chars(&name, key) {
                    return Some(value);
                }
            },
            None => {},
        }
        i = i + 1;
    }
    assert(ps.skip(parts.len() as int) =~= Seq::<Seq<char>>::empty());
    None
}

/// The decoded value of a query parameter, as character vector.
fn query_param_chars(query: &Vec<char>, key: &str, plus_as_space: bool) -> (r: Option<Vec<char>>)
    ensures
        r matches Some(v) ==> query_param(query@, key@, plus_as_space) == Some(v@),
        r is None ==> query_param(query@, key@, plus_as_space) is None,
{
    let k = chars_of(key);
    match lookup_chars(query, &k) {
        Some(raw) => {
            let s = string_of(&raw);
            let out = percent_decode_with_plus_mode(s.as_str(), plus_as_space);
            Some(chars_of(out.as_str()))
        },
        None => None,
    }
}

/// The percent-decoded value (`+` read as a space) of the first query
/// parameter named `key`.
pub fn get_query_param(query: &str, key: &str) -> (r: Option<String>)
    ensures
        r matches Some(v) ==> query_param(query@, key@, true) == Some(v@),
        r is None ==> query_param(query@, key@, true) is None,
{
    let q = chars_of(query);
    match query_param_chars(&q, key, true) {
        Some(v) => Some(string_of(&v)),
        None => None,
    }
}

/// The percent-decoded value (`+` kept as it is) of the first query
/// parameter named `key`.
pub fn get_query_param_preserve_plus(query: &str, key: &str) -> (r: Option<String>)
    ensures
        r matches Some(v) ==> query_param(query@, key@, false) == Some(v@),
        r is None ==> query_param(query@, key@, false) is None,
{
    let q = chars_of(query);
    match query_param_chars(&q, key, false) {
        Some(v) => Some(string_of(&v)),
        None => None,
    }
}

/// The issuer and account that a label names.
pub fn split_label(label: &Vec<char>) -> (r: (Vec<char>, Vec<char>))
    ensures
        (r.0@, r.1@) == label_parts(label@),
{
    match split_once_chars(label, ':') {
        Some((i, a)) => {
            let ti = trim_chars(&i);
            if ti.len() > 0 {
                (ti, trim_chars(&a))
            } else {
                (Vec::new(), trim_chars(label))
            }
        },
        None => (Vec::new(), trim_chars(label)),
    }
}

/// The account that an `otpauth://totp/` URI describes.
pub fn parse_totp_uri(uri: &str) -> (r: Result<TOTPInfo, UriError>)
    requires
        splits_at(uri@, 15),
    ensures
        r matches Ok(t) ==> totp_uri_model(uri@) == Ok::<TotpModel, UriError>(t@),
        r matches Err(e) ==> totp_uri_model(uri@) == Err::<TotpModel, UriError>(e),
{
    proof {
        reveal_strlit("otpauth://totp/");
        assert(is_ascii_chars("otpauth://totp/"@));
        is_ascii_chars_encode_utf8("otpauth://totp/"@);
    }
    let rest = match strip_case_insensitive_prefix(uri, "otpauth://totp/") {
        Some(rest) => rest,
        None => return Err(UriError::NotTotp),
    };
    let rest_c = chars_of(rest);
    let (label_raw, query) = match split_once_chars(&rest_c, '?') {
        Some((l, q)) => (l, q),
        None => (rest_c, Vec::new()),
    };
    let label_s = string_of(&label_raw);
    let label_dec = percent_decode_with_plus_mode(label_s.as_str(), true);
    let label = chars_of(label_dec.as_str());
    let (issuer_from_path, account) = split_label(&label);
    let secret = match query_param_chars(&query, "secret", true) {
        Some(s) => {
            if s.len() > 0 {
                s
            } else {
                return Err(UriError::MissingSecret);
            }
        },
        None => return Err(UriError::MissingSecret),
    };
    let issuer = match query_param_chars(&query, "issuer", true) {
        Some(i) => {
            if i.len() > 0 {
                string_of(&i)
            } else if issuer_from_path.len() == 0 {
                "Unknown".to_string()
            } else {
                string_of(&issuer_from_path)
            }
        },
        None => {
            if issuer_from_path.len() == 0 {
                "Unknown".to_string()
            } else {
                string_of(&issuer_from_path)
            }
        },
    };
    let algorithm_raw = match query_param_chars(&query, "algorithm", true) {
        Some(a) => a,
        None => chars_of("SHA1"),
    };
    let algorithm = upper_chars(&algorithm_raw);
    let digits = match query_param_chars(&query, "digits", true) {
        Some(d) => match parse_u32(&d) {
            Some(n) => n,
            None => 6,
        },
        None => 6,
    };
    let period = match query_param_chars(&query, "period", true) {
        Some(d) => match parse_u32(&d) {
            Some(n) => n,
            None => 30,
        },
        None => 30,
    };
    let usr = if account.len() == 0 {
        "Unknown".to_string()
    } else {
        string_of(&account)
    };
    Ok(
        TOTPInfo {
            name: issuer,
            usr,
            key: string_of(&secret),
            algorithm: string_of(&algorithm),
            digits,
            period,
        },
    )
}

/// A non-empty `issuer` query parameter names the account, whatever the
/// label holds: an `otpauth://totp/` URI with label `label` and query
/// `query` that gives an account gives it the decoded `issuer` parameter
/// as its name, also when the label has no `issuer:` prefix.
pub proof fn law_issuer_parameter_names_account(label: Seq<char>, query: Seq<char>, issuer: Seq<char>)
    requires
        forall|j: int| 0 <= j < label.len() ==> label[j] != '?',
        query_param(query, "issuer"@, true) == Some(issuer),
        issuer.len() > 0,
    ensures
        totp_uri_model("otpauth://totp/"@ + label + seq!['?'] + query) matches Ok(t) ==> t.name
            == issuer,
{
    reveal_strlit("otpauth://totp/");
    let p = "otpauth://totp/"@;
    let uri = p + label + seq!['?'] + query;
    assert(ci_prefix(uri, p)) by {
        assert forall|i: int| 0 <= i < p.len() implies ascii_lower(#[trigger] uri[i]) == ascii_lower(
            p[i],
        ) by {
            assert(uri[i] == p[i]);
        }
    }
    assert(uri.skip(15) =~= label + seq!['?'] + query);
    crate::reimport::lemma_split_once_at(label, '?', query);
    assert(label_and_query(uri.skip(15)) == (label, query));
}

} // verus!
