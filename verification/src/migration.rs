//! Google Authenticator export URIs (`otpauth-migration://offline?data=...`):
//! the Base64 payload and the protobuf message it holds.
use base64::Engine;
use vstd::prelude::*;
use vstd::utf8::*;
use vstd::slice::slice_to_vec;
use crate::base32::{base32, base32_encode_no_padding, law_base32_length};
use crate::input::InputError;
use crate::proto::{field_at, lemma_field_advances, Field, ProtoCursor, ProtoError};
use crate::text::{
    chars_of,
    eq_chars,
    remove_break_chars,
    remove_breaks,
    replace_char,
    replace_chars,
    split_once,
    split_once_chars,
    string_of,
    trim,
    trim_chars,
};
use crate::totp::{totp_views, TOTPInfo, TotpModel};
use crate::uri::{label_parts, query_param, split_label, get_query_param_preserve_plus};

verus! {

/// The fields of one account record of the export.
pub ghost struct OtpFields {
    pub secret: Seq<u8>,
    pub name: Seq<char>,
    pub issuer: Seq<char>,
    pub algorithm: u32,
    pub digits: u32,
    pub otp_type: u32,
}

/// The record before any field is read.
pub open spec fn initial_otp_fields() -> OtpFields {
    OtpFields {
        secret: Seq::<u8>::empty(),
        name: Seq::<char>::empty(),
        issuer: Seq::<char>::empty(),
        algorithm: 1,
        digits: 1,
        otp_type: 2,
    }
}

/// The record after one more field: fields 1 to 3 (length-delimited) are
/// the secret, the name and the issuer, the texts UTF-8; fields 4 to 6
/// (varints) are the algorithm, the digits and the type; others are
/// passed over.
pub open spec fn apply_field(st: OtpFields, f: Field) -> Result<OtpFields, ProtoError> {
    if f.number == 1 && f.wire_type == 2 {
        Ok(OtpFields { secret: f.bytes, ..st })
    } else if f.number == 2 && f.wire_type == 2 {
        if valid_utf8(f.bytes) {
            Ok(OtpFields { name: decode_utf8(f.bytes), ..st })
        } else {
            Err(ProtoError::InvalidUtf8)
        }
    } else if f.number == 3 && f.wire_type == 2 {
        if valid_utf8(f.bytes) {
            Ok(OtpFields { issuer: decode_utf8(f.bytes), ..st })
        } else {
            Err(ProtoError::InvalidUtf8)
        }
    } else if f.number == 4 && f.wire_type == 0 {
        Ok(OtpFields { algorithm: f.varint as u32, ..st })
    } else if f.number == 5 && f.wire_type == 0 {
        Ok(OtpFields { digits: f.varint as u32, ..st })
    } else if f.number == 6 && f.wire_type == 0 {
        Ok(OtpFields { otp_type: f.varint as u32, ..st })
    } else {
        Ok(st)
    }
}

/// The record once every field from `pos` on is read into `st`.
pub open spec fn otp_fields_from(b: Seq<u8>, pos: nat, st: OtpFields) -> Result<
    OtpFields,
    ProtoError,
>
    decreases b.len() - pos,
{
    if pos >= b.len() {
        Ok(st)
    } else {
        match field_at(b, pos as int) {
            Err(e) => Err(e),
            Ok((f, p)) => match apply_field(st, f) {
                Err(e) => Err(e),
                Ok(st2) => {
                    proof {
                        lemma_field_advances(b, pos as int);
                    }
                    otp_fields_from(b, p as nat, st2)
                },
            },
        }
    }
}

/// The name of a hash algorithm number of the export.
pub open spec fn algorithm_name(a: u32) -> Seq<char> {
    if a == 2 {
        "SHA256"@
    } else if a == 3 {
        "SHA512"@
    } else if a == 4 {
        "MD5"@
    } else {
        "SHA1"@
    }
}

/// The account of one exported record: none when it is not a TOTP record
/// (type other than 0 or 2) or has no secret.
pub open spec fn otp_model(b: Seq<u8>) -> Result<Option<TotpModel>, ProtoError> {
    match otp_fields_from(b, 0, initial_otp_fields()) {
        Err(e) => Err(e),
        Ok(st) => if st.otp_type != 0 && st.otp_type != 2 {
            Ok(None)
        } else if st.secret.len() == 0 {
            Ok(None)
        } else {
            let (issuer_from_name, account) = label_parts(st.name);
            Ok(
                Some(
                    TotpModel {
                        name: if trim(st.issuer).len() == 0 {
                            if issuer_from_name.len() == 0 {
                                "Unknown"@
                            } else {
                                issuer_from_name
                            }
                        } else {
                            trim(st.issuer)
                        },
                        usr: if account.len() == 0 {
                            "Unknown"@
                        } else {
                            account
                        },
                        key: base32(st.secret),
                        algorithm: algorithm_name(st.algorithm),
                        digits: if st.digits == 2 {
                            8
                        } else {
                            6
                        },
                        period: 30,
                    },
                ),
            )
        },
    }
}

/// The one-element or empty sequence of an optional value.
pub open spec fn opt_seq(o: Option<TotpModel>) -> Seq<TotpModel> {
    match o {
        Some(t) => seq![t],
        None => Seq::<TotpModel>::empty(),
    }
}

/// The accounts of the records (field 1, length-delimited) from `pos` on.
pub open spec fn entries_from(b: Seq<u8>, pos: nat) -> Result<Seq<TotpModel>, ProtoError>
    decreases b.len() - pos,
{
    if pos >= b.len() {
        Ok(Seq::<TotpModel>::empty())
    } else {
        match field_at(b, pos as int) {
            Err(e) => Err(e),
            Ok((f, p)) => {
                proof {
                    lemma_field_advances(b, pos as int);
                }
                if f.number == 1 && f.wire_type == 2 {
                    match otp_model(f.bytes) {
                        Err(e) => Err(e),
                        Ok(o) => match entries_from(b, p as nat) {
                            Err(e) => Err(e),
                            Ok(rest) => Ok(opt_seq(o) + rest),
                        },
                    }
                } else {
                    entries_from(b, p as nat)
                }
            },
        }
    }
}

/// `l` in front of the accounts of `r`, or the error of `r`.
pub open spec fn prepend(l: Seq<TotpModel>, r: Result<Seq<TotpModel>, ProtoError>) -> Result<
    Seq<TotpModel>,
    ProtoError,
> {
    match r {
        Ok(x) => Ok(l + x),
        Err(e) => Err(e),
    }
}

/// `String::from_utf8`: the text that `bytes` encode, when they are valid
/// UTF-8.
#[verifier::external_body]
fn string_from_utf8(bytes: Vec<u8>) -> (r: Option<String>)
    ensures
        r is Some <==> valid_utf8(bytes@),
        r matches Some(s) ==> s@ == decode_utf8(bytes@),
{
    String::from_utf8(bytes).ok()
}

/// The text of a length-delimited string field.
pub fn decode_proto_string(bytes: &[u8]) -> (r: Result<String, ProtoError>)
    ensures
        valid_utf8(bytes@) ==> (r matches Ok(s) && s@ == decode_utf8(bytes@)),
        !valid_utf8(bytes@) ==> r == Err::<String, ProtoError>(ProtoError::InvalidUtf8),
{
    match string_from_utf8(slice_to_vec(bytes)) {
        Some(s) => Ok(s),
        None => Err(ProtoError::InvalidUtf8),
    }
}

/// The account of one exported record.
pub fn parse_migration_otp(bytes: &[u8]) -> (r: Result<Option<TOTPInfo>, ProtoError>)
    ensures
        r matches Ok(o) ==> otp_model(bytes@) == Ok::<Option<TotpModel>, ProtoError>(
            match o {
                Some(t) => Some(t@),
                None => None,
            },
        ),
        r matches Err(e) ==> otp_model(bytes@) == Err::<Option<TotpModel>, ProtoError>(e),
{
    let ghost b = bytes@;
    let mut cursor = ProtoCursor::new(bytes);
    let mut secret: Vec<u8> = Vec::new();
    let mut name = String::new();
    let mut issuer = String::new();
    let mut algorithm: u32 = 1;
    let mut digits: u32 = 1;
    let mut otp_type: u32 = 2;
    while !cursor.is_done()
        invariant
            cursor.data() == b,
            b == bytes@,
            0 <= cursor.position() <= b.len(),
            otp_fields_from(b, 0, initial_otp_fields()) == otp_fields_from(
                b,
                cursor.position() as nat,
                OtpFields { secret: secret@, name: name@, issuer: issuer@, algorithm, digits, otp_type },
            ),
        decreases b.len() - cursor.position(),
    {
        let ghost pos = cursor.position();
        let ghost st = OtpFields {
            secret: secret@,
            name: name@,
            issuer: issuer@,
            algorithm,
            digits,
            otp_type,
        };
        proof {
            lemma_field_advances(b, pos);
        }
        let (field, wire_type) = cursor.read_key()?;
        if field == 1 && wire_type == 2 {
            secret = slice_to_vec(cursor.read_length_delimited()?);
        } else if field == 2 && wire_type == 2 {
            name = decode_proto_string(cursor.read_length_delimited()?)?;
        } else if field == 3 && wire_type == 2 {
            issuer = decode_proto_string(cursor.read_length_delimited()?)?;
        } else if field == 4 && wire_type == 0 {
            algorithm = cursor.read_varint()? as u32;
        } else if field == 5 && wire_type == 0 {
            digits = cursor.read_varint()? as u32;
        } else if field == 6 && wire_type == 0 {
            otp_type = cursor.read_varint()? as u32;
        } else {
            cursor.skip(wire_type)?;
        }
    }
    let ghost st = OtpFields {
        secret: secret@,
        name: name@,
        issuer: issuer@,
        algorithm,
        digits,
        otp_type,
    };
    assert(otp_fields_from(b, 0, initial_otp_fields()) == Ok::<OtpFields, ProtoError>(st));
    if otp_type != 0 && otp_type != 2 {
        return Ok(None);
    }
    if secret.len() == 0 {
        return Ok(None);
    }
    let name_c = chars_of(name.as_str());
    let (issuer_from_name, account) = split_label(&name_c);
    let issuer_c = chars_of(issuer.as_str());
    let issuer_t = trim_chars(&issuer_c);
    let display_issuer = if issuer_t.len() == 0 {
        if issuer_from_name.len() == 0 {
            "Unknown".to_string()
        } else {
            string_of(&issuer_from_name)
        }
    } else {
        string_of(&issuer_t)
    };
    let usr = if account.len() == 0 {
        "Unknown".to_string()
    } else {
        string_of(&account)
    };
    let algorithm_text = if algorithm == 2 {
        "SHA256".to_string()
    } else if algorithm == 3 {
        "SHA512".to_string()
    } else if algorithm == 4 {
        "MD5".to_string()
    } else {
        "SHA1".to_string()
    };
    Ok(
        Some(
            TOTPInfo {
                name: display_issuer,
                usr,
                key: base32_encode_no_padding(secret.as_slice()),
                algorithm: algorithm_text,
                digits: if digits == 2 {
                    8
                } else {
                    6
                },
                period: 30,
            },
        ),
    )
}

/// The accounts of an exported migration payload.
pub fn parse_migration_payload(bytes: &[u8]) -> (r: Result<Vec<TOTPInfo>, ProtoError>)
    ensures
        r matches Ok(l) ==> entries_from(bytes@, 0) == Ok::<Seq<TotpModel>, ProtoError>(
            totp_views(l@),
        ),
        r matches Err(e) ==> entries_from(bytes@, 0) == Err::<Seq<TotpModel>, ProtoError>(e),
{
    let ghost b = bytes@;
    let mut cursor = ProtoCursor::new(bytes);
    let mut list: Vec<TOTPInfo> = Vec::new();
    assert(totp_views(list@) =~= Seq::<TotpModel>::empty());
    assert(prepend(Seq::<TotpModel>::empty(), entries_from(b, 0)) == entries_from(b, 0)) by {
        match entries_from(b, 0) {
            Ok(x) => {
                assert(Seq::<TotpModel>::empty() + x =~= x);
            },
            Err(_) => {},
        }
    }
    while !cursor.is_done()
        invariant
            cursor.data() == b,
            b == bytes@,
            0 <= cursor.position() <= b.len(),
            entries_from(b, 0) == prepend(totp_views(list@), entries_from(b, cursor.position() as nat)),
        decreases b.len() - cursor.position(),
    {
        let ghost pos = cursor.position();
        let ghost before = totp_views(list@);
        proof {
            lemma_field_advances(b, pos);
        }
        let (field, wire_type) = cursor.read_key()?;
        if field == 1 && wire_type == 2 {
            let entry = cursor.read_length_delimited()?;
            match parse_migration_otp(entry)? {
                Some(totp) => {
                    list.push(totp);
                    assert(totp_views(list@) =~= before + seq![totp@]);
                    proof {
                        match entries_from(b, cursor.position() as nat) {
                            Ok(x) => {
                                assert(before + (seq![totp@] + x) =~= before + seq![totp@] + x);
                            },
                            Err(_) => {},
                        }
                    }
                },
                None => {
                    proof {
                        match entries_from(b, cursor.position() as nat) {
                            Ok(x) => {
                                assert(Seq::<TotpModel>::empty() + x =~= x);
                            },
                            Err(_) => {},
                        }
                    }
                },
            }
        } else {
            cursor.skip(wire_type)?;
        }
    }
    Ok(list)
}

/// What `URL_SAFE_NO_PAD.decode` of the `base64` crate gives for some bytes.
pub uninterp spec fn base64_url_safe_no_pad(input: Seq<u8>) -> Option<Seq<u8>>;

/// What `URL_SAFE.decode` of the `base64` crate gives for some bytes.
pub uninterp spec fn base64_url_safe(input: Seq<u8>) -> Option<Seq<u8>>;

/// What `STANDARD.decode` of the `base64` crate gives for some bytes.
pub uninterp spec fn base64_standard(input: Seq<u8>) -> Option<Seq<u8>>;

/// `base64::engine::general_purpose::URL_SAFE_NO_PAD.decode`: the bytes
/// that `input` encodes in the URL-safe alphabet without padding, if it is
/// such an encoding.
#[verifier::external_body]
fn decode_base64_url_safe_no_pad(input: &[u8]) -> (r: Option<Vec<u8>>)
    ensures
        r matches Some(v) ==> base64_url_safe_no_pad(input@) == Some(v@),
        r is None ==> base64_url_safe_no_pad(input@) is None,
{
    base64::engine::general_purpose::URL_SAFE_NO_PAD.decode(input).ok()
}

/// `base64::engine::general_purpose::URL_SAFE.decode`: the bytes that
/// `input` encodes in the URL-safe alphabet with padding, if it is such an
/// encoding.
#[verifier::external_body]
fn decode_base64_url_safe(input: &[u8]) -> (r: Option<Vec<u8>>)
    ensures
        r matches Some(v) ==> base64_url_safe(input@) == Some(v@),
        r is None ==> base64_url_safe(input@) is None,
{
    base64::engine::general_purpose::URL_SAFE.decode(input).ok()
}

/// `base64::engine::general_purpose::STANDARD.decode`: the bytes that
/// `input` encodes in the standard alphabet with padding, if it is such an
/// encoding.
#[verifier::external_body]
fn decode_base64_standard(input: &[u8]) -> (r: Option<Vec<u8>>)
    ensures
        r matches Some(v) ==> base64_standard(input@) == Some(v@),
        r is None ==> base64_standard(input@) is None,
{
    base64::engine::general_purpose::STANDARD.decode(input).ok()
}

/// The first of the three Base64 engines (URL-safe without padding,
/// URL-safe, standard) that accepts the bytes.
pub open spec fn decode_any_engine(p: Seq<u8>) -> Option<Seq<u8>> {
    match base64_url_safe_no_pad(p) {
        Some(v) => Some(v),
        None => match base64_url_safe(p) {
            Some(v) => Some(v),
            None => base64_standard(p),
        },
    }
}

/// The number of `=` that bring the UTF-8 length of `c` to a multiple of 4.
pub open spec fn padding_for(c: Seq<char>) -> nat {
    ((4 - encode_utf8(c).len() % 4) % 4) as nat
}

/// `n` equals signs.
pub open spec fn equals_signs(n: nat) -> Seq<char> {
    Seq::new(n, |i: int| '=')
}

/// A candidate decoded as it is, else with the `=` padding it lacks.
pub open spec fn decode_padded(c: Seq<char>) -> Option<Seq<u8>> {
    match decode_any_engine(encode_utf8(c)) {
        Some(v) => Some(v),
        None => if padding_for(c) > 0 {
            decode_any_engine(encode_utf8(c + equals_signs(padding_for(c))))
        } else {
            None
        },
    }
}

/// The payload text trimmed, spaces read as `+`, line breaks and tabs
/// removed.
pub open spec fn normalize_payload(d: Seq<char>) -> Seq<char> {
    remove_breaks(replace_char(trim(d), ' ', '+'))
}

/// The URL-safe spelling of a Base64 text.
pub open spec fn to_url_safe(n: Seq<char>) -> Seq<char> {
    replace_char(replace_char(n, '+', '-'), '/', '_')
}

/// The standard spelling of a Base64 text.
pub open spec fn to_standard(n: Seq<char>) -> Seq<char> {
    replace_char(replace_char(n, '-', '+'), '_', '/')
}

/// The bytes of the `data` parameter of an export URI: the normalized text,
/// then its URL-safe and its standard spelling where they differ from it,
/// each decoded as it is or padded.
pub open spec fn google_payload(d: Seq<char>) -> Option<Seq<u8>> {
    let n = normalize_payload(d);
    match decode_padded(n) {
        Some(v) => Some(v),
        None => {
            let u = to_url_safe(n);
            match if u != n {
                decode_padded(u)
            } else {
                None
            } {
                Some(v) => Some(v),
                None => {
                    let s = to_standard(n);
                    if s != n {
                        decode_padded(s)
                    } else {
                        None
                    }
                },
            }
        },
    }
}

fn decode_any_engine_exec(input: &[u8]) -> (r: Option<Vec<u8>>)
    ensures
        r matches Some(v) ==> decode_any_engine(input@) == Some(v@),
        r is None ==> decode_any_engine(input@) is None,
{
    match decode_base64_url_safe_no_pad(input) {
        Some(v) => Some(v),
        None => match decode_base64_url_safe(input) {
            Some(v) => Some(v),
            None => decode_base64_standard(input),
        },
    }
}

fn decode_padded_exec(c: &Vec<char>) -> (r: Option<Vec<u8>>)
    ensures
        r matches Some(v) ==> decode_padded(c@) == Some(v@),
        r is None ==> decode_padded(c@) is None,
{
    let s = string_of(c);
    let bytes = s.as_str().as_bytes();
    match decode_any_engine_exec(bytes) {
        Some(v) => return Some(v),
        None => {},
    }
    let padding = (4 - bytes.len() % 4) % 4;
    if padding > 0 {
        let mut padded = c.clone();
        let mut k: usize = 0;
        while k < padding
            invariant
                k <= padding,
                padded@ == c@ + equals_signs(k as nat),
            decreases padding - k,
        {
            padded.push('=');
            k = k + 1;
            assert(padded@ =~= c@ + equals_signs(k as nat));
        }
        let ps = string_of(&padded);
        decode_any_engine_exec(ps.as_str().as_bytes())
    } else {
        None
    }
}

/// The bytes that the `data` parameter of an export URI encodes.
pub fn decode_google_payload(data: &str) -> (r: Result<Vec<u8>, InputError>)
    ensures
        r matches Ok(v) ==> google_payload(data@) == Some(v@),
        r is Err ==> google_payload(data@) is None && r == Err::<Vec<u8>, InputError>(
            InputError::BadBase64,
        ),
{
    let d = chars_of(data);
    let t = trim_chars(&d);
    let spaced = replace_chars(&t, ' ', '+');
    let normalized = remove_break_chars(&spaced);
    match decode_padded_exec(&normalized) {
        Some(v) => return Ok(v),
        None => {},
    }
    let u1 = replace_chars(&normalized, '+', '-');
    let url_safe = replace_chars(&u1, '/', '_');
    if !eq_chars(&url_safe, &normalized) {
        match decode_padded_exec(&url_safe) {
            Some(v) => return Ok(v),
            None => {},
        }
    }
    let s1 = replace_chars(&normalized, '-', '+');
    let standard = replace_chars(&s1, '_', '/');
    if !eq_chars(&standard, &normalized) {
        match decode_padded_exec(&standard) {
            Some(v) => return Ok(v),
            None => {},
        }
    }
    Err(InputError::BadBase64)
}

/// The accounts of a Google Authenticator export URI.
pub open spec fn google_uri_model(uri: Seq<char>) -> Result<Seq<TotpModel>, InputError> {
    match split_once(uri, '?') {
        None => Err(InputError::MissingData),
        Some((_, query)) => match query_param(query, "data"@, false) {
            None => Err(InputError::MissingData),
            Some(enc) => match google_payload(enc) {
                None => Err(InputError::BadBase64),
                Some(bytes) => match entries_from(bytes, 0) {
                    Err(e) => Err(InputError::Proto(e)),
                    Ok(l) => if l.len() == 0 {
                        Err(InputError::NoAccounts)
                    } else {
                        Ok(l)
                    },
                },
            },
        },
    }
}

/// The accounts of a Google Authenticator export URI.
pub fn parse_google_migration_uri(uri: &str) -> (r: Result<Vec<TOTPInfo>, InputError>)
    ensures
        r matches Ok(l) ==> google_uri_model(uri@) == Ok::<Seq<TotpModel>, InputError>(
            totp_views(l@),
        ),
        r matches Err(e) ==> google_uri_model(uri@) == Err::<Seq<TotpModel>, InputError>(e),
{
    let u = chars_of(uri);
    let query = match split_once_chars(&u, '?') {
        Some((_, q)) => q,
        None => return Err(InputError::MissingData),
    };
    let query_s = string_of(&query);
    let encoded = match get_query_param_preserve_plus(query_s.as_str(), "data") {
        Some(e) => e,
        None => return Err(InputError::MissingData),
    };
    let payload = decode_google_payload(encoded.as_str())?;
    match parse_migration_payload(payload.as_slice()) {
        Ok(list) => {
            if list.len() == 0 {
                Err(InputError::NoAccounts)
            } else {
                Ok(list)
            }
        },
        Err(e) => Err(InputError::Proto(e)),
    }
}

/// A key made of Base32 digits (`A`..`Z`, `2`..`7`), at least one.
pub open spec fn base32_key(k: Seq<char>) -> bool {
    &&& k.len() > 0
    &&& forall|i: int| 0 <= i < k.len() ==> ('A' <= #[trigger] k[i] <= 'Z') || ('2' <= k[i] <= '7')
}

proof fn lemma_otp_key(b: Seq<u8>)
    ensures
        otp_model(b) matches Ok(Some(t)) ==> base32_key(t.key),
{
    if let Ok(st) = otp_fields_from(b, 0, initial_otp_fields()) {
        law_base32_length(st.secret);
    }
}

proof fn lemma_entries_keys(b: Seq<u8>, pos: nat)
    ensures
        entries_from(b, pos) matches Ok(l) ==> forall|i: int|
            0 <= i < l.len() ==> base32_key(#[trigger] l[i].key),
    decreases b.len() - pos,
{
    if pos < b.len() {
        lemma_field_advances(b, pos as int);
        if let Ok((f, p)) = field_at(b, pos as int) {
            lemma_entries_keys(b, p as nat);
            if f.number == 1 && f.wire_type == 2 {
                lemma_otp_key(f.bytes);
                if let Ok(o) = otp_model(f.bytes) {
                    if let Ok(rest) = entries_from(b, p as nat) {
                        let l = opt_seq(o) + rest;
                        assert forall|i: int| 0 <= i < l.len() implies base32_key(#[trigger] l[i].key) by {
                            if i < opt_seq(o).len() {
                                assert(l[i] == o->0);
                            } else {
                                assert(l[i] == rest[i - opt_seq(o).len()]);
                            }
                        }
                    }
                }
            }
        }
    }
}

/// Every account that a Google Authenticator export gives has a key of
/// Base32 digits, at least one: the watch reads keys in Base32.
pub proof fn law_export_keys_are_base32(uri: Seq<char>)
    ensures
        google_uri_model(uri) matches Ok(l) ==> forall|i: int|
            0 <= i < l.len() ==> base32_key(#[trigger] l[i].key),
{
    if let Some((_, query)) = split_once(uri, '?') {
        if let Some(enc) = query_param(query, "data"@, false) {
            if let Some(bytes) = google_payload(enc) {
                lemma_entries_keys(bytes, 0);
            }
        }
    }
}

/// A record's issuer field names its account: whenever the issuer field
/// (field 3) of an exported record is not blank, the account the record
/// gives is named by that field trimmed, whatever its name field (field 2)
/// holds, with or without an `issuer:` prefix.
pub proof fn law_record_issuer_names_account(b: Seq<u8>)
    ensures
        otp_fields_from(b, 0, initial_otp_fields()) matches Ok(st) ==> (trim(st.issuer).len() > 0
            ==> (otp_model(b) matches Ok(Some(t)) ==> t.name == trim(st.issuer))),
{
}

} // verus!
