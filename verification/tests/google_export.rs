use base64::Engine;
use miband_totp::input::InputError;
use miband_totp::migration::{
    decode_google_payload, decode_proto_string, parse_google_migration_uri, parse_migration_otp,
    parse_migration_payload,
};
use miband_totp::proto::{ProtoCursor, ProtoError};

fn field(number: u8, bytes: &[u8]) -> Vec<u8> {
    let mut out = vec![(number << 3) | 2, bytes.len() as u8];
    out.extend_from_slice(bytes);
    out
}

fn varint_field(number: u8, value: u8) -> Vec<u8> {
    vec![number << 3, value]
}

fn otp_record(secret: &[u8], name: &str, issuer: &str, algorithm: u8, digits: u8, otp_type: u8) -> Vec<u8> {
    let mut r = field(1, secret);
    r.extend(field(2, name.as_bytes()));
    r.extend(field(3, issuer.as_bytes()));
    r.extend(varint_field(4, algorithm));
    r.extend(varint_field(5, digits));
    r.extend(varint_field(6, otp_type));
    r
}

fn sample_payload() -> Vec<u8> {
    let mut p = field(1, &otp_record(b"Hello!\xde\xad\xbe\xef", "Example:alice@google.com", "Example", 1, 1, 2));
    p.extend(field(1, &otp_record(b"foobar", "bob", "", 2, 2, 2)));
    // An HOTP record (type 1) is passed over.
    p.extend(field(1, &otp_record(b"xyz", "hotp", "H", 1, 1, 1)));
    // Batch fields after the records are passed over.
    p.extend(varint_field(2, 1));
    p.extend(varint_field(3, 1));
    p
}

#[test]
fn varints_and_keys() {
    let data = [0x96u8, 0x01, 0x08, 0x96, 0x01];
    let mut c = ProtoCursor::new(&data);
    assert_eq!(c.read_varint(), Ok(150));
    assert_eq!(c.read_key(), Ok((1, 0)));
    assert_eq!(c.read_varint(), Ok(150));
    assert!(c.is_done());
}

#[test]
fn varint_errors() {
    let data = [0x80u8];
    let mut c = ProtoCursor::new(&data);
    assert_eq!(c.read_varint(), Err(ProtoError::Truncated));
    let data = [0xFFu8; 11];
    let mut c = ProtoCursor::new(&data);
    assert_eq!(c.read_varint(), Err(ProtoError::BadVarint));
}

#[test]
fn length_delimited_and_skipping() {
    let data = [0x03u8, b'a', b'b', b'c', 0x05];
    let mut c = ProtoCursor::new(&data);
    assert_eq!(c.read_length_delimited(), Ok(&b"abc"[..]));
    assert_eq!(c.read_length_delimited(), Err(ProtoError::LengthTruncated));

    let data = [0x01u8, 1, 2, 3, 4, 5, 6, 7, 8];
    let mut c = ProtoCursor::new(&data);
    assert_eq!(c.skip(0), Ok(()));
    assert_eq!(c.skip(1), Ok(()));
    assert!(c.is_done());

    let data = [1u8, 2, 3];
    let mut c = ProtoCursor::new(&data);
    assert_eq!(c.skip(5), Err(ProtoError::LengthTruncated));
    assert_eq!(c.skip(3), Err(ProtoError::UnsupportedWireType));
    assert_eq!(c.skip_bytes(3), Ok(()));
    assert_eq!(c.skip_bytes(1), Err(ProtoError::LengthTruncated));
}

#[test]
fn proto_strings() {
    assert_eq!(decode_proto_string(b"caf\xc3\xa9"), Ok("café".to_string()));
    assert_eq!(decode_proto_string(b"\xff"), Err(ProtoError::InvalidUtf8));
}

#[test]
fn one_record() {
    let rec = otp_record(b"Hello!\xde\xad\xbe\xef", "Example:alice@google.com", "Example", 1, 1, 2);
    let t = parse_migration_otp(&rec).unwrap().unwrap();
    assert_eq!(t.name, "Example");
    assert_eq!(t.usr, "alice@google.com");
    assert_eq!(t.key, "JBSWY3DPEHPK3PXP");
    assert_eq!(t.algorithm, "SHA1");
    assert_eq!(t.digits, 6);
    assert_eq!(t.period, 30);

    let rec = otp_record(b"k", "n", "i", 4, 2, 0);
    let t = parse_migration_otp(&rec).unwrap().unwrap();
    assert_eq!(t.algorithm, "MD5");
    assert_eq!(t.digits, 8);

    let rec = otp_record(b"k", "n", "i", 1, 1, 1);
    assert!(parse_migration_otp(&rec).unwrap().is_none());
    let rec = otp_record(b"", "n", "i", 1, 1, 2);
    assert!(parse_migration_otp(&rec).unwrap().is_none());
    let rec = field(2, b"\xff");
    assert_eq!(parse_migration_otp(&rec).unwrap_err(), ProtoError::InvalidUtf8);
}

#[test]
fn whole_payload() {
    let list = parse_migration_payload(&sample_payload()).unwrap();
    assert_eq!(list.len(), 2);
    assert_eq!(list[0].name, "Example");
    assert_eq!(list[0].usr, "alice@google.com");
    assert_eq!(list[0].key, "JBSWY3DPEHPK3PXP");
    assert_eq!(list[1].name, "Unknown");
    assert_eq!(list[1].usr, "bob");
    assert_eq!(list[1].key, "MZXW6YTBOI");
    assert_eq!(list[1].algorithm, "SHA256");
    assert_eq!(list[1].digits, 8);
    assert!(parse_migration_payload(&[]).unwrap().is_empty());
    assert_eq!(parse_migration_payload(&[0x0a, 0x05, 0x01]).unwrap_err(), ProtoError::LengthTruncated);
    assert_eq!(parse_migration_payload(&[0x0b]).unwrap_err(), ProtoError::UnsupportedWireType);
}

#[test]
fn base64_payloads() {
    let bytes = sample_payload();
    let standard = base64::engine::general_purpose::STANDARD.encode(&bytes);
    let url_safe = base64::engine::general_purpose::URL_SAFE_NO_PAD.encode(&bytes);
    assert_eq!(decode_google_payload(&standard).unwrap(), bytes);
    assert_eq!(decode_google_payload(&url_safe).unwrap(), bytes);
    // Spaces stand for `+`, and line breaks are dropped.
    let spaced = standard.replace('+', " ");
    let broken = format!(" {}\n{} ", &spaced[..10], &spaced[10..]);
    assert_eq!(decode_google_payload(&broken).unwrap(), bytes);
    assert_eq!(decode_google_payload("***").unwrap_err(), InputError::BadBase64);
}

#[test]
fn export_uris() {
    let bytes = sample_payload();
    let data = base64::engine::general_purpose::STANDARD.encode(&bytes);
    let uri = format!("otpauth-migration://offline?data={}", data);
    let list = parse_google_migration_uri(&uri).unwrap();
    assert_eq!(list.len(), 2);
    assert_eq!(list[0].key, "JBSWY3DPEHPK3PXP");
    // Every key of an export is made of Base32 digits.
    assert!(list
        .iter()
        .all(|t| !t.key.is_empty() && t.key.chars().all(|c| c.is_ascii_uppercase() || ('2'..='7').contains(&c))));

    let escaped = format!("otpauth-migration://offline?data={}", data.replace('/', "%2F").replace('=', "%3D"));
    assert_eq!(parse_google_migration_uri(&escaped).unwrap().len(), 2);

    assert_eq!(parse_google_migration_uri("otpauth-migration://offline").unwrap_err(), InputError::MissingData);
    assert_eq!(parse_google_migration_uri("otpauth-migration://offline?x=1").unwrap_err(), InputError::MissingData);
    assert_eq!(parse_google_migration_uri("otpauth-migration://offline?data=@@").unwrap_err(), InputError::BadBase64);
    let only_hotp = base64::engine::general_purpose::STANDARD.encode(field(1, &otp_record(b"k", "n", "i", 1, 1, 1)));
    assert_eq!(
        parse_google_migration_uri(&format!("otpauth-migration://offline?data={}", only_hotp)).unwrap_err(),
        InputError::NoAccounts
    );
    let bad = base64::engine::general_purpose::STANDARD.encode([0x0bu8]);
    assert_eq!(
        parse_google_migration_uri(&format!("otpauth-migration://offline?data={}", bad)).unwrap_err(),
        InputError::Proto(ProtoError::UnsupportedWireType)
    );
}

#[test]
fn export_error_messages() {
    assert_eq!(InputError::MissingData.message(), "Google 导出 URI 缺少 data 参数");
    assert_eq!(InputError::BadBase64.message(), "Google 导出 data 不是有效的 Base64");
    assert_eq!(InputError::NoAccounts.message(), "Google 导出数据中没有 TOTP 账号");
    assert_eq!(InputError::Proto(ProtoError::Truncated).message(), "Google 导出 protobuf 数据不完整");
    assert_eq!(ProtoError::LengthOverflow.message(), "Google 导出 protobuf 长度溢出");
}
