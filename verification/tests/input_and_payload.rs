use miband_totp::input::{input_is_clean, parse_totp_input, split_input_entries, InputError};
use miband_totp::payload::{format_totp_list_to_text, push_payload_json};
use miband_totp::totp::TOTPInfo;
use miband_totp::uri::{parse_totp_uri, UriError};

fn account(name: &str, usr: &str, key: &str) -> TOTPInfo {
    TOTPInfo {
        name: name.to_string(),
        usr: usr.to_string(),
        key: key.to_string(),
        algorithm: "SHA1".to_string(),
        digits: 6,
        period: 30,
    }
}

#[test]
fn entries_of_an_input() {
    let parts = split_input_entries("  a \r\n\n b\u{0}c \n\t\n");
    assert_eq!(parts, vec!["a", "b", "c"]);
    assert!(split_input_entries(" \n ").is_empty());
}

#[test]
fn uri_lines() {
    let input = "otpauth://totp/GitHub:alice?secret=JBSWY3DP&issuer=GitHub\n\notpauth://totp/Acme:bob?secret=KRUGS4ZA&digits=8";
    assert!(input_is_clean(input));
    let list = parse_totp_input(input).unwrap();
    assert_eq!(list.len(), 2);
    assert_eq!(list[0].name, "GitHub");
    assert_eq!(list[0].usr, "alice");
    assert_eq!(list[1].name, "Acme");
    assert_eq!(list[1].digits, 8);
}

#[test]
fn bad_entries_are_passed_over_when_others_give_accounts() {
    let input = "garbage\notpauth://totp/X:y?secret=ABC";
    let list = parse_totp_input(input).unwrap();
    assert_eq!(list.len(), 1);
    assert_eq!(list[0].key, "ABC");
}

#[test]
fn input_errors() {
    assert_eq!(parse_totp_input("").unwrap_err(), InputError::EmptyInput);
    assert_eq!(parse_totp_input(" \n\t ").unwrap_err(), InputError::EmptyInput);
    assert_eq!(parse_totp_input("hello\nworld").unwrap_err(), InputError::Uri(UriError::NotTotp));
    assert_eq!(
        parse_totp_input("otpauth://totp/x?issuer=a\nnope").unwrap_err(),
        InputError::Uri(UriError::MissingSecret)
    );
    assert_eq!(parse_totp_input("otpauth-migration://offline").unwrap_err(), InputError::MissingData);
    assert_eq!(parse_totp_input("[]").unwrap_err(), InputError::Uri(UriError::NotTotp));
    assert_eq!(InputError::EmptyInput.message(), "URI 为空");
    assert_eq!(InputError::NothingParsed.message(), "没有解析到可用账号");
    assert_eq!(InputError::Uri(UriError::MissingSecret).message(), "缺少必需参数: secret");
}

#[test]
fn json_input() {
    let input = " [{\"name\":\"A\",\"usr\":\"u\",\"key\":\"K1\"},{\"name\":\"B\",\"usr\":12,\"key\":\"K2\"},{\"usr\":true,\"key\":\"K3\"},{\"name\":\"NoKey\"},{\"key\":\"\"}] ";
    let list = parse_totp_input(input).unwrap();
    assert_eq!(list.len(), 3);
    assert_eq!(list[0].name, "A");
    assert_eq!(list[0].usr, "u");
    assert_eq!(list[1].usr, "12");
    assert_eq!(list[2].name, "");
    assert_eq!(list[2].usr, "true");
    assert_eq!(list[2].key, "K3");
    assert_eq!(list[2].algorithm, "SHA1");

    let single = parse_totp_input("{\"name\":\"S\",\"usr\":null,\"key\":\"KEY\"}").unwrap();
    assert_eq!(single.len(), 1);
    assert_eq!(single[0].usr, "");
    let negative = parse_totp_input("{\"name\":\"S\",\"usr\":-7,\"key\":\"KEY\"}").unwrap();
    assert_eq!(negative[0].usr, "-7");
}

#[test]
fn backup_text() {
    let list = vec![account("GitHub", "alice@example.com", "jbswy3dp"), account("Solo", "", "K")];
    let text = format_totp_list_to_text(&list);
    assert_eq!(
        text,
        "otpauth://totp/GitHub%3Aalice%40example.com?secret=JBSWY3DP&issuer=GitHub\notpauth://totp/Solo?secret=K&issuer=Solo"
    );
    assert_eq!(format_totp_list_to_text(&[]), "");
}

#[test]
fn backup_text_reads_back() {
    let list = vec![
        account("GitHub", "alice@example.com", "jbswy3dp"),
        account("Bank & Co. 银行", "bob smith", "KRUGS4ZA"),
        account(" Spaced ", "x", "abc123"),
    ];
    let text = format_totp_list_to_text(&list);
    assert!(input_is_clean(&text));
    let back = parse_totp_input(&text).unwrap();
    assert_eq!(back.len(), list.len());
    for (a, b) in list.iter().zip(back.iter()) {
        assert_eq!(b.name, a.name);
        assert_eq!(b.usr, a.usr);
        assert_eq!(b.key, a.key.to_ascii_uppercase());
        assert_eq!(b.algorithm, "SHA1");
        assert_eq!(b.digits, 6);
        assert_eq!(b.period, 30);
    }
}

#[test]
fn push_message() {
    let mut t = account("Issuer", "account@example.com", "SECRET");
    let json = push_payload_json(&[t.clone()]);
    assert_eq!(
        json,
        "{\"list\":[{\"name\":\"Issuer\",\"usr\":\"account@example.com\",\"key\":\"SECRET\",\"algorithm\":\"SHA1\",\"digits\":6,\"period\":30}]}"
    );
    t.name = "Quote\"d\n".to_string();
    t.digits = 8;
    t.period = 60;
    let two = push_payload_json(&[account("A", "", "K"), t]);
    assert_eq!(
        two,
        "{\"list\":[{\"name\":\"A\",\"usr\":\"\",\"key\":\"K\",\"algorithm\":\"SHA1\",\"digits\":6,\"period\":30},{\"name\":\"Quote\\\"d\\n\",\"usr\":\"account@example.com\",\"key\":\"SECRET\",\"algorithm\":\"SHA1\",\"digits\":8,\"period\":60}]}"
    );
    assert_eq!(push_payload_json(&[]), "{\"list\":[]}");
    // Control characters, quotes and backslashes are escaped as serde_json does.
    let odd = push_payload_json(&[account("a\u{1}\t\\", "\u{1f}\u{8}\u{c}\r", "K")]);
    assert!(odd.contains("\"name\":\"a\\u0001\\t\\\\\""));
    assert!(odd.contains("\"usr\":\"\\u001f\\b\\f\\r\""));
}

#[test]
fn one_backup_line_reads_back() {
    let t = account("Acme Co", "bob@example.com", "kruGS4za");
    let back = parse_totp_uri(&format_totp_list_to_text(&[t.clone()])).unwrap();
    assert_eq!(back.name, t.name);
    assert_eq!(back.usr, t.usr);
    assert_eq!(back.key, "KRUGS4ZA");
    assert_eq!((back.algorithm.as_str(), back.digits, back.period), ("SHA1", 6, 30));
}
