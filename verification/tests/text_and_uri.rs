use miband_totp::base32::base32_encode_no_padding;
use miband_totp::percent::{from_hex, percent_decode, percent_decode_with_plus_mode, percent_encode};
use miband_totp::text::{chars_of, split_chars, trim_chars, upper_chars};
use miband_totp::uri::{
    get_query_param, get_query_param_preserve_plus, parse_totp_uri, parse_u32, split_label,
    strip_case_insensitive_prefix, UriError,
};

fn chars(s: &str) -> Vec<char> {
    s.chars().collect()
}

fn text(v: &[char]) -> String {
    v.iter().collect()
}

#[test]
fn percent_encode_keeps_unreserved_and_escapes_the_rest() {
    assert_eq!(percent_encode("AZaz09-_.~"), "AZaz09-_.~");
    assert_eq!(percent_encode("a b:c/d?e&f=g+h"), "a%20b%3Ac%2Fd%3Fe%26f%3Dg%2Bh");
    assert_eq!(percent_encode("é"), "%C3%A9");
    assert_eq!(percent_encode(""), "");
}

#[test]
fn percent_encode_writes_only_safe_characters() {
    for s in ["a b:c/d?e&f=g+h#i", "日本語", "\n\t\u{0}", "~-_."] {
        assert!(percent_encode(s).chars().all(|c| c.is_ascii_alphanumeric() || "-_.~%".contains(c)));
    }
}

#[test]
fn percent_decode_reads_escapes_and_plus() {
    assert_eq!(percent_decode("a%20b+c"), "a b c");
    assert_eq!(percent_decode_with_plus_mode("a%20b+c", false), "a b+c");
    assert_eq!(percent_decode("%C3%A9t%c3%a9"), "été");
    // An incomplete or invalid escape stands for itself.
    assert_eq!(percent_decode("100%"), "100%");
    assert_eq!(percent_decode("%4"), "%4");
    assert_eq!(percent_decode("%zz"), "%zz");
    // Invalid UTF-8 is replaced.
    assert_eq!(percent_decode("%FF"), "\u{FFFD}");
}

#[test]
fn percent_decode_inverts_encode() {
    for s in ["GitHub:alice@example.com", "a b+c&d=e", "日本語 テキスト", "%%%", ""] {
        assert_eq!(percent_decode(&percent_encode(s)), s);
        assert_eq!(percent_decode_with_plus_mode(&percent_encode(s), false), s);
    }
}

#[test]
fn hex_digits() {
    assert_eq!(from_hex(b'0'), Some(0));
    assert_eq!(from_hex(b'9'), Some(9));
    assert_eq!(from_hex(b'a'), Some(10));
    assert_eq!(from_hex(b'F'), Some(15));
    assert_eq!(from_hex(b'g'), None);
    assert_eq!(from_hex(b'%'), None);
}

#[test]
fn invalid_utf8_is_replaced_after_decoding() {
    assert_eq!(percent_decode("%68%69"), "hi");
    assert_eq!(percent_decode("a%FFb"), "a\u{FFFD}b");
    assert_eq!(percent_decode("%E6%97"), "\u{FFFD}");
}

#[test]
fn uppercase() {
    assert_eq!(text(&upper_chars(&chars("jbswy3dp"))), "JBSWY3DP");
    assert_eq!(text(&upper_chars(&chars("straße"))), "STRASSE");
    assert_eq!(text(&upper_chars(&chars("abc1-é"))), "ABC1-É");
}

#[test]
fn trimming_and_splitting() {
    assert_eq!(text(&trim_chars(&chars("  \t a b \n"))), "a b");
    assert_eq!(text(&trim_chars(&chars("\u{3000}x\u{a0}"))), "x");
    let parts = split_chars(&chars("a&b&&c"), '&', '&');
    let parts: Vec<String> = parts.iter().map(|p| text(p)).collect();
    assert_eq!(parts, vec!["a", "b", "", "c"]);
    assert_eq!(chars_of("ab"), vec!['a', 'b']);
}

#[test]
fn base32_vectors() {
    assert_eq!(base32_encode_no_padding(b""), "");
    assert_eq!(base32_encode_no_padding(b"f"), "MY");
    assert_eq!(base32_encode_no_padding(b"fo"), "MZXQ");
    assert_eq!(base32_encode_no_padding(b"foo"), "MZXW6");
    assert_eq!(base32_encode_no_padding(b"foob"), "MZXW6YQ");
    assert_eq!(base32_encode_no_padding(b"fooba"), "MZXW6YTB");
    assert_eq!(base32_encode_no_padding(b"foobar"), "MZXW6YTBOI");
    assert_eq!(base32_encode_no_padding(b"Hello!\xde\xad\xbe\xef"), "JBSWY3DPEHPK3PXP");
}

#[test]
fn base32_length_is_ceiling_of_bits_over_five() {
    for n in 0..40usize {
        let bytes: Vec<u8> = (0..n).map(|i| (i * 37 + 11) as u8).collect();
        let out = base32_encode_no_padding(&bytes);
        assert_eq!(out.len(), (8 * n + 4) / 5);
        assert!(out.chars().all(|c| c.is_ascii_uppercase() || ('2'..='7').contains(&c)));
    }
}

#[test]
fn case_insensitive_prefix() {
    assert_eq!(strip_case_insensitive_prefix("OTPAUTH://TOTP/x", "otpauth://totp/"), Some("x"));
    assert_eq!(strip_case_insensitive_prefix("otpauth://hotp/x", "otpauth://totp/"), None);
    assert_eq!(strip_case_insensitive_prefix("otp", "otpauth://totp/"), None);
    // Bytes are compared, ASCII case ignored: other letters must match exactly.
    assert_eq!(strip_case_insensitive_prefix("ÉTÉx", "été"), None);
    assert_eq!(strip_case_insensitive_prefix("étéx", "été"), Some("x"));
    assert_eq!(strip_case_insensitive_prefix("ÉtÉ", "Été"), None);
}

#[test]
fn decimal_numbers() {
    assert_eq!(parse_u32(&chars("8")), Some(8));
    assert_eq!(parse_u32(&chars("+60")), Some(60));
    assert_eq!(parse_u32(&chars("4294967295")), Some(u32::MAX));
    assert_eq!(parse_u32(&chars("4294967296")), None);
    assert_eq!(parse_u32(&chars("")), None);
    assert_eq!(parse_u32(&chars("+")), None);
    assert_eq!(parse_u32(&chars("-1")), None);
    assert_eq!(parse_u32(&chars("1a")), None);
}

#[test]
fn query_parameters() {
    let q = "secret=AB%20C+D&issuer=Acme&empty=&flag";
    assert_eq!(get_query_param(q, "secret").as_deref(), Some("AB C D"));
    assert_eq!(get_query_param_preserve_plus(q, "secret").as_deref(), Some("AB C+D"));
    assert_eq!(get_query_param(q, "issuer").as_deref(), Some("Acme"));
    assert_eq!(get_query_param(q, "empty").as_deref(), Some(""));
    assert_eq!(get_query_param(q, "flag"), None);
    assert_eq!(get_query_param(q, "missing"), None);
    assert_eq!(get_query_param("a=1&a=2", "a").as_deref(), Some("1"));
}

#[test]
fn labels() {
    let (i, a) = split_label(&chars("Acme: bob "));
    assert_eq!((text(&i), text(&a)), ("Acme".to_string(), "bob".to_string()));
    let (i, a) = split_label(&chars(" :bob"));
    assert_eq!((text(&i), text(&a)), ("".to_string(), ":bob".to_string()));
    let (i, a) = split_label(&chars(" alice "));
    assert_eq!((text(&i), text(&a)), ("".to_string(), "alice".to_string()));
}

#[test]
fn totp_uri_full() {
    let t = parse_totp_uri(
        "otpauth://totp/ACME%20Co:john.doe@email.com?secret=HXDMVJECJJWSRB3HWIZR4IFUGFTMXBOZ&issuer=ACME%20Co&algorithm=sha256&digits=8&period=60",
    )
    .unwrap();
    assert_eq!(t.name, "ACME Co");
    assert_eq!(t.usr, "john.doe@email.com");
    assert_eq!(t.key, "HXDMVJECJJWSRB3HWIZR4IFUGFTMXBOZ");
    assert_eq!(t.algorithm, "SHA256");
    assert_eq!(t.digits, 8);
    assert_eq!(t.period, 60);
}

#[test]
fn totp_uri_defaults() {
    let t = parse_totp_uri("OTPAUTH://TOTP/GitHub:alice?secret=jbswy3dp").unwrap();
    assert_eq!(t.name, "GitHub");
    assert_eq!(t.usr, "alice");
    assert_eq!(t.key, "jbswy3dp");
    assert_eq!(t.algorithm, "SHA1");
    assert_eq!(t.digits, 6);
    assert_eq!(t.period, 30);

    let t = parse_totp_uri("otpauth://totp/?secret=K&digits=x&period=-5&issuer=").unwrap();
    assert_eq!(t.name, "Unknown");
    assert_eq!(t.usr, "Unknown");
    assert_eq!(t.digits, 6);
    assert_eq!(t.period, 30);

    let t = parse_totp_uri("otpauth://totp/bob?secret=K").unwrap();
    assert_eq!(t.name, "Unknown");
    assert_eq!(t.usr, "bob");
}

#[test]
fn totp_uri_errors() {
    assert_eq!(parse_totp_uri("otpauth://hotp/x?secret=K").unwrap_err(), UriError::NotTotp);
    assert_eq!(parse_totp_uri("https://example.com").unwrap_err(), UriError::NotTotp);
    assert_eq!(parse_totp_uri("otpauth://totp/x?issuer=a").unwrap_err(), UriError::MissingSecret);
    assert_eq!(parse_totp_uri("otpauth://totp/x?secret=").unwrap_err(), UriError::MissingSecret);
    assert_eq!(parse_totp_uri("otpauth://totp/x").unwrap_err(), UriError::MissingSecret);
    assert_eq!(UriError::NotTotp.message(), "URI 格式错误或不是 TOTP 类型");
    assert_eq!(UriError::MissingSecret.message(), "缺少必需参数: secret");
}
