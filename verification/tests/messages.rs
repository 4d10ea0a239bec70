use miband_totp::input::accounts_of_json;
use miband_totp::json::{
    check_is_ready, check_push_success, event_text, extract_event_value, find_backup_list, find_count_value,
    parse_backup_item, Json,
};

fn s(text: &str) -> Json {
    Json::Str(text.to_string())
}

fn n(value: u64) -> Json {
    Json::Number(Some(value), i64::try_from(value).ok())
}

fn obj(members: Vec<(&str, Json)>) -> Json {
    Json::Object(members.into_iter().map(|(k, v)| (k.to_string(), v)).collect())
}

#[test]
fn ready_messages() {
    assert!(check_is_ready(&obj(vec![("action", s("ready"))])));
    assert!(check_is_ready(&obj(vec![("data", s("{\"action\":\"ready\"}"))])));
    assert!(check_is_ready(&obj(vec![("payload", obj(vec![("action", s("ready"))]))])));
    assert!(!check_is_ready(&obj(vec![("action", s("other"))])));
    assert!(!check_is_ready(&Json::Array(vec![obj(vec![("action", s("ready"))])])));
    assert!(!check_is_ready(&s("ready")));
    // A `data` text that is JSON decides, even when another member says ready.
    assert!(!check_is_ready(&obj(vec![("data", s("{}")), ("x", obj(vec![("action", s("ready"))]))])));
    // A `data` text that is not JSON is passed over.
    assert!(check_is_ready(&obj(vec![("data", s("nope")), ("x", obj(vec![("action", s("ready"))]))])));
}

#[test]
fn push_confirmations() {
    assert!(check_push_success(&obj(vec![("action", s("push_response")), ("status", s("success"))])));
    assert!(!check_push_success(&obj(vec![("action", s("push_response")), ("status", s("failed"))])));
    assert!(check_push_success(&obj(vec![(
        "data",
        s("{\"action\":\"push_response\",\"status\":\"success\"}")
    )])));
    assert!(check_push_success(&obj(vec![(
        "msg",
        obj(vec![("action", s("push_response")), ("status", s("success"))])
    )])));
    assert!(!check_push_success(&obj(vec![("action", s("push_response"))])));
}

#[test]
fn account_counts() {
    assert_eq!(find_count_value(&obj(vec![("count", n(3))])), Some(3));
    assert_eq!(find_count_value(&obj(vec![("accountCount", n(4))])), Some(4));
    assert_eq!(find_count_value(&obj(vec![("totpCount", n(5))])), Some(5));
    assert_eq!(
        find_count_value(&obj(vec![("count", Json::Number(None, Some(-1))), ("totpCount", n(2))])),
        Some(2)
    );
    assert_eq!(find_count_value(&obj(vec![("data", s("{\"count\":9}"))])), Some(9));
    assert_eq!(find_count_value(&obj(vec![("inner", obj(vec![("count", n(8))]))])), Some(8));
    assert_eq!(
        find_count_value(&Json::Array(vec![obj(vec![("x", n(1))]), obj(vec![("count", n(6))])])),
        Some(6)
    );
    assert_eq!(find_count_value(&s("{\"count\":2}")), Some(2));
    assert_eq!(find_count_value(&obj(vec![("count", s("3"))])), None);
    assert_eq!(find_count_value(&obj(vec![])), None);
    assert_eq!(find_count_value(&Json::Null), None);
}

#[test]
fn backup_items() {
    let item = obj(vec![("name", s("GitHub")), ("usr", s("alice")), ("key", s("JBSWY3DP"))]);
    let t = parse_backup_item(&item).unwrap();
    assert_eq!((t.name.as_str(), t.usr.as_str(), t.key.as_str()), ("GitHub", "alice", "JBSWY3DP"));
    assert_eq!((t.algorithm.as_str(), t.digits, t.period), ("SHA1", 6, 30));
    let no_usr = parse_backup_item(&obj(vec![("name", s("A")), ("key", s("K")), ("usr", n(1))])).unwrap();
    assert_eq!(no_usr.usr, "");
    assert!(parse_backup_item(&obj(vec![("name", s("A"))])).is_none());
    assert!(parse_backup_item(&obj(vec![("key", s("K"))])).is_none());
    assert!(parse_backup_item(&s("K")).is_none());
}

#[test]
fn backup_lists() {
    let list = Json::Array(vec![
        obj(vec![("name", s("GitHub")), ("usr", s("alice")), ("key", s("JBSWY3DP"))]),
        obj(vec![("name", s("NoKey"))]),
        obj(vec![("name", s("Bare")), ("key", s("K"))]),
    ]);
    let msg = obj(vec![("action", s("backup_response")), ("list", list)]);
    let found = find_backup_list(&msg).unwrap();
    assert_eq!(found.len(), 2);
    assert_eq!(found[0].name, "GitHub");
    assert_eq!(found[1].name, "Bare");
    assert_eq!(found[1].usr, "");

    let nested = obj(vec![("data", s("{\"action\":\"backup_response\",\"list\":[]}"))]);
    assert_eq!(find_backup_list(&nested).unwrap().len(), 0);
    let deeper = obj(vec![("wrap", obj(vec![("action", s("backup_response")), ("list", Json::Array(vec![]))]))]);
    assert_eq!(find_backup_list(&deeper).unwrap().len(), 0);
    assert!(find_backup_list(&obj(vec![("action", s("backup_response"))])).is_none());
    assert!(find_backup_list(&obj(vec![("action", s("backup_response")), ("list", obj(vec![]))])).is_none());
    assert!(find_backup_list(&Json::Array(vec![msg])).is_none());
}

#[test]
fn input_event_values() {
    assert_eq!(extract_event_value("  plain text "), "plain text");
    assert_eq!(extract_event_value("\"quoted\""), "quoted");
    assert_eq!(extract_event_value("{\"text\":\"t\",\"value\":\"v\"}"), "v");
    assert_eq!(extract_event_value("{\"content\":\"c\",\"input\":\"i\"}"), "i");
    assert_eq!(extract_event_value("{\"content\":\"c\"}"), "c");
    assert_eq!(extract_event_value("{\"other\":1}"), "{\"other\":1}");
    assert_eq!(extract_event_value("   "), "");
    assert_eq!(extract_event_value("42"), "42");
    assert_eq!(extract_event_value("\"a\\u0041\\n\""), "aA\n");
}

#[test]
fn event_text_of_a_value() {
    assert_eq!(event_text("t".to_string(), None), "t");
    assert_eq!(event_text("t".to_string(), Some(s("inner"))), "inner");
    assert_eq!(event_text("t".to_string(), Some(n(4))), "t");
    assert_eq!(event_text("t".to_string(), Some(obj(vec![("input", s("i")), ("text", s("x"))]))), "x");
    assert_eq!(event_text("t".to_string(), Some(obj(vec![("value", n(1))]))), "t");
}

#[test]
fn accounts_of_json_values() {
    let item = |name: &str, key: &str| obj(vec![("name", s(name)), ("key", s(key))]);
    let list = accounts_of_json(Json::Array(vec![item("A", "K1"), s("x"), item("B", ""), item("C", "K3")]));
    assert_eq!(list.len(), 2);
    assert_eq!((list[0].name.as_str(), list[0].key.as_str()), ("A", "K1"));
    assert_eq!((list[1].name.as_str(), list[1].key.as_str()), ("C", "K3"));
    assert_eq!(list[1].usr, "");
    let one = accounts_of_json(obj(vec![("key", s("K")), ("usr", Json::Bool(false))]));
    assert_eq!(one.len(), 1);
    assert_eq!(one[0].name, "");
    assert_eq!(one[0].usr, "false");
    assert!(accounts_of_json(s("K")).is_empty());
    assert!(accounts_of_json(Json::Null).is_empty());
}
