use relay_server::console::Control;
use relay_server::pairing::{
    both_raw, close_usage, connection_id, examine, give_up, let_in, open_usage, real_address,
    request_relay, ws_bytes, Entry, Outcome, Refusal, RelayRequest, WsMessage,
};
use relay_server::table::{TextMap, TextSet};

fn request(key: &str, id: &str, uuid: &str) -> RelayRequest {
    RelayRequest {
        licence_key: key.to_string(),
        id: id.to_string(),
        uuid: uuid.to_string(),
    }
}

#[test]
fn who_is_let_in() {
    let mut blocked = TextSet::new();
    blocked.insert("127.0.0.1".to_string());
    blocked.insert("6.6.6.6".to_string());
    assert_eq!(let_in(false, true, "127.0.0.1", &blocked), Entry::Console);
    assert_eq!(let_in(true, true, "127.0.0.1", &blocked), Entry::Refused);
    assert_eq!(let_in(false, false, "6.6.6.6", &blocked), Entry::Refused);
    assert_eq!(let_in(true, false, "7.7.7.7", &blocked), Entry::Relay);
}

#[test]
fn proxies_name_the_address() {
    assert_eq!(real_address(Some(b"10.0.0.1"), Some(b"10.0.0.2")), Some("10.0.0.1:0".to_string()));
    assert_eq!(real_address(None, Some(b"10.0.0.2")), Some("10.0.0.2:0".to_string()));
    assert_eq!(real_address(Some(b"fe80::1"), None), Some("[fe80::1]:0".to_string()));
    assert_eq!(real_address(Some(b"\xff"), Some(b"10.0.0.2")), None);
    assert_eq!(real_address(None, None), None);
}

#[test]
fn connections_have_names() {
    assert_eq!(connection_id("10.0.0.1", 0), "10.0.0.1:0");
    assert_eq!(connection_id("::1", 65535), "::1:65535");
}

#[test]
fn requests_are_examined() {
    let r = request("k", "id", "u");
    assert_eq!(examine(&r, "", "", false), None);
    assert_eq!(examine(&r, "k", "", false), None);
    assert_eq!(examine(&r, "other", "", true), Some(Refusal::WrongKey));
    assert_eq!(examine(&r, "k", "list", false), Some(Refusal::NotListed));
    assert_eq!(examine(&r, "k", "list", true), None);
    assert_eq!(examine(&request("k", "", "u"), "k", "list", false), None);
    assert_eq!(examine(&request("k", "id", ""), "k", "", false), Some(Refusal::NoUuid));
}

#[test]
fn the_second_request_meets_the_first() {
    let mut waiting: TextMap<u32> = TextMap::new();
    let r = request("k", "", "u");
    assert!(matches!(request_relay(&mut waiting, &r, "k", "", false, 1), Outcome::Waiting));
    assert!(matches!(
        request_relay(&mut waiting, &request("k", "", "v"), "k", "", false, 2),
        Outcome::Waiting
    ));
    assert!(matches!(
        request_relay(&mut waiting, &request("x", "", "u"), "k", "", false, 3),
        Outcome::Refused(Refusal::WrongKey)
    ));
    assert!(matches!(
        request_relay(&mut waiting, &r, "k", "", false, 4),
        Outcome::Paired { stream: 4, peer: 1 }
    ));
    assert_eq!(waiting.len(), 1);
    assert!(matches!(request_relay(&mut waiting, &r, "k", "", false, 5), Outcome::Waiting));
}

#[test]
fn who_gave_up_is_not_met() {
    let mut waiting: TextMap<u32> = TextMap::new();
    let r = request("", "", "u");
    assert!(matches!(request_relay(&mut waiting, &r, "", "", false, 1), Outcome::Waiting));
    assert_eq!(give_up(&mut waiting, "u"), Some(1));
    assert_eq!(give_up(&mut waiting, "u"), None);
    assert!(matches!(request_relay(&mut waiting, &r, "", "", false, 2), Outcome::Waiting));
}

#[test]
fn plain_pairs_are_raw() {
    assert!(both_raw(false, false));
    assert!(!both_raw(true, false));
    assert!(!both_raw(false, true));
    assert!(!both_raw(true, true));
}

#[test]
fn usage_is_kept_while_a_pair_lasts() {
    let mut c = Control::new();
    open_usage(&mut c, "a:1");
    assert!(c.usage.contains_key("a:1"));
    open_usage(&mut c, "b:1");
    close_usage(&mut c, "a:1");
    assert!(!c.usage.contains_key("a:1"));
    assert!(c.usage.contains_key("b:1"));
}

#[test]
fn only_binary_messages_have_bytes() {
    assert_eq!(ws_bytes(Some(Ok(WsMessage::Binary(vec![1, 2])))), Some(Ok(vec![1, 2])));
    assert_eq!(ws_bytes(Some(Ok(WsMessage::Other))), Some(Ok(vec![])));
    assert_eq!(ws_bytes(Some(Err("gone".to_string()))), Some(Err("gone".to_string())));
    assert_eq!(ws_bytes(None), None);
}
