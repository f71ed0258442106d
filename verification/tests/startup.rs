use relay_server::console::Control;
use relay_server::key::{choose_key, get_server_sk, take_public_half, ServerKey};
use relay_server::number::NumberError;
use relay_server::pairing::open_usage;
use relay_server::settings::Settings;
use relay_server::startup::{load_list, read_api_port, read_ports, start, PortError};
use relay_server::table::TextSet;

const PRIVATE: &str = "AAECAwQFBgcICQoLDA0ODxAREhMUFRYXGBkaGxwdHh8gISIjJCUmJygpKissLS4vMDEyMzQ1Njc4OTo7PD0+Pw==";
const PUBLIC: &str = "ICEiIyQlJicoKSorLC0uLzAxMjM0NTY3ODk6Ozw9Pj8=";

fn fixed(key: ServerKey) -> Option<String> {
    match key {
        ServerKey::Fixed(k) => Some(k),
        ServerKey::Generated => None,
    }
}

#[test]
fn a_private_key_gives_its_public_one() {
    assert_eq!(fixed(get_server_sk(PRIVATE)), Some(PUBLIC.to_string()));
    assert_eq!(fixed(get_server_sk(PUBLIC)), Some(PUBLIC.to_string()));
}

#[test]
fn other_keys_stay_as_they_are() {
    assert_eq!(fixed(get_server_sk("")), Some(String::new()));
    assert_eq!(fixed(get_server_sk("my key")), Some("my key".to_string()));
    assert_eq!(fixed(get_server_sk("aGVsbG8=")), Some("aGVsbG8=".to_string()));
    assert_eq!(fixed(get_server_sk("-")), None);
    assert_eq!(fixed(get_server_sk("_")), None);
    assert_eq!(fixed(get_server_sk("--")), Some("--".to_string()));
}

#[test]
fn halves_are_taken_of_private_keys_only() {
    let bytes: Vec<u8> = (0..64).collect();
    assert_eq!(take_public_half(Some(bytes)), Some((32..64).collect::<Vec<u8>>()));
    assert_eq!(take_public_half(Some(vec![0; 63])), None);
    assert_eq!(take_public_half(Some(vec![0; 65])), None);
    assert_eq!(take_public_half(None), None);
    assert_eq!(fixed(choose_key("-", Some("k".to_string()))), Some("k".to_string()));
    assert_eq!(fixed(choose_key("-", None)), None);
}

#[test]
fn list_files_are_loaded() {
    let mut list = TextSet::new();
    list.insert("0.0.0.0".to_string());
    load_list(&mut list, "1.1.1.1 spam\r\n  2.2.2.2\t\n\n3.3.3.3");
    assert_eq!(list.to_vec(), vec!["0.0.0.0", "1.1.1.1", "2.2.2.2", "", "3.3.3.3"]);
}

#[test]
fn ports_come_in_twos() {
    assert_eq!(read_ports("21117"), Ok((21117, 21119)));
    assert_eq!(read_ports("65533"), Ok((65533, 65535)));
    assert_eq!(read_ports("65534"), Err(PortError::NoPortAbove));
    assert_eq!(read_ports("65536"), Err(PortError::NotAPort(NumberError::TooLarge)));
    assert_eq!(read_ports(""), Err(PortError::NotAPort(NumberError::Empty)));
    assert_eq!(read_ports("http"), Err(PortError::NotAPort(NumberError::InvalidDigit)));
}

#[test]
fn the_interface_has_a_port() {
    assert_eq!(read_api_port(None), 21114);
    assert_eq!(read_api_port(Some("8080")), 8080);
    assert_eq!(read_api_port(Some("80800")), 21114);
    assert_eq!(read_api_port(Some("")), 21114);
}

#[test]
fn the_start_is_prepared() {
    let mut c = Control::new();
    let plan =
        start("21117", PRIVATE, "white.txt", Some("1.1.1.1"), None, Some("secret"), Some("99"), &mut c);
    assert_eq!(fixed(plan.key), Some(PUBLIC.to_string()));
    assert!(plan.load_whitelist);
    assert_eq!(c.blacklist.to_vec(), vec!["1.1.1.1"]);
    assert_eq!(c.blocklist.len(), 0);
    assert_eq!(c.settings, Settings::initial());
    assert_eq!(plan.ports, Ok((21117, 21119)));
    assert_eq!(plan.api, Some(99));

    let mut c = Control::new();
    let plan = start("x", "-", "", None, Some(""), Some(""), Some("99"), &mut c);
    assert_eq!(fixed(plan.key), None);
    assert!(!plan.load_whitelist);
    assert!(c.blocklist.contains(""));
    assert_eq!(plan.ports, Err(PortError::NotAPort(NumberError::InvalidDigit)));
    assert_eq!(plan.api, None);
}

#[test]
fn starting_again_keeps_what_is_there() {
    let mut c = Control::new();
    start("1", "", "", Some("1.1.1.1"), Some("2.2.2.2"), None, None, &mut c);
    c.settings.limit_speed = 5;
    open_usage(&mut c, "a:1");
    start("1", "", "", Some("3.3.3.3\n1.1.1.1"), None, None, None, &mut c);
    assert_eq!(c.blacklist.len(), 2);
    assert!(c.blacklist.contains("1.1.1.1") && c.blacklist.contains("3.3.3.3"));
    assert_eq!(c.blocklist.to_vec(), vec!["2.2.2.2"]);
    assert_eq!(c.settings.limit_speed, 5);
    assert!(c.usage.contains_key("a:1"));
}
