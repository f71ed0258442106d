use relay_server::console::{
    read_verb, write_hundredths, write_megabits, Control, ListName, Reply, Verb,
};
use relay_server::settings::{Setting, Settings, TooLong};
use relay_server::usage::{write_report, Usage};

fn text(c: &mut Control, cmd: &str) -> String {
    match c.check_cmd(cmd) {
        Reply::Text(t) => t,
        _ => panic!("no text"),
    }
}

#[test]
fn help_lists_the_commands() {
    let mut c = Control::new();
    assert_eq!(
        text(&mut c, " h \n"),
        "blacklist-add(ba) <ip>\nblacklist-remove(br) <ip>\nblacklist(b) <ip>\n\
         blocklist-add(Ba) <ip>\nblocklist-remove(Br) <ip>\nblocklist(B) <ip>\n\
         downgrade-threshold(dt) [value]\ndowngrade-start-check(t) [value(second)]\n\
         limit-speed(ls) [value(Mb/s)]\ntotal-bandwidth(tb) [value(Mb/s)]\n\
         single-bandwidth(sb) [value(Mb/s)]\nusage(u)\n"
    );
}

#[test]
fn words_are_told_apart() {
    assert_eq!(read_verb("ba"), Verb::Add(ListName::Black));
    assert_eq!(read_verb("Ba"), Verb::Add(ListName::Block));
    assert_eq!(read_verb("blacklist-remove"), Verb::Remove(ListName::Black));
    assert_eq!(read_verb("blocklist"), Verb::Show(ListName::Block));
    assert_eq!(read_verb("dt"), Verb::Number(Setting::DowngradeThreshold));
    assert_eq!(read_verb("total-bandwidth"), Verb::Number(Setting::TotalBandwidth));
    assert_eq!(read_verb("t"), Verb::StartCheck);
    assert_eq!(read_verb("u"), Verb::Usage);
    assert_eq!(read_verb("H"), Verb::Other);
    assert_eq!(read_verb(""), Verb::Other);
}

#[test]
fn lists_are_kept() {
    let mut c = Control::new();
    assert_eq!(text(&mut c, "ba 1.1.1.1|2.2.2.2"), "");
    assert_eq!(text(&mut c, "b 1.1.1.1"), "true\n");
    assert_eq!(text(&mut c, "blacklist 3.3.3.3"), "false\n");
    assert_eq!(text(&mut c, "B 1.1.1.1"), "false\n");
    assert_eq!(text(&mut c, "b"), "1.1.1.1\n2.2.2.2\n");
    assert_eq!(text(&mut c, "blacklist-remove 1.1.1.1"), "");
    assert_eq!(text(&mut c, "b"), "2.2.2.2\n");
    assert_eq!(text(&mut c, "blocklist-add 9.9.9.9"), "");
    assert_eq!(text(&mut c, "br all"), "");
    assert_eq!(text(&mut c, "b"), "");
    assert_eq!(text(&mut c, "B"), "9.9.9.9\n");
    assert_eq!(text(&mut c, "Br 9.9.9.9|8.8.8.8"), "");
    assert_eq!(text(&mut c, "B"), "");
}

#[test]
fn a_second_blank_makes_an_empty_field() {
    let mut c = Control::new();
    assert_eq!(text(&mut c, "ba  1.1.1.1"), "");
    assert_eq!(text(&mut c, "b 1.1.1.1"), "false\n");
    assert_eq!(text(&mut c, "b"), "\n");
}

#[test]
fn commands_without_a_field_change_nothing() {
    let mut c = Control::new();
    text(&mut c, "ba 1.1.1.1");
    for cmd in ["ba", "br", "Ba", "Br", "", "x y z", "h", "u 1"] {
        c.check_cmd(cmd);
    }
    assert_eq!(text(&mut c, "b"), "1.1.1.1\n");
    assert_eq!(text(&mut c, "B"), "");
    assert_eq!(c.settings, Settings::initial());
}

#[test]
fn limits_are_shown_and_changed() {
    let mut c = Control::new();
    assert!(matches!(c.check_cmd("dt"), Reply::Hundredths(66)));
    assert!(matches!(c.check_cmd("ls"), Reply::Megabits(33_554_432)));
    assert!(matches!(c.check_cmd("tb"), Reply::Megabits(1_073_741_824)));
    assert!(matches!(c.check_cmd("sb"), Reply::Megabits(134_217_728)));
    match c.check_cmd("total-bandwidth 0.5") {
        Reply::Number(Setting::TotalBandwidth, t) => assert_eq!(t, "0.5"),
        _ => panic!("no number"),
    }
    assert_eq!(c.settings.assign(Setting::TotalBandwidth, None), None);
    assert_eq!(c.settings.assign(Setting::TotalBandwidth, Some(524_288)), Some(524_288));
    assert_eq!(c.settings.assign(Setting::LimitSpeed, Some(1)), None);
    assert!(matches!(c.check_cmd("tb"), Reply::Megabits(524_288)));
    assert!(matches!(c.check_cmd("ls"), Reply::Megabits(1)));
    assert!(matches!(c.check_cmd("sb"), Reply::Megabits(134_217_728)));
}

#[test]
fn seconds_become_milliseconds() {
    let mut c = Control::new();
    assert_eq!(text(&mut c, "t"), "1800s\n");
    assert_eq!(text(&mut c, "t 7"), "");
    assert_eq!(c.settings.downgrade_start_check, 7000);
    assert_eq!(text(&mut c, "downgrade-start-check"), "7s\n");
    for cmd in ["t 0", "t x", "t -1", "t 1.5", "t 99999999999999999999999"] {
        assert_eq!(text(&mut c, cmd), "");
    }
    assert_eq!(c.settings.downgrade_start_check, 7000);
    assert!(matches!(c.check_cmd("t 18446744073709551615"), Reply::TooLong));
    assert_eq!(c.settings.downgrade_start_check, 7000);
    assert_eq!(text(&mut c, "t +18446744073709551"), "");
    assert_eq!(c.settings.downgrade_start_check, 18446744073709551000);
}

#[test]
fn the_environment_is_taken_over() {
    let mut s = Settings::initial();
    assert_eq!(s.check_params(Some(50), Some("60"), None, Some(2), None), Ok(()));
    assert_eq!(
        s,
        Settings {
            downgrade_threshold: 50,
            downgrade_start_check: 60_000,
            limit_speed: 33_554_432,
            total_bandwidth: 2,
            single_bandwidth: 134_217_728,
        }
    );
    assert_eq!(s.check_params(Some(1), Some("18446744073709551615"), Some(9), None, None), Err(TooLong));
    assert_eq!(s.downgrade_threshold, 1);
    assert_eq!(s.limit_speed, 33_554_432);
    assert_eq!(s.check_params(None, Some("no"), None, None, Some(3)), Ok(()));
    assert_eq!(s.single_bandwidth, 3);
    assert_eq!(s.downgrade_start_check, 60_000);
}

#[test]
fn the_report_starts_with_the_largest() {
    let mut c = Control::new();
    c.usage.insert("a:1".to_string(), Usage { elapsed: 1500, total: 16_777_216, highest: 12, speed: 3 });
    c.usage.insert("b:2".to_string(), Usage::none());
    c.usage.insert("c:3".to_string(), Usage { elapsed: 1000, total: 33_554_432, highest: 40, speed: 5 });
    let rows = match c.check_cmd("usage") {
        Reply::Usage(rows) => rows,
        _ => panic!("no report"),
    };
    let names: Vec<&str> = rows.iter().map(|r| r.ip.as_str()).collect();
    assert_eq!(names, vec!["c:3", "a:1"]);
    let megabytes = vec!["4.00".to_string(), "2.00".to_string()];
    assert_eq!(
        write_report(&rows, &megabytes),
        "c:3: 1s 4.00MB 40kb/s 33554kb/s 5kb/s\na:1: 1s 2.00MB 12kb/s 11184kb/s 3kb/s\n"
    );
}

#[test]
fn bytes_that_are_no_text_are_not_answered() {
    let mut c = Control::new();
    assert!(c.check_bytes(b"ba \xff").is_none());
    assert!(matches!(c.check_bytes(b"ba 1.1.1.1\n"), Some(Reply::Text(_))));
    assert!(c.blacklist.contains("1.1.1.1"));
    assert!(c.check_bytes("ba ü".as_bytes()).is_some());
    assert!(c.blacklist.contains("ü"));
}

#[test]
fn removing_undoes_adding() {
    let mut c = Control::new();
    text(&mut c, "Ba 1.1.1.1");
    let before = text(&mut c, "B");
    text(&mut c, "Ba 2.2.2.2|3.3.3.3");
    text(&mut c, "Br 2.2.2.2|3.3.3.3");
    assert_eq!(text(&mut c, "B"), before);
}

#[test]
fn shown_numbers_end_a_line() {
    assert_eq!(write_hundredths("0.66"), "0.66\n");
    assert_eq!(write_megabits("32"), "32Mb/s\n");
}
