use relay_server::encoding::read_header;
use relay_server::number::{parse_number, print_number, NumberError};
use relay_server::text::{lines_of, same, split_at_char, split_by, trimmed, white_space};

fn owned(items: &[&str]) -> Vec<String> {
    items.iter().map(|s| s.to_string()).collect()
}

const SAMPLES: [&str; 14] = [
    "", " ", "a", "a b", " a  b ", "\n", "a\n", "a\r\n", "a\r", "a\nb\r\nc", "\r\n\r\n",
    "\u{3000}x\u{a0}", "é|ü||", "\n\n x \n",
];

#[test]
fn white_space_is_that_of_std() {
    let mut n: u32 = 0;
    while n <= 0x10ffff {
        if let Some(c) = char::from_u32(n) {
            assert_eq!(white_space(c), c.is_whitespace(), "{:x}", n);
        }
        n += 1;
    }
}

#[test]
fn trimming_is_that_of_std() {
    for s in SAMPLES {
        assert_eq!(trimmed(s), s.trim());
    }
    assert_eq!(trimmed("\t ba 1.2.3.4 \r\n"), "ba 1.2.3.4");
}

#[test]
fn splitting_is_that_of_std() {
    for s in SAMPLES {
        for c in [' ', '\n', '|', 'a'] {
            let expected: Vec<String> = s.split(c).map(|x| x.to_string()).collect();
            assert_eq!(split_at_char(s, c), expected);
        }
        for pat in ["\r\n", "\r\n\r\n", "aa", "a"] {
            let expected: Vec<String> = s.split(pat).map(|x| x.to_string()).collect();
            assert_eq!(split_by(s, pat), expected);
        }
    }
    assert_eq!(split_by("aaaaa", "aa"), owned(&["", "", "a"]));
    assert_eq!(split_at_char("1|2||3", '|'), owned(&["1", "2", "", "3"]));
}

#[test]
fn pieces_join_to_the_text() {
    for s in SAMPLES {
        assert_eq!(split_at_char(s, ' ').join(" "), s);
        assert_eq!(split_by(s, "\r\n").join("\r\n"), s);
        for piece in split_at_char(s, '\n') {
            assert!(!piece.contains('\n'));
        }
    }
}

#[test]
fn lines_are_those_of_std() {
    for s in SAMPLES {
        let expected: Vec<String> = s.lines().map(|x| x.to_string()).collect();
        assert_eq!(lines_of(s), expected);
    }
    assert_eq!(lines_of("GET / HTTP/1.1\r\nHost: a\r\n\r\n"), owned(&["GET / HTTP/1.1", "Host: a", ""]));
    assert_eq!(lines_of("x\r"), owned(&["x\r"]));
}

#[test]
fn texts_are_compared() {
    assert!(same("", ""));
    assert!(same("é", "é"));
    assert!(!same("é", "e"));
    assert!(!same("a", "ab"));
    assert!(!same("ab", "ac"));
}

#[test]
fn numbers_are_read_as_std_reads_them() {
    let texts = [
        "", "+", "-", "0", "00", "+7", "-7", "++7", "7x", "65535", "65536", "70000x", "7000x",
        "99999x", "6553x", "65536x", " 1", "1 ", "é", "000000065535", "18446744073709551616",
    ];
    for t in texts {
        let ours = parse_number(t, 65535);
        match t.parse::<u16>() {
            Ok(n) => assert_eq!(ours, Ok(n as u64)),
            Err(e) => {
                let kind = match e.kind() {
                    std::num::IntErrorKind::Empty => NumberError::Empty,
                    std::num::IntErrorKind::InvalidDigit => NumberError::InvalidDigit,
                    _ => NumberError::TooLarge,
                };
                assert_eq!(ours, Err(kind), "{}", t);
            }
        }
        assert_eq!(parse_number(t, u64::MAX).ok(), t.parse::<u64>().ok());
    }
    assert_eq!(parse_number("18446744073709551615", u64::MAX), Ok(u64::MAX));
    assert_eq!(parse_number("18446744073709551616", u64::MAX), Err(NumberError::TooLarge));
}

#[test]
fn numbers_are_written_and_read_back() {
    for n in [0u64, 7, 10, 99, 100, 65535, 1_800_000, u64::MAX] {
        assert_eq!(print_number(n), n.to_string());
        assert_eq!(parse_number(&print_number(n), u64::MAX), Ok(n));
    }
}

#[test]
fn headers_are_read() {
    assert_eq!(read_header(b"10.0.0.1"), Some("10.0.0.1".to_string()));
    assert_eq!(read_header(b"a\tb ~"), Some("a\tb ~".to_string()));
    assert_eq!(read_header(b""), Some(String::new()));
    assert_eq!(read_header(b"a\x7f"), None);
    assert_eq!(read_header(b"\x1f"), None);
    assert_eq!(read_header("é".as_bytes()), None);
}
