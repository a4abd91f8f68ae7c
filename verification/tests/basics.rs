use parser::amount::{check_amount, increment_digits, normalize_amount, points_to_commas};
use parser::dates::{make_date, push_iso, push_two_digits, push_yymmdd, read_iso, read_yymmdd, Date};
use parser::errors::BalanceRole;
use parser::mt940::format::Mt940;
use parser::mt940::tokenizer::{split_lines, tag_code_length};
use parser::mt940::transaction::{find_run_end, find_slashes, split_remainder};
use parser::text::{
    char_is_digit, char_is_upper, chars_of, copy_range, digit_to_number, find_char,
    number_to_digit, push_all, range_all_digits, range_all_upper, same_chars, string_of,
};

fn chars(s: &str) -> Vec<char> {
    s.chars().collect()
}

fn text(v: &[char]) -> String {
    v.iter().collect()
}

#[test]
fn strings_and_characters_go_both_ways() {
    for s in ["", "a", "C251020EUR10000,00", "l\u{e9}ger \u{1f600}\r\n{}"] {
        assert_eq!(chars_of(s), chars(s));
        assert_eq!(string_of(&chars(s)), s);
        assert_eq!(string_of(&chars_of(s)), s);
    }
}

#[test]
fn digits_and_letters_are_told_apart() {
    for c in ['0', '5', '9'] {
        assert!(char_is_digit(c));
        assert!(!char_is_upper(c));
    }
    for c in ['A', 'M', 'Z'] {
        assert!(char_is_upper(c));
        assert!(!char_is_digit(c));
    }
    for c in ['/', ':', '@', '[', 'a', 'z', ',', ' ', '\u{663}', '\u{c9}'] {
        assert!(!char_is_digit(c));
        assert!(!char_is_upper(c));
    }
    for n in 0..=9u8 {
        assert_eq!(digit_to_number(number_to_digit(n)), n);
    }
    assert_eq!(number_to_digit(7), '7');
    assert_eq!(digit_to_number('3'), 3);
}

#[test]
fn ranges_are_searched_and_copied() {
    let s = chars("ab12CD,34");
    assert!(range_all_digits(&s, 2, 4));
    assert!(range_all_digits(&s, 3, 3));
    assert!(!range_all_digits(&s, 1, 4));
    assert!(!range_all_digits(&s, 2, 5));
    assert!(range_all_upper(&s, 4, 6));
    assert!(!range_all_upper(&s, 4, 7));
    assert_eq!(find_char(&s, ',', 0), 6);
    assert_eq!(find_char(&s, ',', 6), 6);
    assert_eq!(find_char(&s, ',', 7), 9);
    assert_eq!(find_char(&s, 'x', 0), 9);
    assert_eq!(find_char(&s, 'a', 9), 9);
    assert_eq!(copy_range(&s, 2, 6), chars("12CD"));
    assert_eq!(copy_range(&s, 9, 9), chars(""));
    let mut out = chars("x");
    push_all(&mut out, &s);
    assert_eq!(text(&out), "xab12CD,34");
    assert!(same_chars(&s, &chars("ab12CD,34")));
    assert!(!same_chars(&s, &chars("ab12CD,35")));
    assert!(!same_chars(&s, &chars("ab12CD,3")));
    assert!(same_chars(&[], &[]));
}

#[test]
fn wire_amounts_are_recognised() {
    for good in ["0", "1", "10000,00", "5,", "0,5", "007,1234567", "123456789012345678901234567890"] {
        let s = chars(good);
        assert!(check_amount(&s, 0, s.len()), "{}", good);
    }
    for bad in ["", ",", ",5", "1,2,3", "1,,", "1.5", "-1", "+1", "1 ", " 1", "1e5", "A", "1,5A"] {
        let s = chars(bad);
        assert!(!check_amount(&s, 0, s.len()), "{}", bad);
    }
    let s = chars("EUR12,5NTRF");
    assert!(check_amount(&s, 3, 7));
    assert!(!check_amount(&s, 2, 7));
    assert!(!check_amount(&s, 3, 8));
    assert!(!check_amount(&s, 5, 7));
    assert!(!check_amount(&s, 3, 3));
}

#[test]
fn digits_are_counted_up() {
    for (from, to) in [
        ("0", "1"),
        ("8", "9"),
        ("9", "10"),
        ("19", "20"),
        ("099", "100"),
        ("999", "1000"),
        ("1299", "1300"),
        ("", "1"),
        ("99999999999999999999", "100000000000000000000"),
    ] {
        let mut d = chars(from);
        increment_digits(&mut d);
        assert_eq!(text(&d), to);
    }
}

#[test]
fn amounts_are_written_with_two_decimals() {
    for (wire, value) in [
        ("0", "0.00"),
        ("0,", "0.00"),
        ("00,004", "0.00"),
        ("00,005", "0.01"),
        ("7,1", "7.10"),
        ("7,12", "7.12"),
        ("7,125", "7.13"),
        ("7,1249999", "7.12"),
        ("19,999", "20.00"),
        ("0100,10", "100.10"),
    ] {
        assert_eq!(text(&normalize_amount(&chars(wire))), value, "{}", wire);
    }
    assert_eq!(text(&points_to_commas(&chars("1.234.5,6"))), "1,234,5,6");
    assert_eq!(text(&points_to_commas(&chars(""))), "");
}

#[test]
fn dates_are_made_only_of_days_that_exist() {
    assert_eq!(make_date(2024, 2, 29), Some(Date { year: 2024, month: 2, day: 29 }));
    assert_eq!(make_date(2000, 2, 29), Some(Date { year: 2000, month: 2, day: 29 }));
    assert_eq!(make_date(0, 1, 1), Some(Date { year: 0, month: 1, day: 1 }));
    assert_eq!(make_date(9999, 12, 31), Some(Date { year: 9999, month: 12, day: 31 }));
    for (y, m, d) in [
        (2023, 2, 29),
        (1900, 2, 29),
        (2100, 2, 29),
        (2024, 2, 30),
        (2024, 4, 31),
        (2024, 6, 31),
        (2024, 9, 31),
        (2024, 11, 31),
        (2024, 1, 32),
        (2024, 0, 1),
        (2024, 13, 1),
        (2024, 1, 0),
        (2024, 255, 255),
        (10000, 1, 1),
        (65535, 1, 1),
    ] {
        assert_eq!(make_date(y, m, d), None, "{}-{}-{}", y, m, d);
    }
    for (m, last) in [
        (1, 31),
        (2, 28),
        (3, 31),
        (4, 30),
        (5, 31),
        (6, 30),
        (7, 31),
        (8, 31),
        (9, 30),
        (10, 31),
        (11, 30),
        (12, 31),
    ] {
        assert!(make_date(2023, m, last).is_some());
        assert!(make_date(2023, m, last + 1).is_none());
    }
}

#[test]
fn dates_are_read_and_written() {
    let d = Date { year: 2025, month: 1, day: 9 };
    let mut out = Vec::new();
    push_yymmdd(&mut out, d);
    assert_eq!(text(&out), "250109");
    assert_eq!(read_yymmdd(&out, 0), Some(d));
    let mut out = Vec::new();
    push_iso(&mut out, d);
    assert_eq!(text(&out), "2025-01-09");
    assert_eq!(read_iso(&out), Some(d));
    let mut out = Vec::new();
    push_iso(&mut out, Date { year: 7, month: 12, day: 31 });
    assert_eq!(text(&out), "0007-12-31");
    let mut out = Vec::new();
    push_two_digits(&mut out, 0);
    push_two_digits(&mut out, 5);
    push_two_digits(&mut out, 99);
    assert_eq!(text(&out), "000599");
    assert_eq!(read_yymmdd(&chars("xx691231"), 2), Some(Date { year: 2069, month: 12, day: 31 }));
    assert_eq!(read_yymmdd(&chars("700101"), 0), Some(Date { year: 1970, month: 1, day: 1 }));
    assert_eq!(read_yymmdd(&chars("70010a"), 0), None);
    assert_eq!(read_yymmdd(&chars("700132"), 0), None);
    for bad in [
        "",
        "2025-1-09",
        "2025-01-9",
        "25-01-09",
        "2025/01/09",
        "2025-01-09T00:00:00",
        "+2025-01-09",
        " 2025-01-09",
        "2025-02-30",
        "2025-13-01",
        "2025-00-10",
        "20250109",
        "2025-01-0a",
    ] {
        assert_eq!(read_iso(&chars(bad)), None, "{}", bad);
    }
    assert_eq!(read_iso(&chars("0000-01-01")), Some(Date { year: 0, month: 1, day: 1 }));
}

#[test]
fn lines_end_at_every_kind_of_line_break() {
    let lines: Vec<String> =
        split_lines(&chars("one\ntwo\r\nthree\rfour\n\nfive\r\r\nsix\n\r")).iter().map(|l| text(l)).collect();
    assert_eq!(lines, vec!["one", "two", "three", "four", "", "five", "", "six", ""]);
    assert_eq!(split_lines(&chars("")), Vec::<Vec<char>>::new());
    assert_eq!(split_lines(&chars("\n")), vec![Vec::<char>::new()]);
    assert_eq!(split_lines(&chars("x")), vec![chars("x")]);
    assert_eq!(split_lines(&chars("x\r\n")), vec![chars("x")]);
}

#[test]
fn tag_codes_are_measured() {
    for (line, len) in [
        (":20:", 2),
        (":20:REF", 2),
        (":28C:1/1", 3),
        (":60F:", 3),
        (":2:", 0),
        (":200:", 0),
        (":2A:", 0),
        (":20f:", 0),
        (":20FF:", 0),
        ("20:", 0),
        (":20", 0),
        (" :20:", 0),
        ("", 0),
        ("-", 0),
        (":A0:", 0),
    ] {
        assert_eq!(tag_code_length(&chars(line)), len, "{}", line);
    }
}

#[test]
fn the_amount_run_and_the_slashes_are_found() {
    let s = chars("D12,50,NTRF//X/Y");
    assert_eq!(find_run_end(&s, 1), 7);
    assert_eq!(find_run_end(&s, 0), 0);
    assert_eq!(find_run_end(&s, 16), 16);
    assert_eq!(find_slashes(&s, 0), 11);
    assert_eq!(find_slashes(&s, 11), 11);
    assert_eq!(find_slashes(&s, 12), 16);
    assert_eq!(find_slashes(&chars("/"), 0), 1);
    assert_eq!(find_slashes(&chars("a/"), 0), 2);
    assert_eq!(find_slashes(&chars("//"), 0), 0);
    assert_eq!(find_slashes(&chars(""), 0), 0);
    assert_eq!(
        split_remainder(&chars("NTRF//REF")),
        (Some("NTRF".to_string()), Some("REF".to_string()), None)
    );
    assert_eq!(split_remainder(&chars("//")), (None, Some(String::new()), None));
    assert_eq!(split_remainder(&chars("")), (None, None, None));
}

#[test]
fn role_codes_are_the_four_codes() {
    assert_eq!(text(&BalanceRole::Opening.code()), "OPBD");
    assert_eq!(text(&BalanceRole::Closing.code()), "CLBD");
    assert_eq!(text(&BalanceRole::ClosingAvailable.code()), "CLAV");
    assert_eq!(text(&BalanceRole::ForwardAvailable.code()), "FWAV");
}

#[test]
fn texts_that_decode_are_read_back_as_they_were_written() {
    let bodies = [
        ":60F:C251020EUR1,\n:62F:D251021EUR2,\n",
        "\r\n:60M:C251020EUR1,\r\n:62M:D251021EUR2,\r\n-",
        ":20:A\r:21:B\r:25:C\r:28:D\r:60F:C000101XXX0\r:62F:C991231XXX0\r-\r:20:late",
        ":99:first\n:86:loose\n:86:\n:20:R\n:20:S\n:60F:C251020EUR1,\n:61:2510211021RDX5,5ABC//D\nmore\n\n:86:\n:86:a\n\nb\n:86::61:x\n:86:-\n:61:251021C1,\n:62F:D251021EUR2,\n:86:after\n:64:C251021EUR3,\n:64:C251021EUR4,\n:65:C251022EUR5,\n:65:C251023EUR6,\n:13D:x{y\n",
    ];
    for body in bodies {
        for (third, fifth) in [("", ""), ("{3:{113:XXXX}", ""), ("", "{5:{CHK:1}"), ("{3:u}", "{5:f}")] {
            let text = format!(
                "{{1:F01BANKDEFFAXXX0000000000}}{{2:I940BANKNL2AXXXXN}}{}{{4:{}}}{}",
                third, body, fifth
            );
            let first = Mt940::from_string(&text).unwrap();
            let written = first.to_string().unwrap();
            let second = Mt940::from_string(&written).unwrap();
            assert_eq!(first, second, "{}", text);
            assert_eq!(second.to_string().unwrap(), written);
        }
    }
}
