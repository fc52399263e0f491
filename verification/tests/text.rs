use dns_syncer::text::chars_of;
use dns_syncer::text::char_is_whitespace;
use dns_syncer::text::ends_with;
use dns_syncer::text::insert_sorted;
use dns_syncer::text::parse_u64;
use dns_syncer::text::split;
use dns_syncer::text::str_eq;
use dns_syncer::text::str_less;
use dns_syncer::text::trim;
use dns_syncer::text::u64_to_string;

#[test]
fn chars_are_those_of_the_text() {
    assert_eq!(chars_of("aé\u{1F600}"), vec!['a', 'é', '\u{1F600}']);
    assert_eq!(chars_of(""), Vec::<char>::new());
}

#[test]
fn equality_and_suffix_agree_with_std() {
    let samples = ["", "a", "home", "example.com", "home.example.com", "é", "日本語.example.com"];
    for a in samples {
        for b in samples {
            assert_eq!(str_eq(a, b), a == b, "{:?} {:?}", a, b);
            assert_eq!(ends_with(a, b), a.ends_with(b), "{:?} {:?}", a, b);
            assert_eq!(str_less(a, b), a < b, "{:?} {:?}", a, b);
        }
    }
}

#[test]
fn trim_agrees_with_std() {
    let samples = [
        "",
        " ",
        "a",
        "  a b  ",
        "\t\r\n203.0.113.5\n",
        "\u{85}x\u{a0}",
        "\u{1680}\u{2000}\u{200a}x\u{2028}\u{2029}\u{202f}\u{205f}\u{3000}",
        "\u{200b}x\u{200b}",
        "\u{1c}x",
    ];
    for s in samples {
        assert_eq!(trim(s), s.trim(), "{:?}", s);
    }
    for n in 0u32..0x3100 {
        if let Some(c) = char::from_u32(n) {
            assert_eq!(char_is_whitespace(c), c.is_whitespace(), "{:x}", n);
        }
    }
}

#[test]
fn split_agrees_with_std() {
    let samples = ["", ",", "a", "a,b", "cloudflare,ipw", ",a,,b,", "日,本"];
    for s in samples {
        let expected: Vec<String> = s.split(',').map(|p| p.to_string()).collect();
        assert_eq!(split(s, ','), expected, "{:?}", s);
    }
    assert_eq!(split("", ','), vec!["".to_string()]);
}

#[test]
fn decimal_numbers_are_written_and_read() {
    assert_eq!(u64_to_string(0), "0");
    assert_eq!(u64_to_string(7), "7");
    assert_eq!(u64_to_string(404), "404");
    assert_eq!(u64_to_string(u64::MAX), "18446744073709551615");
    let samples = [
        "", "+", "0", "00", "007", "+5", "-5", "30", " 30", "30 ", "3_0", "١٢", "+-1",
        "18446744073709551615", "18446744073709551616", "99999999999999999999999", "1e3",
    ];
    for s in samples {
        assert_eq!(parse_u64(s), s.parse::<u64>().ok(), "{:?}", s);
    }
    assert_eq!(parse_u64("30"), Some(30));
    assert_eq!(parse_u64("18446744073709551616"), None);
}

#[test]
fn sorted_insertion_keeps_order_and_drops_repeats() {
    let mut names: Vec<String> = Vec::new();
    for n in ["cf2", "cf1", "cf2", "b", "cf10", "", "b"] {
        insert_sorted(&mut names, n.to_string());
    }
    assert_eq!(names, vec!["", "b", "cf1", "cf10", "cf2"]);
}
