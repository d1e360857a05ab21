use transport_azure_event_hubs::text;

#[test]
fn text_is_cut_at_the_first_separator() {
    assert_eq!(text::split_once("a://b://c", "://"), Some(("a", "b://c")));
    assert_eq!(text::split_once("://", "://"), Some(("", "")));
    assert_eq!(text::split_once("::///", "://"), Some((":", "/")));
    assert_eq!(text::split_once("a:/", "://"), None);
    assert_eq!(text::split_once("", "/"), None);
    assert_eq!(text::split_once("ab", ""), Some(("", "ab")));
    assert_eq!(text::split_once("\u{20ac}/\u{e9}", "/"), Some(("\u{20ac}", "\u{e9}")));
}

#[test]
fn prefixes_suffixes_and_tails_are_taken_off() {
    assert_eq!(text::trim_end("a/b//", '/'), "a/b");
    assert_eq!(text::trim_end("//", '/'), "");
    assert_eq!(text::strip_prefix("//a", "/"), "/a");
    assert_eq!(text::strip_prefix("a", "/"), "a");
    assert_eq!(text::strip_suffix("h/messages", "/messages"), Some("h"));
    assert_eq!(text::strip_suffix("/message", "/messages"), None);
    assert_eq!(text::tail("a#b#12", '#'), "12");
    assert_eq!(text::tail("a#", '#'), "");
    assert_eq!(text::tail("a", '#'), "a");
    assert!(text::same("POST", "POST") && !text::same("POST", "post"));
    assert!(!text::same("POST", "POSTS"));
}

#[test]
fn parsing_undoes_rendering() {
    for n in [0, 1, 9, 10, 99, 100, 1_048_576, u64::MAX - 1, u64::MAX] {
        assert_eq!(text::render(n), n.to_string());
        assert_eq!(text::parse(&text::render(n), u64::MAX), Some(n));
    }
}

#[test]
fn a_number_is_read_as_the_standard_library_reads_it() {
    let written = [
        "", "+", "-", "0", "+0", "-0", "7", "+7", "++7", "007", "+007", " 7", "7 ", "7_0", "x",
        "4294967295", "4294967296", "42949672950", "99999999999999999999999999", "\u{0663}",
    ];
    for s in written {
        assert_eq!(
            text::parse(s, u64::from(u32::MAX)),
            s.parse::<u32>().ok().map(u64::from),
            "{s}"
        );
        assert_eq!(text::parse(s, u64::MAX), s.parse::<u64>().ok(), "{s}");
    }
    assert_eq!(text::parse("18446744073709551616", u64::MAX), None);
    assert_eq!(text::parse("4", 3), None);
    assert_eq!(text::parse("3", 3), Some(3));
}
