use galileo::ids::{ChannelId, RoleId, UserId};
use galileo::scan::candidate_words;
use galileo::text::{chars_of, decimal, join, leading_words, parse_u64, split};
use galileo::time::{format_remaining_time, format_time_until, Clock, Duration, Moment};

#[test]
fn decimals_have_no_leading_zeros() {
    assert_eq!(decimal(0), "0");
    assert_eq!(decimal(9), "9");
    assert_eq!(decimal(10), "10");
    assert_eq!(decimal(18446744073709551615), "18446744073709551615");
}

#[test]
fn numbers_are_read_as_the_standard_library_reads_them() {
    let texts = [
        "", "+", "-", "0", "007", "+7", "-7", "++7", "12a", " 1", "1 ", "18446744073709551615",
        "18446744073709551616", "99999999999999999999999", "+18446744073709551615",
        "99999999999999999999999x", "1844674407370955161x5", "18446744073709551615x",
        "\u{1f6f0}", "1\u{e9}",
    ];
    for text in texts {
        let expected = text.parse::<u64>().map_err(|error| error.to_string());
        assert_eq!(parse_u64(text).map_err(|error| error.message()), expected, "{}", text);
    }
}

#[test]
fn texts_are_split_as_the_standard_library_splits_them() {
    for text in ["", "/", "a", "a/b", "/a//b/", "caf\u{e9}/\u{1f6f0}"] {
        let expected: Vec<&str> = text.split('/').collect();
        assert_eq!(split(text, '/'), expected, "{}", text);
    }
    assert_eq!(chars_of("a\u{1f6f0}b"), vec!['a', '\u{1f6f0}', 'b']);
}

#[test]
fn words_are_joined() {
    assert_eq!(join(&vec![], " "), "");
    assert_eq!(join(&vec!["a".to_string()], " "), "a");
    assert_eq!(join(&vec!["a".to_string(), "b".to_string(), "".to_string()], ", "), "a, b, ");
    assert_eq!(leading_words("23h 59m 58s", 2), "23h 59m");
    assert_eq!(leading_words("23h 59m 58s", 3), "23h 59m 58s");
    assert_eq!(leading_words("23h 59m 58s", 9), "23h 59m 58s");
    assert_eq!(leading_words("23h 59m 58s", 0), "");
}

#[test]
fn durations_are_kept_to_the_nanosecond() {
    let span = Duration::new(5, 1_500_000_000);
    assert_eq!(span.as_secs(), 6);
    assert_eq!(span.subsec_nanos(), 500_000_000);
    assert_eq!(span.as_nanos(), 6_500_000_000);
    assert_eq!(Duration::from_secs(86400).as_nanos(), 86_400_000_000_000);
    assert_eq!(Duration::from_secs(u64::MAX).as_secs(), u64::MAX);
}

#[test]
fn remaining_time_is_rounded_to_its_coarsest_units() {
    let day = Duration::from_secs(86400);
    let start = Moment { nanos: 1_000 };
    let later = |secs: u128| Moment { nanos: 1_000 + secs * 1_000_000_000 };
    assert_eq!(format_remaining_time(start, day, start, 2), "1day");
    assert_eq!(format_remaining_time(start, day, later(1), 2), "23h 59m");
    assert_eq!(format_remaining_time(start, day, later(1), 3), "23h 59m 59s");
    assert_eq!(format_remaining_time(start, day, later(86399), 2), "1s");
    assert_eq!(format_remaining_time(start, day, later(86400), 2), "0s");
    assert_eq!(start.after(day), later(86400));
    assert_eq!(format_time_until(later(86400), later(1), 2), "23h 59m");
    let half = Duration::new(1, 500_000_000);
    assert_eq!(format_remaining_time(start, half, start, 2), "1s 500ms");
}

#[test]
fn every_unit_of_time_has_its_word() {
    let told = |secs: u64, nanos: u32| {
        let start = Moment { nanos: 0 };
        format_remaining_time(start, Duration::new(secs, nanos), start, 9)
    };
    assert_eq!(told(0, 0), "0s");
    assert_eq!(told(9420, 0), "2h 37m");
    assert_eq!(told(0, 32_000_000), "32ms");
    assert_eq!(told(31_557_600, 0), "1year");
    assert_eq!(told(2 * 31_557_600 + 2_630_016 + 86_400, 1), "2years 1month 1day 1ns");
    assert_eq!(
        told(2_630_016 * 2 + 86_400 * 2 + 3_600 + 60 + 1, 1_001_001),
        "2months 2days 1h 1m 1s 1ms 1us 1ns"
    );
    assert_eq!(told(u64::MAX, 999_999_999), "584542046090years 7months 15days 17h 5m 3s 999ms 999us 999ns");
}

#[test]
fn a_clock_is_advanced_to_the_later_reading() {
    let mut clock = Clock::start();
    assert_eq!(clock.advance(2, 5), Moment { nanos: 2_000_000_005 });
    assert_eq!(clock.advance(1, 999_999_999), Moment { nanos: 2_000_000_005 });
    assert_eq!(clock.advance(3, 0), Moment { nanos: 3_000_000_000 });
    assert!(clock.now().nanos >= 3_000_000_000);
}

#[test]
fn time_does_not_run_backwards() {
    let mut clock = Clock::start();
    let first = clock.now();
    let second = clock.now();
    assert!(first.nanos <= second.nanos);
    let far = Moment { nanos: second.nanos + 1_000_000_000_000_000 };
    clock.observe(far);
    assert_eq!(clock.now(), far);
    assert_eq!(far.elapsed(first), 0);
    assert_eq!(second.elapsed(far), 1_000_000_000_000_000);
}

#[test]
fn mentions_name_users_and_roles() {
    assert_eq!(UserId(824484045370818580).mention(), "<@824484045370818580>");
    assert_eq!(RoleId(7).mention(), "<@&7>");
}

#[test]
fn channels_are_read_from_numbers_and_links() {
    assert_eq!(ChannelId::parse("915710851917439060"), Some(ChannelId(915710851917439060)));
    assert_eq!(ChannelId::parse("<#915710851917439060>"), Some(ChannelId(915710851917439060)));
    assert_eq!(ChannelId::parse("<#>"), None);
    assert_eq!(ChannelId::parse("<#12"), None);
    assert_eq!(ChannelId::parse("<@12>"), None);
    assert_eq!(ChannelId::parse(""), None);
    assert_eq!(ChannelId::parse("general"), None);
    assert_eq!(ChannelId::parse("+12"), Some(ChannelId(12)));
    assert_eq!(ChannelId::parse("<#\u{1f6f0}>"), None);
    assert_eq!(ChannelId::parse("18446744073709551616"), None);
}

#[test]
fn candidates_are_the_words_with_the_prefix() {
    let words = |content: &str| candidate_words(content, "penumbra1");
    assert_eq!(words(""), Vec::<String>::new());
    assert_eq!(words("penumbra1"), vec!["penumbra1"]);
    assert_eq!(
        words("hi penumbra1abc, `penumbra1X9`\npenumbra xpenumbra1 (penumbra1abc)"),
        vec!["penumbra1abc", "penumbra1X9", "penumbra1abc"]
    );
    assert_eq!(words("penumbra1\u{e9}penumbra1z"), vec!["penumbra1", "penumbra1z"]);
    assert_eq!(candidate_words("a-b c", ""), vec!["a", "b", "c"]);
}
