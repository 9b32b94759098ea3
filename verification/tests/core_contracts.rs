use bmtop::clock::{rfc3339_now, rfc3339_utc};
use bmtop::i18n::Language;
use bmtop::metrics::{AppMode, RefreshInterval};

#[test]
fn refresh_interval_is_bounded() {
    assert!(RefreshInterval::from_millis(250).is_ok());
    assert!(RefreshInterval::from_millis(60_000).is_ok());
    assert!(RefreshInterval::from_millis(249).is_err());
    assert!(RefreshInterval::from_millis(60_001).is_err());
}

#[test]
fn mode_numbers_are_stable() {
    assert_eq!(AppMode::from_number(1), Some(AppMode::Overview));
    assert_eq!(AppMode::from_number(7), Some(AppMode::Gpu));
    assert_eq!(AppMode::from_number(9), Some(AppMode::Sensors));
    assert_eq!(AppMode::from_number(0), None);
    assert_eq!(AppMode::from_number(10), None);
}

#[test]
fn mode_labels_are_stable() {
    assert_eq!(AppMode::ALL.len(), 9);
    assert_eq!(AppMode::Gpu.label(Language::Chinese), "GPU");
    assert_eq!(AppMode::Overview.label(Language::Chinese), "概览");
    assert_eq!(AppMode::Overview.label(Language::English), "Overview");
    assert_eq!(AppMode::Sensors.label(Language::English), "Sensors");
}

#[test]
fn rfc3339_formats_known_timestamps() {
    assert_eq!(rfc3339_utc(0, 0), "1970-01-01T00:00:00.000Z");
    assert_eq!(rfc3339_utc(1_700_000_000, 274), "2023-11-14T22:13:20.274Z");
    assert_eq!(rfc3339_utc(951_782_400, 0), "2000-02-29T00:00:00.000Z");
    assert_eq!(rfc3339_utc(951_868_800, 999), "2000-03-01T00:00:00.999Z");
}

#[test]
fn locale_detection_only_treats_zh_as_chinese() {
    assert_eq!(Language::from_locale("zh_CN.UTF-8"), Language::Chinese);
    assert_eq!(Language::from_locale("zh"), Language::Chinese);
    assert_eq!(Language::from_locale("zh-Hant"), Language::Chinese);
    assert_eq!(Language::from_locale("en_US.UTF-8"), Language::English);
    assert_eq!(Language::from_locale("C"), Language::English);
    assert_eq!(Language::from_locale("POSIX"), Language::English);
    assert_eq!(Language::from_locale(""), Language::English);
    assert_eq!(Language::from_locale("zhs_XX"), Language::English);
}

#[test]
fn explicit_language_flag_accepts_both_spellings() {
    assert_eq!("zh".parse::<Language>().unwrap(), Language::Chinese);
    assert_eq!("EN".parse::<Language>().unwrap(), Language::English);
    assert_eq!("zh_CN".parse::<Language>().unwrap(), Language::Chinese);
    assert!("fr".parse::<Language>().is_err());
    assert!("".parse::<Language>().is_err());
}

#[test]
fn every_string_is_translated_differently_where_it_should_be() {
    let zh = Language::Chinese.strings();
    let en = Language::English.strings();
    assert_eq!(zh.mode_cpu, en.mode_cpu);
    assert_ne!(zh.mode_overview, en.mode_overview);
    assert_ne!(zh.help_quit, en.help_quit);
    assert_ne!(zh.cli_about, en.cli_about);
}

#[test]
fn mode_numbers_round_trip_for_every_mode() {
    for (index, mode) in AppMode::ALL.iter().enumerate() {
        assert_eq!(mode.number() as usize, index + 1);
        assert_eq!(AppMode::from_number(mode.number()), Some(*mode));
    }
}

#[test]
fn refresh_interval_keeps_its_value_and_defaults_to_one_second() {
    assert_eq!(RefreshInterval::from_millis(1_234).unwrap().as_millis(), 1_234);
    assert_eq!(RefreshInterval::default().as_millis(), 1_000);
}

#[test]
fn rfc3339_handles_century_and_year_ends() {
    assert_eq!(rfc3339_utc(946_684_799, 5), "1999-12-31T23:59:59.005Z");
    assert_eq!(rfc3339_utc(4_102_444_800, 0), "2100-01-01T00:00:00.000Z");
    assert_eq!(rfc3339_utc(4_107_456_000, 0), "2100-02-28T00:00:00.000Z");
    assert_eq!(rfc3339_utc(4_107_542_400, 0), "2100-03-01T00:00:00.000Z");
}

#[test]
fn rfc3339_now_has_the_rfc3339_shape() {
    let text = rfc3339_now();
    assert_eq!(text.len(), 24);
    assert!(text.ends_with('Z'));
    assert_eq!(&text[4..5], "-");
    assert_eq!(&text[10..11], "T");
}

#[test]
fn unknown_language_names_the_accepted_spellings() {
    let error = "fr".parse::<Language>().unwrap_err();
    assert_eq!(error.message(), "language must be zh or en");
    assert_eq!(Language::default(), Language::English);
    assert_eq!(Language::Chinese.code(), "zh");
    assert_eq!(Language::English.code(), "en");
}

#[test]
fn environment_language_takes_the_first_locale_that_is_set() {
    let set = |value: &str| Some(value.to_string());
    assert_eq!(Language::from_environment(&[None, set("zh_CN.UTF-8"), set("en_US")]), Language::Chinese);
    assert_eq!(Language::from_environment(&[set(""), None, set("C")]), Language::English);
    assert_eq!(Language::from_environment(&[set("en_US.UTF-8"), set("zh_CN")]), Language::English);
    assert_eq!(Language::from_environment(&[None, None, set("zh-Hant")]), Language::Chinese);
    assert_eq!(Language::from_environment(&[]), Language::English);
}

#[test]
fn timestamps_sort_as_text_like_their_instants() {
    let instants = [
        (0u64, 0u32),
        (0, 999),
        (59, 0),
        (86_399, 999),
        (86_400, 0),
        (951_782_400, 0),
        (1_709_164_800, 5),
        (253_402_300_799, 999),
    ];
    for (i, &(s1, m1)) in instants.iter().enumerate() {
        let a = rfc3339_utc(s1, m1);
        assert_eq!(a.len(), 24);
        for &(s2, m2) in &instants[i + 1..] {
            let b = rfc3339_utc(s2, m2);
            assert!(a < b, "{a} should sort before {b}");
        }
    }
    assert_eq!(rfc3339_utc(253_402_300_799, 999), "9999-12-31T23:59:59.999Z");
}

#[test]
fn timestamps_have_a_fixed_shape() {
    for &(secs, millis) in &[(0u64, 0u32), (1_700_000_000, 274), (253_402_300_799, 999)] {
        let text = rfc3339_utc(secs, millis);
        let bytes = text.as_bytes();
        assert_eq!(bytes.len(), 24);
        for (i, &b) in bytes.iter().enumerate() {
            match i {
                4 | 7 => assert_eq!(b, b'-'),
                10 => assert_eq!(b, b'T'),
                13 | 16 => assert_eq!(b, b':'),
                19 => assert_eq!(b, b'.'),
                23 => assert_eq!(b, b'Z'),
                _ => assert!(b.is_ascii_digit(), "{text} at {i}"),
            }
        }
    }
    let now = rfc3339_now();
    assert_eq!(now.len(), 24);
    assert!(now.ends_with('Z'));
    assert_eq!(now.as_bytes()[4], b'-');
    assert_eq!(now.as_bytes()[10], b'T');
}
