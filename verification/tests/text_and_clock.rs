use city_chain::clock::{is_selection_day, minus_days, older_than, plus_days, selection_day};
use city_chain::digest::sha256_hex;
use city_chain::text::{concat2, decimal, decimal_signed, find_char, str_eq};

const NEW_YEAR_2024: i64 = 1_704_067_200_000;

#[test]
fn decimal_notation() {
    assert_eq!(decimal(0), "0");
    assert_eq!(decimal(7), "7");
    assert_eq!(decimal(10), "10");
    assert_eq!(decimal(1_704_067_200_000), "1704067200000");
    assert_eq!(decimal(u64::MAX), "18446744073709551615");
    assert_eq!(decimal_signed(0), "0");
    assert_eq!(decimal_signed(-1), "-1");
    assert_eq!(decimal_signed(42), "42");
    assert_eq!(decimal_signed(i64::MIN), "-9223372036854775808");
    assert_eq!(decimal_signed(i64::MAX), "9223372036854775807");
}

#[test]
fn searching_and_cutting() {
    assert_eq!(find_char("Asia-Tokyo", '-', 0), 4);
    assert_eq!(find_char("Asia-Tokyo", '-', 5), 10);
    assert_eq!(find_char("Asia-Tokyo-East", '-', 5), 10);
    assert_eq!(find_char("", '-', 0), 0);
    assert_eq!(find_char("abc", '-', 7), 3);
    assert_eq!(find_char("東京-大阪", '-', 0), 2);
    assert_eq!(concat2("ab", "cd"), "abcd");
    assert!(str_eq("a", "a"));
    assert!(!str_eq("a", "b"));
}

#[test]
fn sha256_in_hexadecimal() {
    assert_eq!(
        sha256_hex(b"abc"),
        "ba7816bf8f01cfea414140de5dae2223b00361a396177a9cb410ff61f20015ad"
    );
    assert_eq!(
        sha256_hex(b""),
        "e3b0c44298fc1c149afbf4c8996fb92427ae41e4649b934ca495991b7852b855"
    );
}

#[test]
fn days_before_and_after() {
    assert_eq!(plus_days(0, 90), 7_776_000_000);
    assert_eq!(plus_days(NEW_YEAR_2024, 1), NEW_YEAR_2024 + 86_400_000);
    assert_eq!(plus_days(i64::MAX - 5, 1), i64::MAX);
    assert_eq!(minus_days(NEW_YEAR_2024, 1), NEW_YEAR_2024 - 86_400_000);
    assert_eq!(minus_days(i64::MIN + 5, 1), i64::MIN);
    assert!(older_than(0, 180, 180 * 86_400_000 + 1));
    assert!(!older_than(0, 180, 180 * 86_400_000));
    assert!(!older_than(i64::MAX, 180, i64::MAX));
}

#[test]
fn selection_days_are_the_first_of_a_quarter() {
    assert!(is_selection_day(NEW_YEAR_2024));
    assert!(is_selection_day(NEW_YEAR_2024 + 86_399_999));
    assert!(!is_selection_day(NEW_YEAR_2024 + 86_400_000));
    assert!(!is_selection_day(NEW_YEAR_2024 - 1));
    // 2024-04-01, 2024-07-01, 2024-10-01
    assert!(is_selection_day(1_711_929_600_000));
    assert!(is_selection_day(1_719_792_000_000));
    assert!(is_selection_day(1_727_740_800_000));
    // 2024-02-01
    assert!(!is_selection_day(1_706_745_600_000));
    assert!(!is_selection_day(i64::MAX));
}

#[test]
fn selection_day_by_day_and_month() {
    for month in 1..=12u32 {
        for day in 1..=28u32 {
            let expected = day == 1 && [1, 4, 7, 10].contains(&month);
            assert_eq!(selection_day(Some(day), Some(month)), expected);
        }
    }
    assert!(!selection_day(None, Some(1)));
    assert!(!selection_day(Some(1), None));
    assert!(!selection_day(None, None));
}
