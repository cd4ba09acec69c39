use cabin::hex;
use cabin::time::{self, TimeError};
use cabin::utils::{paint, pick_colour, public_key_to_colour, Colour};
use cabin::words::{parse_index, trim_end};

#[test]
fn hex_to_writes_bytes_unpadded() {
    assert_eq!(hex::to(&[0xab, 0x12]), "ab12");
    assert_eq!(hex::to(&[0x0a, 0xff]), "aff");
    assert_eq!(hex::to(&[]), "");
}

#[test]
fn hex_from_reads_pairs() {
    assert_eq!(hex::from("ab12"), Some(vec![0xab, 0x12]));
    assert_eq!(hex::from("AB12"), Some(vec![0xab, 0x12]));
    assert_eq!(hex::from(""), Some(vec![]));
    assert_eq!(hex::from("+a"), None);
    assert_eq!(hex::from("+1+2"), None);
    assert_eq!(hex::from("abc"), None);
    assert_eq!(hex::from("zz"), None);
    assert_eq!(hex::from("a+"), None);
    assert_eq!(hex::from("éé"), None);
}

#[test]
fn two_weeks_before_steps_back() {
    assert_eq!(time::two_weeks_before(1_209_600_000), Ok(0));
    assert_eq!(time::two_weeks_before(1_700_000_000_000), Ok(1_700_000_000_000 - 1_209_600_000));
    assert_eq!(time::two_weeks_before(5), Err(TimeError::TooEarly));
}

#[test]
fn elapsed_readings_convert() {
    assert_eq!(time::from_elapsed(None), Err(TimeError::BeforeEpoch));
    assert_eq!(time::from_elapsed(Some(42)), Ok(42));
    assert_eq!(time::from_elapsed(Some(u64::MAX as u128 + 1)), Err(TimeError::Overflow));
}

#[test]
fn clock_reads_the_system_time() {
    let now = time::now().unwrap();
    assert!(now > 1_600_000_000_000);
    let start = time::two_weeks_ago().unwrap();
    assert!(start <= now - 1_209_600_000);
}

#[test]
fn format_gives_a_time_of_day() {
    let s = time::format(1_700_000_000_000);
    assert_eq!(s.len(), 5);
    assert_eq!(&s[2..3], ":");
    let h: u32 = s[0..2].parse().unwrap();
    let m: u32 = s[3..5].parse().unwrap();
    assert!(h < 24 && m < 60);
    assert_eq!(time::clock_or_placeholder(None), "XX:XX");
    assert_eq!(time::clock_or_placeholder(Some("12:34".to_string())), "12:34");
}

#[test]
fn colours_follow_the_table() {
    assert_eq!(pick_colour(1), Colour::Red);
    assert_eq!(pick_colour(6), Colour::Cyan);
    assert_eq!(pick_colour(12), Colour::BrightCyan);
    assert_eq!(pick_colour(0), Colour::White);
    assert_eq!(pick_colour(13), Colour::White);
    let mut key = [0u8; 32];
    assert_eq!(public_key_to_colour(&key), Colour::White);
    key[0] = 1;
    assert_eq!(public_key_to_colour(&key), Colour::Red);
    key[1] = 255;
    // 256 % 12 == 4
    assert_eq!(public_key_to_colour(&key), Colour::Blue);
    let full = [255u8; 32];
    // 8160 % 12 == 0
    assert_eq!(public_key_to_colour(&full), Colour::White);
}

#[test]
fn paint_wraps_in_escape_codes() {
    assert_eq!(paint("hi", Colour::Red), "\x1b[31mhi\x1b[39m");
    assert_eq!(paint("-status-", Colour::BrightGreen), "\x1b[92m-status-\x1b[39m");
    assert_eq!(paint("", Colour::White), "\x1b[37m\x1b[39m");
}

#[test]
fn window_indices_parse_like_usize() {
    assert_eq!(parse_index("3"), Some(3));
    assert_eq!(parse_index("+7"), Some(7));
    assert_eq!(parse_index("007"), Some(7));
    assert_eq!(parse_index(""), None);
    assert_eq!(parse_index("+"), None);
    assert_eq!(parse_index("-1"), None);
    assert_eq!(parse_index("1a"), None);
    assert_eq!(parse_index("99999999999999999999999"), None);
}

#[test]
fn trailing_white_space_is_trimmed() {
    assert_eq!(trim_end("hello world  \t"), "hello world");
    assert_eq!(trim_end("  a"), "  a");
    assert_eq!(trim_end("x\u{3000}"), "x");
    assert_eq!(trim_end("   "), "");
}
