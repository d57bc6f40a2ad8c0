use stockkit::geometry::{calArea, Figure, Rectangle, Shape};
use stockkit::grep::search;
use stockkit::guess::{judge_guess, parse_guess, Verdict};
use stockkit::schedule::{duration_until_next_target, format_duration, seconds_until_target, DAY_SECS};
use stockkit::text::{decimal_text, trim_str};

#[test]
fn rectangle_area() {
    let rect = Rectangle { width: 3, height: 4 };
    assert_eq!(rect.area(), 12);
    assert_eq!(calArea(&rect), 12);
    assert_eq!(calArea(&Rectangle { width: 0, height: 7 }), 0);
}

#[test]
fn shapes_describe_their_drawing() {
    assert_eq!(Figure { x: 3, y: 4 }.draw(), "绘制矩形，长=3，宽=4");
    assert_eq!(Figure { x: -12, y: i32::MIN }.draw(), "绘制矩形，长=-12，宽=-2147483648");
    assert_eq!(String::from("神器吧").draw(), "rust 接口更灵活，可不修改第三方代码实现接口");
}

#[test]
fn guesses_are_read_and_judged() {
    assert_eq!(parse_guess("42\n"), Some(42));
    assert_eq!(parse_guess("  +7 "), Some(7));
    assert_eq!(parse_guess("abc"), None);
    assert_eq!(parse_guess("-5"), None);
    assert_eq!(parse_guess("4294967295"), Some(u32::MAX));
    assert_eq!(parse_guess("4294967296"), None);
    assert_eq!(parse_guess(""), None);
    assert_eq!(judge_guess(50, 50), Verdict::Correct);
    assert_eq!(judge_guess(60, 50), Verdict::TooBig);
    assert_eq!(judge_guess(40, 50), Verdict::TooSmall);
}

#[test]
fn search_finds_lines_with_the_query() {
    let contents = "Rust:\nsafe, fast, productive.\nPick three.\r\nDuct tape.";
    assert_eq!(search("duct", contents), vec!["safe, fast, productive."]);
    assert_eq!(search("e.", contents), vec!["safe, fast, productive.", "Pick three.", "Duct tape."]);
    assert_eq!(search("", "a\nb\n"), vec!["a", "b"]);
    assert!(search("zzz", contents).is_empty());
}

#[test]
fn text_helpers() {
    assert_eq!(trim_str("\t a b \u{3000}"), "a b");
    assert_eq!(trim_str("   "), "");
    assert_eq!(decimal_text(0), "0");
    assert_eq!(decimal_text(1234567890), "1234567890");
    assert_eq!(decimal_text(u64::MAX), u64::MAX.to_string());
}

#[test]
fn the_next_collection_is_at_eleven() {
    assert_eq!(seconds_until_target(0, 11, 0), 39600);
    assert_eq!(seconds_until_target(39599, 11, 0), 1);
    assert_eq!(seconds_until_target(39600, 11, 0), 86400);
    assert_eq!(seconds_until_target(50000, 11, 0), 86400 - 50000 + 39600);
    assert_eq!(seconds_until_target(0, 25, 0), 39600);
    assert_eq!(seconds_until_target(0, 8, 30), 8 * 3600 + 30 * 60);
    let w = duration_until_next_target(11, 0);
    assert!(w > 0 && w <= DAY_SECS);
}

#[test]
fn waits_are_shown_in_hours_and_minutes() {
    assert_eq!(format_duration(3725), "1h2m");
    assert_eq!(format_duration(59), "0h0m");
    assert_eq!(format_duration(86400), "24h0m");
}
