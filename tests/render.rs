use progress_bar::bar::{fill_bar, Palette};
use progress_bar::clock::format_elapsed;
use progress_bar::progress::{Frame, ProgressBar, ProgressError};
use progress_bar::text::{chars_of, replace_all, string_of};

fn palette() -> Palette {
    Palette { filled: '#', head: '>', empty: '-' }
}

fn bar_with(target: u64, format: &str) -> ProgressBar {
    let mut b = ProgressBar::new(target).unwrap();
    b.set_format(format);
    b
}

#[test]
fn zero_target_is_rejected() {
    assert_eq!(ProgressBar::new(0).unwrap_err(), ProgressError::InvalidTarget);
    assert!(ProgressBar::new(1).is_ok());
}

#[test]
fn palette_of_two_chars_is_rejected() {
    let mut b = ProgressBar::new(10).unwrap();
    assert_eq!(b.set_progress_chars("ab"), Err(ProgressError::InvalidPalette));
    assert_eq!(b.set_progress_chars("abcd"), Err(ProgressError::InvalidPalette));
    assert_eq!(b.set_progress_chars(""), Err(ProgressError::InvalidPalette));
    // a refused palette leaves the default in place
    assert_eq!(b.render(4, 0), "----");
}

#[test]
fn palette_of_three_wide_chars_is_used() {
    let mut b = ProgressBar::new(4).unwrap();
    assert_eq!(b.set_progress_chars("█>░"), Ok(()));
    b.increment(2, Some(8), 0);
    assert_eq!(b.render(8, 0), "███>░░░░");
}

#[test]
fn elapsed_time_formatting() {
    assert_eq!(format_elapsed(3661), "01:01:01");
    assert_eq!(format_elapsed(0), "00:00:00");
    assert_eq!(format_elapsed(90000), "25:00:00");
    assert_eq!(format_elapsed(59), "00:00:59");
    assert_eq!(format_elapsed(360000), "100:00:00");
}

#[test]
fn percentage_is_truncated() {
    let mut b = bar_with(1000, "{percentage}");
    b.increment(999, None, 0);
    assert_eq!(b.render(80, 0), "99%");
    b.increment(1, None, 0);
    assert_eq!(b.render(80, 0), "100%");
}

#[test]
fn percentage_of_zero_and_a_third() {
    let mut b = bar_with(3, "{percentage}");
    assert_eq!(b.render(80, 0), "0%");
    b.increment(1, None, 0);
    assert_eq!(b.render(80, 0), "33%");
}

#[test]
fn bar_width_excludes_the_other_text() {
    let mut b = bar_with(1000, "[{elapsed_time}] {progress} {current}/{target}");
    b.increment(500, None, 0);
    let line = b.render(40, 5);
    let other = "[00:00:05]  500/1000".chars().count();
    assert_eq!(other, 20);
    let bar = format!("{}>{}", "#".repeat(9), "-".repeat(10));
    assert_eq!(bar.chars().count(), 40 - other);
    assert_eq!(line, format!("[00:00:05] {} 500/1000", bar));
    assert_eq!(line.chars().count(), 40);
}

#[test]
fn nothing_done_is_all_empty() {
    let b = ProgressBar::new(7).unwrap();
    assert_eq!(b.render(10, 0), "----------");
    assert_eq!(string_of(&fill_bar(0, 7, 0, palette())), "");
}

#[test]
fn all_done_ends_in_head() {
    let mut b = ProgressBar::new(7).unwrap();
    b.increment(7, None, 0);
    assert_eq!(b.render(10, 0), "#########>");
    assert_eq!(string_of(&fill_bar(7, 7, 1, palette())), ">");
}

#[test]
fn filled_and_empty_cover_the_width() {
    for target in 1..20u64 {
        for current in 0..=target {
            for available in 0..30usize {
                let bar = fill_bar(current, target, available, palette());
                assert_eq!(bar.len(), available);
                let filled = (current as usize * available) / target as usize;
                let empties = bar.iter().filter(|c| **c == '-').count();
                assert_eq!(empties, available - filled);
            }
        }
    }
}

#[test]
fn fill_is_truncated() {
    // 1 * 10 / 3 = 3 filled columns
    assert_eq!(string_of(&fill_bar(1, 3, 10, palette())), "##>-------");
    // 1 * 2 / 3 = 0 filled columns: no head either
    assert_eq!(string_of(&fill_bar(1, 3, 2, palette())), "--");
}

#[test]
fn render_is_repeatable() {
    let mut b = bar_with(1000, "[{elapsed_time}] {progress} {current}/{target} : {percentage}");
    b.increment(300, None, 0);
    let first = b.render(60, 12);
    let second = b.render(60, 12);
    assert_eq!(first, second);
    assert_eq!(b.draw(Some(60), 12), b.draw(Some(60), 12));
}

#[test]
fn text_wider_than_terminal_gives_empty_bar() {
    let mut b = bar_with(10, "{current}/{target} {progress}|");
    b.increment(5, None, 0);
    assert_eq!(b.render(3, 0), "5/10 |");
    assert_eq!(b.render(6, 0), "5/10 |");
    assert_eq!(b.render(8, 0), "5/10 >-|");
    assert_eq!(b.render(10, 0), "5/10 #>--|");
}

#[test]
fn unknown_tokens_stay_and_repeated_tokens_all_change() {
    let mut b = bar_with(4, "{current}{unknown}{current} of {target}");
    b.increment(3, None, 0);
    assert_eq!(b.render(80, 0), "3{unknown}3 of 4");
}

#[test]
fn draw_without_width_asks_for_diagnostic() {
    let b = ProgressBar::new(5).unwrap();
    assert_eq!(b.draw(None, 0), Frame::SizeUnavailable);
    assert_eq!(b.draw(Some(5), 0), Frame::Line(String::from("-----")));
}

#[test]
fn increment_stops_at_target() {
    let mut b = ProgressBar::new(10).unwrap();
    assert_eq!(b.increment(4, Some(10), 0), Frame::Line(String::from("###>------")));
    assert_eq!(b.current(), 4);
    b.increment(100, None, 0);
    assert_eq!(b.current(), 10);
    assert_eq!(b.target(), 10);
    b.increment(u64::MAX, None, 0);
    assert_eq!(b.current(), 10);
}

#[test]
fn large_counts_do_not_overflow() {
    let mut b = bar_with(u64::MAX, "{percentage} {current} {progress}");
    b.increment(u64::MAX - 1, None, 0);
    let line = b.render(60, 0);
    assert!(line.starts_with("99% 18446744073709551614 "));
    assert_eq!(line.chars().count(), 60);
}

#[test]
fn replacement_is_left_to_right_and_whole() {
    let s = chars_of("aaa");
    let r = replace_all(&s, &chars_of("aa"), &chars_of("b"));
    assert_eq!(string_of(&r), "ba");
    let r = replace_all(&chars_of("x{p}y{p}"), &chars_of("{p}"), &Vec::new());
    assert_eq!(string_of(&r), "xy");
}

#[test]
fn chars_and_strings_round_trip() {
    assert_eq!(chars_of("a█b"), vec!['a', '█', 'b']);
    assert_eq!(string_of(&vec!['a', 'b']), "ab");
}

#[test]
fn increment_by_zero_redraws_the_same_line() {
    let mut b = bar_with(8, "{progress} {percentage}");
    let first = b.increment(3, Some(20), 4);
    let again = b.increment(0, Some(20), 4);
    assert_eq!(first, again);
    assert_eq!(first, Frame::Line(String::from("#####>---------- 37%")));
}

#[test]
fn placeholders_in_any_order() {
    let mut b = bar_with(1000, "{percentage} {target} {elapsed_time} {current}");
    b.increment(250, None, 0);
    assert_eq!(b.render(80, 3725), "25% 1000 01:02:05 250");
    b.set_format("{current}{elapsed_time}{target}{percentage}");
    assert_eq!(b.render(80, 3725), "25001:02:05100025%");
}
