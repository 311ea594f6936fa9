use tstee::elapsed::Elapsed;
use tstee::fmt_duration::DelayedFormat;
use tstee::grammar::{chars_of, match_placeholder};
use tstee::token::Token;

fn segments(format: &DelayedFormat) -> Vec<String> {
    let mut all = Vec::new();
    let mut i = 0;
    while let Some(s) = format.segment(i) {
        all.push(s.to_string());
        i += 1;
    }
    all
}

fn tokens(format: &DelayedFormat) -> Vec<Token> {
    let mut all = Vec::new();
    let mut i = 0;
    while let Some(t) = format.token(i) {
        all.push(t);
        i += 1;
    }
    all
}

fn compile(formatstr: &str) -> (Vec<String>, Vec<Token>) {
    let format = DelayedFormat::new(formatstr.to_string());
    let (s, t) = (segments(&format), tokens(&format));
    assert_eq!(format.len(), t.len());
    assert_eq!(s.len(), t.len() + 1);
    (s, t)
}

fn strings(list: &[&str]) -> Vec<String> {
    list.iter().map(|s| s.to_string()).collect()
}

#[test]
fn every_placeholder_is_recognised() {
    assert_eq!(compile("%H"), (strings(&["", ""]), vec![Token::HoursOfDay]));
    assert_eq!(compile("%h"), (strings(&["", ""]), vec![Token::TotalHours]));
    assert_eq!(compile("%M"), (strings(&["", ""]), vec![Token::MinutesOfHour]));
    assert_eq!(compile("%m"), (strings(&["", ""]), vec![Token::TotalMinutes]));
    assert_eq!(compile("%S"), (strings(&["", ""]), vec![Token::SecondsOfMinute]));
    assert_eq!(compile("%s"), (strings(&["", ""]), vec![Token::TotalSeconds]));
    assert_eq!(compile("%.f"), (strings(&["", ""]), vec![Token::Fraction(1)]));
    for precision in 1..=9u8 {
        let formatstr = format!("%.{}f", precision);
        assert_eq!(compile(&formatstr), (strings(&["", ""]), vec![Token::Fraction(precision)]));
    }
}

#[test]
fn text_without_a_placeholder_is_one_segment() {
    assert_eq!(compile(""), (strings(&[""]), vec![]));
    assert_eq!(compile("plain text"), (strings(&["plain text"]), vec![]));
    assert_eq!(compile("%"), (strings(&["%"]), vec![]));
    assert_eq!(compile("%x"), (strings(&["%x"]), vec![]));
    assert_eq!(compile("100%"), (strings(&["100%"]), vec![]));
    assert_eq!(compile("%Y-%d"), (strings(&["%Y-%d"]), vec![]));
    assert_eq!(compile("%."), (strings(&["%."]), vec![]));
    assert_eq!(compile("%.3"), (strings(&["%.3"]), vec![]));
    assert_eq!(compile("%.0f"), (strings(&["%.0f"]), vec![]));
    assert_eq!(compile("%.10f"), (strings(&["%.10f"]), vec![]));
    assert_eq!(compile("%.F"), (strings(&["%.F"]), vec![]));
    assert_eq!(compile("%3f"), (strings(&["%3f"]), vec![]));
    assert_eq!(compile("% H"), (strings(&["% H"]), vec![]));
    assert_eq!(compile("H%"), (strings(&["H%"]), vec![]));
}

#[test]
fn unknown_sequences_pass_through() {
    let format = DelayedFormat::new("%x %Y %% %.0f 100%".to_string());
    assert_eq!(format.len(), 0);
    let time = Elapsed::new(94028, 602718334).unwrap();
    assert_eq!(format.render(&time), "%x %Y %% %.0f 100%");
    let mixed = DelayedFormat::new("%x=%s %q=%S%".to_string());
    assert_eq!(mixed.render(&time), "%x=94028 %q=08%");
}

#[test]
fn segments_and_placeholders_alternate() {
    assert_eq!(
        compile("%H:%M:%S%.3f"),
        (
            strings(&["", ":", ":", "", ""]),
            vec![
                Token::HoursOfDay,
                Token::MinutesOfHour,
                Token::SecondsOfMinute,
                Token::Fraction(3)
            ]
        )
    );
    assert_eq!(
        compile("total %h hour ,or %m minutes, or %s seconds"),
        (
            strings(&["total ", " hour ,or ", " minutes, or ", " seconds"]),
            vec![Token::TotalHours, Token::TotalMinutes, Token::TotalSeconds]
        )
    );
    assert_eq!(
        compile("%s%s"),
        (strings(&["", "", ""]), vec![Token::TotalSeconds, Token::TotalSeconds])
    );
}

#[test]
fn reading_goes_from_left_to_right() {
    assert_eq!(compile("%%H"), (strings(&["%", ""]), vec![Token::HoursOfDay]));
    assert_eq!(compile("%.ff"), (strings(&["", "f"]), vec![Token::Fraction(1)]));
    assert_eq!(compile("%.3ff"), (strings(&["", "f"]), vec![Token::Fraction(3)]));
    assert_eq!(compile("%.%.2f"), (strings(&["%.", ""]), vec![Token::Fraction(2)]));
    assert_eq!(compile("%.1%s"), (strings(&["%.1", ""]), vec![Token::TotalSeconds]));
    assert_eq!(compile("%Hh"), (strings(&["", "h"]), vec![Token::HoursOfDay]));
    assert_eq!(compile("%.12f%.f"), (strings(&["%.12f", ""]), vec![Token::Fraction(1)]));
}

#[test]
fn case_matters() {
    assert_eq!(compile("%H%h"), (strings(&["", "", ""]), vec![Token::HoursOfDay, Token::TotalHours]));
    assert_eq!(compile("%.3F"), (strings(&["%.3F"]), vec![]));
}

#[test]
fn text_in_any_script_is_kept() {
    assert_eq!(
        compile("时间 %H 時 %M 分 — ü%Sß"),
        (
            strings(&["时间 ", " 時 ", " 分 — ü", "ß"]),
            vec![Token::HoursOfDay, Token::MinutesOfHour, Token::SecondsOfMinute]
        )
    );
    let format = DelayedFormat::new("⏱ %m′%S″".to_string());
    assert_eq!(format.render(&Elapsed::new(125, 0).unwrap()), "⏱ 2′05″");
}

#[test]
fn one_more_segment_than_placeholders() {
    let formats = ["", "%", "%s", "a%sb", "%s%S%m%M%h%H%.f%.9f", "%%%%", "no token", "%.f%.f%.f"];
    for formatstr in formats {
        let format = DelayedFormat::new(formatstr.to_string());
        assert_eq!(segments(&format).len(), tokens(&format).len() + 1);
        assert_eq!(format.segment(format.len() + 1), None);
        assert_eq!(format.token(format.len()), None);
    }
}

#[test]
fn the_characters_of_a_text() {
    assert_eq!(chars_of(""), Vec::<char>::new());
    assert_eq!(chars_of("a%b"), vec!['a', '%', 'b']);
    assert_eq!(chars_of("ü時"), vec!['ü', '時']);
}

#[test]
fn a_placeholder_at_a_position() {
    let text = chars_of("ab%.7f%S%");
    assert_eq!(match_placeholder(&text, 0), None);
    assert_eq!(match_placeholder(&text, 2), Some((Token::Fraction(7), 4)));
    assert_eq!(match_placeholder(&text, 3), None);
    assert_eq!(match_placeholder(&text, 6), Some((Token::SecondsOfMinute, 2)));
    assert_eq!(match_placeholder(&text, 8), None);
    assert_eq!(match_placeholder(&text, 9), None);
    assert_eq!(match_placeholder(&text, usize::MAX), None);
    let short = chars_of("%.f");
    assert_eq!(match_placeholder(&short, 0), Some((Token::Fraction(1), 3)));
}
