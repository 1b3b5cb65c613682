use tracemap::text::{is_white_space_char, trim_str};
use tracemap::hop::{decimal_string, parse_line, parse_output, HopRecord, ParseError, ReplyKind};

fn parse_ok(line: &str, index: usize) -> Vec<HopRecord> {
    match parse_line(line, index) {
        Ok(v) => v,
        Err(e) => panic!("unexpected parse error {:?} for {:?}", e, line),
    }
}

#[test]
fn host_with_repeated_timing() {
    let r = parse_ok(" 1  router.local (192.168.1.1)  1.234 ms  1.456 ms", 0);
    assert_eq!(r.len(), 2);
    assert_eq!(r[0].label, "1a");
    assert_eq!(r[1].label, "1b");
    assert_eq!(r[0].address, "192.168.1.1");
    assert_eq!(r[0].name, "router.local");
    assert_eq!(r[0].elapsed, "1.234 ms");
    assert_eq!(r[0].kind, ReplyKind::Host);
    assert_eq!(r[1].address, "-");
    assert_eq!(r[1].name, "-");
    assert_eq!(r[1].elapsed, "1.456 ms");
    assert_eq!(r[1].kind, ReplyKind::TimingOnly);
}

#[test]
fn all_probes_unanswered() {
    let r = parse_ok(" 2  * * *", 1);
    assert_eq!(r.len(), 3);
    for h in &r {
        assert_eq!(h.address, "x");
        assert_eq!(h.name, "x");
        assert_eq!(h.elapsed, "-");
        assert_eq!(h.kind, ReplyKind::NoReply);
    }
    assert_eq!(r[0].label, "2a");
    assert_eq!(r[1].label, "2b");
    assert_eq!(r[2].label, "2c");
}

#[test]
fn single_reply_has_bare_label() {
    let r = parse_ok(" 3  gw.example.net (10.0.0.1)  5.5 ms", 2);
    assert_eq!(r.len(), 1);
    assert_eq!(r[0].label, "3");
    assert_eq!(r[0].address, "10.0.0.1");
    assert_eq!(r[0].name, "gw.example.net");
    assert_eq!(r[0].elapsed, "5.5 ms");
}

#[test]
fn label_comes_from_line_index_not_prefix() {
    let r = parse_ok(" 7  gw (10.0.0.1)  5.5 ms", 9);
    assert_eq!(r[0].label, "10");
}

#[test]
fn name_equal_to_address_becomes_dash() {
    let r = parse_ok(" 4  10.1.2.3 (10.1.2.3)  12.345 ms", 3);
    assert_eq!(r.len(), 1);
    assert_eq!(r[0].address, "10.1.2.3");
    assert_eq!(r[0].name, "-");
    assert_eq!(r[0].elapsed, "12.345 ms");
}

#[test]
fn mixed_replies_are_lettered_in_order() {
    let r = parse_ok(" 5  * a.net (1.1.1.1)  3.0 ms b.net (2.2.2.2)  4.0 ms", 4);
    assert_eq!(r.len(), 3);
    assert_eq!(r[0].label, "5a");
    assert_eq!(r[0].address, "x");
    assert_eq!(r[1].label, "5b");
    assert_eq!(r[1].name, "a.net");
    assert_eq!(r[1].address, "1.1.1.1");
    assert_eq!(r[1].elapsed, "3.0 ms");
    assert_eq!(r[2].label, "5c");
    assert_eq!(r[2].name, "b.net");
    assert_eq!(r[2].address, "2.2.2.2");
    assert_eq!(r[2].elapsed, "4.0 ms");
}

#[test]
fn eight_replies_use_letters_a_to_h() {
    let r = parse_ok(" 6  * * * * * * * *", 5);
    let labels: Vec<&str> = r.iter().map(|h| h.label.as_str()).collect();
    assert_eq!(labels, vec!["6a", "6b", "6c", "6d", "6e", "6f", "6g", "6h"]);
}

#[test]
fn nine_replies_are_too_many() {
    assert_eq!(parse_line(" 6  * * * * * * * * *", 5).unwrap_err(), ParseError::TooManyReplies);
}

#[test]
fn line_without_groups_is_rejected() {
    assert_eq!(parse_line(" 1 host", 0).unwrap_err(), ParseError::NoReplies);
    assert_eq!(parse_line("", 0).unwrap_err(), ParseError::NoReplies);
}

#[test]
fn missing_address_is_rejected() {
    assert_eq!(parse_line(" 1  host", 0).unwrap_err(), ParseError::Truncated);
}

#[test]
fn missing_timing_is_rejected() {
    assert_eq!(parse_line(" 1  host (1.2.3.4)", 0).unwrap_err(), ParseError::Truncated);
    assert_eq!(parse_line(" 1  host (1.2.3.4)  1.0", 0).unwrap_err(), ParseError::Truncated);
}

#[test]
fn trailing_white_space_is_trimmed() {
    let r = parse_ok("2  * * *  \t", 1);
    assert_eq!(r.len(), 3);
    assert_eq!(r[2].label, "2c");
}

#[test]
fn decimal_string_values() {
    assert_eq!(decimal_string(0), "0");
    assert_eq!(decimal_string(7), "7");
    assert_eq!(decimal_string(10), "10");
    assert_eq!(decimal_string(4096), "4096");
}

#[test]
fn whole_output_skips_header() {
    let lines = vec![
        "traceroute to example.com (93.184.216.34), 30 hops max, 60 byte packets".to_string(),
        " 1  router.local (192.168.1.1)  1.234 ms".to_string(),
        " 2  * * *".to_string(),
    ];
    let r = parse_output(&lines).unwrap();
    assert_eq!(r.len(), 4);
    assert_eq!(r[0].label, "1");
    assert_eq!(r[0].address, "192.168.1.1");
    assert_eq!(r[1].label, "2a");
    assert_eq!(r[3].label, "2c");
}

#[test]
fn whole_output_stops_at_first_bad_line() {
    let lines = vec![
        "header".to_string(),
        " 1  * * *".to_string(),
        " 2  host".to_string(),
        " 3".to_string(),
    ];
    assert_eq!(parse_output(&lines).unwrap_err(), ParseError::Truncated);
    assert_eq!(parse_output(&vec![]).unwrap().len(), 0);
    assert_eq!(parse_output(&vec!["header".to_string()]).unwrap().len(), 0);
}

#[test]
fn error_messages_are_distinct() {
    let a = ParseError::NoReplies.message();
    let b = ParseError::Truncated.message();
    let c = ParseError::TooManyReplies.message();
    assert!(!a.is_empty() && a != b && b != c && a != c);
}

#[test]
fn star_after_a_completed_group_is_read_as_timing() {
    let r = parse_ok(" 1  * *  * *", 0);
    assert_eq!(r.len(), 3);
    assert_eq!(r[0].address, "x");
    assert_eq!(r[1].address, "x");
    assert_eq!(r[2].kind, ReplyKind::TimingOnly);
    assert_eq!(r[2].elapsed, "* *");
    assert_eq!(r[2].label, "1c");
}

#[test]
fn trimming_removes_unicode_white_space_only_at_the_ends() {
    assert_eq!(trim_str("\u{3000} a  b \t\n"), "a  b");
    assert_eq!(trim_str("   "), "");
    assert_eq!(trim_str("x"), "x");
    assert!(is_white_space_char('\u{a0}'));
    assert!(!is_white_space_char('*'));
}
