use aion::numbers::{parse_compact_int, parse_cost_cents, parse_int_with_commas};
use aion::scraper::{TokenScraper, UsageCapture, AGENT_LABEL};

const SUMMARY: &str =
    "Total cost: $1.23\nTotal tokens: 4,500 (in: 4.0K, out: 500)\nDuration: 2m 15s\n";

fn check_summary_record(r: &UsageCapture, id: &str) {
    assert_eq!(r.session_id, id);
    assert_eq!(r.agent, AGENT_LABEL);
    assert_eq!(r.cost_cents, 123);
    assert_eq!(r.tokens_in, 4000);
    assert_eq!(r.tokens_out, 500);
    assert_eq!(r.tokens_total, 4500);
    assert_eq!(r.duration_s, Some(135));
}

#[test]
fn one_summary_completes_one_record() {
    let mut s = TokenScraper::new();
    let out = s.ingest("s1", SUMMARY.as_bytes());
    assert_eq!(out.len(), 1);
    check_summary_record(&out[0], "s1");
    assert_eq!(
        out[0].raw_output,
        "Total cost: $1.23\nTotal tokens: 4,500 (in: 4.0K, out: 500)\nDuration: 2m 15s"
    );
}

#[test]
fn repeated_summary_gives_two_fresh_records() {
    let mut s = TokenScraper::new();
    let twice = format!("{SUMMARY}{SUMMARY}");
    let out = s.ingest("s1", twice.as_bytes());
    assert_eq!(out.len(), 2);
    check_summary_record(&out[0], "s1");
    check_summary_record(&out[1], "s1");
    assert_eq!(out[0].raw_output, out[1].raw_output);
}

#[test]
fn chunk_boundaries_do_not_matter() {
    let whole = format!("noise\r\n{SUMMARY}tail");
    let mut a = TokenScraper::new();
    let all_at_once = a.ingest("s", whole.as_bytes());
    for cut in 1..whole.len() {
        let mut b = TokenScraper::new();
        let mut got = b.ingest("s", whole[..cut].as_bytes());
        got.extend(b.ingest("s", whole[cut..].as_bytes()));
        assert_eq!(got.len(), all_at_once.len());
        check_summary_record(&got[0], "s");
        assert_eq!(b.pending_text("s"), "tail");
    }
    let mut c = TokenScraper::new();
    let mut got = Vec::new();
    for byte in whole.as_bytes() {
        got.extend(c.ingest("s", std::slice::from_ref(byte)));
    }
    assert_eq!(got.len(), 1);
    check_summary_record(&got[0], "s");
}

#[test]
fn escape_sequences_are_stripped_before_matching() {
    let mut s = TokenScraper::new();
    let colored = "\x1b[1;32mTotal cost:\x1b[0m $\x1b[33m1.23\x1b[0m\r\n\x1b[2KTotal tokens: \x1b[36m4,500\x1b[0m (in: 4.0K, out: 500)\n\x1b]0;title\x07Duration: 2m 15s\x1b[0m\n";
    let out = s.ingest("c", colored.as_bytes());
    assert_eq!(out.len(), 1);
    check_summary_record(&out[0], "c");
    assert!(!out[0].raw_output.contains('\x1b'));
    assert!(!out[0].raw_output.chars().any(|c| c.is_control() && c != '\n'));
}

#[test]
fn blank_line_ends_a_summary_without_duration() {
    let mut s = TokenScraper::new();
    let out = s.ingest(
        "b",
        b"Total cost: $0.50\nTotal tokens: 10 (in: 7, out: 3)\n   \n",
    );
    assert_eq!(out.len(), 1);
    assert_eq!(out[0].cost_cents, 50);
    assert_eq!(out[0].tokens_in, 7);
    assert_eq!(out[0].tokens_out, 3);
    assert_eq!(out[0].tokens_total, 10);
    assert_eq!(out[0].duration_s, None);
}

#[test]
fn incomplete_summary_waits() {
    let mut s = TokenScraper::new();
    assert!(s.ingest("w", b"Total cost: $0.50\n\n").is_empty());
    let out = s.ingest("w", b"Total tokens: 10 (in: 1.5M, out: 2K)\nDuration: 9s\n");
    assert_eq!(out.len(), 1);
    assert_eq!(out[0].cost_cents, 50);
    assert_eq!(out[0].tokens_in, 1_500_000);
    assert_eq!(out[0].tokens_out, 2000);
    assert_eq!(out[0].duration_s, Some(9));
}

#[test]
fn unreadable_cost_keeps_the_earlier_one() {
    let mut s = TokenScraper::new();
    let text = "Total cost: $2.00\nTotal cost: $\u{0661}.\u{0662}\u{0663}\nTotal tokens: 3 (in: 1, out: 2)\nDuration: 1s\n";
    let out = s.ingest("u", text.as_bytes());
    assert_eq!(out.len(), 1);
    assert_eq!(out[0].cost_cents, 200);
}

#[test]
fn sessions_are_scraped_apart() {
    let mut s = TokenScraper::new();
    assert!(s.ingest("a", b"Total cost: $1.00\n").is_empty());
    assert!(s.ingest("b", b"Total tokens: 1 (in: 1, out: 0)\nDuration: 1s\n").is_empty());
    assert!(s.ingest("a", b"partial").is_empty());
    assert_eq!(s.pending_text("a"), "partial");
    assert_eq!(s.pending_text("b"), "");
    s.forget("a");
    assert_eq!(s.pending_text("a"), "");
}

#[test]
fn compact_counts() {
    assert_eq!(parse_compact_int("4.0K"), Some(4000));
    assert_eq!(parse_compact_int("1.5M"), Some(1_500_000));
    assert_eq!(parse_compact_int("2k"), Some(2000));
    assert_eq!(parse_compact_int(" 1,234 "), Some(1234));
    assert_eq!(parse_compact_int("500"), Some(500));
    assert_eq!(parse_compact_int("0.0005K"), Some(1));
    assert_eq!(parse_compact_int("0.0004K"), Some(0));
    assert_eq!(parse_compact_int(".5K"), Some(500));
    assert_eq!(parse_compact_int("K"), None);
    assert_eq!(parse_compact_int("1.2.3K"), None);
    assert_eq!(parse_compact_int("abc"), None);
    assert_eq!(parse_compact_int(""), None);
}

#[test]
fn comma_grouped_counts() {
    assert_eq!(parse_int_with_commas("4,500"), Some(4500));
    assert_eq!(parse_int_with_commas("1,000,000"), Some(1_000_000));
    assert_eq!(parse_int_with_commas("-7"), Some(-7));
    assert_eq!(parse_int_with_commas("9,223,372,036,854,775,807"), Some(i64::MAX));
    assert_eq!(parse_int_with_commas("9,223,372,036,854,775,808"), None);
    assert_eq!(parse_int_with_commas("x"), None);
    assert_eq!(parse_int_with_commas(","), None);
}

#[test]
fn costs_in_cents() {
    assert_eq!(parse_cost_cents("1.23"), Some(123));
    assert_eq!(parse_cost_cents("0.05"), Some(5));
    assert_eq!(parse_cost_cents("12"), Some(1200));
    assert_eq!(parse_cost_cents("1.235"), Some(124));
    assert_eq!(parse_cost_cents("$1"), None);
}

#[test]
fn invalid_utf8_is_replaced_not_dropped() {
    let mut s = TokenScraper::new();
    assert!(s.ingest("z", b"ab\xffcd").is_empty());
    assert_eq!(s.pending_text("z"), "ab\u{fffd}cd");
}
