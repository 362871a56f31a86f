use bucket_hub::admission::{
    admits, is_served, max_subscribers_for, plan_view, ViewPlan, MAX_SUBSCRIBERS_PER_STREAM,
    MIN_BUCKET_ID_LENGTH,
};
use bucket_hub::channel::Channel;
use bucket_hub::ingest::{lines_of, read_batch};
use bucket_hub::models::LogEvent;
use bucket_hub::parsers::ParsedEvent;

#[test]
fn limit_defaults_without_a_marker() {
    assert_eq!(MAX_SUBSCRIBERS_PER_STREAM, 30);
    assert_eq!(max_subscribers_for("happy-otter-1234"), 30);
    assert_eq!(max_subscribers_for(""), 30);
    assert_eq!(max_subscribers_for("max-subs=5"), 30);
}

#[test]
fn limit_is_read_after_the_marker() {
    assert_eq!(max_subscribers_for("happy-otter;max-subs=5"), 5);
    assert_eq!(max_subscribers_for("happy-otter;max-subs=0"), 0);
    assert_eq!(max_subscribers_for("happy-otter;max-subs=+12"), 12);
    assert_eq!(max_subscribers_for("happy-otter;max-subs=007"), 7);
    assert_eq!(max_subscribers_for(";max-subs=100"), 100);
    assert_eq!(max_subscribers_for("a;max-subs=18446744073709551615"), usize::MAX);
}

#[test]
fn limit_defaults_when_the_count_is_unreadable() {
    assert_eq!(max_subscribers_for("happy-otter;max-subs="), 30);
    assert_eq!(max_subscribers_for("happy-otter;max-subs=five"), 30);
    assert_eq!(max_subscribers_for("happy-otter;max-subs=5x"), 30);
    assert_eq!(max_subscribers_for("happy-otter;max-subs=-1"), 30);
    assert_eq!(max_subscribers_for("happy-otter;max-subs=+"), 30);
    assert_eq!(max_subscribers_for("happy-otter;max-subs= 5"), 30);
    assert_eq!(max_subscribers_for("a;max-subs=18446744073709551616"), 30);
    assert_eq!(max_subscribers_for("a;max-subs=99999999999999999999999"), 30);
}

#[test]
fn only_the_first_marker_counts() {
    assert_eq!(max_subscribers_for("a;max-subs=5;max-subs=7"), 5);
    assert_eq!(max_subscribers_for("a;max-subs=;max-subs=7"), 30);
    assert_eq!(max_subscribers_for("a;max-subs=x;max-subs=7"), 30);
    assert_eq!(max_subscribers_for("a;max-sub;max-subs=9"), 9);
}

#[test]
fn admission_is_strictly_below_the_limit() {
    assert!(admits(0, 30));
    assert!(admits(29, 30));
    assert!(!admits(30, 30));
    assert!(!admits(31, 30));
    assert!(!admits(0, 0));
}

#[test]
fn admission_uses_the_live_count_of_the_bucket() {
    let mut channel = Channel::new("bucket".to_string());
    let limit = max_subscribers_for("bucket;max-subs=2");
    assert!(admits(channel.subscriber_count(), limit));
    let _a = channel.subscribe();
    assert!(admits(channel.subscriber_count(), limit));
    let _b = channel.subscribe();
    assert!(!admits(channel.subscriber_count(), limit));
}

#[test]
fn short_names_are_not_served() {
    assert_eq!(MIN_BUCKET_ID_LENGTH, 10);
    assert!(!is_served(""));
    assert!(!is_served("ninechars"));
    assert!(is_served("tencharsxx"));
    // Length is counted in bytes.
    assert!(is_served("\u{fc}\u{fc}\u{fc}\u{fc}\u{fc}"));
    assert!(!is_served("\u{fc}\u{fc}\u{fc}\u{fc}x"));
}

#[test]
fn view_requests_are_planned() {
    assert_eq!(plan_view("short", true), ViewPlan::NotFound);
    assert_eq!(plan_view("short", false), ViewPlan::NotFound);
    assert_eq!(plan_view("happy-otter-1234", false), ViewPlan::Page);
    assert_eq!(plan_view("happy-otter-1234", true), ViewPlan::Stream { max_subscribers: 30 });
    assert_eq!(
        plan_view("happy-otter;max-subs=3", true),
        ViewPlan::Stream { max_subscribers: 3 }
    );
}

#[test]
fn lines_are_split_on_line_feeds() {
    assert_eq!(lines_of("a\nb\nc"), vec!["a", "b", "c"]);
    assert_eq!(lines_of("\n\na\n\n\nb\n"), vec!["a", "b"]);
    assert_eq!(lines_of("one line"), vec!["one line"]);
    assert_eq!(lines_of("a\r\nb"), vec!["a\r", "b"]);
    assert_eq!(lines_of(" \n"), vec![" "]);
    assert!(lines_of("").is_empty());
    assert!(lines_of("\n\n\n").is_empty());
}

#[test]
fn scenario_two_line_json_batch() {
    let body = "{\"level\":\"info\",\"msg\":\"hi\"}\n{\"level\":\"warn\",\"msg\":\"bye\"}";
    let events = read_batch(body);
    assert_eq!(events.len(), 2);
    for event in &events {
        assert_eq!(event.parser, Some("json".to_string()));
        assert_eq!(event.fields.len(), 2);
    }
    assert_eq!(events[0].raw, "{\"level\":\"info\",\"msg\":\"hi\"}");
    assert_eq!(events[0].fields.get("msg").unwrap().value, "hi");
    assert_eq!(events[0].fields.get("level").unwrap().value, "info");
    assert_eq!(events[1].fields.get("msg").unwrap().value, "bye");
    assert!(events[0].time <= events[1].time);

    // Published to a fresh bucket, both come back as log events, in order.
    let mut channel = Channel::new("fresh-bucket".to_string());
    for event in &events {
        channel.publish_log(event.raw.clone());
    }
    let mut sub = channel.subscribe();
    let first = sub.next_replayed().unwrap();
    let second = sub.next_replayed().unwrap();
    assert!(sub.next_replayed().is_none());
    assert_eq!((first.event_type.as_str(), first.data.as_str()), ("log", events[0].raw.as_str()));
    assert_eq!((second.event_type.as_str(), second.data.as_str()), ("log", events[1].raw.as_str()));
}

#[test]
fn batch_of_mixed_lines() {
    let events = read_batch("\nplain words here\n\na=1;b=2\n{\"k\":1}\n");
    assert_eq!(events.len(), 3);
    assert_eq!(events[0].parser, None);
    assert!(events[0].fields.is_empty());
    assert_eq!(events[0].raw, "plain words here");
    assert_eq!(events[1].parser, Some("structuredHeaders".to_string()));
    assert_eq!(events[1].fields.get("b").unwrap().value, "2");
    assert_eq!(events[2].parser, Some("json".to_string()));
    assert_eq!(events[2].fields.get("k").unwrap().value, "1");
}

#[test]
fn empty_batches_give_no_events() {
    assert!(read_batch("").is_empty());
    assert!(read_batch("\n\n").is_empty());
}

#[test]
fn log_event_keeps_what_was_parsed() {
    let mut parsed = ParsedEvent::at("x=1".to_string(), 99);
    parsed.parse();
    let log = LogEvent::from_parsed(parsed);
    assert_eq!(log.time, 99);
    assert_eq!(log.raw, "x=1");
    assert_eq!(log.parser, Some("structuredHeaders".to_string()));
    assert_eq!(log.fields.get("x").unwrap().value, "1");
    let line = LogEvent::from_line("x=1".to_string());
    assert_eq!(line.raw, "x=1");
    assert_eq!(line.fields.get("x").unwrap().value, "1");
}
