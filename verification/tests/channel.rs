use bucket_hub::channel::{Channel, HISTORY_SIZE};
use bucket_hub::models::{SseEvent, StatsEvent, SuspensionEvent};
use bucket_hub::rate::{RateController, MAX_LOG_LINES_PER_MINUTE};
use bucket_hub::subscription::{LiveSignal, Phase};

fn payload(i: usize) -> String {
    format!("{{\"n\":{}}}", i)
}

fn replayed(channel: &mut Channel, id: &str) -> Vec<String> {
    let mut sub = channel.subscribe_as(id.to_string());
    let mut out = Vec::new();
    while let Some(event) = sub.next_replayed() {
        assert_eq!(event.event_type, "log");
        out.push(event.data);
    }
    assert_eq!(sub.phase, Phase::Live);
    channel.release(id);
    out
}

#[test]
fn replay_is_the_ten_newest_in_order() {
    let mut channel = Channel::new("bucket".to_string());
    for i in 0..13 {
        channel.publish_log(payload(i));
    }
    let expected: Vec<String> = (3..13).map(payload).collect();
    assert_eq!(expected.len(), HISTORY_SIZE);
    assert_eq!(replayed(&mut channel, "viewer"), expected);
}

#[test]
fn replay_of_a_short_history_is_all_of_it() {
    let mut channel = Channel::new("bucket".to_string());
    assert_eq!(replayed(&mut channel, "viewer"), Vec::<String>::new());
    for i in 0..3 {
        channel.publish_log(payload(i));
    }
    assert_eq!(replayed(&mut channel, "viewer"), vec![payload(0), payload(1), payload(2)]);
    for i in 3..10 {
        channel.publish_log(payload(i));
    }
    assert_eq!(replayed(&mut channel, "viewer").len(), 10);
    channel.publish_log(payload(10));
    let again = replayed(&mut channel, "viewer");
    assert_eq!(again.len(), 10);
    assert_eq!(again[0], payload(1));
    assert_eq!(again[9], payload(10));
}

#[test]
fn stats_and_suspensions_are_not_replayed() {
    let mut channel = Channel::new("bucket".to_string());
    channel.publish_log(payload(0));
    channel.publish_suspension(true);
    let stats = channel.get_stats();
    channel.publish_stats(stats);
    assert_eq!(replayed(&mut channel, "viewer"), vec![payload(0)]);
}

#[test]
fn snapshot_is_taken_when_subscribing() {
    let mut channel = Channel::new("bucket".to_string());
    channel.publish_log(payload(0));
    let mut sub = channel.subscribe_as("viewer".to_string());
    channel.publish_log(payload(1));
    assert_eq!(sub.next_replayed().unwrap().data, payload(0));
    assert!(sub.next_replayed().is_none());
    assert_eq!(sub.phase, Phase::Live);
    // The event published after subscribing comes over the live feed.
    let live = sub.receiver.try_recv().unwrap();
    assert_eq!(live.event_type, "log");
    assert_eq!(live.data, payload(1));
    assert!(sub.receiver.try_recv().is_err());
}

#[test]
fn live_feed_carries_every_kind_of_event() {
    let mut channel = Channel::new("bucket".to_string());
    let mut first = channel.subscribe_as("a".to_string());
    let mut second = channel.subscribe_as("b".to_string());
    assert_eq!(channel.subscriber_count(), 2);
    channel.publish_log("line".to_string());
    channel.publish_suspension(false);
    channel.publish_stats(channel.stats_with(2));
    for sub in [&mut first, &mut second] {
        let e = sub.receiver.try_recv().unwrap();
        assert_eq!((e.event_type.as_str(), e.data.as_str()), ("log", "line"));
        let e = sub.receiver.try_recv().unwrap();
        assert_eq!((e.event_type.as_str(), e.data.as_str()), ("suspension", "{\"suspended\":false}"));
        let e = sub.receiver.try_recv().unwrap();
        assert_eq!(e.event_type, "stats");
        assert_eq!(e.data, "{\"clientCount\":2,\"connCount\":2,\"clients\":[\"a\",\"b\"]}");
    }
    drop(first);
    assert_eq!(channel.subscriber_count(), 1);
    drop(second);
    assert_eq!(channel.subscriber_count(), 0);
    // Publishing with nobody attached is fine.
    channel.publish_log("nobody".to_string());
}

#[test]
fn subscriber_is_registered_until_released() {
    let mut channel = Channel::new("bucket".to_string());
    assert_eq!(channel.get_stats().client_count, 0);
    let sub = channel.subscribe();
    assert_eq!(sub.phase, Phase::Replaying);
    assert_eq!(sub.client_id.len(), 36);
    let stats = channel.get_stats();
    assert_eq!(stats.client_count, 1);
    assert_eq!(stats.conn_count, 1);
    assert_eq!(stats.clients, vec![sub.client_id.clone()]);
    let other = channel.subscribe();
    assert_ne!(other.client_id, sub.client_id);
    assert_eq!(channel.get_stats().clients, vec![sub.client_id.clone(), other.client_id.clone()]);
    channel.release(&sub.client_id);
    assert_eq!(channel.get_stats().clients, vec![other.client_id.clone()]);
    // Releasing again changes nothing.
    channel.release(&sub.client_id);
    assert_eq!(channel.get_stats().client_count, 1);
    channel.release(&other.client_id);
    assert_eq!(channel.get_stats().client_count, 0);
}

#[test]
fn same_identity_is_registered_once() {
    let mut channel = Channel::new("bucket".to_string());
    let _a = channel.subscribe_as("id".to_string());
    let _b = channel.subscribe_as("id".to_string());
    assert_eq!(channel.get_stats().client_count, 1);
    assert_eq!(channel.get_stats().conn_count, 2);
    channel.release("id");
    assert_eq!(channel.get_stats().client_count, 0);
}

#[test]
fn live_phase_ends_on_lag_or_close() {
    let mut channel = Channel::new("bucket".to_string());
    let mut sub = channel.subscribe_as("viewer".to_string());
    // Not live yet: a signal is ignored.
    let early = SseEvent::log("early".to_string());
    assert!(sub.on_live(LiveSignal::Event(early)).is_none());
    assert_eq!(sub.phase, Phase::Replaying);
    assert!(sub.next_replayed().is_none());
    assert_eq!(sub.phase, Phase::Live);
    let e = sub.on_live(LiveSignal::Event(SseEvent::log("x".to_string()))).unwrap();
    assert_eq!(e.data, "x");
    assert_eq!(sub.phase, Phase::Live);
    assert!(sub.on_live(LiveSignal::Lagged).is_none());
    assert_eq!(sub.phase, Phase::Ended);
    assert!(sub.on_live(LiveSignal::Event(SseEvent::log("y".to_string()))).is_none());
    assert!(sub.next_replayed().is_none());

    let mut other = channel.subscribe_as("other".to_string());
    assert!(other.next_replayed().is_none());
    assert!(other.on_live(LiveSignal::Closed).is_none());
    assert_eq!(other.phase, Phase::Ended);
}

#[test]
fn cancel_ends_in_any_phase() {
    let mut channel = Channel::new("bucket".to_string());
    channel.publish_log("a".to_string());
    let mut sub = channel.subscribe_as("viewer".to_string());
    sub.cancel();
    assert_eq!(sub.phase, Phase::Ended);
    assert!(sub.next_replayed().is_none());
    assert_eq!(sub.replay.len(), 1);
}

#[test]
fn slow_viewer_lags_behind_the_feed() {
    let mut channel = Channel::new("bucket".to_string());
    let mut sub = channel.subscribe_as("slow".to_string());
    for i in 0..150 {
        channel.publish_log(payload(i));
    }
    let lagged = matches!(
        sub.receiver.try_recv(),
        Err(tokio::sync::broadcast::error::TryRecvError::Lagged(_))
    );
    assert!(lagged);
    assert!(sub.next_replayed().is_none());
    assert!(sub.on_live(LiveSignal::Lagged).is_none());
    assert_eq!(sub.phase, Phase::Ended);
}

#[test]
fn ceiling_is_exact_within_one_minute() {
    let mut channel = Channel::with_ceiling(5);
    let base = 60 * 1000;
    for i in 0..5 {
        assert!(channel.record_logs_at(base + i, 1));
    }
    assert!(!channel.is_suspended());
    assert!(!channel.record_logs_at(base + 30, 1));
    assert!(channel.is_suspended());
    // Suspended for good: later minutes, empty offers, the clock.
    assert!(!channel.record_logs_at(base + 61, 1));
    assert!(!channel.record_logs_at(base + 6000, 0));
    assert!(!channel.record_logs(1));
    assert!(channel.is_suspended());
}

#[test]
fn window_does_not_slide_over_the_minute() {
    let mut channel = Channel::with_ceiling(5);
    let minute = 1234;
    for _ in 0..5 {
        assert!(channel.record_logs_at(minute * 60 + 59, 1));
    }
    for _ in 0..5 {
        assert!(channel.record_logs_at((minute + 1) * 60 + 1, 1));
    }
    assert!(!channel.is_suspended());
    assert!(!channel.record_logs_at((minute + 1) * 60 + 2, 1));
    assert!(channel.is_suspended());
}

#[test]
fn batches_count_in_full() {
    let mut rate = RateController::new(10);
    assert_eq!(rate.ceiling(), 10);
    assert!(rate.record_at(120, 4));
    assert!(rate.record_at(121, 6));
    assert!(!rate.is_suspended());
    assert!(!rate.record_at(122, 1));
    assert!(rate.is_suspended());

    // A batch over the ceiling trips the controller on a fresh minute too.
    let mut rate = RateController::new(10);
    assert!(!rate.record_at(600, 11));
    assert!(rate.is_suspended());

    // An offer of nothing is admitted while active.
    let mut rate = RateController::new(0);
    assert!(rate.record_at(0, 0));
    assert!(!rate.record_at(0, 1));
}

#[test]
fn counts_past_the_largest_number_suspend() {
    let mut rate = RateController::new(u64::MAX);
    assert!(rate.record_at(60, u64::MAX));
    assert!(!rate.is_suspended());
    assert!(!rate.record_at(61, 1));
    assert!(rate.is_suspended());
}

#[test]
fn default_ceiling_applies_to_new_buckets() {
    let mut channel = Channel::new("bucket".to_string());
    assert!(channel.record_logs_at(60, MAX_LOG_LINES_PER_MINUTE));
    assert!(!channel.is_suspended());
    assert!(!channel.record_logs_at(61, 1));
}

#[test]
fn record_logs_uses_the_clock() {
    let mut channel = Channel::with_ceiling(3);
    assert!(channel.record_logs(3));
    assert!(!channel.is_suspended());
}

#[test]
fn stats_json_is_compact_and_escaped() {
    let stats = StatsEvent {
        client_count: 2,
        conn_count: 10,
        clients: vec!["plain".to_string(), "q\"uo\\te\n".to_string()],
    };
    assert_eq!(
        stats.to_json(),
        "{\"clientCount\":2,\"connCount\":10,\"clients\":[\"plain\",\"q\\\"uo\\\\te\\n\"]}"
    );
    let parsed: serde_json::Value = serde_json::from_str(&stats.to_json()).unwrap();
    assert_eq!(parsed["clients"][1].as_str().unwrap(), "q\"uo\\te\n");
    let empty = StatsEvent { client_count: 0, conn_count: 0, clients: vec![] };
    assert_eq!(empty.to_json(), "{\"clientCount\":0,\"connCount\":0,\"clients\":[]}");
    let event = SseEvent::stats(&empty);
    assert_eq!(event.event_type, "stats");
    assert_eq!(event.data, empty.to_json());
}

#[test]
fn suspension_json_names_the_flag() {
    assert_eq!(SuspensionEvent { suspended: true }.to_json(), "{\"suspended\":true}");
    assert_eq!(SuspensionEvent { suspended: false }.to_json(), "{\"suspended\":false}");
    let event = SseEvent::suspension(true);
    assert_eq!(event.event_type, "suspension");
    assert_eq!(event.data, "{\"suspended\":true}");
    let copy = event.clone();
    assert_eq!(copy.event_type, event.event_type);
    assert_eq!(copy.data, event.data);
}

#[test]
fn idle_mark_follows_subscribers() {
    let mut channel = Channel::new("bucket".to_string());
    assert!(!channel.is_idle());
    assert!(channel.mark_if_idle());
    assert!(channel.is_idle());
    let sub = channel.subscribe_as("viewer".to_string());
    assert!(!channel.is_idle());
    assert!(!channel.mark_if_idle());
    channel.release(&sub.client_id);
    // Leaving does not bring the mark back; only a sweep does.
    assert!(!channel.is_idle());
    assert!(channel.mark_if_idle());
}

#[test]
fn feed_takes_events_in_only_while_a_viewer_is_attached() {
    let mut channel = Channel::new("bucket".to_string());
    // Nobody attached: the feed leaves these.
    channel.publish_suspension(true);
    channel.publish_stats(channel.stats_with(0));
    let mut first = channel.subscribe_as("a".to_string());
    channel.publish_suspension(false);
    channel.publish_stats(channel.stats_with(7));
    let e = first.receiver.try_recv().unwrap();
    assert_eq!((e.event_type.as_str(), e.data.as_str()), ("suspension", "{\"suspended\":false}"));
    let e = first.receiver.try_recv().unwrap();
    assert_eq!(e.event_type, "stats");
    assert_eq!(e.data, "{\"clientCount\":1,\"connCount\":7,\"clients\":[\"a\"]}");
    assert!(first.receiver.try_recv().is_err());
    drop(first);
    channel.release("a");
    // Nobody attached again.
    channel.publish_suspension(true);
    let mut second = channel.subscribe_as("b".to_string());
    channel.publish_suspension(false);
    let e = second.receiver.try_recv().unwrap();
    assert_eq!(e.data, "{\"suspended\":false}");
    assert!(second.receiver.try_recv().is_err());
}

#[test]
fn taken_draw_is_lengthened_until_it_is_free() {
    let mut channel = Channel::new("bucket".to_string());
    assert_eq!(channel.unused_identity("id".to_string()), "id");
    let _a = channel.subscribe_as("id".to_string());
    assert_eq!(channel.unused_identity("id".to_string()), "id+");
    assert_eq!(channel.unused_identity("other".to_string()), "other");
    let _b = channel.subscribe_as("id+".to_string());
    let _c = channel.subscribe_as("id++".to_string());
    assert_eq!(channel.unused_identity("id".to_string()), "id+++");
    assert_eq!(channel.unused_identity("id+".to_string()), "id+++");
    assert_eq!(channel.unused_identity("".to_string()), "");
    channel.release("id+");
    assert_eq!(channel.unused_identity("id".to_string()), "id+");
}

#[test]
fn every_subscription_gets_its_own_identity() {
    let mut channel = Channel::new("bucket".to_string());
    let mut seen: Vec<String> = Vec::new();
    for _ in 0..50 {
        let sub = channel.subscribe();
        assert!(!seen.contains(&sub.client_id));
        seen.push(sub.client_id.clone());
    }
    assert_eq!(channel.get_stats().clients, seen);
}
