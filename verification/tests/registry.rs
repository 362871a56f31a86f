use bucket_hub::channel_manager::ChannelManager;

fn history(manager: &mut ChannelManager, name: &str) -> Vec<String> {
    let channel = manager.get_or_create_channel(name);
    let mut sub = channel.subscribe_as("probe".to_string());
    channel.release("probe");
    let mut out = Vec::new();
    while let Some(event) = sub.next_replayed() {
        out.push(event.data);
    }
    out
}

#[test]
fn lookup_does_not_create() {
    let mut manager = ChannelManager::new();
    assert!(manager.get_channel("bucket-one").is_none());
    manager.get_or_create_channel("bucket-one").publish_log("a".to_string());
    assert!(manager.get_channel("bucket-one").is_some());
    assert!(manager.get_channel("bucket-two").is_none());
    assert!(manager.get_channel("bucket-on").is_none());
}

#[test]
fn get_or_create_is_idempotent() {
    let mut manager = ChannelManager::new();
    manager.get_or_create_channel("bucket-one").publish_log("a".to_string());
    manager.get_or_create_channel("bucket-two").publish_log("x".to_string());
    manager.get_or_create_channel("bucket-one").publish_log("b".to_string());
    let one = manager.get_channel("bucket-one").unwrap();
    assert_eq!(one.get_stats().client_count, 0);
    assert_eq!(history(&mut manager, "bucket-one"), vec!["a".to_string(), "b".to_string()]);
    assert_eq!(history(&mut manager, "bucket-two"), vec!["x".to_string()]);
}

#[test]
fn idle_bucket_is_removed_after_the_second_look() {
    let mut manager = ChannelManager::new();
    manager.get_or_create_channel("bucket-one").publish_log("a".to_string());
    let candidates = manager.garbage_collect();
    assert_eq!(candidates, vec!["bucket-one".to_string()]);
    // Still there during the debounce interval.
    assert!(manager.get_channel("bucket-one").unwrap().is_idle());
    let removed = manager.evict_idle();
    assert_eq!(removed, vec!["bucket-one".to_string()]);
    assert!(manager.get_channel("bucket-one").is_none());
    // A later viewer gets a brand-new bucket with no history.
    assert_eq!(history(&mut manager, "bucket-one"), Vec::<String>::new());
}

#[test]
fn viewer_during_the_interval_keeps_the_bucket() {
    let mut manager = ChannelManager::new();
    manager.get_or_create_channel("bucket-one").publish_log("a".to_string());
    manager.get_or_create_channel("bucket-two").publish_log("x".to_string());
    let mut candidates = manager.garbage_collect();
    candidates.sort();
    assert_eq!(candidates, vec!["bucket-one".to_string(), "bucket-two".to_string()]);
    let sub = manager.get_or_create_channel("bucket-one").subscribe_as("viewer".to_string());
    assert_eq!(sub.replay.len(), 1);
    // Even if the viewer has left again by the time of the second look.
    manager.get_or_create_channel("bucket-one").release("viewer");
    let removed = manager.evict_idle();
    assert_eq!(removed, vec!["bucket-two".to_string()]);
    assert!(manager.get_channel("bucket-two").is_none());
    assert!(manager.get_channel("bucket-one").is_some());
    assert_eq!(history(&mut manager, "bucket-one"), vec!["a".to_string()]);
}

#[test]
fn bucket_with_a_viewer_is_no_candidate() {
    let mut manager = ChannelManager::new();
    let sub = manager.get_or_create_channel("bucket-one").subscribe_as("viewer".to_string());
    manager.get_or_create_channel("bucket-two");
    assert_eq!(manager.garbage_collect(), vec!["bucket-two".to_string()]);
    assert_eq!(manager.evict_idle(), vec!["bucket-two".to_string()]);
    assert!(manager.get_channel("bucket-one").is_some());
    manager.get_or_create_channel("bucket-one").release(&sub.client_id);
    // The second look alone removes nothing: only a sweep marks.
    assert!(manager.evict_idle().is_empty());
    assert_eq!(manager.garbage_collect(), vec!["bucket-one".to_string()]);
    assert_eq!(manager.evict_idle(), vec!["bucket-one".to_string()]);
    assert!(manager.garbage_collect().is_empty());
}

#[test]
fn publishing_during_the_interval_does_not_keep_the_bucket() {
    let mut manager = ChannelManager::new();
    manager.get_or_create_channel("bucket-one");
    manager.garbage_collect();
    manager.get_or_create_channel("bucket-one").publish_log("late".to_string());
    assert_eq!(manager.evict_idle(), vec!["bucket-one".to_string()]);
}

#[test]
fn suspension_stays_with_the_bucket() {
    let mut manager = ChannelManager::new();
    let channel = manager.get_or_create_channel("bucket-one");
    assert!(channel.record_logs_at(60, 1000));
    assert!(!channel.record_logs_at(61, 1));
    assert!(manager.get_channel("bucket-one").unwrap().is_suspended());
    assert!(!manager.get_or_create_channel("bucket-one").record_logs_at(6000, 1));
}

#[test]
fn feeds_of_kept_buckets_go_on_through_sweeps() {
    let mut manager = ChannelManager::new();
    let mut sub = manager.get_or_create_channel("bucket-one").subscribe_as("viewer".to_string());
    manager.get_or_create_channel("bucket-two");
    manager.get_or_create_channel("bucket-one").publish_log("before".to_string());
    assert_eq!(manager.garbage_collect(), vec!["bucket-two".to_string()]);
    assert_eq!(manager.evict_idle(), vec!["bucket-two".to_string()]);
    manager.release("bucket-two", "viewer");
    manager.get_or_create_channel("bucket-one").publish_log("after".to_string());
    // The handle issued before the sweep still receives, in order.
    assert!(sub.next_replayed().is_none());
    assert_eq!(sub.receiver.try_recv().unwrap().data, "before");
    assert_eq!(sub.receiver.try_recv().unwrap().data, "after");
    assert!(sub.receiver.try_recv().is_err());
    manager.release("bucket-one", "viewer");
    assert_eq!(manager.get_channel("bucket-one").unwrap().get_stats().client_count, 0);
}
