use m3u8::pool::{
    next_fetch_step, plan_key, plan_segment, FetchEvent, FetchStep, SegmentPlan, TaskQueue,
};

fn urls(items: &[&str]) -> Vec<String> {
    items.iter().map(|s| String::from(*s)).collect()
}

#[test]
fn pop_hands_out_last_item_first() {
    let mut q = TaskQueue::new(urls(&["a.ts", "b.ts", "c.ts"]));
    assert_eq!(q.pop_task(), Some(String::from("c.ts")));
    assert_eq!(q.pop_task(), Some(String::from("b.ts")));
    assert_eq!(q.pop_task(), Some(String::from("a.ts")));
    assert_eq!(q.pop_task(), None);
}

#[test]
fn empty_queue_stays_empty() {
    let mut q = TaskQueue::new(Vec::new());
    assert_eq!(q.pop_task(), None);
    assert_eq!(q.pop_task(), None);
}

#[test]
fn drain_covers_every_task_exactly_once() {
    let tasks = urls(&["s0.ts", "s1.ts", "s2.ts", "s3.ts"]);
    let mut q = TaskQueue::new(tasks.clone());
    let handed_out = q.drain_all();
    assert_eq!(q.pop_task(), None);
    let mut sorted = handed_out.clone();
    sorted.sort();
    let mut expected = tasks.clone();
    expected.sort();
    assert_eq!(sorted, expected);
    assert_eq!(handed_out.len(), tasks.len());
}

#[test]
fn empty_url_is_never_fetched() {
    let files: Vec<String> = Vec::new();
    let plan = plan_segment("http://h/index.m3u8", "", &files);
    assert!(matches!(plan, SegmentPlan::AlreadyDone));
}

#[test]
fn present_segment_is_never_fetched_again() {
    let files = urls(&["seg0.ts"]);
    let plan = plan_segment("http://h/index.m3u8", "seg0.ts", &files);
    assert!(matches!(plan, SegmentPlan::AlreadyDone));
    let plan_remote = plan_segment("http://h/index.m3u8", "http://h/seg0.ts", &files);
    assert!(matches!(plan_remote, SegmentPlan::AlreadyDone));
}

#[test]
fn missing_segment_is_fetched_at_resolved_url() {
    let files: Vec<String> = Vec::new();
    match plan_segment("http://h/a/index.m3u8", "seg0.ts", &files) {
        SegmentPlan::Fetch { url, name } => {
            assert_eq!(url, "http://h/a/seg0.ts");
            assert_eq!(name, "seg0.ts");
        }
        SegmentPlan::AlreadyDone => panic!("a missing segment must be fetched"),
    }
}

#[test]
fn second_run_plans_no_new_requests() {
    let base = "http://h/a/index.m3u8";
    let segments = urls(&["seg0.ts", "seg1.ts"]);
    let mut files: Vec<String> = Vec::new();
    for seg in &segments {
        if let SegmentPlan::Fetch { name, .. } = plan_segment(base, seg, &files) {
            files.push(name);
        }
    }
    for seg in &segments {
        assert!(matches!(
            plan_segment(base, seg, &files),
            SegmentPlan::AlreadyDone
        ));
    }
}

#[test]
fn key_fetch_is_idempotent() {
    match plan_key("http://host/path/index.m3u8", "k.bin", false) {
        SegmentPlan::Fetch { url, name } => {
            assert_eq!(url, "http://host/path/k.bin");
            assert_eq!(name, "key.m3u8");
        }
        SegmentPlan::AlreadyDone => panic!("a missing key must be fetched"),
    }
    assert!(matches!(
        plan_key("http://host/path/index.m3u8", "k.bin", true),
        SegmentPlan::AlreadyDone
    ));
}

#[test]
fn request_failure_retries_same_segment() {
    assert!(matches!(
        next_fetch_step(&FetchEvent::RequestFailed),
        FetchStep::RetrySame
    ));
}

#[test]
fn body_failure_skips_segment_without_retry() {
    assert!(matches!(
        next_fetch_step(&FetchEvent::BodyFailed),
        FetchStep::SkipSegment
    ));
}

#[test]
fn received_body_is_stored() {
    assert!(matches!(
        next_fetch_step(&FetchEvent::BodyReceived),
        FetchStep::StoreSegment
    ));
}
