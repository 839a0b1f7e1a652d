use std::time::Duration;
use world_core::debug_format::{fmt_dur, format_grouped_lines};
use world_core::runtime_storage::RuntimeStorage;

#[test]
fn grouped_lines_calculates_total_parent_time() {
    let items = vec![
        (
            "a",
            Duration::from_millis(15).as_nanos(),
            Duration::from_millis(10).as_nanos(),
        ),
        (
            "a::child1",
            Duration::from_millis(6).as_nanos(),
            Duration::from_millis(4).as_nanos(),
        ),
        (
            "b",
            Duration::from_millis(30).as_nanos(),
            Duration::from_millis(20).as_nanos(),
        ),
        (
            "b::child1",
            Duration::from_millis(10).as_nanos(),
            Duration::from_millis(6).as_nanos(),
        ),
        (
            "c",
            Duration::from_millis(15).as_nanos(),
            Duration::from_millis(10).as_nanos(),
        ),
        (
            "c::child1",
            Duration::from_millis(6).as_nanos(),
            Duration::from_millis(4).as_nanos(),
        ),
    ];

    let (text, total) = format_grouped_lines(items);

    assert!(total > 0, "total_parent_time must be > 0");
    assert_eq!(total, Duration::from_millis(60).as_nanos());

    assert_eq!(
        text,
        "&8├─ &ab                             &r &8│ &2    30.0ms&r &8│ &2 50%&r &8│ &8avg &2    20.0ms
&8│  └─ &echild1                     &r &8│ &7    10.0ms&r &8│ 100% &8│ &8avg      6.0ms
&8├─ &aa                             &r &8│ &2    15.0ms&r &8│ &2 25%&r &8│ &8avg &2    10.0ms
&8│  └─ &echild1                     &r &8│ &7     6.0ms&r &8│ 100% &8│ &8avg      4.0ms
&8├─ &ac                             &r &8│ &2    15.0ms&r &8│ &2 25%&r &8│ &8avg &2    10.0ms
&8│  └─ &echild1                     &r &8│ &7     6.0ms&r &8│ 100% &8│ &8avg      4.0ms",
    );
}

#[test]
fn fmt_dur_picks_units_and_rounds() {
    assert_eq!(fmt_dur(Duration::from_millis(30).as_nanos()), "    30.0ms");
    assert_eq!(fmt_dur(Duration::from_secs(2).as_nanos()), "      2.0s");
    assert_eq!(fmt_dur(1500), "     1.5µs");
    assert_eq!(fmt_dur(7), "     7.0ns");
    assert_eq!(fmt_dur(999_950_000), "  1000.0ms");
}

#[test]
fn runtime_storage_accumulates_spans() {
    let mut storage = RuntimeStorage::new();
    storage.push("tick", 10);
    storage.push("tick", 30);
    storage.push("render", 5);

    let spans = storage.get_spans();
    assert_eq!(spans.len(), 2);
    assert_eq!(spans[0].0, "tick");
    assert_eq!(spans[0].1, (40, 2, 30));
    assert_eq!(spans[1].0, "render");
    assert_eq!(spans[1].1, (5, 1, 5));

    storage.clear();
    assert!(storage.get_spans().is_empty());
}
