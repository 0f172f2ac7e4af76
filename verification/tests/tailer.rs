use muxserve::tailer::CommitEntry;
use muxserve::tailer::entries_for_repo;
use muxserve::tailer::stagger_delay_secs;

#[test]
fn staggered_starts_are_seven_seconds_apart() {
    assert_eq!(stagger_delay_secs(0), Some(0));
    assert_eq!(stagger_delay_secs(1), Some(7));
    assert_eq!(stagger_delay_secs(3), Some(21));
}

#[test]
fn an_overflowing_delay_is_refused() {
    assert_eq!(stagger_delay_secs(u64::MAX), None);
    assert_eq!(stagger_delay_secs(u64::MAX / 7), Some(7 * (u64::MAX / 7)));
}

#[test]
fn prefetched_entries_are_selected_per_repo() {
    let entries = vec![
        CommitEntry { repo: 1, record: b"one".to_vec() },
        CommitEntry { repo: 2, record: b"two".to_vec() },
        CommitEntry { repo: 1, record: b"three".to_vec() },
    ];
    let mine = entries_for_repo(&entries, 1);
    assert_eq!(mine.len(), 2);
    assert_eq!(mine[0].record, b"one".to_vec());
    assert_eq!(mine[1].record, b"three".to_vec());
    let theirs = entries_for_repo(&entries, 3);
    assert!(theirs.is_empty());
}
