use apex_core::prelude::Side;
use crossbeam::epoch;
use crossbeam::epoch::default_collector;
use crossbeam_skiplist::SkipList;

#[test]
fn test_skiplist_next_when_delete() {
    let list = SkipList::new(default_collector().clone());
    let guard = &epoch::pin();
    let _entry1 = list.get_or_insert(1, 1, guard);
    let entry2 = list.get_or_insert(2, 2, guard);
    let _entry3 = list.get_or_insert(3, 3, guard);

    let front = list.front(guard).unwrap();
    entry2.remove(guard);
    let next = front.next().unwrap();
    let tail = next.next();

    assert_eq!(front.key(), &1);
    assert_eq!(next.key(), &3);
    assert!(tail.is_none());
    assert_eq!(Side::Buy, Side::default());
}
