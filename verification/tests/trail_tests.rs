use particle_sim::trail::{update_trail, TRAIL_CAPACITY};
use std::collections::VecDeque;

#[test]
fn trail_grows_until_capacity() {
    let mut t: VecDeque<u32> = VecDeque::new();
    for i in 0..10 {
        update_trail(&mut t, i);
    }
    assert_eq!(t.iter().copied().collect::<Vec<_>>(), (0..10).collect::<Vec<_>>());
}

#[test]
fn trail_keeps_the_latest_fifty() {
    let mut t: VecDeque<u32> = VecDeque::new();
    for i in 0..120 {
        update_trail(&mut t, i);
        assert!(t.len() <= TRAIL_CAPACITY);
        assert_eq!(*t.back().unwrap(), i);
    }
    assert_eq!(TRAIL_CAPACITY, 50);
    assert_eq!(t.iter().copied().collect::<Vec<_>>(), (70..120).collect::<Vec<_>>());
}
