use bustub_storage::{ClockReplacer, Replacer};

fn drain<R: Replacer>(r: &mut R) -> Vec<u32> {
    let mut out = Vec::new();
    while let Some(f) = r.victim() {
        out.push(f);
    }
    out
}

#[test]
fn test_clock_replacer() {
    let mut clock_replacer = ClockReplacer::new(7);
    clock_replacer.unpin(1);
    clock_replacer.unpin(2);
    clock_replacer.unpin(3);
    clock_replacer.unpin(4);
    clock_replacer.unpin(5);
    clock_replacer.unpin(6);
    clock_replacer.unpin(1);
    assert_eq!(clock_replacer.size(), 6);

    assert_eq!(clock_replacer.victim(), Some(1));
    assert_eq!(clock_replacer.victim(), Some(2));
    assert_eq!(clock_replacer.victim(), Some(3));

    clock_replacer.pin(3);
    clock_replacer.pin(4);
    assert_eq!(clock_replacer.size(), 2);

    clock_replacer.unpin(4);

    assert_eq!(clock_replacer.victim(), Some(5));
    assert_eq!(clock_replacer.victim(), Some(6));
    assert_eq!(clock_replacer.victim(), Some(4));

    assert_eq!(clock_replacer.size(), 0);
}

#[test]
fn empty_replacer_has_no_victim() {
    let mut r = ClockReplacer::new(3);
    assert_eq!(r.size(), 0);
    assert_eq!(r.peek_victim(), None);
    assert_eq!(r.victim(), None);
}

#[test]
fn pinned_frame_is_never_victim() {
    let mut r = ClockReplacer::new(4);
    r.unpin(7);
    r.unpin(8);
    r.pin(7);
    r.pin(7);
    assert_eq!(r.size(), 1);
    assert_eq!(r.victim(), Some(8));
    assert_eq!(r.victim(), None);
}

#[test]
fn repinned_frame_goes_to_the_back() {
    let mut r = ClockReplacer::new(4);
    r.unpin(1);
    r.unpin(2);
    r.unpin(3);
    r.pin(1);
    r.unpin(1);
    assert_eq!(r.peek_victim(), Some(2));
    assert_eq!(r.victim(), Some(2));
    assert_eq!(r.victim(), Some(3));
    assert_eq!(r.victim(), Some(1));
}

#[test]
fn peek_matches_victim_after_stale_entries() {
    let mut r = ClockReplacer::new(4);
    r.unpin(1);
    r.unpin(2);
    r.pin(1);
    assert_eq!(r.peek_victim(), Some(2));
    assert_eq!(r.size(), 1);
    assert_eq!(r.victim(), Some(2));
}

#[test]
fn replacer_through_the_trait() {
    let mut r = ClockReplacer::new(3);
    Replacer::unpin(&mut r, 3);
    Replacer::unpin(&mut r, 1);
    Replacer::unpin(&mut r, 2);
    Replacer::pin(&mut r, 1);
    assert_eq!(Replacer::size(&r), 2);
    assert_eq!(drain(&mut r), vec![3, 2]);
}
