use tickerwatch::selector::LoopingIndex;

#[test]
fn five_steps_forward_wrap_to_start() {
    let mut ix = LoopingIndex::new(5);
    for _ in 0..5 {
        ix.next();
    }
    assert_eq!(ix.index, 0);
}

#[test]
fn step_back_from_zero_goes_to_last() {
    let mut ix = LoopingIndex::new(5);
    ix.previous();
    assert_eq!(ix.index, 4);
    ix.previous();
    assert_eq!(ix.index, 3);
}

#[test]
fn forward_visits_each_position() {
    let mut ix = LoopingIndex::new(3);
    let mut seen = Vec::new();
    for _ in 0..4 {
        ix.next();
        seen.push(ix.index);
    }
    assert_eq!(seen, vec![1, 2, 0, 1]);
}

#[test]
fn resize_keeps_position_until_next_step() {
    let mut ix = LoopingIndex::new(5);
    ix.previous();
    ix.resize(2);
    assert_eq!(ix.index, 4);
    assert_eq!(ix.max_size, 2);
    ix.next();
    assert_eq!(ix.index, 1);
}

#[test]
fn bound_of_one_stays_at_zero() {
    let mut ix = LoopingIndex::new(1);
    ix.next();
    assert_eq!(ix.index, 0);
    ix.previous();
    assert_eq!(ix.index, 0);
}
