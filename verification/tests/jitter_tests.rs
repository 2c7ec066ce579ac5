use gaming_tunnel::jitter::JitterBuffer;

fn ms(x: u64) -> u64 {
    x * 1_000_000
}

#[test]
fn in_order_packets_are_released() {
    let mut j = JitterBuffer::new(8, 30);
    j.push_at(0, vec![10], ms(0));
    assert_eq!(j.pop_ready_at(ms(0)), vec![vec![10]]);
    j.push_at(1, vec![11], ms(0));
    j.push_at(2, vec![12], ms(0));
    assert_eq!(j.pop_ready_at(ms(0)), vec![vec![11], vec![12]]);
}

#[test]
fn gap_holds_later_packets() {
    let mut j = JitterBuffer::new(8, 30);
    j.push_at(1, vec![11], ms(0));
    j.push_at(2, vec![12], ms(0));
    assert!(j.pop_ready_at(ms(5)).is_empty());
    j.push_at(0, vec![10], ms(6));
    assert_eq!(j.pop_ready_at(ms(6)), vec![vec![10], vec![11], vec![12]]);
}

#[test]
fn deadline_forces_skip_over_gap() {
    let mut j = JitterBuffer::new(8, 30);
    j.push_at(2, vec![12], ms(100));
    j.push_at(3, vec![13], ms(110));
    assert!(j.pop_ready_at(ms(129)).is_empty());
    assert_eq!(j.pop_ready_at(ms(130)), vec![vec![12], vec![13]]);
    j.push_at(4, vec![14], ms(131));
    assert_eq!(j.pop_ready_at(ms(131)), vec![vec![14]]);
}

#[test]
fn depth_overflow_forces_skip() {
    let mut j = JitterBuffer::new(2, 1000);
    j.push_at(5, vec![5], ms(0));
    j.push_at(6, vec![6], ms(0));
    assert!(j.pop_ready_at(ms(0)).is_empty());
    j.push_at(9, vec![9], ms(0));
    assert_eq!(j.pop_ready_at(ms(0)), vec![vec![5], vec![6]]);
    j.push_at(7, vec![7], ms(0));
    assert_eq!(j.pop_ready_at(ms(0)), vec![vec![7]]);
    assert!(j.pop_ready_at(ms(0)).is_empty());
    j.push_at(8, vec![8], ms(0));
    assert_eq!(j.pop_ready_at(ms(0)), vec![vec![8], vec![9]]);
}

#[test]
fn sequence_numbers_wrap() {
    let mut j = JitterBuffer::new(0, 0);
    j.push_at(65535, vec![1], ms(0));
    assert_eq!(j.pop_ready_at(ms(0)), vec![vec![1]]);
    j.push_at(0, vec![2], ms(0));
    assert_eq!(j.pop_ready_at(ms(0)), vec![vec![2]]);
}

#[test]
fn duplicate_replaces_held_packet() {
    let mut j = JitterBuffer::new(8, 30);
    j.push_at(1, vec![1], ms(0));
    j.push_at(1, vec![2], ms(0));
    j.push_at(0, vec![0], ms(0));
    assert_eq!(j.pop_ready_at(ms(0)), vec![vec![0], vec![2]]);
}

#[test]
fn push_and_pop_with_clock() {
    let mut j = JitterBuffer::new(8, 10_000);
    j.push(0, vec![42]);
    assert_eq!(j.pop_ready(), vec![vec![42]]);
    j.push(5, vec![5]);
    assert!(j.pop_ready().is_empty());
}

#[test]
fn second_pop_at_same_time_releases_nothing() {
    let mut j = JitterBuffer::new(1, 30);
    j.push_at(3, vec![3], ms(0));
    j.push_at(4, vec![4], ms(0));
    j.push_at(9, vec![9], ms(0));
    assert_eq!(j.pop_ready_at(ms(10)), vec![vec![3], vec![4]]);
    assert!(j.pop_ready_at(ms(10)).is_empty());
    j.push_at(20, vec![20], ms(11));
    assert_eq!(j.pop_ready_at(ms(12)), vec![vec![9]]);
    assert!(j.pop_ready_at(ms(12)).is_empty());
}

#[test]
fn wait_counts_whole_milliseconds() {
    let mut j = JitterBuffer::new(8, 30);
    j.push_at(2, vec![2], 500);
    assert!(j.pop_ready_at(ms(30) + 499).is_empty());
    assert_eq!(j.pop_ready_at(ms(30) + 500), vec![vec![2]]);
}
