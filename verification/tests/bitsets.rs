use blobwar::positions::{BitIterator, BoardPosition, Position, Positions};

#[test]
fn union_with_complement_is_full() {
    let samples: [u64; 5] = [0, u64::MAX, 0x1234_5678_9abc_def0, 1, 1 << 63];
    for w in samples {
        let b = Positions(w);
        assert!(b.union_with(b.invert()).is_all());
        assert!(b.intersection_with(b.invert()).is_empty());
    }
}

#[test]
fn add_and_remove_single() {
    let mut b = Positions(0x00ff_0000_0000_aaaa);
    let p: Position = 17;
    b.add(Positions::single(p));
    assert!(b.contains(p));
    b.remove(Positions::single(p));
    assert!(!b.contains(p));
    let mut c = Positions(0);
    c.add(Positions::single(63));
    assert!(c.contains(63));
    assert!(!c.contains(62));
}

#[test]
fn cardinality_matches_iteration_counts() {
    let samples: [u64; 4] = [0, u64::MAX, 0x8000_0000_0000_0001, 0x0f0f_0f0f_0f0f_0f0f];
    for w in samples {
        let b = Positions(w);
        let n = b.len();
        let seq_count = b.full_bits().into_iter().filter(|&x| x).count();
        let par_count = b.par_bits().collect_bools().into_iter().filter(|&x| x).count();
        assert_eq!(seq_count, n as usize);
        assert_eq!(par_count, n as usize);
        assert_eq!(b.positions().len(), n as usize);
    }
}

#[test]
fn split_yields_same_booleans_as_single_pass() {
    let b = Positions(0xdead_beef_0123_4567);
    let whole = b.par_bits().collect_bools();
    assert_eq!(whole, b.full_bits());
    for k in 0..=64usize {
        let (left, right) = b.par_bits().split_at(k);
        let mut joined = left.collect_bools();
        joined.extend(right.collect_bools());
        assert_eq!(joined, whole);
    }
}

#[test]
fn split_halves_consume_independently() {
    let b = Positions(0x00ff_ff00_f0f0_5a5a);
    let (left, right) = b.par_bits().split_at(20);
    assert_eq!(left.len(), 20);
    assert_eq!(right.len(), 44);
    let rs = right.collect_bools();
    let ls = left.collect_bools();
    let whole = b.full_bits();
    assert_eq!(&whole[..20], &ls[..]);
    assert_eq!(&whole[20..], &rs[..]);
}

#[test]
fn sequential_iterator_stops_on_zero_rest() {
    let b = Positions(0b1011);
    let mut it = b.bits();
    assert_eq!(it.next(), Some(true));
    assert_eq!(it.next(), Some(true));
    assert_eq!(it.next(), Some(false));
    assert_eq!(it.next(), Some(true));
    assert_eq!(it.next(), None);
    assert_eq!(it.next(), None);
}

#[test]
fn bounded_iterator_respects_limit() {
    let mut it = BitIterator::new(u64::MAX);
    it.start_at(10);
    it.end_at(3);
    assert_eq!(it.next(), Some(true));
    assert_eq!(it.next(), Some(true));
    assert_eq!(it.next(), Some(true));
    assert_eq!(it.next(), None);
}

#[test]
fn split_half_iterates_sequentially() {
    let b = Positions(0xa5a5_0000_ffff_0001);
    let whole = b.full_bits();
    let (_, right) = b.par_bits().split_at(5);
    let mut it = right.sequential();
    let mut seen: Vec<bool> = Vec::new();
    while seen.len() < 59 {
        seen.push(it.next().unwrap_or(false));
    }
    assert_eq!(it.next(), None);
    assert_eq!(&whole[5..], &seen[..]);
}

#[test]
fn backward_iteration_yields_highest_first() {
    let mut it = BitIterator::new(0b101);
    it.end_at(3);
    assert_eq!(it.next_back(), Some(true));
    assert_eq!(it.next_back(), Some(false));
    assert_eq!(it.next_back(), Some(true));
    assert_eq!(it.next_back(), None);
    let mut both = BitIterator::new(0b110);
    both.end_at(3);
    assert_eq!(both.next(), Some(false));
    assert_eq!(both.next_back(), Some(true));
}

#[test]
fn positions_lists_set_bits_in_order() {
    let b = Positions((1 << 3) | (1 << 40) | 1);
    assert_eq!(b.positions(), vec![0u8, 3, 40]);
    assert_eq!(b.len(), 3);
    assert!(!b.is_empty());
    assert!(Positions(0).is_empty());
    assert!(Positions(u64::MAX).is_all());
    assert!(!Positions(u64::MAX - 1).is_all());
}

#[test]
fn board_coordinates_round_trip() {
    let p = Position::from_2d(2, 3);
    assert_eq!(p, 26);
    assert_eq!(p.to_2d(), (2, 3));
    let q = Position::from_2d(7, 7);
    assert_eq!(p.distance_to(q), 5);
    assert_eq!(q.distance_to(p), 5);
    assert_eq!(p.distance_to(p), 0);
    assert_eq!(Position::from_2d(0, 0).distance_to(Position::from_2d(7, 0)), 7);
}

#[test]
fn inversion_flips_membership() {
    let b = Positions(0x0000_0000_0000_00ff);
    let inv = b.invert();
    for p in 0..64u8 {
        assert_eq!(inv.contains(p), !b.contains(p));
    }
}
