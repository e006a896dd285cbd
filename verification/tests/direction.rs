use last_hope::direction::Direction;

#[test]
fn directions_by_index() {
    assert_eq!(Direction::new(0), Direction::Up);
    assert_eq!(Direction::new(1), Direction::Left);
    assert_eq!(Direction::new(2), Direction::Right);
    assert_eq!(Direction::new(3), Direction::Down);
    for index in 0..4 {
        assert_eq!(Direction::new(index).index(), index);
    }
}

#[test]
fn unit_vectors() {
    assert_eq!(Direction::Up.offset(), (0, 1));
    assert_eq!(Direction::Left.offset(), (-1, 0));
    assert_eq!(Direction::Right.offset(), (1, 0));
    assert_eq!(Direction::Down.offset(), (0, -1));
}

#[test]
fn opposites() {
    assert_eq!(Direction::Up.opposite(), Direction::Down);
    assert_eq!(Direction::Down.opposite(), Direction::Up);
    assert_eq!(Direction::Left.opposite(), Direction::Right);
    assert_eq!(Direction::Right.opposite(), Direction::Left);
    for index in 0..4 {
        let direction = Direction::new(index);
        let there = direction.offset();
        let back = direction.opposite().offset();
        assert_eq!((there.0 + back.0, there.1 + back.1), (0, 0));
        assert_eq!(direction.opposite().index(), 3 - index);
    }
}
