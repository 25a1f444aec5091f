use udp2raw_ng::{ReplayError, ReplayWindow};

#[test]
fn accepts_reordering_and_rejects_duplicates() {
    let mut window = ReplayWindow::new(128);
    assert_eq!(window.accept(10), Ok(()));
    assert_eq!(window.accept(12), Ok(()));
    assert_eq!(window.accept(11), Ok(()));
    assert_eq!(window.accept(11), Err(ReplayError::Duplicate));
}

#[test]
fn rejects_packets_outside_window() {
    let mut window = ReplayWindow::new(64);
    window.accept(1).expect("first packet");
    window.accept(100).expect("advance window");
    assert_eq!(window.accept(1), Err(ReplayError::TooOld));
}

#[test]
fn the_oldest_number_of_the_window_is_still_accepted() {
    let mut window = ReplayWindow::new(64);
    window.accept(100).expect("first packet");
    assert_eq!(window.accept(36), Err(ReplayError::TooOld));
    assert_eq!(window.accept(37), Ok(()));
    assert_eq!(window.accept(37), Err(ReplayError::Duplicate));
}

#[test]
fn no_number_is_accepted_twice() {
    let mut window = ReplayWindow::new(100);
    let numbers = [0u64, 5, 3, 250, 200, 151, 5, 250, 349, 249, 250, 200, 448, 349];
    let mut accepted: Vec<u64> = Vec::new();
    for number in numbers {
        if window.accept(number).is_ok() {
            assert!(!accepted.contains(&number));
            accepted.push(number);
        }
    }
    assert_eq!(accepted, vec![0, 5, 3, 250, 200, 151, 349, 448]);
}

#[test]
fn width_and_highest_are_reported() {
    let mut window = ReplayWindow::new(70);
    assert_eq!(window.width(), 70);
    assert_eq!(window.highest(), None);
    window.accept(u64::MAX).expect("largest number");
    assert_eq!(window.highest(), Some(u64::MAX));
    window.accept(u64::MAX - 69).expect("oldest number");
    assert_eq!(window.accept(u64::MAX - 70), Err(ReplayError::TooOld));
    assert_eq!(window.highest(), Some(u64::MAX));
}
