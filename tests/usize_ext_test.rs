use ttt_rs::UsizeExt;

#[test]
fn it_returns_the_approximate_sqrt_of_usize() {
    assert_eq!(3, 9usize.sqrt());
    assert_eq!(4, 16usize.sqrt());
    assert_eq!(5, 25usize.sqrt());
}

#[test]
fn it_checks_if_num_is_perfect_square() {
    assert_eq!(true, 9usize.is_perfect_sq());
    assert_eq!(true, 16usize.is_perfect_sq());
    assert_eq!(false, 24usize.is_perfect_sq());
}

#[test]
fn it_rounds_the_square_root_down() {
    assert_eq!(0, 0usize.sqrt());
    assert_eq!(1, 1usize.sqrt());
    assert_eq!(1, 3usize.sqrt());
    assert_eq!(4, 24usize.sqrt());
    assert_eq!(10, 120usize.sqrt());
    assert_eq!(u32::MAX as usize, usize::MAX.sqrt());
}

#[test]
fn it_checks_squares_at_the_edges() {
    assert_eq!(true, 0usize.is_perfect_sq());
    assert_eq!(true, 1usize.is_perfect_sq());
    assert_eq!(false, 2usize.is_perfect_sq());
    assert_eq!(false, usize::MAX.is_perfect_sq());
    let big = (u32::MAX as usize) * (u32::MAX as usize);
    assert_eq!(true, big.is_perfect_sq());
    assert_eq!(false, (big - 1).is_perfect_sq());
}
