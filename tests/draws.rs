use quickcheck::numbers::{i8_of_draw, u64_of_draw, u8_of_draw};
use quickcheck::sequences::vec_of_length;
use quickcheck::tester::count_step;
use quickcheck::text::{char_of_draw, string_of_length};
use quickcheck::{Gen, Status};

#[test]
fn integer_draws_take_the_problem_value_on_a_zero_roll() {
    assert_eq!(u8_of_draw(0, 1, 77), 1);
    assert_eq!(u8_of_draw(0, u8::MAX, 77), u8::MAX);
    assert_eq!(u8_of_draw(3, 0, 77), 77);
    assert_eq!(i8_of_draw(0, i8::MIN, 5), i8::MIN);
    assert_eq!(i8_of_draw(9, 0, -5), -5);
    assert_eq!(u64_of_draw(0, u64::MAX, 1), u64::MAX);
}

#[test]
fn character_draws_follow_their_pool() {
    assert_eq!(char_of_draw(10, 0x41, ' '), 'A');
    assert_eq!(char_of_draw(55, 0xD7FF, ' '), '\u{D7FF}');
    assert_eq!(char_of_draw(55, 0xD800, ' '), '\u{E000}');
    assert_eq!(char_of_draw(70, 0, '9'), '9');
    assert_eq!(char_of_draw(87, 0, '\u{1680}'), '\u{1680}');
    assert_eq!(char_of_draw(92, 0x2003, ' '), '\u{2003}');
}

#[test]
fn length_driven_draws_have_that_length() {
    let mut g = Gen::new(7);
    let v: Vec<u16> = vec_of_length(&mut g, 13);
    assert_eq!(v.len(), 13);
    let s = string_of_length(&mut g, 9);
    assert_eq!(s.chars().count(), 9);
    assert_eq!(g.size(), 7);
}

#[test]
fn runner_step_counts_passes_and_stops_on_failure() {
    assert_eq!(count_step(4, Status::Pass), Some(5));
    assert_eq!(count_step(4, Status::Discard), Some(4));
    assert_eq!(count_step(4, Status::Fail), None);
}
