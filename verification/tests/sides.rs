use cuberithm::side::{Color, Side};

use Color::{Blue, Green, Orange, Red, Unspecified, White, Yellow};

fn sample() -> Side {
    // Column by column, each from the bottom up.
    Side { colors: [[White, Orange, Green], [Red, Blue, Yellow], [Unspecified, White, Red]] }
}

#[test]
fn colours_from_letters() {
    assert_eq!(Color::from_char('W'), White);
    assert_eq!(Color::from_char('O'), Orange);
    assert_eq!(Color::from_char('G'), Green);
    assert_eq!(Color::from_char('R'), Red);
    assert_eq!(Color::from_char('B'), Blue);
    assert_eq!(Color::from_char('Y'), Yellow);
    assert_eq!(Color::from_char('N'), Unspecified);
}

#[test]
fn letters_of_colours() {
    for c in ['W', 'O', 'G', 'R', 'B', 'Y', 'N'] {
        assert_eq!(Color::from_char(c).letter(), c);
    }
}

#[test]
fn default_colour_and_side() {
    assert_eq!(Color::default(), Unspecified);
    assert_eq!(Side::default(), Side { colors: [[Unspecified; 3]; 3] });
}

#[test]
fn clockwise_turn_of_a_side() {
    let turned = sample().rotate_clockwise();
    assert_eq!(turned.colors, [[Unspecified, Red, White], [White, Blue, Orange], [Red, Yellow, Green]]);
}

#[test]
fn counterclockwise_turn_of_a_side() {
    let turned = sample().rotate_counterclockwise();
    assert_eq!(turned.colors, [[Green, Yellow, Red], [Orange, Blue, White], [White, Red, Unspecified]]);
}

#[test]
fn side_turns_cancel() {
    let side = sample();
    assert_eq!(side.rotate_clockwise().rotate_counterclockwise(), side);
    assert_eq!(side.rotate_clockwise().rotate_clockwise().rotate_clockwise().rotate_clockwise(), side);
    assert_eq!(side.rotate_clockwise().rotate_clockwise().rotate_clockwise(), side.rotate_counterclockwise());
    assert_ne!(side.rotate_clockwise(), side);
}

#[test]
fn rows_and_columns() {
    let side = sample();
    assert_eq!(side.top(), [Green, Yellow, Red]);
    assert_eq!(side.bottom(), [White, Red, Unspecified]);
    assert_eq!(side.left(), [White, Orange, Green]);
    assert_eq!(side.right(), [Unspecified, White, Red]);
}

#[test]
fn replacing_rows_and_columns() {
    let side = sample();
    let new = [Blue, Blue, Orange];
    assert_eq!(side.replace_top(&new).colors, [[White, Orange, Blue], [Red, Blue, Blue], [Unspecified, White, Orange]]);
    assert_eq!(side.replace_bottom(&new).colors, [[Blue, Orange, Green], [Blue, Blue, Yellow], [Orange, White, Red]]);
    assert_eq!(side.replace_left(&new).colors, [[Blue, Blue, Orange], [Red, Blue, Yellow], [Unspecified, White, Red]]);
    assert_eq!(side.replace_right(&new).colors, [[White, Orange, Green], [Red, Blue, Yellow], [Blue, Blue, Orange]]);
    assert_eq!(side.replace_top(&new).top(), new);
    assert_eq!(side.replace_left(&side.left()), side);
}
