use tetris::supply::deal;
use tetris::{DrawSource, PieceGenerator, PieceShape};

const STRAIGHT: PieceShape = PieceShape::Straight;
const L: PieceShape = PieceShape::LShape;
const BACK_L: PieceShape = PieceShape::BackwardLShape;
const T: PieceShape = PieceShape::TShape;
const RIGHT_ZIG: PieceShape = PieceShape::RightZig;
const LEFT_ZIG: PieceShape = PieceShape::LeftZig;
const SQUARE: PieceShape = PieceShape::Square;

fn is_permutation_of_all(shapes: &[PieceShape]) -> bool {
    let all = [STRAIGHT, L, BACK_L, T, RIGHT_ZIG, LEFT_ZIG, SQUARE];
    shapes.len() == 7 && all.iter().all(|shape| shapes.iter().filter(|s| *s == shape).count() == 1)
}

#[test]
fn deal_with_zero_picks_takes_the_front_each_time() {
    assert_eq!(deal([0, 0, 0, 0, 0, 0]), vec![STRAIGHT, SQUARE, LEFT_ZIG, RIGHT_ZIG, T, BACK_L, L]);
}

#[test]
fn deal_follows_the_picks() {
    assert_eq!(deal([6, 0, 0, 0, 0, 0]), vec![SQUARE, STRAIGHT, LEFT_ZIG, RIGHT_ZIG, T, BACK_L, L]);
    assert_eq!(deal([3, 1, 4, 1, 5, 9]), vec![T, L, RIGHT_ZIG, LEFT_ZIG, BACK_L, SQUARE, STRAIGHT]);
    assert_eq!(deal([6, 5, 4, 3, 2, 1]), vec![SQUARE, LEFT_ZIG, RIGHT_ZIG, T, BACK_L, L, STRAIGHT]);
}

#[test]
fn deal_reduces_picks_to_the_pool() {
    assert_eq!(
        deal([100, 200, 300, 400, 500, 600]),
        vec![BACK_L, SQUARE, STRAIGHT, RIGHT_ZIG, LEFT_ZIG, T, L]
    );
    assert!(is_permutation_of_all(&deal([usize::MAX; 6])));
}

#[test]
fn every_deal_holds_each_shape_once() {
    for a in 0..7 {
        for b in 0..6 {
            for c in 0..5 {
                assert!(is_permutation_of_all(&deal([a, b, c, a + b, b + c, a + c])));
            }
        }
    }
}

#[test]
fn scripted_draws_go_round_the_script() {
    let mut source = DrawSource::scripted(vec![10, 3, 7]);
    assert_eq!(source.draw(7), 3);
    assert_eq!(source.draw(7), 3);
    assert_eq!(source.draw(7), 0);
    assert_eq!(source.draw(4), 2);
    assert_eq!(source.draw(2), 1);
    assert_eq!(source.draw(100), 7);
}

#[test]
fn empty_script_draws_zero() {
    let mut source = DrawSource::scripted(Vec::new());
    assert_eq!(source.draw(7), 0);
    assert_eq!(source.draw(1), 0);
}

#[test]
fn random_draws_stay_below_the_bound() {
    let mut source = DrawSource::Random;
    for bound in 1..8 {
        for _ in 0..200 {
            assert!(source.draw(bound) < bound);
        }
    }
}

#[test]
fn random_draws_reach_every_number_below_the_bound() {
    let mut source = DrawSource::Random;
    let mut seen = [false; 7];
    for _ in 0..2000 {
        seen[source.draw(7)] = true;
    }
    assert_eq!(seen, [true; 7]);
}

#[test]
fn scripted_supply_hands_out_the_dealt_shapes() {
    let mut supply = PieceGenerator::with_source(DrawSource::scripted(vec![1, 2, 3, 4]));
    let mut shapes = Vec::new();
    for _ in 0..14 {
        shapes.push(supply.pop().shape());
    }
    assert_eq!(
        shapes,
        vec![
            L, BACK_L, T, STRAIGHT, SQUARE, RIGHT_ZIG, LEFT_ZIG, T, RIGHT_ZIG, L, BACK_L, STRAIGHT,
            SQUARE, LEFT_ZIG
        ]
    );
}

#[test]
fn popped_piece_stands_on_its_spawn_cells() {
    let mut supply = PieceGenerator::with_source(DrawSource::scripted(vec![6]));
    let piece = supply.pop();
    assert_eq!(piece.shape(), SQUARE);
    assert_eq!(piece.cells(), [24, 25, 34, 35]);
}

#[test]
fn seven_from_a_batch_start_are_all_seven_shapes() {
    let mut supply = PieceGenerator::new();
    for _ in 0..50 {
        let mut shapes = Vec::new();
        for _ in 0..7 {
            shapes.push(supply.pop().shape());
        }
        assert!(is_permutation_of_all(&shapes));
    }
}

#[test]
fn random_supply_shuffles() {
    let mut supply = PieceGenerator::new();
    let mut firsts = Vec::new();
    for _ in 0..200 {
        firsts.push(supply.pop().shape());
        for _ in 0..6 {
            supply.pop();
        }
    }
    let first = firsts[0];
    assert!(firsts.iter().any(|shape| *shape != first));
}
