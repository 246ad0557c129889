use emergence_lib::amount::{net, saturate, scale, sum, UNIT};
use emergence_lib::curves::{BottomClampedLine, Mapping, Point};
use emergence_lib::organisms::units::PheromoneTransducer;

#[test]
fn amounts_saturate() {
    assert_eq!(saturate(0), 0);
    assert_eq!(saturate(i64::MAX as i128), i64::MAX);
    assert_eq!(saturate(i64::MAX as i128 + 1), i64::MAX);
    assert_eq!(saturate(i64::MIN as i128 - 1), i64::MIN);
    assert_eq!(saturate(i128::MAX), i64::MAX);
    assert_eq!(saturate(i128::MIN), i64::MIN);
    assert_eq!(sum(2, 3), 5);
    assert_eq!(sum(i64::MAX, i64::MAX), i64::MAX);
    assert_eq!(sum(i64::MIN, -1), i64::MIN);
    assert_eq!(sum(i64::MAX, i64::MIN), -1);
    assert_eq!(net(1, 2, 3), 0);
    assert_eq!(net(i64::MAX, i64::MAX, i64::MAX), i64::MAX);
    assert_eq!(net(i64::MIN, 0, i64::MAX), i64::MIN);
    assert_eq!(net(i64::MAX, 1, 1), i64::MAX);
}

#[test]
fn scale_takes_a_fraction() {
    assert_eq!(scale(1_000, UNIT), 1_000);
    assert_eq!(scale(1_000, 0), 0);
    assert_eq!(scale(1_000, 250_000), 250);
    assert_eq!(scale(7, 500_000), 3);
    assert_eq!(scale(-7, 500_000), -3);
    assert_eq!(scale(i64::MAX, UNIT), i64::MAX);
    assert_eq!(scale(i64::MIN, UNIT), i64::MIN);
    assert_eq!(scale(i64::MIN, 500_000), i64::MIN / 2);
}

#[test]
fn the_line_is_flat_below_its_first_point() {
    let line = BottomClampedLine::new_from_points(Point { x: 10, y: 5 }, Point { x: 20, y: 25 });
    assert_eq!(line.map(i64::MIN), 5);
    assert_eq!(line.map(0), 5);
    assert_eq!(line.map(10), 5);
}

#[test]
fn the_line_runs_through_both_points() {
    let line = BottomClampedLine::new_from_points(Point { x: 10, y: 5 }, Point { x: 20, y: 25 });
    assert_eq!(line.map(11), 7);
    assert_eq!(line.map(15), 15);
    assert_eq!(line.map(20), 25);
    assert_eq!(line.map(30), 45);
    let gentle = BottomClampedLine::new_from_points(Point { x: 0, y: 0 }, Point { x: 3, y: 1 });
    assert_eq!(gentle.map(1), 0);
    assert_eq!(gentle.map(2), 0);
    assert_eq!(gentle.map(3), 1);
    assert_eq!(gentle.map(5), 1);
    assert_eq!(gentle.map(6), 2);
}

#[test]
fn the_line_stops_at_the_top_of_the_range() {
    let steep = BottomClampedLine::new_from_points(Point { x: 0, y: 0 }, Point { x: 1, y: i64::MAX });
    assert_eq!(steep.map(1), i64::MAX);
    assert_eq!(steep.map(2), i64::MAX);
    assert_eq!(steep.map(i64::MAX), i64::MAX);
    let wide = BottomClampedLine::new_from_points(
        Point { x: i64::MIN, y: i64::MIN },
        Point { x: i64::MAX, y: i64::MAX },
    );
    assert_eq!(wide.map(i64::MIN), i64::MIN);
    assert_eq!(wide.map(0), 0);
    assert_eq!(wide.map(-1), -1);
    assert_eq!(wide.map(i64::MAX), i64::MAX);
    let flat = BottomClampedLine::new_from_points(Point { x: 0, y: 9 }, Point { x: 1, y: 9 });
    assert_eq!(flat.map(i64::MAX), 9);
}

#[test]
fn no_attraction_and_no_repulsion_is_neutral() {
    let transducer = PheromoneTransducer::<BottomClampedLine>::default();
    assert_eq!(transducer.signal_to_weight(0, 0), UNIT);
    assert_eq!(transducer.signal_to_weight(-5, -9), UNIT);
    assert_eq!(transducer.signal_to_weight(4_000, 4_000), UNIT);
    assert_eq!(transducer.signal_to_weight(i64::MAX, i64::MAX), UNIT);
}

#[test]
fn the_default_transducer_rises_to_one_at_a_hundredth() {
    let transducer = PheromoneTransducer::<BottomClampedLine>::default();
    assert_eq!(transducer.signal_to_weight(10_000, 0), 2 * UNIT);
    assert_eq!(transducer.signal_to_weight(5_000, 0), UNIT + 500_000);
    assert_eq!(transducer.signal_to_weight(0, 5_000), 500_000);
    assert_eq!(transducer.signal_to_weight(1, 0), UNIT + 100);
    assert_eq!(transducer.signal_to_weight(2_500, 7_500), 500_000);
}

#[test]
fn a_weight_can_be_negative() {
    let transducer = PheromoneTransducer::<BottomClampedLine>::default();
    assert_eq!(transducer.signal_to_weight(0, 30_000), -2 * UNIT);
}

#[test]
fn a_weight_stops_at_the_ends_of_the_range() {
    let transducer = PheromoneTransducer::<BottomClampedLine>::default();
    assert_eq!(transducer.signal_to_weight(i64::MAX, 0), i64::MAX);
    assert_eq!(transducer.signal_to_weight(0, i64::MAX), UNIT - i64::MAX);
    let low = PheromoneTransducer::new(Point { x: 0, y: i64::MIN }, Point { x: 1, y: 0 });
    assert_eq!(low.signal_to_weight(0, 1), i64::MIN + UNIT);
    assert_eq!(low.signal_to_weight(0, 2), i64::MIN);
    assert_eq!(low.signal_to_weight(1, 0), i64::MAX);
}

#[test]
fn more_attraction_never_gives_less_weight() {
    let transducers = [
        PheromoneTransducer::<BottomClampedLine>::default(),
        PheromoneTransducer::new(Point { x: -50, y: -7 }, Point { x: 1_000, y: 3 }),
        PheromoneTransducer::with_curve(BottomClampedLine::new_from_points(
            Point { x: 0, y: 0 },
            Point { x: 1, y: i64::MAX },
        )),
    ];
    let strengths = [i64::MIN, -1_000, -50, -49, 0, 1, 2, 999, 1_000, 10_000, 1 << 40, i64::MAX];
    for transducer in &transducers {
        for repulsion in strengths {
            for pair in strengths.windows(2) {
                let lower = transducer.signal_to_weight(pair[0], repulsion);
                let higher = transducer.signal_to_weight(pair[1], repulsion);
                assert!(lower <= higher);
                let with_less = transducer.signal_to_weight(repulsion, pair[0]);
                let with_more = transducer.signal_to_weight(repulsion, pair[1]);
                assert!(with_more <= with_less);
            }
        }
    }
}
