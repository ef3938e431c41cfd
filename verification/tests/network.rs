use neural_net::network::{batch_bounds, batch_count, batch_plan, layer_shapes, EpochSchedule, LayerShape};
use neural_net::wasm_network::{check_architecture, check_data_shapes, DataSplit, ShapeError};

#[test]
fn layer_shapes_follow_the_architecture() {
    let l = layer_shapes(&[784, 100, 10]);
    assert_eq!(
        l,
        vec![
            LayerShape { inputs: 784, outputs: 100, is_output: false },
            LayerShape { inputs: 100, outputs: 10, is_output: true },
        ]
    );
}

#[test]
fn batch_count_rounds_up() {
    assert_eq!(batch_count(10, 4), 3);
    assert_eq!(batch_count(8, 4), 2);
    assert_eq!(batch_count(0, 4), 0);
    assert_eq!(batch_count(60000, 128), 469);
}

#[test]
fn batch_bounds_clip_the_last_batch() {
    assert_eq!(batch_bounds(0, 4, 10), (0, 4));
    assert_eq!(batch_bounds(1, 4, 10), (4, 4));
    assert_eq!(batch_bounds(2, 4, 10), (8, 2));
}

#[test]
fn batch_plan_covers_every_column_once() {
    let plan = batch_plan(10, 4);
    assert_eq!(plan, vec![(0, 4), (4, 4), (8, 2)]);
    let mut seen = vec![0; 10];
    for (start, width) in plan {
        for c in start..start + width {
            seen[c] += 1;
        }
    }
    assert!(seen.iter().all(|&n| n == 1));
}

#[test]
fn architecture_needs_two_layers() {
    assert_eq!(check_architecture(&[784]), Err(ShapeError::TooFewLayers));
    assert_eq!(check_architecture(&[]), Err(ShapeError::TooFewLayers));
    assert_eq!(check_architecture(&[784, 10]), Ok(()));
}

#[test]
fn data_shapes_are_checked_in_order() {
    let arch = [784, 100, 10];
    assert_eq!(check_data_shapes(&arch, (784, 5), (10, 5), DataSplit::Train), Ok(()));
    assert_eq!(
        check_data_shapes(&arch, (784, 5), (10, 4), DataSplit::Train),
        Err(ShapeError::ColumnMismatch)
    );
    assert_eq!(
        check_data_shapes(&arch, (783, 5), (9, 5), DataSplit::Test),
        Err(ShapeError::FirstLayer(DataSplit::Test, 783))
    );
    assert_eq!(
        check_data_shapes(&arch, (784, 5), (9, 5), DataSplit::Train),
        Err(ShapeError::LastLayer(DataSplit::Train, 9))
    );
}

#[test]
fn epoch_schedule_counts_and_stops() {
    let mut s = EpochSchedule::new(2);
    assert!(s.run_next(true));
    assert_eq!(s.finish_epoch(), 1);
    assert!(!s.run_next(false));
    assert!(s.run_next(true));
    assert_eq!(s.finish_epoch(), 2);
    assert!(!s.run_next(true));
    assert_eq!(s.completed(), 2);
}
