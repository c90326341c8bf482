use waternet::data::{
    apply_scaler, check_dataset, check_labels, dataset_from_rows, normalize_features, scale_value,
    split_data, Cell, Sample,
};
use waternet::errors::NetError;
use waternet::fixed::{fx_bce_loss, fx_sigmoid, fx_tanh, FX_HALF, FX_ONE};
use waternet::model::{ModelRecord, NeuralNetwork};

const ONE: i64 = 65536;
const HALF: i64 = 32768;

fn full_row(vals: [i64; 15]) -> Vec<Cell> {
    vals.iter().map(|v| Cell::Value(*v)).collect()
}

fn sample(features: [i64; 14], label: i64) -> Sample {
    Sample { features: features.to_vec(), label }
}

fn zero_record(hidden: usize) -> ModelRecord {
    ModelRecord {
        input_size: 14,
        hidden_size: hidden,
        output_size: 1,
        weights1: vec![vec![0i64; hidden]; 14],
        weights2: vec![vec![0i64]; hidden],
        bias1: vec![0i64; hidden],
        bias2: vec![0i64],
    }
}

#[test]
fn parsing_is_deterministic() {
    let rows: Vec<Vec<Cell>> = vec![
        full_row([1, 2, 3, 4, 5, 6, 7, 8, 9, 10, 11, 12, 13, 14, 0]),
        full_row([10, 9, 8, 7, 6, 5, 4, 3, 2, 1, 0, -1, -2, -3, ONE]),
    ];
    let a = dataset_from_rows(&rows).unwrap();
    let b = dataset_from_rows(&rows).unwrap();
    assert_eq!(a.len(), b.len());
    for k in 0..a.len() {
        assert_eq!(a[k].features, b[k].features);
        assert_eq!(a[k].label, b[k].label);
    }
}

#[test]
fn short_row_is_silently_excluded() {
    let mut short: Vec<Cell> = Vec::new();
    for v in 0..13i64 {
        short.push(Cell::Value(v));
    }
    let rows: Vec<Vec<Cell>> = vec![
        short,
        full_row([1, 2, 3, 4, 5, 6, 7, 8, 9, 10, 11, 12, 13, 14, ONE]),
    ];
    let d = dataset_from_rows(&rows).unwrap();
    assert_eq!(d.len(), 1);
    assert_eq!(d[0].label, ONE);
}

#[test]
fn invalid_cell_drops_row_and_empty_dataset_errors() {
    let mut bad = full_row([1, 2, 3, 4, 5, 6, 7, 8, 9, 10, 11, 12, 13, 14, 0]);
    bad[3] = Cell::Invalid;
    let rows: Vec<Vec<Cell>> = vec![bad];
    match dataset_from_rows(&rows) {
        Err(NetError::DataError) => {}
        _ => panic!("expected a data error for an empty dataset"),
    }
}

#[test]
fn normalization_maps_bounds_to_endpoints() {
    // column 0 spans 10..30, every other column is constant (zero range)
    let mut data = vec![
        sample([10, 5, 5, 5, 5, 5, 5, 5, 5, 5, 5, 5, 5, 5], 0),
        sample([20, 5, 5, 5, 5, 5, 5, 5, 5, 5, 5, 5, 5, 5], ONE),
        sample([30, 5, 5, 5, 5, 5, 5, 5, 5, 5, 5, 5, 5, 5], 0),
    ];
    let (mins, maxs) = normalize_features(&mut data);
    assert_eq!(mins[0], 10);
    assert_eq!(maxs[0], 30);
    assert_eq!(data[0].features[0], 0);
    assert_eq!(data[1].features[0], HALF);
    assert_eq!(data[2].features[0], ONE);
    for k in 0..3 {
        for i in 1..14 {
            assert_eq!(data[k].features[i], HALF);
        }
        assert!(data[k].features.iter().all(|v| 0 <= *v && *v <= ONE));
    }
    assert_eq!(data[1].label, ONE);
}

#[test]
fn scale_value_exact_and_apply_scaler_shape_error() {
    assert_eq!(scale_value(5, 0, 10), HALF);
    assert_eq!(scale_value(0, 0, 10), 0);
    assert_eq!(scale_value(10, 0, 10), ONE);
    assert_eq!(scale_value(7, 7, 7), HALF);
    let features = vec![1i64; 14];
    let mins = vec![0i64; 13];
    let maxs = vec![2i64; 14];
    match apply_scaler(&features, &mins, &maxs) {
        Err(NetError::ShapeError) => {}
        _ => panic!("expected a shape error for a 13-entry scaler"),
    }
    let mins14 = vec![0i64; 14];
    let scaled = apply_scaler(&features, &mins14, &maxs).unwrap();
    assert_eq!(scaled, vec![HALF; 14]);
}

#[test]
fn split_keeps_every_sample_and_sizes() {
    let mut data: Vec<Sample> = Vec::new();
    for k in 0..10i64 {
        data.push(sample([k; 14], k));
    }
    let mut rng = <rand::rngs::StdRng as rand::SeedableRng>::seed_from_u64(11);
    let (a, b) = split_data(&data, 7, 10, &mut rng);
    assert_eq!(a.len(), 7);
    assert_eq!(b.len(), 3);
    let mut labels: Vec<i64> = a.iter().chain(b.iter()).map(|s| s.label).collect();
    labels.sort();
    assert_eq!(labels, (0..10i64).collect::<Vec<i64>>());
    for s in a.iter().chain(b.iter()) {
        assert_eq!(s.features, vec![s.label; 14]);
    }
}

#[test]
fn activation_values_are_exact() {
    assert_eq!(fx_tanh(0), 0);
    assert_eq!(fx_tanh(ONE), HALF);
    assert_eq!(fx_tanh(-ONE), -HALF);
    assert_eq!(fx_sigmoid(0), HALF);
    assert!(fx_sigmoid(10 * ONE) > HALF);
    assert!(fx_sigmoid(-10 * ONE) < HALF);
    // loss of probability one half against target one: exactly one
    assert_eq!(fx_bce_loss(HALF, ONE), ONE);
    assert_eq!(fx_bce_loss(HALF, 0), ONE);
    assert!(fx_bce_loss(ONE - 1, ONE) < fx_bce_loss(HALF, ONE));
    assert!(fx_bce_loss(1, ONE) > fx_bce_loss(HALF, ONE));
}

#[test]
fn constructor_rejects_wrong_sizes() {
    let mut rng = <rand::rngs::StdRng as rand::SeedableRng>::seed_from_u64(3);
    match NeuralNetwork::new(13, 16, 1, &mut rng) {
        Err(NetError::ShapeError) => {}
        _ => panic!("expected a shape error for input size 13"),
    }
    match NeuralNetwork::new(14, 16, 2, &mut rng) {
        Err(NetError::ShapeError) => {}
        _ => panic!("expected a shape error for output size 2"),
    }
    assert!(NeuralNetwork::new(14, 16, 1, &mut rng).is_ok());
}

#[test]
fn predictor_rejects_13_element_vector() {
    let nn = NeuralNetwork::from_record(zero_record(4)).unwrap();
    let short = vec![0i64; 13];
    match nn.predict_with_probability(&short) {
        Err(NetError::ShapeError) => {}
        _ => panic!("expected a shape error for a 13-element input"),
    }
    let long = vec![0i64; 15];
    assert!(nn.predict_with_probability(&long).is_err());
    assert!(nn.predict_with_probability(&vec![0i64; 14]).is_ok());
}

#[test]
fn forward_pass_is_deterministic() {
    let mut rng = <rand::rngs::StdRng as rand::SeedableRng>::seed_from_u64(21);
    let nn = NeuralNetwork::new(14, 8, 1, &mut rng).unwrap();
    let x: Vec<i64> = (0..14i64).map(|v| v * 1000).collect();
    let (p1, c1) = nn.predict_with_probability(&x).unwrap();
    let (p2, c2) = nn.predict_with_probability(&x).unwrap();
    assert_eq!(p1, p2);
    assert_eq!(c1, c2);
    let h1 = nn.forward(&x).unwrap();
    let h2 = nn.forward(&x).unwrap();
    assert_eq!(h1, h2);
    assert_eq!(
        nn.forward_output(&h1).unwrap(),
        nn.forward_output(&h2).unwrap()
    );
}

#[test]
fn record_round_trip_reproduces_predictions() {
    let mut rng = <rand::rngs::StdRng as rand::SeedableRng>::seed_from_u64(5);
    let nn = NeuralNetwork::new(14, 6, 1, &mut rng).unwrap();
    let rec = nn.to_record();
    let nn2 = NeuralNetwork::from_record(rec).unwrap();
    for trial in 0..5i64 {
        let x: Vec<i64> = (0..14i64).map(|v| (v * 700 + trial * 37) % ONE).collect();
        let (p1, c1) = nn.predict_with_probability(&x).unwrap();
        let (p2, c2) = nn2.predict_with_probability(&x).unwrap();
        assert_eq!(p1, p2);
        assert_eq!(c1, c2);
    }
}

#[test]
fn from_record_rejects_bad_dimensions() {
    let mut rec = zero_record(4);
    rec.bias1 = vec![0i64; 3];
    match NeuralNetwork::from_record(rec) {
        Err(NetError::ShapeError) => {}
        _ => panic!("expected a shape error for a mismatched bias length"),
    }
    let mut rec2 = zero_record(4);
    rec2.input_size = 13;
    assert!(NeuralNetwork::from_record(rec2).is_err());
}

#[test]
fn evaluate_counts_exact_matches() {
    // all-zero parameters give probability exactly one half, hence class 0
    let nn = NeuralNetwork::from_record(zero_record(4)).unwrap();
    let data = vec![sample([0; 14], 0), sample([ONE; 14], ONE)];
    assert!(check_dataset(&data));
    assert!(check_labels(&data));
    assert_eq!(nn.evaluate(&data), HALF);
    let zeros_only = vec![sample([0; 14], 0)];
    assert_eq!(nn.evaluate(&zeros_only), ONE);
}

#[test]
fn checks_reject_bad_shapes_and_labels() {
    let good = vec![sample([1; 14], 0)];
    assert!(check_dataset(&good));
    let bad_shape = vec![Sample { features: vec![1i64; 13], label: 0 }];
    assert!(!check_dataset(&bad_shape));
    let bad_label = vec![sample([1; 14], ONE + 1)];
    assert!(check_dataset(&bad_label));
    assert!(!check_labels(&bad_label));
    let neg_label = vec![sample([1; 14], -5)];
    assert!(!check_labels(&neg_label));
}

#[test]
fn initial_parameters_lie_in_unit_range() {
    let mut rng = <rand::rngs::StdRng as rand::SeedableRng>::seed_from_u64(9);
    let nn = NeuralNetwork::new(14, 16, 1, &mut rng).unwrap();
    let rec = nn.to_record();
    for row in rec.weights1.iter().chain(rec.weights2.iter()) {
        for w in row {
            assert!(-ONE <= *w && *w < ONE);
        }
    }
    for b in rec.bias1.iter().chain(rec.bias2.iter()) {
        assert!(-ONE <= *b && *b < ONE);
    }
}
