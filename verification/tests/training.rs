use waternet::data::Sample;
use waternet::model::{ModelRecord, NeuralNetwork};

const ONE: i64 = 65536;

fn sample(features: [i64; 14], label: i64) -> Sample {
    Sample { features: features.to_vec(), label }
}

fn separable_set() -> Vec<Sample> {
    let mut data: Vec<Sample> = Vec::new();
    for k in 0..10i64 {
        let low = ONE / 10 + k * 100;
        let high = ONE * 9 / 10 - k * 100;
        data.push(sample([low; 14], 0));
        data.push(sample([high; 14], ONE));
    }
    data
}

#[test]
fn training_separates_zero_and_one_vectors() {
    // dataset: the all-zero vector labelled 0 and the all-one vector
    // labelled 1; after training the predictor must tell them apart
    let data = vec![sample([0; 14], 0), sample([ONE; 14], ONE)];
    let val = vec![sample([0; 14], 0), sample([ONE; 14], ONE)];
    let mut rng = <rand::rngs::StdRng as rand::SeedableRng>::seed_from_u64(42);
    let mut nn = NeuralNetwork::new(14, 8, 1, &mut rng).unwrap();
    let lr = ONE / 2;
    let (acc, loss, val_acc) = nn.train(&data, 300, lr, &val, &mut rng);
    assert_eq!(acc.len(), 300);
    assert_eq!(loss.len(), 300);
    assert_eq!(val_acc.len(), 300);
    assert_eq!(*val_acc.last().unwrap(), ONE);
    let (_, class_zero) = nn.predict_with_probability(&vec![0i64; 14]).unwrap();
    let (_, class_one) = nn.predict_with_probability(&vec![ONE; 14]).unwrap();
    assert_eq!(class_zero, 0);
    assert_eq!(class_one, 1);
    assert_eq!(nn.evaluate(&val), ONE);
}

#[test]
fn loss_trend_falls_on_separable_data() {
    // a linearly separable two-class set: class 0 near 0.1, class 1 near 0.9
    let data = separable_set();
    let val = separable_set();
    let mut rng = <rand::rngs::StdRng as rand::SeedableRng>::seed_from_u64(7);
    let mut nn = NeuralNetwork::new(14, 8, 1, &mut rng).unwrap();
    let lr = ONE / 4;
    let epochs = 100usize;
    let (_, loss, _) = nn.train(&data, epochs, lr, &val, &mut rng);
    assert_eq!(loss.len(), epochs);
    let head: i128 = loss[..10].iter().map(|v| *v as i128).sum();
    let tail: i128 = loss[epochs - 10..].iter().map(|v| *v as i128).sum();
    assert!(
        tail < head,
        "mean loss over the last tenth must fall below the first tenth"
    );
    for v in loss.iter() {
        assert!(*v >= 0);
    }
}

#[test]
fn training_histories_have_one_entry_per_epoch() {
    let data = vec![sample([0; 14], 0), sample([ONE; 14], ONE)];
    let mut rng = <rand::rngs::StdRng as rand::SeedableRng>::seed_from_u64(1);
    let mut nn = NeuralNetwork::new(14, 4, 1, &mut rng).unwrap();
    let (acc, loss, val_acc) = nn.train(&data, 7, ONE / 10, &data, &mut rng);
    assert_eq!(acc.len(), 7);
    assert_eq!(loss.len(), 7);
    assert_eq!(val_acc.len(), 7);
    for a in acc.iter().chain(val_acc.iter()) {
        assert!(0 <= *a && *a <= ONE);
    }
    for l in loss.iter() {
        assert!(*l >= 0);
    }

    let before = nn.to_record();
    let (acc0, loss0, val0) = nn.train(&data, 0, ONE / 10, &data, &mut rng);
    assert!(acc0.is_empty() && loss0.is_empty() && val0.is_empty());
    let after = nn.to_record();
    assert_eq!(before.weights1, after.weights1);
    assert_eq!(before.weights2, after.weights2);
    assert_eq!(before.bias1, after.bias1);
    assert_eq!(before.bias2, after.bias2);
}

#[test]
fn loss_history_holds_plain_averages() {
    // all-zero parameters on one zero sample: the probability is exactly one
    // half, its loss exactly one, and the epoch's average loss exactly one
    let flat = ModelRecord {
        input_size: 14,
        hidden_size: 4,
        output_size: 1,
        weights1: vec![vec![0i64; 4]; 14],
        weights2: vec![vec![0i64]; 4],
        bias1: vec![0i64; 4],
        bias2: vec![0i64],
    };
    let mut nn = NeuralNetwork::from_record(flat).unwrap();
    let data = vec![sample([0; 14], 0)];
    let mut rng = <rand::rngs::StdRng as rand::SeedableRng>::seed_from_u64(2);
    let (_, loss, _) = nn.train(&data, 1, ONE / 10, &data, &mut rng);
    assert_eq!(loss, vec![ONE]);
}
