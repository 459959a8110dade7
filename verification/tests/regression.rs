use bmi_regression::api::index;
use bmi_regression::codec::{decode, encode};
use bmi_regression::error::Error;
use bmi_regression::fixed::{Fx, LIM, SCALE};
use bmi_regression::model::Params;
use bmi_regression::train::{epoch_step, mse_loss, train, Dataset};

fn fx(micros: i64) -> Fx {
    Fx::from_micros(micros).unwrap()
}

fn dataset(rows: &[(i64, i64)]) -> Dataset {
    let mut d = Dataset::new();
    for &(x, y) in rows {
        assert!(d.push_row(fx(x), fx(y)));
    }
    d
}

const M: i64 = SCALE; // micro-units per whole unit

#[test]
fn end_to_end_one_epoch() {
    // Two rows (bmi=20, life=70), (bmi=30, life=60); lr=1e-6; start (0, 0).
    let d = dataset(&[(20 * M, 70 * M), (30 * M, 60 * M)]);
    let lr = fx(1); // 1e-6
    let p0 = Params::zeros();

    // Predictions are all zero, so loss = (70^2 + 60^2)/2 = 4250.
    let loss = mse_loss(p0, &d).unwrap();
    assert_eq!(loss.micros(), 4250 * M);

    // d_weight = (2/2)*((0-70)*20 + (0-60)*30) = -3200
    // d_bias   = (2/2)*((0-70) + (0-60))       = -130
    // weight   = 0 - 1e-6 * -3200 = 0.0032; bias = 0.00013
    let p1 = train(p0, &d, lr, 1).unwrap();
    assert_eq!(p1.weight().micros(), 3200);
    assert_eq!(p1.bias().micros(), 130);

    // One explicit step computes the same update.
    let q1 = epoch_step(p0, &d, lr).unwrap();
    assert_eq!(q1, p1);
}

#[test]
fn zero_epochs_leave_parameters_unchanged() {
    let d = dataset(&[(20 * M, 70 * M), (30 * M, 60 * M)]);
    let p0 = Params::new(fx(123_456), fx(-789));
    let r = train(p0, &d, fx(1), 0).unwrap();
    assert_eq!(r.weight().micros(), 123_456);
    assert_eq!(r.bias().micros(), -789);
    assert_eq!(r, p0);
}

#[test]
fn predict_is_idempotent() {
    let p = Params::new(fx(3200), fx(130));
    let x = fx(27 * M);
    let a = p.predict(x).unwrap();
    let b = p.predict(x).unwrap();
    assert_eq!(a.micros(), b.micros());
    assert_eq!(a, b);
}

#[test]
fn predict_exact_value() {
    // weight=2.0, bias=1.0, bmi=10 -> 21.
    let p = Params::new(fx(2 * M), fx(1 * M));
    let r = p.predict(fx(10 * M)).unwrap();
    assert_eq!(r.micros(), 21 * M);
}

#[test]
fn predict_truncates_toward_zero() {
    // 1e-6 * 1.5 scales down to 1 micro; negated it gives -1 micro.
    let x = fx(1_500_000);
    let up = Params::new(fx(1), fx(0));
    assert_eq!(up.predict(x).unwrap().micros(), 1);
    let down = Params::new(fx(-1), fx(0));
    assert_eq!(down.predict(x).unwrap().micros(), -1);
}

#[test]
fn save_load_round_trip() {
    for &(w, b) in &[
        (0, 0),
        (3200, 130),
        (-3200, -130),
        (2 * M, 1 * M),
        (LIM, -LIM),
        (-1, 1),
    ] {
        let p = Params::new(fx(w), fx(b));
        let bytes = encode(&p);
        assert_eq!(bytes.len(), 19);
        let q = decode(&bytes).unwrap();
        assert_eq!(q.weight().micros(), w);
        assert_eq!(q.bias().micros(), b);
        assert_eq!(q, p);
    }
}

#[test]
fn decode_rejects_malformed_records() {
    let p = Params::new(fx(2 * M), fx(1 * M));
    let good = encode(&p);

    // Wrong length.
    let mut short = good.clone();
    short.pop();
    assert!(decode(&short).is_none());
    assert!(decode(&Vec::new()).is_none());

    // Wrong version byte.
    let mut vers = good.clone();
    vers[0] = 9;
    assert!(decode(&vers).is_none());

    // Invalid sign byte.
    let mut sign = good.clone();
    sign[1] = 2;
    assert!(decode(&sign).is_none());

    // Magnitude beyond the representable bound.
    let mut big = good.clone();
    let over = (LIM as u64) + 1;
    for k in 0..8 {
        big[2 + k] = (over >> (8 * k)) as u8;
    }
    assert!(decode(&big).is_none());
}

#[test]
fn serving_after_load() {
    // Persist (weight=2.0, bias=1.0), load it back, answer bmi=10 with 21.
    let saved = encode(&Params::new(fx(2 * M), fx(1 * M)));
    let model = decode(&saved).unwrap();
    let answer = model.predict(fx(10 * M)).unwrap();
    assert_eq!(answer.micros(), 21 * M);
}

#[test]
fn train_persist_serve_cycle() {
    // TRAIN: fit, persist. SERVE: load, answer. The loaded parameters are
    // bit-for-bit the trained ones, so both phases predict alike.
    let d = dataset(&[(20 * M, 70 * M), (30 * M, 60 * M)]);
    let trained = train(Params::zeros(), &d, fx(1), 25).unwrap();
    let stored = encode(&trained);
    let served = decode(&stored).unwrap();
    assert_eq!(served, trained);
    let x = fx(24 * M);
    assert_eq!(served.predict(x).unwrap(), trained.predict(x).unwrap());
}

#[test]
fn zero_features_leave_weight_at_zero() {
    // Zero variance in the features (all zero): no gradient ever reaches the
    // weight, while the bias climbs toward mean(labels) = 70.
    let d = dataset(&[(0, 70 * M), (0, 70 * M), (0, 70 * M)]);
    let p = train(Params::zeros(), &d, fx(1), 10_000).unwrap();
    assert_eq!(p.weight().micros(), 0);
    let bias = p.bias().micros();
    assert!(bias > 0);
    assert!(bias < 70 * M);
    assert!((70 * M - bias).abs() < 70 * M);
}

#[test]
fn equal_features_bias_converges_toward_mean() {
    // All bmi equal (25): the weight sees only the residual signal scaled by
    // the tiny learning rate and stays near zero, while the bias moves
    // toward mean(labels) = 65.
    let d = dataset(&[(25 * M, 70 * M), (25 * M, 60 * M)]);
    let p0 = Params::zeros();
    let p = train(p0, &d, fx(1), 100).unwrap();
    let start_gap = 65 * M;
    let end_gap = (65 * M - (p.bias().micros() + 25 * p.weight().micros())).abs();
    assert!(p.weight().micros().abs() < M / 2);
    assert!(end_gap < start_gap);
}

#[test]
fn bias_at_label_mean_is_a_fixed_point() {
    // Zero features and the bias already at the labels' common value: every
    // error is zero, so training never moves either parameter.
    let d = dataset(&[(0, 50 * M), (0, 50 * M)]);
    let p0 = Params::new(fx(7), fx(50 * M));
    let p = train(p0, &d, fx(1), 500).unwrap();
    assert_eq!(p, p0);
}

#[test]
fn empty_dataset_is_rejected() {
    let d = Dataset::new();
    assert_eq!(d.len(), 0);
    let p = Params::zeros();
    assert_eq!(train(p, &d, fx(1), 1), Err(Error::EmptyDataset));
    assert_eq!(epoch_step(p, &d, fx(1)), Err(Error::EmptyDataset));
    assert_eq!(mse_loss(p, &d), Err(Error::EmptyDataset));
    // Zero epochs never look at the data.
    assert_eq!(train(p, &d, fx(1), 0), Ok(p));
}

#[test]
fn overflow_is_reported() {
    // At the extreme of the representable range the per-row error blows up.
    let p = Params::new(fx(LIM), fx(0));
    let x = fx(LIM);
    assert_eq!(p.predict(x), Err(Error::Overflow));
    let d = dataset(&[(LIM, 0)]);
    assert_eq!(train(p, &d, fx(1), 1), Err(Error::Overflow));
    assert_eq!(mse_loss(p, &d), Err(Error::Overflow));
}

#[test]
fn from_micros_bounds() {
    assert!(Fx::from_micros(LIM).is_some());
    assert!(Fx::from_micros(-LIM).is_some());
    assert!(Fx::from_micros(LIM + 1).is_none());
    assert!(Fx::from_micros(-(LIM + 1)).is_none());
    assert_eq!(Fx::zero().micros(), 0);
    assert_eq!(fx(42).micros(), 42);
}

#[test]
fn dataset_grows_in_order() {
    let mut d = Dataset::new();
    assert_eq!(d.len(), 0);
    assert!(d.push_row(fx(1), fx(2)));
    assert!(d.push_row(fx(3), fx(4)));
    assert_eq!(d.len(), 2);
}

#[test]
fn index_reports_usage() {
    assert_eq!(
        index(),
        "Life Expectancy Prediction Server: curl -d 'bmi=<bmi>' -X POST http://localhost:8080/predict"
    );
}
