use array_kernels::{
    array_max, array_median, array_min, array_percentile, array_sort, interpolate, is_percent,
    FloatOp, KernelError,
};

fn host(op: FloatOp, x: u64, y: u64) -> u64 {
    let a: f64 = f64::from_bits(x);
    let b: f64 = f64::from_bits(y);
    match op {
        FloatOp::Add => (a + b).to_bits(),
        FloatOp::Sub => (a - b).to_bits(),
        FloatOp::Mul => (a * b).to_bits(),
        FloatOp::Div => (a / b).to_bits(),
        FloatOp::Sqrt => a.sqrt().to_bits(),
        FloatOp::Ln => a.ln().to_bits(),
        FloatOp::Exp => a.exp().to_bits(),
        FloatOp::FromCount => (x as f64).to_bits(),
        FloatOp::Floor => a.floor() as u64,
        FloatOp::Ceil => a.ceil() as u64,
    }
}

fn bits(values: &[f64]) -> Vec<u64> {
    values.iter().map(|v| v.to_bits()).collect()
}

#[test]
fn median_of_an_even_length_is_the_mean_of_the_middle_pair() {
    assert_eq!(array_median(&bits(&[1.0, 2.0, 3.0, 4.0]), &host), Ok(2.5f64.to_bits()));
    assert_eq!(array_median(&bits(&[4.0, 1.0, 3.0, 2.0]), &host), Ok(2.5f64.to_bits()));
}

#[test]
fn median_of_an_odd_length_is_the_middle_item() {
    assert_eq!(array_median(&bits(&[1.0, 2.0, 3.0]), &host), Ok(2.0f64.to_bits()));
    assert_eq!(array_median(&bits(&[9.0, -1.0, 5.0]), &host), Ok(5.0f64.to_bits()));
    assert_eq!(array_median(&bits(&[8.0]), &host), Ok(8.0f64.to_bits()));
}

#[test]
fn median_rejects_an_empty_sequence() {
    let none: Vec<u64> = Vec::new();
    assert_eq!(array_median(&none, &host), Err(KernelError::EmptyInput));
}

#[test]
fn median_leaves_its_input_alone() {
    let a = bits(&[3.0, 1.0, 2.0]);
    let copy = a.clone();
    assert_eq!(array_median(&a, &host), Ok(2.0f64.to_bits()));
    assert_eq!(a, copy);
}

#[test]
fn percentile_interpolates_between_the_closest_ranks() {
    let a = bits(&[10.0, 20.0, 30.0, 40.0]);
    assert_eq!(array_percentile(&a, 50.0f64.to_bits(), &host), Ok(25.0f64.to_bits()));
    assert_eq!(array_percentile(&a, 25.0f64.to_bits(), &host), Ok(17.5f64.to_bits()));
    assert_eq!(array_percentile(&a, 75.0f64.to_bits(), &host), Ok(32.5f64.to_bits()));
    let shuffled = bits(&[40.0, 10.0, 30.0, 20.0]);
    assert_eq!(array_percentile(&shuffled, 50.0f64.to_bits(), &host), Ok(25.0f64.to_bits()));
}

#[test]
fn percentile_on_a_whole_rank_is_the_item_there() {
    let a = bits(&[5.0, 1.0, 3.0]);
    assert_eq!(array_percentile(&a, 50.0f64.to_bits(), &host), Ok(3.0f64.to_bits()));
    let five = bits(&[1.0, 2.0, 3.0, 4.0, 5.0]);
    assert_eq!(array_percentile(&five, 25.0f64.to_bits(), &host), Ok(2.0f64.to_bits()));
}

#[test]
fn percentile_zero_is_the_minimum_and_hundred_the_maximum() {
    let samples: Vec<Vec<u64>> = vec![
        bits(&[10.0, 20.0, 30.0, 40.0]),
        bits(&[7.0]),
        bits(&[3.0, -2.0, 8.5, 8.5, -2.0]),
        bits(&[0.0, -0.0]),
        bits(&[-0.0, 0.0, -0.0]),
    ];
    for a in samples.iter() {
        assert_eq!(array_percentile(a, 0.0f64.to_bits(), &host), array_min(a));
        assert_eq!(array_percentile(a, (-0.0f64).to_bits(), &host), array_min(a));
        assert_eq!(array_percentile(a, 100.0f64.to_bits(), &host), array_max(a));
    }
}

#[test]
fn percentile_at_either_end_asks_nothing_of_the_unit() {
    let silent = |_op: FloatOp, _x: u64, _y: u64| -> u64 { panic!("the unit was asked") };
    let a = bits(&[3.0, -2.0, 8.5, f64::NEG_INFINITY, 8.5]);
    assert_eq!(array_percentile(&a, 0.0f64.to_bits(), &silent), Ok(f64::NEG_INFINITY.to_bits()));
    assert_eq!(array_percentile(&a, 100.0f64.to_bits(), &silent), Ok(8.5f64.to_bits()));
    assert_eq!(array_median(&bits(&[3.0, 1.0, 2.0]), &silent), Ok(2.0f64.to_bits()));
}

#[test]
fn percentile_near_either_end_interpolates() {
    let a = bits(&[10.0, 20.0, 30.0, 40.0, 50.0]);
    assert_eq!(array_percentile(&a, 1.0f64.to_bits(), &host), Ok(10.4f64.to_bits()));
    assert_eq!(array_percentile(&a, 99.0f64.to_bits(), &host), Ok(49.6f64.to_bits()));
}

#[test]
fn percentile_rejects_an_empty_sequence() {
    let none: Vec<u64> = Vec::new();
    assert_eq!(array_percentile(&none, 50.0f64.to_bits(), &host), Err(KernelError::EmptyInput));
    assert_eq!(array_percentile(&none, 500.0f64.to_bits(), &host), Err(KernelError::EmptyInput));
}

#[test]
fn percentile_rejects_what_is_not_from_zero_to_a_hundred() {
    let a = bits(&[1.0, 2.0]);
    let out_of_range: [f64; 6] =
        [-1.0, 100.5, -1e-300, f64::INFINITY, f64::NEG_INFINITY, f64::NAN];
    for p in out_of_range.iter() {
        assert_eq!(
            array_percentile(&a, p.to_bits(), &host),
            Err(KernelError::PercentileOutOfRange)
        );
    }
}

#[test]
fn is_percent_includes_both_ends() {
    assert!(is_percent(0.0f64.to_bits()));
    assert!(is_percent((-0.0f64).to_bits()));
    assert!(is_percent(100.0f64.to_bits()));
    assert!(is_percent(33.3f64.to_bits()));
    assert!(!is_percent(100.00000000000001f64.to_bits()));
    assert!(!is_percent((-5e-324f64).to_bits()));
    assert!(!is_percent(f64::NAN.to_bits()));
    assert!(!is_percent(0xFFF8_0000_0000_0000));
}

#[test]
fn interpolate_gives_the_item_where_both_positions_agree() {
    let sorted = bits(&[1.0, 2.0, 4.0]);
    assert_eq!(interpolate(&sorted, 2.0f64.to_bits(), 2, 2, &host), Ok(4.0f64.to_bits()));
    assert_eq!(interpolate(&sorted, 0.0f64.to_bits(), 0, 0, &host), Ok(1.0f64.to_bits()));
}

#[test]
fn interpolate_blends_two_items_by_the_weight() {
    let sorted = bits(&[1.0, 2.0, 4.0]);
    assert_eq!(interpolate(&sorted, 1.25f64.to_bits(), 1, 2, &host), Ok(2.5f64.to_bits()));
    assert_eq!(interpolate(&sorted, 0.75f64.to_bits(), 0, 1, &host), Ok(1.75f64.to_bits()));
}

#[test]
fn interpolate_rejects_a_position_outside_of_the_sequence() {
    let sorted = bits(&[1.0, 2.0, 4.0]);
    let none: Vec<u64> = Vec::new();
    let outside: Result<u64, KernelError> = Err(KernelError::RankOutOfRange);
    assert_eq!(interpolate(&sorted, 2.5f64.to_bits(), 2, 3, &host), outside);
    assert_eq!(interpolate(&sorted, 3.0f64.to_bits(), 3, 3, &host), outside);
    assert_eq!(
        interpolate(&sorted, 1.0f64.to_bits(), u64::MAX, 1, &host),
        Err(KernelError::RankOutOfRange)
    );
    assert_eq!(interpolate(&none, 0.0f64.to_bits(), 0, 0, &host), Err(KernelError::RankOutOfRange));
}

#[test]
fn percentile_reports_a_rank_that_the_unit_misplaces() {
    let wild = |op: FloatOp, x: u64, y: u64| -> u64 {
        match op {
            FloatOp::Ceil => 99,
            _ => host(op, x, y),
        }
    };
    let a = bits(&[1.0, 2.0, 3.0]);
    assert_eq!(array_percentile(&a, 50.0f64.to_bits(), &wild), Err(KernelError::RankOutOfRange));
}

#[test]
fn median_is_the_fiftieth_percentile_on_a_sample() {
    let a = bits(&[9.0, 2.0, 7.0, 4.0, 4.0, 1.0]);
    assert_eq!(array_median(&a, &host), array_percentile(&a, 50.0f64.to_bits(), &host));
    assert_eq!(array_sort(&a), bits(&[1.0, 2.0, 4.0, 4.0, 7.0, 9.0]));
}
