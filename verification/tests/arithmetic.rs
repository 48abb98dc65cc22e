use array_kernels::{
    array_abs, array_add, array_add_scalar, array_divide, array_divide_scalar, array_exp, array_log,
    array_multiply, array_multiply_scalar, array_sqrt, array_subtract, array_subtract_scalar,
    FloatOp, KernelError,
};

fn host(op: FloatOp, x: u64, y: u64) -> u64 {
    let a: f64 = f64::from_bits(x);
    let b: f64 = f64::from_bits(y);
    match op {
        FloatOp::Add => (a + b).to_bits(),
        FloatOp::Sub => (a - b).to_bits(),
        FloatOp::Mul => (a * b).to_bits(),
        FloatOp::Div => (a / b).to_bits(),
        FloatOp::Sqrt => a.sqrt().to_bits(),
        FloatOp::Ln => a.ln().to_bits(),
        FloatOp::Exp => a.exp().to_bits(),
        FloatOp::FromCount => (x as f64).to_bits(),
        FloatOp::Floor => a.floor() as u64,
        FloatOp::Ceil => a.ceil() as u64,
    }
}

fn bits(values: &[f64]) -> Vec<u64> {
    values.iter().map(|v| v.to_bits()).collect()
}

#[test]
fn add_gives_the_sum_at_every_index() {
    let a = bits(&[1.0, 2.0, 3.0]);
    let b = bits(&[10.0, 20.0, 30.0]);
    assert_eq!(array_add(&a, &b, &host), bits(&[11.0, 22.0, 33.0]));
}

#[test]
fn subtract_gives_the_difference_at_every_index() {
    let a = bits(&[1.0, 2.0, 3.0]);
    let b = bits(&[10.0, 20.0, 30.5]);
    assert_eq!(array_subtract(&a, &b, &host), bits(&[-9.0, -18.0, -27.5]));
}

#[test]
fn multiply_gives_the_product_at_every_index() {
    let a = bits(&[1.5, -2.0, 3.0]);
    let b = bits(&[2.0, 4.0, 0.0]);
    assert_eq!(array_multiply(&a, &b, &host), bits(&[3.0, -8.0, 0.0]));
}

#[test]
fn add_drops_what_the_longer_sequence_has_more() {
    let a = bits(&[1.0, 2.0, 3.0, 4.0]);
    let b = bits(&[10.0, 20.0]);
    assert_eq!(array_add(&a, &b, &host), bits(&[11.0, 22.0]));
    assert_eq!(array_add(&b, &a, &host), bits(&[11.0, 22.0]));
}

#[test]
fn subtract_and_multiply_drop_what_the_longer_sequence_has_more() {
    let a = bits(&[5.0]);
    let b = bits(&[2.0, 7.0, 9.0]);
    assert_eq!(array_subtract(&a, &b, &host), bits(&[3.0]));
    assert_eq!(array_multiply(&b, &a, &host), bits(&[10.0]));
}

#[test]
fn a_nan_operand_gives_a_nan_at_its_index_only() {
    let a = bits(&[f64::NAN, 1.0, 2.0]);
    let b = bits(&[1.0, f64::NAN, 2.0]);
    let sum = array_add(&a, &b, &host);
    let product = array_multiply(&a, &b, &host);
    assert_eq!(sum.len(), 3);
    assert!(f64::from_bits(sum[0]).is_nan() && f64::from_bits(sum[1]).is_nan());
    assert!(f64::from_bits(product[0]).is_nan() && f64::from_bits(product[1]).is_nan());
    assert_eq!(sum[2], 4.0f64.to_bits());
    assert_eq!(product[2], 4.0f64.to_bits());
}

#[test]
fn an_empty_operand_gives_an_empty_result() {
    let a = bits(&[1.0, 2.0]);
    let none: Vec<u64> = Vec::new();
    assert_eq!(array_add(&a, &none, &host), none);
    assert_eq!(array_subtract(&none, &a, &host), none);
    assert_eq!(array_multiply(&none, &none, &host), none);
}

#[test]
fn divide_gives_the_quotient_at_every_index() {
    let a = bits(&[1.0, 9.0, -4.0]);
    let b = bits(&[2.0, 3.0, 8.0]);
    assert_eq!(array_divide(&a, &b, &host), Ok(bits(&[0.5, 3.0, -0.5])));
}

#[test]
fn divide_gives_positive_infinity_where_the_divisor_is_zero() {
    let a = bits(&[1.0, -1.0, 0.0, f64::NAN, 6.0]);
    let b = bits(&[0.0, 0.0, 0.0, -0.0, 3.0]);
    let inf: f64 = f64::INFINITY;
    assert_eq!(array_divide(&a, &b, &host), Ok(bits(&[inf, inf, inf, inf, 2.0])));
}

#[test]
fn divide_does_not_ask_the_unit_where_the_divisor_is_zero() {
    let strict = |op: FloatOp, x: u64, y: u64| -> u64 {
        if op == FloatOp::Div && f64::from_bits(y) == 0.0 {
            panic!("asked to divide by zero");
        }
        host(op, x, y)
    };
    let a = bits(&[1.0, 8.0]);
    let b = bits(&[-0.0, 2.0]);
    assert_eq!(array_divide(&a, &b, &strict), Ok(bits(&[f64::INFINITY, 4.0])));
}

#[test]
fn divide_drops_what_the_longer_sequence_has_more() {
    let a = bits(&[8.0, 9.0, 10.0]);
    let b = bits(&[2.0]);
    assert_eq!(array_divide(&a, &b, &host), Ok(bits(&[4.0])));
}

#[test]
fn divide_rejects_an_empty_operand() {
    let a = bits(&[1.0]);
    let none: Vec<u64> = Vec::new();
    assert_eq!(array_divide(&a, &none, &host), Err(KernelError::EmptyOperand));
    assert_eq!(array_divide(&none, &a, &host), Err(KernelError::EmptyOperand));
    assert_eq!(array_divide(&none, &none, &host), Err(KernelError::EmptyOperand));
}

#[test]
fn scalar_operations_reach_every_item() {
    let a = bits(&[1.0, 2.0, 3.0]);
    let s: u64 = 2.0f64.to_bits();
    assert_eq!(array_add_scalar(&a, s, &host), bits(&[3.0, 4.0, 5.0]));
    assert_eq!(array_subtract_scalar(&a, s, &host), bits(&[-1.0, 0.0, 1.0]));
    assert_eq!(array_multiply_scalar(&a, s, &host), bits(&[2.0, 4.0, 6.0]));
    assert_eq!(array_divide_scalar(&a, s, &host), Ok(bits(&[0.5, 1.0, 1.5])));
}

#[test]
fn scalar_operations_keep_an_empty_sequence_empty() {
    let none: Vec<u64> = Vec::new();
    let s: u64 = 2.0f64.to_bits();
    assert_eq!(array_add_scalar(&none, s, &host), none);
    assert_eq!(array_divide_scalar(&none, s, &host), Ok(Vec::new()));
}

#[test]
fn divide_scalar_rejects_a_zero_scalar() {
    let a = bits(&[1.0, 2.0]);
    let none: Vec<u64> = Vec::new();
    assert_eq!(array_divide_scalar(&a, 0.0f64.to_bits(), &host), Err(KernelError::DivisionByZero));
    assert_eq!(
        array_divide_scalar(&a, (-0.0f64).to_bits(), &host),
        Err(KernelError::DivisionByZero)
    );
    assert_eq!(
        array_divide_scalar(&none, 0.0f64.to_bits(), &host),
        Err(KernelError::DivisionByZero)
    );
}

#[test]
fn divide_scalar_takes_the_smallest_number_that_is_not_zero() {
    let a = bits(&[0.0]);
    let tiny: u64 = 1;
    assert_eq!(array_divide_scalar(&a, tiny, &host), Ok(bits(&[0.0])));
}

#[test]
fn abs_clears_the_sign() {
    let a = bits(&[-1.5, 2.0, -0.0, f64::NEG_INFINITY]);
    assert_eq!(array_abs(&a), bits(&[1.5, 2.0, 0.0, f64::INFINITY]));
}

#[test]
fn abs_clears_the_sign_of_a_nan_and_keeps_its_payload() {
    let negative_nan: u64 = 0xFFF8_0000_0000_0123;
    assert_eq!(array_abs(&[negative_nan]), vec![0x7FF8_0000_0000_0123u64]);
    assert_eq!(f64::from_bits(negative_nan).abs().to_bits(), 0x7FF8_0000_0000_0123u64);
}

#[test]
fn sqrt_log_and_exp_reach_every_item() {
    assert_eq!(array_sqrt(&bits(&[4.0, 9.0, 0.0]), &host), bits(&[2.0, 3.0, 0.0]));
    assert_eq!(array_log(&bits(&[1.0]), &host), bits(&[0.0]));
    assert_eq!(array_exp(&bits(&[0.0]), &host), bits(&[1.0]));
    let e = array_exp(&bits(&[1.0, 2.0]), &host);
    assert_eq!(e, bits(&[1.0f64.exp(), 2.0f64.exp()]));
    let l = array_log(&bits(&[10.0, 0.0]), &host);
    assert_eq!(l, bits(&[10.0f64.ln(), f64::NEG_INFINITY]));
}

#[test]
fn sqrt_of_a_negative_number_is_a_nan() {
    let out = array_sqrt(&bits(&[-1.0]), &host);
    assert_eq!(out.len(), 1);
    assert!(f64::from_bits(out[0]).is_nan());
}
