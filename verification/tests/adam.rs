use bullet_core::optimiser::adam::{Adam, AdamParams};
use bullet_core::device::Device;
use bullet_core::optimiser::{Operand, OptimiserError, OptimiserState};
use bullet_core::scalar::Scalar;
use bullet_core::tensor::DenseMatrix;

/// A device in main memory whose Adam kernel computes in single precision.
struct Host;

impl Device for Host {
    type Buffer = Vec<u32>;
    type DeviceError = String;

    fn allocate(&self, size: usize) -> Result<Vec<u32>, String> {
        Ok(vec![0; size])
    }

    fn set_zero(buffer: &mut Vec<u32>) {
        for x in buffer.iter_mut() {
            *x = 0;
        }
    }

    fn load(buffer: &mut Vec<u32>, values: &Vec<Scalar>) {
        *buffer = values.iter().map(|s| s.to_bits()).collect();
    }

    fn store(buffer: &Vec<u32>) -> Vec<Scalar> {
        buffer.iter().map(|&b| Scalar::from_bits(b)).collect()
    }

    fn seed_random(_buffer: &mut Vec<u32>, _mean: Scalar, _stdev: Scalar, _normal: bool) -> Result<(), String> {
        Err("no random numbers here".to_string())
    }

    fn adam(
        size: usize,
        weights: &mut Vec<u32>,
        gradients: &Vec<u32>,
        momentum: &mut Vec<u32>,
        velocity: &mut Vec<u32>,
        beta1: Scalar,
        beta2: Scalar,
        gradient_factor: Scalar,
        learning_rate: Scalar,
        _denominator: bool,
    ) {
        let f = |s: Scalar| f32::from_bits(s.to_bits());
        for i in 0..size {
            let g = f(gradient_factor) * f32::from_bits(gradients[i]);
            let m = f(beta1) * f32::from_bits(momentum[i]) + (1.0 - f(beta1)) * g;
            let v = f(beta2) * f32::from_bits(velocity[i]) + (1.0 - f(beta2)) * g * g;
            momentum[i] = m.to_bits();
            velocity[i] = v.to_bits();
            let w = f32::from_bits(weights[i]) - f(learning_rate) * m / (v.sqrt() + 0.00000001);
            weights[i] = w.to_bits();
        }
    }
}

fn s(v: f32) -> Scalar {
    Scalar::from_bits(v.to_bits())
}

fn scalars(values: &[f32]) -> Vec<Scalar> {
    values.iter().map(|&v| s(v)).collect()
}

fn floats(m: &DenseMatrix<Host>) -> Vec<f32> {
    m.to_vec().unwrap().iter().map(|x| f32::from_bits(x.to_bits())).collect()
}

fn matrix(values: &[f32]) -> DenseMatrix<Host> {
    let mut m = DenseMatrix::zeroed(&Host, values.len()).unwrap();
    m.load_from_slice(None, &scalars(values)).unwrap();
    m
}

fn batched(size: usize, batch: usize) -> DenseMatrix<Host> {
    let mut m = DenseMatrix::zeroed(&Host, size).unwrap();
    m.load_from_slice(Some(batch), &scalars(&vec![1.0; size * batch])).unwrap();
    m
}

#[test]
fn default_params_are_the_usual_decay_rates() {
    let p = AdamParams::default();
    assert_eq!(f32::from_bits(p.beta1.to_bits()), 0.9);
    assert_eq!(f32::from_bits(p.beta2.to_bits()), 0.999);
}

#[test]
fn new_state_is_zero_and_sized_like_the_weight() {
    let adam = Adam::new(&Host, 3, AdamParams::default()).unwrap();
    assert_eq!(adam.momentum().size(), 3);
    assert_eq!(adam.velocity().size(), 3);
    assert_eq!(adam.momentum().batch_size(), None);
    assert_eq!(adam.velocity().batch_size(), None);
    assert_eq!(floats(adam.momentum()), vec![0.0, 0.0, 0.0]);
    assert_eq!(floats(adam.velocity()), vec![0.0, 0.0, 0.0]);
    assert_eq!(adam.params(), AdamParams::default());
}

#[test]
fn update_runs_one_step_on_the_device() {
    let params = AdamParams { beta1: s(0.5), beta2: s(0.75) };
    let mut adam = Adam::new(&Host, 2, params).unwrap();
    let mut weights = matrix(&[1.0, -1.0]);
    let mut gradients = matrix(&[2.0, 0.0]);
    assert_eq!(adam.update(&mut weights, &mut gradients, s(0.5), s(0.125)), Ok(()));
    // the scaled gradient is 1 and 0
    assert_eq!(floats(adam.momentum()), vec![0.5, 0.0]);
    assert_eq!(floats(adam.velocity()), vec![0.25, 0.0]);
    let w = floats(&weights);
    assert!((w[0] - (1.0 - 0.125)).abs() < 1e-6);
    assert_eq!(w[1], -1.0);
    assert_eq!(floats(&gradients), vec![2.0, 0.0]);
    assert_eq!(adam.params(), params);
    assert_eq!(weights.size(), 2);
}

#[test]
fn update_with_mismatched_sizes_touches_nothing() {
    let mut adam = Adam::new(&Host, 3, AdamParams::default()).unwrap();
    let mut weights = matrix(&[1.0, 2.0]);
    let mut gradients = matrix(&[5.0, 5.0]);
    assert_eq!(
        adam.update(&mut weights, &mut gradients, s(1.0), s(1.0)),
        Err(OptimiserError::SizeMismatch(Operand::Momentum))
    );
    assert_eq!(floats(&weights), vec![1.0, 2.0]);
    assert_eq!(floats(&gradients), vec![5.0, 5.0]);
    assert_eq!(floats(adam.momentum()), vec![0.0, 0.0, 0.0]);
    assert_eq!(floats(adam.velocity()), vec![0.0, 0.0, 0.0]);

    let mut adam = Adam::new(&Host, 2, AdamParams::default()).unwrap();
    let mut gradients = matrix(&[5.0, 5.0, 5.0]);
    assert_eq!(
        adam.update(&mut weights, &mut gradients, s(1.0), s(1.0)),
        Err(OptimiserError::SizeMismatch(Operand::Gradients))
    );
    assert_eq!(floats(&weights), vec![1.0, 2.0]);
    assert_eq!(floats(adam.momentum()), vec![0.0, 0.0]);
}

#[test]
fn update_refuses_batches() {
    let mut adam = Adam::new(&Host, 2, AdamParams::default()).unwrap();
    let mut weights = batched(2, 3);
    let mut gradients = matrix(&[5.0, 5.0]);
    assert_eq!(
        adam.update(&mut weights, &mut gradients, s(1.0), s(1.0)),
        Err(OptimiserError::Batched(Operand::Weights))
    );
    assert_eq!(floats(&weights), vec![1.0; 6]);
    let mut weights = matrix(&[1.0, 2.0]);
    let mut gradients = batched(2, 1);
    assert_eq!(
        adam.update(&mut weights, &mut gradients, s(1.0), s(1.0)),
        Err(OptimiserError::Batched(Operand::Gradients))
    );
    assert_eq!(floats(&weights), vec![1.0, 2.0]);
    assert_eq!(floats(adam.momentum()), vec![0.0, 0.0]);
}

#[test]
fn reset_zeroes_the_state_and_keeps_the_params() {
    let params = AdamParams { beta1: s(0.5), beta2: s(0.75) };
    let mut adam = Adam::new(&Host, 2, params).unwrap();
    let mut weights = matrix(&[1.0, -1.0]);
    let mut gradients = matrix(&[2.0, 4.0]);
    adam.update(&mut weights, &mut gradients, s(1.0), s(0.5)).unwrap();
    let after = floats(&weights);
    assert_ne!(floats(adam.momentum()), vec![0.0, 0.0]);
    adam.reset();
    assert_eq!(floats(adam.momentum()), vec![0.0, 0.0]);
    assert_eq!(floats(adam.velocity()), vec![0.0, 0.0]);
    assert_eq!(adam.params(), params);
    assert_eq!(floats(&weights), after);
}

#[test]
fn set_params_keeps_the_state() {
    let mut adam = Adam::new(&Host, 2, AdamParams::default()).unwrap();
    let mut weights = matrix(&[1.0, -1.0]);
    let mut gradients = matrix(&[2.0, 4.0]);
    adam.update(&mut weights, &mut gradients, s(1.0), s(0.5)).unwrap();
    let momentum = floats(adam.momentum());
    let velocity = floats(adam.velocity());
    let params = AdamParams { beta1: s(0.8), beta2: s(0.95) };
    adam.set_params(params);
    assert_eq!(adam.params(), params);
    assert_eq!(floats(adam.momentum()), momentum);
    assert_eq!(floats(adam.velocity()), velocity);
}

#[test]
fn state_put_together_from_buffers_is_tested_like_any_other() {
    let params = AdamParams::default();
    let mut weights = matrix(&[1.0, 2.0]);
    let mut gradients = matrix(&[5.0, 5.0]);
    let mut adam = Adam::from_buffers(matrix(&[0.0, 0.0]), matrix(&[0.0, 0.0, 0.0]), params);
    assert_eq!(
        adam.update(&mut weights, &mut gradients, s(1.0), s(1.0)),
        Err(OptimiserError::SizeMismatch(Operand::Velocity))
    );
    let mut adam = Adam::from_buffers(batched(2, 2), matrix(&[0.0, 0.0]), params);
    assert_eq!(
        adam.update(&mut weights, &mut gradients, s(1.0), s(1.0)),
        Err(OptimiserError::Batched(Operand::Momentum))
    );
    let mut adam = Adam::from_buffers(matrix(&[0.0, 0.0]), batched(2, 2), params);
    assert_eq!(
        adam.update(&mut weights, &mut gradients, s(1.0), s(1.0)),
        Err(OptimiserError::Batched(Operand::Velocity))
    );
    assert_eq!(floats(&weights), vec![1.0, 2.0]);
    assert_eq!(floats(adam.velocity()), vec![1.0; 4]);
    // a batch is reported before a wrong size
    let mut adam = Adam::from_buffers(matrix(&[0.0]), batched(2, 2), params);
    assert_eq!(
        adam.update(&mut weights, &mut gradients, s(1.0), s(1.0)),
        Err(OptimiserError::Batched(Operand::Velocity))
    );
    let mut adam = Adam::from_buffers(matrix(&[7.0, 8.0]), matrix(&[9.0, 10.0]), params);
    assert_eq!(adam.update(&mut weights, &mut gradients, s(1.0), s(1.0)), Ok(()));
}
