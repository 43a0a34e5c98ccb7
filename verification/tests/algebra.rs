use ndarray::linalg::{general_mat_mul, general_mat_vec_mul};
use ndarray::{arr0, arr1, arr2, arr3, Array, ArrayD, Axis, Ix1, Ix2, IxDyn};

use std::cell::Cell;

use neural_net::activations;
use neural_net::algebra::comparison::cmp;
use neural_net::algebra::construct::{
    bias_add, broadcast_to, conv2d, expr, matvecmul, reduce_sum, ternary, v,
};
use neural_net::algebra::conv2d::{convolve, geometry};
use neural_net::algebra::construct::{matmul, unevaluable};
use neural_net::algebra::{Arena, Expr, Op, Operation, Padding, VariableValue};
use neural_net::graph::Graph;
use neural_net::initializers::Initializer;
use neural_net::layout::{broadcast, expand, reshape, transpose};
use neural_net::layers::{
    Activation, BatchNormalization, Dense, Flatten, GlobalAveragePooling2D, Instance, Lambda,
    Layer, LayerVariablesBuilder, Reshape, Residual, Sequential, Step,
};
use neural_net::losses;
use neural_net::models;
use neural_net::scalar::{same_number, scalar_count};
use neural_net::shape;
use neural_net::tensor::Tensor;

fn to_array(t: &Tensor) -> ArrayD<f32> {
    let data: Vec<f32> = t.data().iter().map(|b| f32::from_bits(*b)).collect();
    ArrayD::from_shape_vec(IxDyn(t.shape()), data).unwrap()
}

fn to_tensor(a: &ArrayD<f32>) -> Tensor {
    let data: Vec<u32> = a.iter().map(|x| x.to_bits()).collect();
    Tensor::new(a.shape().to_vec(), data).unwrap()
}

fn kernel(operation: &Operation, inputs: &Vec<Tensor>) -> Tensor {
    let x: Vec<ArrayD<f32>> = inputs.iter().map(to_array).collect();
    let r: ArrayD<f32> = match operation {
        Operation::Unevaluable { reason, .. } => panic!("{}", reason),
        Operation::Add => &x[0] + &x[1],
        Operation::Sub => &x[0] - &x[1],
        Operation::Mul => &x[0] * &x[1],
        Operation::Div => &x[0] / &x[1],
        Operation::Exp => x[0].mapv(|e| e.exp()),
        Operation::Ln => x[0].mapv(|e| e.ln()),
        Operation::Sqrt => x[0].mapv(|e| e.sqrt()),
        Operation::Sum => arr0(x[0].sum()).into_dyn(),
        Operation::ReduceSum { axes } => {
            let mut result = x[0].clone();
            for &axis in axes.iter() {
                result = result.map_axis(Axis(axis), |a| a.sum()).insert_axis(Axis(axis));
            }
            result
        }
        Operation::MatMul => {
            let a = x[0].clone().into_dimensionality::<Ix2>().unwrap();
            let b = x[1].clone().into_dimensionality::<Ix2>().unwrap();
            let mut result = Array::zeros((a.nrows(), b.ncols()));
            general_mat_mul(1.0, &a, &b, 0.0, &mut result);
            result.into_dyn()
        }
        Operation::MatVecMul => {
            let a = x[0].clone().into_dimensionality::<Ix2>().unwrap();
            let b = x[1].clone().into_dimensionality::<Ix1>().unwrap();
            let mut result = Array::zeros(a.nrows());
            general_mat_vec_mul(1.0, &a, &b, 0.0, &mut result);
            result.into_dyn()
        }
        other => panic!("the arrays do not fit the operation {:?}", other),
    };
    to_tensor(&r)
}

fn literal(t: &Tensor) -> String {
    format!("{}", to_array(t))
}

fn var(arena: &mut Arena, name: &str, value: ArrayD<f32>) -> Expr {
    let cell = arena.add_cell(VariableValue::new(to_tensor(&value)));
    v(arena, name, cell)
}

fn constant(arena: &mut Arena, value: ArrayD<f32>) -> Expr {
    expr(arena, to_tensor(&value))
}

fn number(arena: &mut Arena, value: f32) -> Expr {
    expr(arena, Tensor::scalar(value.to_bits()))
}

fn eval(arena: &Arena, e: Expr) -> ArrayD<f32> {
    to_array(&e.eval(arena, &kernel))
}

fn gradient(arena: &mut Arena, e: Expr, name: &str) -> ArrayD<f32> {
    let g = e.try_gradient(arena, name, &kernel).unwrap();
    eval(arena, g)
}

fn gradient_text(arena: &mut Arena, e: Expr, name: &str) -> String {
    let g = e.try_gradient(arena, name, &kernel).unwrap();
    g.to_string(arena, &literal)
}

#[test]
fn test_softmax() {
    let mut g = Arena::new();
    let x = var(&mut g, "x", arr1(&[0.0, 0.0, 0.0]).into_dyn());
    let f = activations::softmax(&mut g, x);
    assert_eq!(eval(&g, f), arr1(&[0.33333334, 0.33333334, 0.33333334]).into_dyn());
    assert_eq!(gradient(&mut g, f, "x"), arr1(&[0.0, 0.0, 0.0]).into_dyn());
}

#[test]
fn add_test() {
    let mut g = Arena::new();
    let x = var(&mut g, "x", arr0(0.0).into_dyn());
    let y = var(&mut g, "y", arr0(0.0).into_dyn());
    let f = x.add(&mut g, y);
    assert_eq!(gradient(&mut g, f, "x"), arr0(1.0).into_dyn());

    let x = var(&mut g, "x", arr0(0.0).into_dyn());
    let y = var(&mut g, "y", arr0(0.0).into_dyn());
    let f = x.add(&mut g, y);
    assert_eq!(gradient(&mut g, f, "y"), arr0(1.0).into_dyn());

    let x = constant(&mut g, arr1(&[0.0, 1.0, 2.0]).into_dyn());
    let y = constant(&mut g, arr1(&[0.0, 1.0, 5.0]).into_dyn());
    let z = constant(&mut g, arr1(&[0.0, 2.0, 7.0]).into_dyn());
    let f = x.add(&mut g, y);
    assert_eq!(eval(&g, f), eval(&g, z));

    let x = constant(&mut g, arr0(1.0).into_dyn());
    let y = constant(&mut g, arr1(&[0.0, 1.0, 5.0]).into_dyn());
    let z = constant(&mut g, arr1(&[1.0, 2.0, 6.0]).into_dyn());
    let f = x.add(&mut g, y);
    assert_eq!(eval(&g, f), eval(&g, z));

    let x = constant(&mut g, arr1(&[0.0, 1.0, 5.0]).into_dyn());
    let y = constant(&mut g, arr0(1.0).into_dyn());
    let z = constant(&mut g, arr1(&[1.0, 2.0, 6.0]).into_dyn());
    let f = x.add(&mut g, y);
    assert_eq!(eval(&g, f), eval(&g, z));

    let x = var(&mut g, "x", arr0(1.0).into_dyn());
    let y = constant(&mut g, arr1(&[0.0, 0.0, 0.0]).into_dyn());
    let z = constant(&mut g, arr1(&[1.0, 1.0, 1.0]).into_dyn());
    let f = x.add(&mut g, y);
    let s = f.try_propagate_constants(&mut g, &kernel).unwrap();
    assert_eq!(eval(&g, s), eval(&g, z));

    let x = var(&mut g, "x", arr1(&[0.0, 1.0, 2.0]).into_dyn());
    let y = constant(&mut g, arr1(&[0.0, 1.0, 5.0]).into_dyn());
    let f = x.add(&mut g, y);
    assert_eq!(gradient(&mut g, f, "x"), arr1(&[1.0, 1.0, 1.0]).into_dyn());
}

#[test]
fn bias_add_test() {
    let mut g = Arena::new();
    let value = constant(
        &mut g,
        arr3(&[[[0.0, 1.0], [1.0, 2.0]], [[2.0, 3.0], [3.0, 4.0]]]).into_dyn(),
    );
    let bias = constant(&mut g, arr1(&[1.0, 2.0]).into_dyn());
    let f = bias_add(&mut g, value, bias);
    assert_eq!(
        eval(&g, f),
        arr3(&[[[1.0, 3.0], [2.0, 4.0]], [[3.0, 5.0], [4.0, 6.0]]]).into_dyn()
    );
}

#[test]
fn broadcast_to_test() {
    let mut g = Arena::new();
    let x = var(&mut g, "x", arr1(&[0.0, 1.0]).into_dyn());
    let f = broadcast_to(&mut g, x, vec![3, 2]);
    assert_eq!(eval(&g, f), arr2(&[[0.0, 1.0], [0.0, 1.0], [0.0, 1.0]]).into_dyn());
    let f = broadcast_to(&mut g, x, vec![3, 2]);
    assert_eq!(gradient(&mut g, f, "x"), arr1(&[3.0, 3.0]).into_dyn());
}

#[test]
fn cmp_test() {
    let mut g = Arena::new();
    let a = constant(&mut g, arr0(0.0).into_dyn());
    let b = constant(&mut g, arr0(1.0).into_dyn());
    let c = arr0(1.0);
    let f = cmp(&mut g, a, Op::Less, b);
    assert_eq!(eval(&g, f), c.into_dyn());

    let a = constant(&mut g, arr1(&[0.0, 2.0]).into_dyn());
    let b = constant(&mut g, arr1(&[1.0, 1.0]).into_dyn());
    let c = arr1(&[1.0, 0.0]);
    let f = cmp(&mut g, a, Op::Less, b);
    assert_eq!(eval(&g, f), c.into_dyn());
}

#[test]
fn conv2d_test() {
    let mut g = Arena::new();
    let img = constant(
        &mut g,
        arr3(&[[[0.0, 1.0], [1.0, 2.0]], [[2.0, 3.0], [3.0, 4.0]]]).into_dyn(),
    );
    let mut kernel_values = Array::zeros((1, 1, 2, 3));
    kernel_values
        .index_axis_mut(Axis(0), 0)
        .assign(&arr3(&[[[1.0, 2.0, 3.0], [4.0, 5.0, 6.0]]]));
    let k = constant(&mut g, kernel_values.clone().into_dyn());
    let f = conv2d(&mut g, img, k, 1, Padding::Valid);
    assert_eq!(
        eval(&g, f),
        arr3(&[[[4., 5., 6.], [9., 12., 15.]], [[14., 19., 24.], [19., 26., 33.]]]).into_dyn()
    );
    let k = constant(&mut g, kernel_values.clone().into_dyn());
    let f = conv2d(&mut g, img, k, 2, Padding::Valid);
    assert_eq!(eval(&g, f), arr3(&[[[4., 5., 6.]]]).into_dyn());

    let mut kernel_values = Array::zeros((1, 2, 2, 3));
    kernel_values.index_axis_mut(Axis(0), 0).assign(&arr3(&[
        [[1.0, 2.0, 3.0], [4.0, 5.0, 6.0]],
        [[11.0, 12.0, 13.0], [14.0, 15.0, 16.0]],
    ]));
    let k = constant(&mut g, kernel_values.clone().into_dyn());
    let f = conv2d(&mut g, img, k, 1, Padding::Valid);
    assert_eq!(
        eval(&g, f),
        arr3(&[[[43., 47., 51.]], [[103., 115., 127.]]]).into_dyn()
    );
    let k = constant(&mut g, kernel_values.clone().into_dyn());
    let f = conv2d(&mut g, img, k, 1, Padding::Same);
    assert_eq!(
        eval(&g, f),
        arr3(&[[[43., 47., 51.], [9., 12., 15.]], [[103., 115., 127.], [19., 26., 33.]]])
            .into_dyn()
    );
}

#[test]
fn div_test() {
    let mut g = Arena::new();
    let x = var(&mut g, "x", arr0(0.0).into_dyn());
    let four = number(&mut g, 4.0);
    let f = four.div(&mut g, x);
    assert_eq!(gradient_text(&mut g, f, "x"), "(-4 / square(x))");

    let x = constant(&mut g, arr1(&[0.0, 1.0, 6.0]).into_dyn());
    let y = constant(&mut g, arr1(&[1.0, 1.0, 2.0]).into_dyn());
    let z = constant(&mut g, arr1(&[0.0, 1.0, 3.0]).into_dyn());
    let f = x.div(&mut g, y);
    assert_eq!(eval(&g, f), eval(&g, z));

    let x = number(&mut g, 2.0);
    let y = constant(&mut g, arr1(&[1.0, 1.0, 2.0]).into_dyn());
    let z = constant(&mut g, arr1(&[2.0, 2.0, 1.0]).into_dyn());
    let f = x.div(&mut g, y);
    assert_eq!(eval(&g, f), eval(&g, z));
    let z = constant(&mut g, arr1(&[0.5, 0.5, 1.0]).into_dyn());
    let f = y.div(&mut g, x);
    assert_eq!(eval(&g, f), eval(&g, z));

    let x = var(&mut g, "x", arr1(&[0.0, 1.0, 2.0]).into_dyn());
    let y = var(&mut g, "y", arr1(&[1.0, 1.0, 5.0]).into_dyn());
    let f = x.div(&mut g, y);
    assert_eq!(gradient(&mut g, f, "x"), arr1(&[1.0, 1.0, 0.2]).into_dyn());
    let f = x.div(&mut g, y);
    assert_eq!(gradient(&mut g, f, "y"), arr1(&[0.0, -1.0, -0.08]).into_dyn());

    let x = var(&mut g, "x", arr1(&[1.0, 1.0, 1.0]).into_dyn());
    let total = x.sum(&mut g);
    let f = x.div(&mut g, total);
    assert_eq!(gradient(&mut g, f, "x"), arr1(&[0.0, 0.0, 0.0]).into_dyn());
}

#[test]
fn exp_test() {
    let mut g = Arena::new();
    let x = var(&mut g, "x", arr0(0.0).into_dyn());
    let two = number(&mut g, 2.0);
    let doubled = two.mul(&mut g, x);
    let f = doubled.exp(&mut g);
    assert_eq!(gradient_text(&mut g, f, "x"), "(exp((2 * x)) * 2)");

    let x = var(&mut g, "x", arr1(&[0.0, 0.0, 0.0]).into_dyn());
    let f = x.exp(&mut g);
    assert_eq!(gradient(&mut g, f, "x"), arr1(&[1.0, 1.0, 1.0]).into_dyn());
}

#[test]
fn ln_test() {
    let mut g = Arena::new();
    let x = var(&mut g, "x", arr0(0.0).into_dyn());
    let two = number(&mut g, 2.0);
    let doubled = two.mul(&mut g, x);
    let f = doubled.ln(&mut g);
    assert_eq!(gradient_text(&mut g, f, "x"), "((1 / (2 * x)) * 2)");
}

#[test]
fn matvecmul_test() {
    let mut g = Arena::new();
    let x = var(&mut g, "x", arr2(&[[0.0, 1.0], [2.0, 3.0]]).into_dyn());
    let y = var(&mut g, "y", arr1(&[0.0, 1.0]).into_dyn());
    let f = matvecmul(&mut g, x, y);
    println!("{}", gradient_text(&mut g, f, "x"));
    assert_eq!(gradient(&mut g, f, "x"), arr2(&[[0.0, 1.0], [0.0, 1.0]]).into_dyn());
    assert_eq!(gradient(&mut g, f, "y"), arr1(&[2.0, 4.0]).into_dyn());

    let x = var(&mut g, "x", arr2(&[[0.0, 1.0], [2.0, 3.0]]).into_dyn());
    let y = constant(&mut g, arr1(&[3.0, 5.0]).into_dyn());
    let f = matvecmul(&mut g, x, y);
    assert_eq!(gradient(&mut g, f, "x"), arr2(&[[3.0, 5.0], [3.0, 5.0]]).into_dyn());

    let x = var(&mut g, "x", arr2(&[[0.0, 1.0], [2.0, 3.0]]).into_dyn());
    let y = var(&mut g, "y", arr1(&[3.0, 5.0]).into_dyn());
    let inner = matvecmul(&mut g, x, y);
    let f = matvecmul(&mut g, x, inner);
    assert_eq!(gradient(&mut g, f, "x"), arr2(&[[11.0, 31.0], [17.0, 41.0]]).into_dyn());
    assert_eq!(gradient(&mut g, f, "y"), arr1(&[8.0, 14.0]).into_dyn());
}

#[test]
fn mul_test() {
    let mut g = Arena::new();
    let x = var(&mut g, "x", arr0(0.0).into_dyn());
    let three = number(&mut g, 3.0);
    let f = three.mul(&mut g, x);
    assert_eq!(gradient(&mut g, f, "x"), arr0(3.0).into_dyn());

    let x = var(&mut g, "x", arr0(0.0).into_dyn());
    let y = var(&mut g, "y", arr0(0.0).into_dyn());
    let f = y.mul(&mut g, x);
    assert_eq!(gradient_text(&mut g, f, "x"), "y");

    let x = constant(&mut g, arr1(&[0.0, 1.0, 2.0]).into_dyn());
    let y = constant(&mut g, arr1(&[0.0, 1.0, 5.0]).into_dyn());
    let z = constant(&mut g, arr1(&[0.0, 1.0, 10.0]).into_dyn());
    let f = x.mul(&mut g, y);
    assert_eq!(eval(&g, f), eval(&g, z));

    let x = number(&mut g, 2.0);
    let y = constant(&mut g, arr1(&[0.0, 1.0, 2.0]).into_dyn());
    let z = constant(&mut g, arr1(&[0.0, 2.0, 4.0]).into_dyn());
    let f = x.mul(&mut g, y);
    assert_eq!(eval(&g, f), eval(&g, z));
    let f = y.mul(&mut g, x);
    assert_eq!(eval(&g, f), eval(&g, z));

    let x = var(&mut g, "x", arr0(2.0).into_dyn());
    let y = constant(&mut g, arr1(&[1.0, 1.0, 1.0]).into_dyn());
    let z = constant(&mut g, arr1(&[2.0, 2.0, 2.0]).into_dyn());
    let f = x.mul(&mut g, y);
    let s = f.try_propagate_constants(&mut g, &kernel).unwrap();
    assert_eq!(eval(&g, s), eval(&g, z));

    let x = var(&mut g, "x", arr1(&[0.0, 1.0, 2.0]).into_dyn());
    let y = var(&mut g, "y", arr1(&[0.0, 1.0, 5.0]).into_dyn());
    let f = x.mul(&mut g, y);
    assert_eq!(gradient(&mut g, f, "x"), arr1(&[0.0, 1.0, 5.0]).into_dyn());
}

#[test]
fn reduce_sum_test() {
    let mut g = Arena::new();
    let x = var(&mut g, "x", arr2(&[[1.0, 1.0, 1.0], [1.0, 1.0, 1.0]]).into_dyn());
    let f = reduce_sum(&mut g, x, vec![1]);
    assert_eq!(eval(&g, f), arr2(&[[3.0], [3.0]]).into_dyn());

    let x = var(&mut g, "x", arr2(&[[0.0, 1.0], [2.0, 3.0]]).into_dyn());
    let summed = reduce_sum(&mut g, x, vec![1]);
    let two = number(&mut g, 2.0);
    let f = summed.div(&mut g, two);
    assert_eq!(gradient(&mut g, f, "x"), arr2(&[[0.5, 0.5], [0.5, 0.5]]).into_dyn());
}

#[test]
fn reshape_test() {
    let mut g = Arena::new();
    let x = var(&mut g, "x", arr2(&[[0.0, 1.0], [2.0, 3.0]]).into_dyn());
    let f = x.reshape(&mut g, vec![4]);
    assert_eq!(gradient(&mut g, f, "x"), arr2(&[[1.0, 1.0], [1.0, 1.0]]).into_dyn());

    // the layer of the same name
    let flat = Array::range(0.0, 4.0, 1.0).into_dyn();
    let square = flat.clone().into_shape_with_order((2, 2)).unwrap().into_dyn();
    let instance = Reshape { shape: vec![2, 2] }.init();
    assert_eq!(instance_eval(&mut g, &instance, flat), square);
}

#[test]
fn sqrt_test() {
    let mut g = Arena::new();
    let x = var(&mut g, "x", arr1(&[1.0, 2.0]).into_dyn());
    let two = number(&mut g, 2.0);
    let root = x.sqrt(&mut g);
    let f = two.mul(&mut g, root);
    assert_eq!(gradient(&mut g, f, "x"), arr1(&[1.0, 0.70710677]).into_dyn());
}

#[test]
fn sub_test() {
    let mut g = Arena::new();
    let x = var(&mut g, "x", arr0(0.0).into_dyn());
    let y = var(&mut g, "y", arr0(0.0).into_dyn());
    let f = x.sub(&mut g, y);
    assert_eq!(gradient(&mut g, f, "x"), arr0(1.0).into_dyn());

    let x = var(&mut g, "x", arr0(0.0).into_dyn());
    let y = var(&mut g, "y", arr0(0.0).into_dyn());
    let f = x.sub(&mut g, y);
    assert_eq!(gradient(&mut g, f, "y"), arr0(-1.0).into_dyn());

    let x = constant(&mut g, arr1(&[0.0, 1.0, 2.0]).into_dyn());
    let y = constant(&mut g, arr1(&[0.0, 1.0, 5.0]).into_dyn());
    let z = constant(&mut g, arr1(&[0.0, 0.0, -3.0]).into_dyn());
    let f = x.sub(&mut g, y);
    assert_eq!(eval(&g, f), eval(&g, z));

    let x = constant(&mut g, arr0(1.0).into_dyn());
    let y = constant(&mut g, arr1(&[0.0, 1.0, 5.0]).into_dyn());
    let z = constant(&mut g, arr1(&[1.0, 0.0, -4.0]).into_dyn());
    let f = x.sub(&mut g, y);
    assert_eq!(eval(&g, f), eval(&g, z));

    let x = constant(&mut g, arr1(&[0.0, 1.0, 5.0]).into_dyn());
    let y = constant(&mut g, arr0(1.0).into_dyn());
    let z = constant(&mut g, arr1(&[-1.0, 0.0, 4.0]).into_dyn());
    let f = x.sub(&mut g, y);
    assert_eq!(eval(&g, f), eval(&g, z));

    let x = var(&mut g, "x", arr1(&[0.0, 1.0, 2.0]).into_dyn());
    let y = var(&mut g, "y", arr1(&[0.0, 1.0, 5.0]).into_dyn());
    let f = x.sub(&mut g, y);
    assert_eq!(gradient(&mut g, f, "x"), arr1(&[1.0, 1.0, 1.0]).into_dyn());
    let f = x.sub(&mut g, y);
    assert_eq!(gradient(&mut g, f, "y"), arr1(&[-1.0, -1.0, -1.0]).into_dyn());
}

#[test]
fn sum_test() {
    let mut g = Arena::new();
    let x = var(&mut g, "x", arr1(&[0.0, 1.0, 2.0]).into_dyn());
    let f = x.sum(&mut g);
    assert_eq!(gradient(&mut g, f, "x"), arr1(&[1.0, 1.0, 1.0]).into_dyn());

    let x = var(&mut g, "x", arr1(&[0.0, 0.0, 0.0]).into_dyn());
    let e = x.exp(&mut g);
    let f = e.sum(&mut g);
    assert_eq!(gradient(&mut g, f, "x"), arr1(&[1.0, 1.0, 1.0]).into_dyn());
}

#[test]
fn ternary_test() {
    let mut g = Arena::new();
    let c = constant(&mut g, arr1(&[0.0, 1.0]).into_dyn());
    let t = constant(&mut g, arr1(&[1.0, 2.0]).into_dyn());
    let f = constant(&mut g, arr0(3.0).into_dyn());
    let x = constant(&mut g, arr1(&[3.0, 2.0]).into_dyn());
    let selected = ternary(&mut g, c, t, f);
    assert_eq!(eval(&g, selected), eval(&g, x));
}

#[test]
fn variable_test() {
    let mut g = Arena::new();
    let x = var(&mut g, "x", arr0(0.0).into_dyn());
    assert_eq!(gradient(&mut g, x, "x"), arr0(1.0).into_dyn());

    let x = var(&mut g, "x", Array::zeros(3).into_dyn());
    assert_eq!(gradient(&mut g, x, "x"), arr1(&[1.0, 1.0, 1.0]).into_dyn());
}

fn instance_eval(arena: &mut Arena, instance: &Instance, input: ArrayD<f32>) -> ArrayD<f32> {
    let x = constant(arena, input);
    let e = instance.try_expression(arena, x).unwrap();
    eval(arena, e)
}

fn plus_one(arena: &mut Arena) -> Instance {
    let one = number(arena, 1.0);
    Instance { steps: vec![Step::Add { term: one }], variables: vec![] }
}

#[test]
fn test_flatten() {
    let mut g = Arena::new();
    let flat = Array::range(0.0, 4.0, 1.0);
    let square = flat.clone().into_shape_with_order((2, 2)).unwrap();
    let layer = Flatten {};
    let instance = layer.init(&vec![2, 2]).unwrap().instance();
    assert_eq!(instance_eval(&mut g, &instance, square.into_dyn()), flat.into_dyn());
}

#[test]
fn flatten_test() {
    let mut g = Arena::new();
    let flat = Array::range(0.0, 4.0, 1.0);
    let square = flat.clone().into_shape_with_order((2, 2)).unwrap().into_dyn();
    let layer = Layer::Flatten(Flatten {});
    let instance = layer.init(&mut g, "l", &square.shape().to_vec()).unwrap();
    assert_eq!(instance_eval(&mut g, &instance, square), flat.into_dyn());
}

#[test]
fn test_dense() {
    let mut g = Arena::new();
    let a = Array::range(0.0, 16.0, 1.0);
    let layer = Dense {
        activation: Activation::Linear,
        kernel_initializer: Initializer::Zeros,
        output_size: 4,
    };
    let dense = layer.init(&mut g, "l", &vec![16]).unwrap();
    let instance = dense.instance().followed_by(plus_one(&mut g));
    assert_eq!(instance_eval(&mut g, &instance, a.into_dyn()), Array::ones(4).into_dyn());
}

#[test]
fn dense_test() {
    let mut g = Arena::new();
    let a = Array::range(0.0, 16.0, 1.0).into_dyn();
    let layer = Layer::Dense(Dense {
        activation: Activation::Linear,
        kernel_initializer: Initializer::Zeros,
        output_size: 4,
    });
    let instance = layer.init(&mut g, "l", &a.shape().to_vec()).unwrap();
    let instance = instance.followed_by(plus_one(&mut g));
    assert_eq!(instance_eval(&mut g, &instance, a), Array::ones(4).into_dyn());
}

#[test]
fn test_gradients() {
    let mut g = Arena::new();
    let input = var(&mut g, "i", arr1(&[0.0, 1.0, 2.0]).into_dyn());
    let layer = Dense {
        activation: Activation::Softmax,
        kernel_initializer: Initializer::Zeros,
        output_size: 3,
    };
    let shape = input.shape(&g);
    let dense = layer.init(&mut g, "l", &shape).unwrap();
    assert_eq!(dense.variables()[0].name, "l.b");
    assert_eq!(dense.variables()[1].name, "l.w");
    let l = dense.try_expression(&mut g, input).unwrap();
    let truth = constant(&mut g, arr1(&[0.0, 0.0, 1.0]).into_dyn());
    let loss = losses::categorical_cross_entropy(&mut g, l, truth);

    assert_eq!(eval(&g, loss), arr0(1.0986123).into_dyn());
    assert_eq!(eval(&g, l), arr1(&[0.33333334, 0.33333334, 0.33333334]).into_dyn());

    assert_eq!(gradient(&mut g, l, "l.b"), arr1(&[0.0, 0.0, 0.0]).into_dyn());
    assert_eq!(
        gradient(&mut g, l, "l.w"),
        arr2(&[[0.0, 0.0, 0.0], [0.0, 0.0, 0.0], [0.0, 0.0, 0.0]]).into_dyn()
    );

    assert_eq!(
        gradient(&mut g, loss, "l.b"),
        arr1(&[0.33333334, 0.33333334, -0.6666667]).into_dyn()
    );
    assert_eq!(
        gradient(&mut g, loss, "l.w"),
        arr2(&[
            [0.0, 0.33333334, 0.6666667],
            [0.0, 0.33333334, 0.6666667],
            [0.0, -0.6666667, -1.3333334]
        ])
        .into_dyn()
    );
}

#[test]
fn global_average_pooling_gives_the_mean_of_each_channel() {
    let mut g = Arena::new();
    let image = arr3(&[[[0.0, 1.0], [1.0, 2.0]], [[2.0, 3.0], [3.0, 5.0]]]).into_dyn();
    let instance = GlobalAveragePooling2D {}.init(&vec![2, 2, 2]).unwrap();
    assert_eq!(instance_eval(&mut g, &instance, image), arr1(&[1.5, 2.75]).into_dyn());
    assert!(GlobalAveragePooling2D {}.init(&vec![2, 2]).is_none());
}

#[test]
fn lambda_applies_its_function() {
    let mut g = Arena::new();
    let instance = Lambda { f: Activation::Relu }.init();
    assert_eq!(
        instance_eval(&mut g, &instance, arr1(&[-1.0, 0.0, 2.0]).into_dyn()),
        arr1(&[0.0, 0.0, 2.0]).into_dyn()
    );
    let instance = Lambda { f: Activation::LeakyRelu { alpha: 0.5f32.to_bits() } }.init();
    assert_eq!(
        instance_eval(&mut g, &instance, arr1(&[-1.0, 0.0, 2.0]).into_dyn()),
        arr1(&[-0.5, 0.0, 2.0]).into_dyn()
    );
    assert_eq!(activations::linear(Expr { id: 7 }), Expr { id: 7 });
}

#[test]
fn residual_adds_the_input_to_the_output_of_its_body() {
    let mut g = Arena::new();
    let layer = Layer::Residual(Residual {
        body: Box::new(Layer::Lambda(Lambda { f: Activation::Relu })),
    });
    let instance = layer.init(&mut g, "r", &vec![3]).unwrap();
    assert_eq!(
        instance_eval(&mut g, &instance, arr1(&[-1.0, 0.0, 2.0]).into_dyn()),
        arr1(&[-1.0, 0.0, 4.0]).into_dyn()
    );
}

#[test]
fn batch_normalization_scales_and_shifts() {
    let mut g = Arena::new();
    let copy = |values: &[f32]| Initializer::Copy {
        value: to_tensor(&arr1(values).into_dyn()),
    };
    let layer = BatchNormalization {
        epsilon: 0.0f32.to_bits(),
        beta_initializer: copy(&[1.0, 2.0]),
        gamma_initializer: copy(&[2.0, 3.0]),
        moving_mean_initializer: copy(&[1.0, 1.0]),
        moving_variance_initializer: copy(&[4.0, 9.0]),
    };
    let instance = layer.init(&mut g, "bn", &vec![2, 2]).unwrap();
    assert_eq!(instance.variables.len(), 4);
    assert_eq!(instance.variables[3].name, "bn.moving_variance");
    // (x - mean) * gamma / sqrt(variance) + beta
    assert_eq!(
        instance_eval(&mut g, &instance, arr2(&[[1.0, 1.0], [3.0, 4.0]]).into_dyn()),
        arr2(&[[1.0, 2.0], [3.0, 5.0]]).into_dyn()
    );
}

#[test]
fn convolutional_layer_adds_its_biases_to_every_pixel() {
    let mut g = Arena::new();
    let mut kernel_values = Array::zeros((1, 1, 2, 3));
    kernel_values
        .index_axis_mut(Axis(0), 0)
        .assign(&arr3(&[[[1.0, 2.0, 3.0], [4.0, 5.0, 6.0]]]));
    let layer = neural_net::layers::Conv2D {
        activation: Activation::Linear,
        bias_initializer: Initializer::Ones,
        kernel_initializer: Initializer::Copy { value: to_tensor(&kernel_values.into_dyn()) },
        filters: 3,
        kernel_height: 1,
        kernel_width: 1,
        padding: Padding::Valid,
        stride: 1,
        use_bias: true,
    };
    let instance = layer.init(&mut g, "c", &vec![2, 2, 2]).unwrap();
    assert_eq!(instance.variables[0].name, "c.b");
    assert_eq!(instance.variables[1].name, "c.w");
    let image = arr3(&[[[0.0, 1.0], [1.0, 2.0]], [[2.0, 3.0], [3.0, 4.0]]]).into_dyn();
    assert_eq!(
        instance_eval(&mut g, &instance, image),
        arr3(&[[[5., 6., 7.], [10., 13., 16.]], [[15., 20., 25.], [20., 27., 34.]]]).into_dyn()
    );
}

#[test]
fn sequential_layers_are_named_by_position() {
    let mut g = Arena::new();
    let layer = Sequential {
        layers: vec![
            Layer::Flatten(Flatten {}),
            Layer::Dense(Dense {
                activation: Activation::Linear,
                kernel_initializer: Initializer::Ones,
                output_size: 2,
            }),
        ],
    };
    let instance = layer.init(&mut g, "s", &vec![2, 2]).unwrap();
    assert_eq!(instance.variables[0].name, "s/1.b");
    assert_eq!(instance.variables[1].name, "s/1.w");
    assert_eq!(
        instance_eval(&mut g, &instance, arr2(&[[1.0, 2.0], [3.0, 4.0]]).into_dyn()),
        arr1(&[10.0, 10.0]).into_dyn()
    );
    assert_eq!(instance.output_shape(&mut g, &vec![2, 2]), Some(vec![2]));
}

#[test]
fn layer_variables_are_named_after_the_layer() {
    let mut g = Arena::new();
    let mut builder = LayerVariablesBuilder::new("layer");
    let w = builder.append(&mut g, "w", to_tensor(&arr1(&[1.0, 2.0]).into_dyn()));
    assert_eq!(builder.variables.len(), 1);
    assert_eq!(builder.variables[0].name, "layer.w");
    assert_eq!(w.to_string(&g, &literal), "layer.w");
    assert_eq!(eval(&g, w), arr1(&[1.0, 2.0]).into_dyn());
}

#[test]
fn simplification_preserves_the_value_of_expressions_without_variables() {
    let mut g = Arena::new();
    let a = constant(&mut g, arr1(&[1.0, -2.0, 0.5]).into_dyn());
    let b = constant(&mut g, arr1(&[4.0, 0.0, 2.0]).into_dyn());
    let c = number(&mut g, 3.0);
    let sum = a.add(&mut g, b);
    let product = sum.mul(&mut g, c);
    let root = product.square(&mut g);
    let e = root.div(&mut g, c);
    let s = e.try_propagate_constants(&mut g, &kernel).unwrap();
    assert_eq!(eval(&g, s), eval(&g, e));
    assert!(matches!(g.operation(s), Operation::Constant { .. }));
    // simplifying again gives the same
    let again = s.try_propagate_constants(&mut g, &kernel).unwrap();
    assert_eq!(eval(&g, again), eval(&g, s));
}

#[test]
fn simplification_drops_identities() {
    let mut g = Arena::new();
    let x = var(&mut g, "x", arr1(&[1.0, 2.0]).into_dyn());
    let zero = constant(&mut g, arr1(&[0.0, 0.0]).into_dyn());
    let one = constant(&mut g, arr1(&[1.0, 1.0]).into_dyn());
    let e = x.add(&mut g, zero);
    let s = e.try_propagate_constants(&mut g, &kernel).unwrap();
    assert_eq!(s.to_string(&g, &literal), "x");
    let e = zero.add(&mut g, x);
    let s = e.try_propagate_constants(&mut g, &kernel).unwrap();
    assert_eq!(s.to_string(&g, &literal), "x");
    let e = x.sub(&mut g, zero);
    let s = e.try_propagate_constants(&mut g, &kernel).unwrap();
    assert_eq!(s.to_string(&g, &literal), "x");
    let e = x.mul(&mut g, one);
    let s = e.try_propagate_constants(&mut g, &kernel).unwrap();
    assert_eq!(s.to_string(&g, &literal), "x");
    let e = x.div(&mut g, one);
    let s = e.try_propagate_constants(&mut g, &kernel).unwrap();
    assert_eq!(s.to_string(&g, &literal), "x");
    let two = constant(&mut g, arr1(&[2.0, 2.0]).into_dyn());
    let e = x.div(&mut g, two);
    let s = e.try_propagate_constants(&mut g, &kernel).unwrap();
    assert_eq!(s.to_string(&g, &literal), "(x / [2, 2])");
    // a product with zeros is fixed whatever the other factor holds
    let e = x.mul(&mut g, zero);
    assert!(e.is_constant(&g, &kernel));
    let s = e.try_propagate_constants(&mut g, &kernel).unwrap();
    assert_eq!(s.to_string(&g, &literal), "[0, 0]");
    // a quotient with a numerator of zeros is
    let e = zero.div(&mut g, x);
    assert!(e.is_constant(&g, &kernel));
    let e = x.div(&mut g, zero);
    assert!(!e.is_constant(&g, &kernel));
    // a scalar zero is not dropped from a sum with a vector on the other side of the shapes
    let v1 = var(&mut g, "s", arr0(2.0).into_dyn());
    let e = v1.add(&mut g, zero);
    let s = e.try_propagate_constants(&mut g, &kernel).unwrap();
    assert_eq!(s.to_string(&g, &literal), "(s + [0, 0])");
    let bias = bias_add(&mut g, x, zero);
    let s = bias.try_propagate_constants(&mut g, &kernel).unwrap();
    assert_eq!(s.to_string(&g, &literal), "x");
}

#[test]
fn selection_by_a_fixed_condition_becomes_a_blend() {
    let mut g = Arena::new();
    let x = var(&mut g, "x", arr1(&[5.0, 6.0]).into_dyn());
    let y = var(&mut g, "y", arr1(&[7.0, 8.0]).into_dyn());
    let c = constant(&mut g, arr1(&[1.0, 0.0]).into_dyn());
    let e = ternary(&mut g, c, x, y);
    assert!(!e.is_constant(&g, &kernel));
    let s = e.try_propagate_constants(&mut g, &kernel).unwrap();
    assert_eq!(s.to_string(&g, &literal), "(([1, 0] * x) + ([0, 1] * y))");
    assert_eq!(eval(&g, s), arr1(&[5.0, 8.0]).into_dyn());
    // a condition that is all true makes the selection as fixed as its true branch
    let all = constant(&mut g, arr1(&[1.0, 1.0]).into_dyn());
    let k = constant(&mut g, arr1(&[3.0, 4.0]).into_dyn());
    let e = ternary(&mut g, all, k, y);
    assert!(e.is_constant(&g, &kernel));
    let none = constant(&mut g, arr1(&[0.0, 0.0]).into_dyn());
    let e = ternary(&mut g, none, y, k);
    assert!(e.is_constant(&g, &kernel));
    let e = ternary(&mut g, none, k, y);
    assert!(!e.is_constant(&g, &kernel));
}

#[test]
fn scalar_condition_selects_a_whole_branch() {
    let mut g = Arena::new();
    let yes = number(&mut g, 1.0);
    let no = number(&mut g, 0.0);
    let t = constant(&mut g, arr1(&[1.0, 2.0]).into_dyn());
    let f = number(&mut g, 9.0);
    let e = ternary(&mut g, yes, t, f);
    assert_eq!(eval(&g, e), arr1(&[1.0, 2.0]).into_dyn());
    let e = ternary(&mut g, no, t, f);
    assert_eq!(eval(&g, e), arr1(&[9.0, 9.0]).into_dyn());
    assert_eq!(e.shape(&g), vec![2]);
}

#[test]
fn broadcasting_add_is_commutative() {
    let mut g = Arena::new();
    let c = number(&mut g, 2.5);
    let x = constant(&mut g, arr2(&[[1.0, 2.0, 3.0], [4.0, 5.0, 6.0]]).into_dyn());
    let left = c.add(&mut g, x);
    let right = x.add(&mut g, c);
    assert_eq!(left.shape(&g), vec![2, 3]);
    assert_eq!(right.shape(&g), vec![2, 3]);
    assert_eq!(eval(&g, left), eval(&g, right));
    assert_eq!(eval(&g, left), arr2(&[[3.5, 4.5, 5.5], [6.5, 7.5, 8.5]]).into_dyn());
}

#[test]
fn gradient_of_a_sum_is_all_ones() {
    let mut g = Arena::new();
    let x = var(&mut g, "x", arr2(&[[3.0, 1.0], [4.0, 1.0], [5.0, 9.0]]).into_dyn());
    let f = x.sum(&mut g);
    assert_eq!(gradient(&mut g, f, "x"), Array::ones((3, 2)).into_dyn());
}

#[test]
fn gradient_with_respect_to_an_absent_variable_is_zero() {
    let mut g = Arena::new();
    let x = var(&mut g, "x", arr1(&[1.0, 2.0]).into_dyn());
    let f = x.square(&mut g);
    assert_eq!(gradient(&mut g, f, "y"), arr0(0.0).into_dyn());
    assert_eq!(gradient(&mut g, f, "x"), arr1(&[2.0, 4.0]).into_dyn());
}

#[test]
fn gradients_of_a_shared_variable_add_up() {
    let mut g = Arena::new();
    let x = var(&mut g, "x", arr1(&[1.0, 2.0]).into_dyn());
    let f = x.mul(&mut g, x);
    let table = f.try_gradients(&mut g).unwrap();
    assert_eq!(table.len(), 1);
    assert_eq!(table.name(0), "x");
    let e = table.get("x").unwrap();
    assert_eq!(e.to_string(&g, &literal), "(([1, 1] * x) + ([1, 1] * x))");
    assert!(table.get("y").is_none());
    assert_eq!(gradient(&mut g, f, "x"), arr1(&[2.0, 4.0]).into_dyn());
}

#[test]
fn gradient_into_a_scalar_operand_is_summed() {
    let mut g = Arena::new();
    let s = var(&mut g, "s", arr0(2.0).into_dyn());
    let x = constant(&mut g, arr1(&[1.0, 2.0, 3.0]).into_dyn());
    let f = s.mul(&mut g, x);
    assert_eq!(gradient(&mut g, f, "s"), arr0(6.0).into_dyn());
}

#[test]
fn matrix_product_and_its_gradients() {
    let mut g = Arena::new();
    let a = var(&mut g, "a", arr2(&[[1.0, 2.0], [3.0, 4.0]]).into_dyn());
    let b = var(&mut g, "b", arr2(&[[0.0, 1.0], [1.0, 0.0]]).into_dyn());
    let f = matmul(&mut g, a, b);
    assert_eq!(eval(&g, f), arr2(&[[2.0, 1.0], [4.0, 3.0]]).into_dyn());
    assert_eq!(gradient(&mut g, f, "a"), arr2(&[[1.0, 1.0], [1.0, 1.0]]).into_dyn());
    assert_eq!(gradient(&mut g, f, "b"), arr2(&[[4.0, 4.0], [6.0, 6.0]]).into_dyn());
    let t = a.transpose(&mut g);
    assert_eq!(eval(&g, t), arr2(&[[1.0, 3.0], [2.0, 4.0]]).into_dyn());
    assert_eq!(gradient(&mut g, t, "a"), arr2(&[[1.0, 1.0], [1.0, 1.0]]).into_dyn());
}

#[test]
fn gradient_through_a_convolution_has_no_value() {
    let mut g = Arena::new();
    let image = var(&mut g, "image", Array::zeros((2, 2, 1)).into_dyn());
    let k = constant(&mut g, Array::ones((1, 1, 1, 1)).into_dyn());
    let f = conv2d(&mut g, image, k, 1, Padding::Valid);
    assert_eq!(
        gradient_text(&mut g, f, "image"),
        "unevaluable(Conv2D gradients have not been implemented.)"
    );
    let x = var(&mut g, "x", arr1(&[1.0, 2.0]).into_dyn());
    let y = constant(&mut g, arr1(&[1.0, 3.0]).into_dyn());
    let c = cmp(&mut g, x, Op::Less, y);
    assert_eq!(
        gradient_text(&mut g, c, "x"),
        "unevaluable(gradients are not supported for comparisons)"
    );
    // the maximum differentiates through its branches, not through its comparison
    let m = x.max(&mut g, y);
    assert_eq!(gradient(&mut g, m, "x"), arr1(&[1.0, 0.0]).into_dyn());
}

#[test]
fn gradients_fail_where_shapes_do_not_meet() {
    let mut g = Arena::new();
    let value = var(&mut g, "v", Array::zeros((2, 2, 2)).into_dyn());
    let bias = var(&mut g, "b", arr1(&[1.0, 2.0]).into_dyn());
    let f = bias_add(&mut g, value, bias);
    assert!(f.try_gradients(&mut g).is_none());
    assert!(f.try_gradient(&mut g, "b", &kernel).is_none());
}

#[test]
fn expressions_are_printed_like_formulas() {
    let mut g = Arena::new();
    let x = var(&mut g, "x", arr1(&[1.0, 2.0]).into_dyn());
    let y = var(&mut g, "y", arr2(&[[1.0, 2.0], [3.0, 4.0]]).into_dyn());
    let e = reduce_sum(&mut g, y, vec![0, 1]);
    assert_eq!(e.to_string(&g, &literal), "reduce_sum(y, [0, 1])");
    let e = broadcast_to(&mut g, x, vec![12, 2]);
    assert_eq!(e.to_string(&g, &literal), "broadcast_to(x, [12, 2])");
    let e = matvecmul(&mut g, y, x);
    assert_eq!(e.to_string(&g, &literal), "(y \u{b7} x)");
    let e = cmp(&mut g, x, Op::GreaterOrEqual, x);
    assert_eq!(e.to_string(&g, &literal), "(x >= x)");
    let e = ternary(&mut g, e, x, x);
    assert_eq!(e.to_string(&g, &literal), "((x >= x) ? x : x)");
    let e = x.softmax(&mut g);
    let e = e.sqrt(&mut g);
    let e = e.ln(&mut g);
    let e = e.transpose(&mut g);
    let e = e.reshape(&mut g, vec![2]);
    assert_eq!(e.to_string(&g, &literal), "reshape(transpose(ln(sqrt(softmax(x)))))");
    let image = var(&mut g, "i", Array::zeros((2, 2, 1)).into_dyn());
    let k = var(&mut g, "k", Array::ones((1, 1, 1, 1)).into_dyn());
    let e = conv2d(&mut g, image, k, 2, Padding::Same);
    assert_eq!(e.to_string(&g, &literal), "conv2d(i, k, 2, SAME)");
    let e = unevaluable(&mut g, vec![1], "no reason");
    assert_eq!(e.to_string(&g, &literal), "unevaluable(no reason)");
    let e = bias_add(&mut g, y, x);
    assert_eq!(e.to_string(&g, &literal), "bias_add(y, x)");
}

#[test]
fn shapes_are_inferred_without_evaluation() {
    let mut g = Arena::new();
    let a = var(&mut g, "a", Array::zeros((2, 3)).into_dyn());
    let b = var(&mut g, "b", Array::zeros((3, 4)).into_dyn());
    let f = matmul(&mut g, a, b);
    assert_eq!(f.shape(&g), vec![2, 4]);
    assert_eq!(f.ndim(&g), 2);
    let t = f.transpose(&mut g);
    assert_eq!(t.shape(&g), vec![4, 2]);
    let s = f.sum(&mut g);
    assert_eq!(s.shape(&g), Vec::<usize>::new());
    let r = reduce_sum(&mut g, f, vec![1]);
    assert_eq!(r.shape(&g), vec![2, 1]);
    let image = var(&mut g, "i", Array::zeros((5, 7, 2)).into_dyn());
    let k = var(&mut g, "k", Array::zeros((3, 3, 2, 4)).into_dyn());
    let c = conv2d(&mut g, image, k, 2, Padding::Valid);
    assert_eq!(c.shape(&g), vec![2, 3, 4]);
    let c = conv2d(&mut g, image, k, 1, Padding::Same);
    assert_eq!(c.shape(&g), vec![5, 7, 4]);
    // a matrix product of a vector has no shape
    assert!(g.try_push(Operation::MatMul, vec![s, f]).is_none());
    assert!(g.infer_shape(&Operation::ReduceSum { axes: vec![2] }, &vec![f]).is_none());
    assert_eq!(g.infer_shape(&Operation::Add, &vec![s, f]), Some(vec![2, 4]));
    assert_eq!(shape::checked_size(&vec![2, 3, 4]), Some(24));
    assert_eq!(shape::checked_size(&vec![usize::MAX, 2]), None);
    assert_eq!(shape::checked_size(&vec![usize::MAX, 2, 0]), Some(0));
    assert_eq!(shape::repeated_axes(&vec![1, 3, 1], 5), vec![0, 1, 2, 4]);
    assert_eq!(shape::reduce(&vec![4, 5, 6], &vec![0, 2]), vec![1, 5, 1]);
    assert_eq!(shape::reversed(&vec![4, 5, 6]), vec![6, 5, 4]);
}

#[test]
fn geometry_of_same_padding_adds_a_zero_after_an_even_kernel() {
    let same = geometry(&vec![4, 5, 1], &vec![2, 3, 1, 1], 1, Padding::Same).unwrap();
    assert_eq!((same.pad_top, same.pad_left), (0, 1));
    assert_eq!((same.padded_height, same.padded_width), (5, 7));
    assert_eq!((same.out_height, same.out_width), (4, 5));
    assert_eq!(same.source_row(3, 1), None);
    assert_eq!(same.source_row(3, 0), Some(3));
    assert_eq!(same.source_column(0, 0), None);
    assert_eq!(same.source_column(0, 1), Some(0));
    let valid = geometry(&vec![4, 5, 1], &vec![2, 3, 1, 1], 2, Padding::Valid).unwrap();
    assert_eq!((valid.out_height, valid.out_width), (2, 2));
    assert!(geometry(&vec![4, 5, 1], &vec![5, 3, 1, 1], 1, Padding::Valid).is_none());
    assert!(geometry(&vec![4, 5, 1], &vec![2, 3, 1, 1], 0, Padding::Valid).is_none());
    assert!(geometry(&vec![4, 5, 2], &vec![2, 3, 1, 1], 1, Padding::Valid).is_none());
}

#[test]
fn counts_become_the_nearest_number() {
    let mut samples: Vec<usize> = (0..5000).collect();
    for shift in 10..63 {
        for delta in [0usize, 1, 2, 3, 5, 127, 128, 129, 255, 256, 257] {
            samples.push((1usize << shift) + delta);
            samples.push((1usize << shift) - delta);
            samples.push((3usize << (shift - 1)) + delta);
        }
    }
    samples.push(16777216);
    samples.push(16777217);
    samples.push(16777218);
    samples.push(16777219);
    samples.push(usize::MAX);
    samples.push(usize::MAX - 1);
    for n in samples {
        assert_eq!(scalar_count(n), (n as f32).to_bits(), "{}", n);
    }
}

#[test]
fn numbers_compare_like_numbers() {
    let values = [0.0f32, -0.0, 1.0, -1.0, 0.5, f32::NAN, f32::INFINITY, f32::MIN_POSITIVE];
    for a in values {
        for b in values {
            assert_eq!(same_number(a.to_bits(), b.to_bits()), a == b, "{} {}", a, b);
        }
    }
    let zeros = to_tensor(&arr1(&[0.0, -0.0]).into_dyn());
    assert!(zeros.is_zeros());
    assert!(!zeros.is_ones());
    assert!(Tensor::ones(vec![2, 2]).is_ones());
    assert!(Tensor::ones(vec![2, 2]).same_bits(&to_tensor(&Array::ones((2, 2)).into_dyn())));
    assert!(Tensor::new(vec![2, 2], vec![0, 0, 0]).is_none());
}

fn counting<'a>(calls: &'a Cell<usize>) -> impl Fn(&Operation, &Vec<Tensor>) -> Tensor + 'a {
    move |operation, inputs| {
        calls.set(calls.get() + 1);
        kernel(operation, inputs)
    }
}

#[test]
fn graph_computes_each_term_once_in_a_pass() {
    let mut g = Arena::new();
    let x = var(&mut g, "x", arr1(&[1.0, 2.0]).into_dyn());
    let shared = x.exp(&mut g);
    let a = shared.add(&mut g, shared);
    let b = shared.mul(&mut g, a);
    let mut graph = Graph::new();
    let na = graph.add(&g, a);
    let nb = graph.add(&g, b);
    assert_eq!(graph.len(), 4);
    assert_eq!(graph.top_level(), &vec![na, nb]);
    let calls = Cell::new(0);
    let k = counting(&calls);
    let computed = graph.eval(&g, &k);
    // exp, add and mul once each; the variable is read without the kernel
    assert_eq!(calls.get(), 3);
    assert_eq!(computed.len(), 4);
    assert_eq!(graph.generation(), 1);
    let first_a = to_array(graph.node_output(na));
    let first_b = to_array(graph.node_output(nb));
    assert_eq!(first_a, eval(&g, a));
    assert_eq!(first_b, eval(&g, b));
    // a second pass without a change gives the same outputs, again with one computation each
    let computed = graph.eval(&g, &k);
    assert_eq!(calls.get(), 6);
    assert_eq!(computed.len(), 4);
    assert_eq!(to_array(graph.node_output(na)), first_a);
    assert_eq!(to_array(graph.node_output(nb)), first_b);
    // each input is computed before the term that reads it
    for (position, node) in computed.iter().enumerate() {
        let e = graph.node_expr(*node);
        for input in e.inputs(&g) {
            let at = computed.iter().position(|n| graph.node_expr(*n) == input).unwrap();
            assert!(at < position);
        }
    }
    // a pass over one root computes what the root needs only
    let computed = graph.eval_nodes(&g, vec![na], &k);
    assert_eq!(computed.len(), 3);
    assert_eq!(graph.node_generation(na), 3);
    assert_eq!(graph.node_generation(nb), 2);
}

#[test]
fn graph_follows_the_variables() {
    let mut g = Arena::new();
    let cell = g.add_cell(VariableValue::new(to_tensor(&arr1(&[1.0, 2.0]).into_dyn())));
    let x = v(&mut g, "x", cell);
    let f = x.square(&mut g);
    let mut graph = Graph::new();
    let n = graph.add(&g, f);
    assert_eq!(to_array(graph.node_output(n)), arr1(&[0.0, 0.0]).into_dyn());
    graph.eval(&g, &kernel);
    assert_eq!(to_array(graph.node_output(n)), arr1(&[1.0, 4.0]).into_dyn());
    g.set(cell, to_tensor(&arr1(&[3.0, 4.0]).into_dyn()));
    assert_eq!(to_array(graph.node_output(n)), arr1(&[1.0, 4.0]).into_dyn());
    graph.eval(&g, &kernel);
    assert_eq!(to_array(graph.node_output(n)), arr1(&[9.0, 16.0]).into_dyn());
    assert_eq!(to_array(&g.cell(cell).get()), arr1(&[3.0, 4.0]).into_dyn());
}

#[test]
fn graph_keeps_one_entry_for_each_expression() {
    let mut g = Arena::new();
    let a = var(&mut g, "a", arr0(1.0).into_dyn());
    let b = var(&mut g, "b", arr0(2.0).into_dyn());
    let ab = a.add(&mut g, b);
    let ba = b.add(&mut g, a);
    let mut graph = Graph::new();
    let first = graph.add(&g, ab);
    let second = graph.add(&g, ba);
    assert_ne!(first, second);
    assert_ne!(ab.id(), ba.id());
    // the same expression keeps its entry
    let len = graph.len();
    assert_eq!(graph.add(&g, ab), first);
    assert_eq!(graph.len(), len);
    // and so does an input that is registered as a root later
    let entries = graph.len();
    let roots = graph.top_level().len();
    let input = graph.add(&g, a);
    assert_eq!(graph.len(), entries);
    assert_eq!(graph.top_level().len(), roots);
    assert_eq!(graph.node_expr(input), a);
    graph.eval(&g, &kernel);
    assert_eq!(to_array(graph.node_output(first)), to_array(graph.node_output(second)));
}

#[test]
fn cells_hold_what_was_put_into_them() {
    let mut value = VariableValue::new(to_tensor(&arr1(&[1.0, 2.0]).into_dyn()));
    assert_eq!(value.shape(), vec![2]);
    value.set(to_tensor(&arr0(3.0).into_dyn()));
    assert_eq!(to_array(&value.get()), arr0(3.0).into_dyn());
    value.mutate(|t| to_tensor(&(to_array(&t) * 2.0)));
    assert_eq!(to_array(&value.get()), arr0(6.0).into_dyn());
}

#[test]
fn model_for_inference_predicts() {
    let mut g = Arena::new();
    let mut model = models::Sequential::new(vec![2, 2]);
    model.add_layer(Layer::Flatten(Flatten {}));
    model.add_layer(Layer::Dense(Dense {
        activation: Activation::Softmax,
        kernel_initializer: Initializer::Zeros,
        output_size: 4,
    }));
    let mut compiled = model.compile_for_inference(&mut g).unwrap();
    let input = to_tensor(&arr2(&[[1.0, 2.0], [3.0, 4.0]]).into_dyn());
    let out = compiled.predict(&mut g, input, &kernel);
    assert_eq!(to_array(&out), arr1(&[0.25, 0.25, 0.25, 0.25]).into_dyn());
}

#[test]
fn model_for_training_descends() {
    let mut g = Arena::new();
    let mut model = models::Sequential::new(vec![3]);
    model.add_layer(Layer::Dense(Dense {
        activation: Activation::Softmax,
        kernel_initializer: Initializer::Zeros,
        output_size: 3,
    }));
    let mut compiled = model
        .compile_for_training(&mut g, vec![3], models::Loss::CategoricalCrossEntropy)
        .unwrap();
    assert_eq!(compiled.trainable_variables().len(), 2);
    assert_eq!(compiled.trainable_variables()[0].name, "l0.b");
    let bias_cell = compiled.trainable_variables()[0].value;
    let input = to_tensor(&arr1(&[0.0, 1.0, 2.0]).into_dyn());
    let target = to_tensor(&arr1(&[0.0, 0.0, 1.0]).into_dyn());
    let moved = compiled.train_on(&mut g, input, target, 1.0f32.to_bits(), &kernel);
    assert_eq!(moved, 2);
    assert_eq!(
        to_array(&g.cell(bias_cell).get()),
        arr1(&[-0.33333334, -0.33333334, 0.6666667]).into_dyn()
    );
    let input = to_tensor(&arr1(&[0.0, 1.0, 2.0]).into_dyn());
    let before = to_array(&compiled.predict(&mut g, input, &kernel));
    for _ in 0..20 {
        let input = to_tensor(&arr1(&[0.0, 1.0, 2.0]).into_dyn());
        let target = to_tensor(&arr1(&[0.0, 0.0, 1.0]).into_dyn());
        compiled.train_on(&mut g, input, target, 0.5f32.to_bits(), &kernel);
    }
    let input = to_tensor(&arr1(&[0.0, 1.0, 2.0]).into_dyn());
    let after = to_array(&compiled.predict(&mut g, input, &kernel));
    assert!(after[[2]] > before[[2]]);
}

#[test]
fn convolution_with_zeros_around_the_input() {
    let mut g = Arena::new();
    let image = constant(
        &mut g,
        arr3(&[[[1.0], [2.0], [3.0]], [[4.0], [5.0], [6.0]], [[7.0], [8.0], [9.0]]]).into_dyn(),
    );
    let k = constant(&mut g, Array::ones((3, 3, 1, 1)).into_dyn());
    let f = conv2d(&mut g, image, k, 1, Padding::Same);
    assert_eq!(
        eval(&g, f),
        arr3(&[
            [[12.0], [21.0], [16.0]],
            [[27.0], [45.0], [33.0]],
            [[24.0], [39.0], [28.0]]
        ])
        .into_dyn()
    );
}

#[test]
fn convolution_with_a_kernel_of_even_length() {
    let mut g = Arena::new();
    let image = constant(&mut g, arr3(&[[[1.0], [2.0]], [[3.0], [4.0]]]).into_dyn());
    let k = constant(&mut g, Array::ones((2, 2, 1, 1)).into_dyn());
    let f = conv2d(&mut g, image, k, 1, Padding::Same);
    // the zeros stand after the input: below it and right of it
    assert_eq!(eval(&g, f), arr3(&[[[10.0], [6.0]], [[7.0], [4.0]]]).into_dyn());
}

#[test]
fn convolution_stepped_by_two() {
    let mut g = Arena::new();
    let values: Vec<f32> = (0..16).map(|i| i as f32).collect();
    let image = constant(&mut g, ArrayD::from_shape_vec(IxDyn(&[4, 4, 1]), values).unwrap());
    let k = constant(
        &mut g,
        ArrayD::from_shape_vec(IxDyn(&[2, 2, 1, 1]), vec![1.0, 2.0, 3.0, 4.0]).unwrap(),
    );
    let f = conv2d(&mut g, image, k, 2, Padding::Valid);
    assert_eq!(f.shape(&g), vec![2, 2, 1]);
    assert_eq!(eval(&g, f), arr3(&[[[34.0], [54.0]], [[114.0], [134.0]]]).into_dyn());
}

#[test]
fn convolution_sums_over_channels_for_each_filter() {
    let image = to_tensor(&arr3(&[[[2.0, 3.0]]]).into_dyn());
    let weights = to_tensor(
        &ArrayD::from_shape_vec(IxDyn(&[1, 1, 2, 2]), vec![1.0, 10.0, 100.0, 1000.0]).unwrap(),
    );
    let out = convolve(&kernel, &image, &weights, 1, Padding::Valid).unwrap();
    assert_eq!(to_array(&out), arr3(&[[[302.0, 3020.0]]]).into_dyn());
}

#[test]
fn convolution_without_a_geometry() {
    let image = to_tensor(&Array::zeros((2, 2, 2)).into_dyn());
    // the channels differ
    let weights = to_tensor(&Array::zeros((1, 1, 3, 1)).into_dyn());
    assert!(convolve(&kernel, &image, &weights, 1, Padding::Valid).is_none());
    // the kernel is longer than the input
    let weights = to_tensor(&Array::zeros((3, 1, 2, 1)).into_dyn());
    assert!(convolve(&kernel, &image, &weights, 1, Padding::Valid).is_none());
    // a stride of zero
    let weights = to_tensor(&Array::zeros((1, 1, 2, 1)).into_dyn());
    assert!(convolve(&kernel, &image, &weights, 0, Padding::Valid).is_none());
    assert!(convolve(&kernel, &image, &weights, 1, Padding::Valid).is_some());
}

#[test]
fn convolution_at_more_places_than_inferred() {
    // with zeros around an input of five lines, a stride of two gives three lines, one
    // more than the shape that inference gives
    let image = to_tensor(&Array::ones((5, 5, 1)).into_dyn());
    let weights = to_tensor(&Array::ones((3, 3, 1, 1)).into_dyn());
    let out = convolve(&kernel, &image, &weights, 2, Padding::Same).unwrap();
    assert_eq!(out.shape(), &vec![3, 3, 1]);
    assert_eq!(
        shape_of_conv(&vec![5, 5, 1], &vec![3, 3, 1, 1], 2, Padding::Same),
        Some(vec![2, 2, 1])
    );
}

fn shape_of_conv(
    input: &Vec<usize>,
    weights: &Vec<usize>,
    stride: usize,
    padding: Padding,
) -> Option<Vec<usize>> {
    neural_net::algebra::conv2d::output_shape(input, weights, stride, padding)
}

#[test]
fn numbers_are_ordered_like_numbers() {
    let values = [
        0.0f32,
        -0.0,
        1.0,
        -1.0,
        0.5,
        -0.5,
        2.5e-40,
        -2.5e-40,
        f32::MIN_POSITIVE,
        f32::MAX,
        f32::MIN,
        f32::INFINITY,
        f32::NEG_INFINITY,
        f32::NAN,
        -f32::NAN,
    ];
    for a in values {
        assert_eq!(neural_net::scalar::not_a_number(a.to_bits()), a.is_nan(), "{}", a);
        for b in values {
            let (x, y) = (a.to_bits(), b.to_bits());
            assert_eq!(neural_net::scalar::less_than(x, y), a < b, "{} < {}", a, b);
            assert_eq!(Op::Less.cmp(x, y), a < b, "{} < {}", a, b);
            assert_eq!(Op::LessOrEqual.cmp(x, y), a <= b, "{} <= {}", a, b);
            assert_eq!(Op::Greater.cmp(x, y), a > b, "{} > {}", a, b);
            assert_eq!(Op::GreaterOrEqual.cmp(x, y), a >= b, "{} >= {}", a, b);
            assert_eq!(Op::Equal.cmp(x, y), a == b, "{} == {}", a, b);
            assert_eq!(Op::NotEqual.cmp(x, y), a != b, "{} != {}", a, b);
        }
    }
}

#[test]
fn arrays_are_rearranged_like_arrays() {
    let matrix = arr2(&[[1.0f32, 2.0, 3.0], [4.0, 5.0, 6.0]]).into_dyn();
    let t = transpose(&to_tensor(&matrix)).unwrap();
    assert_eq!(to_array(&t), arr2(&[[1.0, 4.0], [2.0, 5.0], [3.0, 6.0]]).into_dyn());
    let cube = ArrayD::from_shape_vec(IxDyn(&[2, 3, 4]), (0..24).map(|i| i as f32).collect())
        .unwrap();
    let t = transpose(&to_tensor(&cube)).unwrap();
    assert_eq!(t.shape(), &vec![4, 3, 2]);
    assert_eq!(to_array(&t), cube.t().to_owned());
    let scalar = to_tensor(&arr0(7.0f32).into_dyn());
    assert_eq!(to_array(&transpose(&scalar).unwrap()), arr0(7.0).into_dyn());

    let row = to_tensor(&arr1(&[1.0f32, 2.0, 3.0]).into_dyn());
    let b = broadcast(&row, &vec![2, 3]).unwrap();
    assert_eq!(to_array(&b), arr2(&[[1.0, 2.0, 3.0], [1.0, 2.0, 3.0]]).into_dyn());
    let column = to_tensor(&arr2(&[[1.0f32], [2.0]]).into_dyn());
    let b = broadcast(&column, &vec![2, 3]).unwrap();
    assert_eq!(to_array(&b), arr2(&[[1.0, 1.0, 1.0], [2.0, 2.0, 2.0]]).into_dyn());
    let b = broadcast(&scalar, &vec![2, 2]).unwrap();
    assert_eq!(to_array(&b), arr2(&[[7.0, 7.0], [7.0, 7.0]]).into_dyn());
    // an axis of another length than one is not repeated, and no axis is dropped
    assert!(broadcast(&row, &vec![2, 4]).is_none());
    assert!(broadcast(&to_tensor(&matrix), &vec![3]).is_none());
    // an axis of length nothing stays empty
    let b = broadcast(&row, &vec![0, 3]).unwrap();
    assert_eq!(b.len(), 0);

    let r = reshape(&to_tensor(&matrix), &vec![3, 2]).unwrap();
    assert_eq!(to_array(&r), arr2(&[[1.0, 2.0], [3.0, 4.0], [5.0, 6.0]]).into_dyn());
    assert!(reshape(&to_tensor(&matrix), &vec![4, 2]).is_none());

    let e = expand(&scalar, &vec![3]).unwrap();
    assert_eq!(to_array(&e), arr1(&[7.0, 7.0, 7.0]).into_dyn());
    let e = expand(&row, &vec![2]).unwrap();
    assert_eq!(to_array(&e), arr1(&[1.0, 2.0, 3.0]).into_dyn());
}

#[test]
fn simplifying_twice_changes_nothing() {
    let mut g = Arena::new();
    let x = var(&mut g, "x", arr1(&[1.0, 2.0]).into_dyn());
    let zero = constant(&mut g, arr1(&[0.0, 0.0]).into_dyn());
    let two = constant(&mut g, arr1(&[2.0, 2.0]).into_dyn());
    let three = constant(&mut g, arr1(&[3.0, 3.0]).into_dyn());
    let sum = x.add(&mut g, zero);
    let fixed = two.mul(&mut g, three);
    let product = sum.mul(&mut g, fixed);
    let e = product.exp(&mut g);
    let once = e.try_propagate_constants(&mut g, &kernel).unwrap();
    assert_eq!(once.to_string(&g, &literal), "exp((x * [6, 6]))");
    let twice = once.try_propagate_constants(&mut g, &kernel).unwrap();
    assert_eq!(twice.to_string(&g, &literal), once.to_string(&g, &literal));
    assert_eq!(eval(&g, twice), eval(&g, e));
}

#[test]
fn graph_registers_the_terms_of_an_expression_only() {
    let mut g = Arena::new();
    let x = var(&mut g, "x", arr1(&[1.0, 2.0]).into_dyn());
    let y = var(&mut g, "y", arr1(&[3.0, 4.0]).into_dyn());
    let other = y.exp(&mut g);
    let e = x.add(&mut g, x);
    let mut graph = Graph::new();
    let n = graph.add(&g, e);
    assert_eq!(graph.len(), 2);
    assert_eq!(graph.node_expr(0), x);
    assert_eq!(graph.node_expr(n), e);
    // an entry holds zeros until it computes
    assert_eq!(to_array(graph.node_output(n)), arr1(&[0.0, 0.0]).into_dyn());
    assert_eq!(graph.node_generation(n), 0);
    // an expression that has an entry keeps it
    assert_eq!(graph.add(&g, e), n);
    assert_eq!(graph.len(), 2);
    assert_eq!(graph.top_level(), &vec![n]);
    let m = graph.add(&g, other);
    assert_eq!(graph.len(), 4);
    // a pass over the first expression leaves the second as it was
    let computed = graph.eval_nodes(&g, vec![n], &kernel);
    assert_eq!(computed, vec![0, n]);
    assert_eq!(graph.node_generation(m), 0);
    assert_eq!(to_array(graph.node_output(m)), arr1(&[0.0, 0.0]).into_dyn());
}

#[test]
fn model_for_training_names_its_variables() {
    let mut g = Arena::new();
    let held = g.add_cell(VariableValue::new(Tensor::scalar(0)));
    let mut model = models::Sequential::new(vec![2, 2]);
    model.add_layer(Layer::Flatten(Flatten {}));
    model.add_layer(Layer::Dense(Dense {
        activation: Activation::Relu,
        kernel_initializer: Initializer::Ones,
        output_size: 3,
    }));
    model.add_layer(Layer::Dense(Dense {
        activation: Activation::Softmax,
        kernel_initializer: Initializer::Ones,
        output_size: 2,
    }));
    let compiled = model
        .compile_for_training(&mut g, vec![2], models::Loss::CategoricalCrossEntropy)
        .unwrap();
    // the input reads the first new cell, the variables the cells after it, and the target
    // the cell after those
    assert_eq!(compiled.input(), held + 1);
    let variables = compiled.trainable_variables();
    let names: Vec<&str> = variables.iter().map(|v| v.name.as_str()).collect();
    assert_eq!(names, vec!["l1.b", "l1.w", "l2.b", "l2.w"]);
    let cells: Vec<usize> = variables.iter().map(|v| v.value).collect();
    assert_eq!(cells, vec![held + 2, held + 3, held + 4, held + 5]);
    assert_eq!(compiled.target(), held + 6);
    assert_eq!(g.cell(held + 3).shape(), vec![3, 4]);
    assert_eq!(g.cell(held + 5).shape(), vec![2, 3]);
    assert_eq!(g.cell(compiled.target()).shape(), vec![2]);
}

#[test]
fn model_that_cannot_be_built() {
    let mut g = Arena::new();
    let mut model = models::Sequential::new(vec![2, 2]);
    // a fully connected layer takes a vector; there is no product of its weights and a matrix
    model.add_layer(Layer::Dense(Dense {
        activation: Activation::Linear,
        kernel_initializer: Initializer::Copy { value: Tensor::ones(vec![3, 5]) },
        output_size: 3,
    }));
    assert!(model.compile_for_inference(&mut g).is_none());
}

#[test]
fn fan_of_weights() {
    use_fan(vec![3, 4], Some(7));
    use_fan(vec![2, 3, 4], Some(14));
    use_fan(vec![3, 3, 16, 32], Some(432));
    use_fan(vec![5], None);
    use_fan(vec![1, 2, 3, 4, 5], None);
    use_fan(vec![usize::MAX, 1], None);
    use_fan(vec![0, usize::MAX, 1], Some(0));
    use_fan(vec![usize::MAX, usize::MAX, 0, 0], Some(0));
    use_fan(vec![usize::MAX, 2, 1, 0], None);
}

fn use_fan(shape: Vec<usize>, expected: Option<usize>) {
    assert_eq!(neural_net::initializers::fan(&shape), expected, "{:?}", shape);
}

#[test]
fn greatest_element_is_found() {
    let at = |values: &[f32]| models::max_index(&to_tensor(&arr1(values).into_dyn()));
    assert_eq!(at(&[0.1, 0.7, 0.2]), 1);
    // the first of the greatest
    assert_eq!(at(&[0.5, 0.9, 0.9]), 1);
    // nothing is greater than zero
    assert_eq!(at(&[-1.0, -0.5, 0.0]), 0);
    assert_eq!(at(&[]), 0);
    // what is not a number is greater than nothing
    assert_eq!(at(&[f32::NAN, 0.25, f32::NAN]), 1);
    assert_eq!(at(&[0.0, f32::INFINITY, 1.0]), 1);
}

#[test]
fn numbered_variables_of_a_layer() {
    let mut g = Arena::new();
    let mut builder = neural_net::layers::TrainableVariablesBuilder::new("dense");
    let first = builder.append(&mut g, Tensor::zeros(vec![2]));
    let second = builder.append(&mut g, Tensor::ones(vec![2, 3]));
    assert_eq!(first.to_string(&g, &literal), "dense.v0");
    assert_eq!(second.to_string(&g, &literal), "dense.v1");
    assert_eq!(second.shape(&g), vec![2, 3]);
    assert_eq!(builder.trainable_variables.len(), 2);
    assert_eq!(builder.trainable_variables[1].name, "dense.v1");
    assert_eq!(builder.trainable_variables[1].value, 1);
    assert_eq!(to_array(&g.cell(1).get()), Array::ones((2, 3)).into_dyn());
}
