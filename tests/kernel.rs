use gpu_matmul::kernel::{
    benchmark_cpu_matmuls, checksum, cpu_matmul_v1, cpu_matmul_v2, cpu_matmul_v3, cpu_matmul_v4,
};

fn mul_add(acc: f32, x: f32, y: f32) -> f32 {
    acc + x * y
}

fn plus(s: f32, v: f32) -> f32 {
    s + v
}

/// Deterministic values in [-1, 1) from a linear congruential sequence.
fn pseudo_random_matrix(size: usize, seed: u64) -> Vec<f32> {
    let mut state = seed;
    let mut out = Vec::with_capacity(size * size);
    for _ in 0..size * size {
        state = state.wrapping_mul(6364136223846793005).wrapping_add(1442695040888963407);
        let unit = ((state >> 40) as f32) / ((1u64 << 24) as f32);
        out.push(unit * 2.0 - 1.0);
    }
    out
}

fn all_formulations(a: &[f32], b: &[f32], size: usize) -> [Vec<f32>; 4] {
    let v1 = cpu_matmul_v1(a, b, size, 0.0, &mul_add);
    let v2 = cpu_matmul_v2(a, b, size, 0.0, &mul_add).collect_remaining();
    let v3 = cpu_matmul_v3(a, b, size, 0.0, &mul_add).collect_remaining();
    let v4 = cpu_matmul_v4(a, b, size, 0.0, &mul_add);
    [v1, v2, v3, v4]
}

#[test]
fn two_by_two_product() {
    let a = vec![1.0f32, 2.0, 3.0, 4.0];
    let b = vec![5.0f32, 6.0, 7.0, 8.0];
    for out in all_formulations(&a, &b, 2) {
        assert_eq!(out, vec![19.0f32, 22.0, 43.0, 50.0]);
    }
    assert_eq!(benchmark_cpu_matmuls(&a, &b, 2, 0.0, &mul_add), vec![19.0f32, 22.0, 43.0, 50.0]);
}

#[test]
fn product_is_not_the_transposed_product() {
    // B * A differs from A * B for these inputs, so a swapped index would show.
    let a = vec![1.0f32, 2.0, 3.0, 4.0];
    let b = vec![5.0f32, 6.0, 7.0, 8.0];
    for out in all_formulations(&b, &a, 2) {
        assert_eq!(out, vec![23.0f32, 34.0, 31.0, 46.0]);
    }
}

#[test]
fn non_square_friendly_three_by_three() {
    let a = vec![1.0f32, 0.0, 2.0, -1.0, 3.0, 1.0, 0.0, 4.0, -2.0];
    let b = vec![2.0f32, 1.0, 0.0, 0.0, -1.0, 5.0, 3.0, 2.0, 1.0];
    for out in all_formulations(&a, &b, 3) {
        assert_eq!(out, vec![8.0f32, 5.0, 2.0, 1.0, -2.0, 16.0, -6.0, -8.0, 18.0]);
    }
}

#[test]
fn formulations_agree_bit_for_bit() {
    let size = 64;
    let a = pseudo_random_matrix(size, 1);
    let b = pseudo_random_matrix(size, 2);
    let [v1, v2, v3, v4] = all_formulations(&a, &b, size);
    let bits = |v: &Vec<f32>| v.iter().map(|x| x.to_bits()).collect::<Vec<u32>>();
    assert_eq!(bits(&v1), bits(&v2));
    assert_eq!(bits(&v1), bits(&v3));
    assert_eq!(bits(&v1), bits(&v4));
}

#[test]
fn identity_on_the_left_gives_back_the_matrix() {
    let size = 4;
    let mut identity = vec![0.0f32; size * size];
    for i in 0..size {
        identity[i * size + i] = 1.0;
    }
    let x: Vec<f32> = (0..size * size).map(|p| p as f32 * 0.5 - 3.0).collect();
    for out in all_formulations(&identity, &x, size) {
        assert_eq!(out, x);
    }
}

#[test]
fn zero_on_the_left_gives_zero() {
    let size = 3;
    let zeros = vec![0.0f32; size * size];
    let x: Vec<f32> = (0..size * size).map(|p| p as f32 - 4.0).collect();
    for out in all_formulations(&zeros, &x, size) {
        assert_eq!(out, vec![0.0f32; size * size]);
    }
}

#[test]
fn checksum_of_two_by_two_product() {
    let a = vec![1.0f32, 2.0, 3.0, 4.0];
    let b = vec![5.0f32, 6.0, 7.0, 8.0];
    let out = cpu_matmul_v1(&a, &b, 2, 0.0, &mul_add);
    assert_eq!(checksum(&out, 0.0, &plus), 134.0);
}

#[test]
fn checksum_is_repeatable() {
    let size = 32;
    let a = pseudo_random_matrix(size, 7);
    let b = pseudo_random_matrix(size, 8);
    let first = checksum(&cpu_matmul_v1(&a, &b, size, 0.0, &mul_add), 0.0, &plus);
    for _ in 0..4 {
        let again = checksum(&cpu_matmul_v1(&a, &b, size, 0.0, &mul_add), 0.0, &plus);
        assert_eq!(first.to_bits(), again.to_bits());
    }
}

#[test]
fn empty_matrices() {
    let empty: Vec<f32> = Vec::new();
    for out in all_formulations(&empty, &empty, 0) {
        assert!(out.is_empty());
    }
    assert_eq!(checksum(&empty, 0.0, &plus), 0.0);
}

#[test]
fn integer_elements() {
    let a = vec![1i64, 2, 3, 4];
    let b = vec![5i64, 6, 7, 8];
    let step = |acc: i64, x: i64, y: i64| acc + x * y;
    assert_eq!(cpu_matmul_v4(&a, &b, 2, 0, &step), vec![19, 22, 43, 50]);
}

#[test]
fn cursor_yields_in_row_major_order_then_none() {
    let a = vec![1.0f32, 2.0, 3.0, 4.0];
    let b = vec![5.0f32, 6.0, 7.0, 8.0];
    let mut it = cpu_matmul_v2(&a, &b, 2, 0.0, &mul_add);
    assert_eq!(it.next(), Some(19.0));
    assert_eq!(it.next(), Some(22.0));
    assert_eq!(it.next(), Some(43.0));
    assert_eq!(it.next(), Some(50.0));
    assert_eq!(it.next(), None);
    assert_eq!(it.next(), None);
    let mut walk = cpu_matmul_v3(&a, &b, 2, 0.0, &mul_add);
    assert_eq!(walk.next(), Some(19.0));
    assert_eq!(walk.collect_remaining(), vec![22.0f32, 43.0, 50.0]);
    assert_eq!(walk.next(), None);
}
