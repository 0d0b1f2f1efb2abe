use std::hint::black_box;
use std::time::Instant;

use vidascii::braille::to_braille;
use vidascii::brightness::{compute_brightness, GrayScaleMode};
use vidascii::text::braille_pixels_to_string;

fn classic1(braille_pixels: Vec<Vec<char>>) -> String {
    braille_pixels
        .iter()
        .map(|c| c.iter().map(|c| c.to_string()).collect::<Vec<_>>().join(""))
        .collect::<Vec<_>>()
        .join("\n")
}

fn classic2(braille_pixels: Vec<Vec<char>>) -> String {
    braille_pixels
        .join(&'\n')
        .into_iter()
        .map(|c| c.to_string())
        .collect::<Vec<_>>()
        .join("")
}

fn avg_fold(rbg: [u8; 3]) -> u16 {
    rbg[0..=2].iter().fold(0_u16, |acc, pv| acc + *pv as u16) / 3
}

#[test]
fn braille_pixels_to_string_bench_test() {
    let avg_classic1_elapsed = (0..10).fold(0_u128, |acc, _| {
        let now = Instant::now();
        for _ in 0..1_000 {
            black_box(classic1(vec![vec!['\u{28FF}'; 100]; 100]));
        }
        acc + now.elapsed().as_millis()
    }) / 10;
    let avg_classic2_elapsed = (0..10).fold(0_u128, |acc, _| {
        let now = Instant::now();
        for _ in 0..1_000 {
            black_box(classic2(vec![vec!['\u{28FF}'; 100]; 100]));
        }
        acc + now.elapsed().as_millis()
    }) / 10;
    let avg_extend_elapsed = (0..10).fold(0_u128, |acc, _| {
        let now = Instant::now();
        for _ in 0..1_000 {
            black_box(braille_pixels_to_string(vec![vec!['\u{28FF}'; 100]; 100]));
        }
        acc + now.elapsed().as_millis()
    }) / 10;

    println!("avg_classic1_elapsed - {avg_classic1_elapsed}ms");
    println!("avg_classic2_elapsed - {avg_classic2_elapsed}ms");
    println!("avg_extend_elapsed - {avg_extend_elapsed}ms");
    let grid = vec![vec!['\u{28FF}'; 100]; 100];
    assert_eq!(braille_pixels_to_string(grid.clone()), classic1(grid.clone()));
    assert_eq!(braille_pixels_to_string(grid.clone()), classic2(grid));
}

#[test]
fn avg_bench_test() {
    let avg_elapsed = (0..10).fold(0_u128, |acc, _| {
        let now = Instant::now();
        for _ in 0..1_000_000 {
            black_box(compute_brightness(black_box([255, 255, 255]), GrayScaleMode::Average));
        }
        acc + now.elapsed().as_millis()
    }) / 10;
    let avg_fold_elapsed = (0..10).fold(0_u128, |acc, _| {
        let now = Instant::now();
        for _ in 0..1_000_000 {
            black_box(avg_fold(black_box([255, 255, 255])));
        }
        acc + now.elapsed().as_millis()
    }) / 10;

    println!("avg - {avg_elapsed}ms");
    println!("avg_fold - {avg_fold_elapsed}ms");
    // Under an optimizing build both forms compile to the same few
    // instructions, so which one is faster is down to noise; what must hold
    // is that they agree.
    assert_eq!(compute_brightness([255, 255, 255], GrayScaleMode::Average), avg_fold([255, 255, 255]));
}

#[test]
fn to_braille_bench_test() {
    let avg_elapsed = (0..10).fold(0_u128, |acc, _| {
        let now = Instant::now();
        for _ in 0..1_000_000 {
            black_box(to_braille(black_box(&[0, 1, 2, 3, 4, 5, 6, 7])).unwrap());
        }
        acc + now.elapsed().as_millis()
    }) / 10;

    println!("{avg_elapsed}ms");
    assert!(avg_elapsed < 1000)
}
