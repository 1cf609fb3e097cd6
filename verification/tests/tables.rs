use wavetable::shape::{saw, square, tri};
use wavetable::table::next_index;
use wavetable::{Amplitude, Shape, TableError, WaveTable};

fn same(a: Amplitude, num: i128, den: i128) -> bool {
    a.den > 0 && a.num * den == num * (a.den as i128)
}

fn table_of(shape: Shape, size: usize) -> WaveTable {
    match WaveTable::new(shape, size) {
        Ok(t) => t,
        Err(e) => panic!("no table of {} samples: {:?}", size, e),
    }
}

fn sample_of(t: &WaveTable, i: usize) -> Amplitude {
    match t.sample(i) {
        Some(a) => a,
        None => panic!("no sample at {}", i),
    }
}

#[test]
fn square_table_of_four() {
    let t = table_of(Shape::Square, 4);
    assert_eq!(t.size(), 4);
    assert!(same(sample_of(&t, 0), 1, 1));
    assert!(same(sample_of(&t, 1), 1, 1));
    assert!(same(sample_of(&t, 2), -1, 1));
    assert!(same(sample_of(&t, 3), -1, 1));
}

#[test]
fn saw_table_of_four() {
    let t = table_of(Shape::Saw, 4);
    assert_eq!(t.size(), 4);
    assert!(same(sample_of(&t, 0), 1, 1));
    assert!(same(sample_of(&t, 1), 1, 2));
    assert!(same(sample_of(&t, 2), 0, 1));
    assert!(same(sample_of(&t, 3), -1, 2));
}

#[test]
fn tri_table_of_four() {
    let t = table_of(Shape::Tri, 4);
    assert_eq!(t.size(), 4);
    assert!(same(sample_of(&t, 0), -1, 1));
    assert!(same(sample_of(&t, 1), 0, 1));
    assert!(same(sample_of(&t, 2), 1, 1));
    assert!(same(sample_of(&t, 3), 0, 1));
}

#[test]
fn sine_table_of_four() {
    let scale: u64 = 1 << 30;
    let samples: Vec<i64> = (0..4)
        .map(|i| ((2.0 * std::f64::consts::PI * (i as f64 / 4.0)).sin() * scale as f64).round() as i64)
        .collect();
    let t = WaveTable::from_samples(samples, scale).unwrap();
    let expected = [0.0, 1.0, 0.0, -1.0];
    for i in 0..4 {
        let a = sample_of(&t, i);
        let x = a.num as f64 / a.den as f64;
        assert!((x - expected[i]).abs() < 1e-9);
    }
}

#[test]
fn tri_table_follows_the_formula() {
    let size: usize = 10;
    let t = table_of(Shape::Tri, size);
    for i in 0..size {
        let expected: i128 = if 2 * i < size {
            4 * i as i128 - size as i128
        } else {
            3 * size as i128 - 4 * i as i128
        };
        assert!(same(sample_of(&t, i), expected, size as i128));
    }
}

#[test]
fn saw_table_follows_the_formula() {
    let size: usize = 7;
    let t = table_of(Shape::Saw, size);
    for i in 0..size {
        assert!(same(sample_of(&t, i), size as i128 - 2 * i as i128, size as i128));
    }
}

#[test]
fn square_table_follows_the_formula() {
    let size: usize = 5;
    let t = table_of(Shape::Square, size);
    for i in 0..size {
        let expected: i128 = if 2 * i < size { 1 } else { -1 };
        assert!(same(sample_of(&t, i), expected, 1));
    }
}

#[test]
fn odd_size_puts_the_middle_sample_in_the_first_half() {
    let t = table_of(Shape::Square, 3);
    assert!(same(sample_of(&t, 1), 1, 1));
    assert!(same(sample_of(&t, 2), -1, 1));
    let u = table_of(Shape::Tri, 3);
    assert!(same(sample_of(&u, 1), 1, 3));
    assert!(same(sample_of(&u, 2), 1, 3));
}

#[test]
fn table_of_one_sample() {
    let t = table_of(Shape::Saw, 1);
    assert_eq!(t.size(), 1);
    assert!(same(sample_of(&t, 0), 1, 1));
    assert!(t.sample(1).is_none());
}

#[test]
fn every_sample_is_within_the_unit_range() {
    for shape in [Shape::Tri, Shape::Saw, Shape::Square] {
        for size in 1..40usize {
            let t = table_of(shape, size);
            for i in 0..size {
                let a = sample_of(&t, i);
                assert!(a.den > 0);
                assert!(a.num <= a.den as i128 && -a.num <= a.den as i128);
            }
        }
    }
}

#[test]
fn empty_table_is_refused() {
    for shape in [Shape::Tri, Shape::Saw, Shape::Square] {
        assert_eq!(WaveTable::new(shape, 0).err(), Some(TableError::InvalidSize));
    }
}

#[test]
fn sample_past_the_end_is_none() {
    let t = table_of(Shape::Tri, 4);
    assert!(t.sample(3).is_some());
    assert!(t.sample(4).is_none());
    assert!(t.sample(usize::MAX).is_none());
}

#[test]
fn from_samples_keeps_the_samples() {
    let t = WaveTable::from_samples(vec![0, 5, 10, -10, -3], 10).unwrap();
    assert_eq!(t.size(), 5);
    assert!(same(sample_of(&t, 0), 0, 1));
    assert!(same(sample_of(&t, 1), 1, 2));
    assert!(same(sample_of(&t, 2), 1, 1));
    assert!(same(sample_of(&t, 3), -1, 1));
    assert!(same(sample_of(&t, 4), -3, 10));
}

#[test]
fn from_samples_refuses_no_samples() {
    assert_eq!(WaveTable::from_samples(vec![], 10).err(), Some(TableError::InvalidSize));
    assert_eq!(WaveTable::from_samples(vec![], 0).err(), Some(TableError::InvalidSize));
}

#[test]
fn from_samples_refuses_a_zero_scale() {
    assert_eq!(WaveTable::from_samples(vec![0, 0], 0).err(), Some(TableError::ZeroScale));
    assert_eq!(WaveTable::from_samples(vec![7], 0).err(), Some(TableError::ZeroScale));
}

#[test]
fn from_samples_refuses_a_sample_beyond_the_scale() {
    assert_eq!(
        WaveTable::from_samples(vec![0, 11, 0], 10).err(),
        Some(TableError::SampleOutOfRange)
    );
    assert_eq!(
        WaveTable::from_samples(vec![0, 0, -11], 10).err(),
        Some(TableError::SampleOutOfRange)
    );
    assert_eq!(
        WaveTable::from_samples(vec![i64::MIN], u64::MAX).map(|t| t.size()).ok(),
        Some(1)
    );
    assert_eq!(
        WaveTable::from_samples(vec![i64::MIN], i64::MAX as u64).err(),
        Some(TableError::SampleOutOfRange)
    );
}

#[test]
fn waveforms_on_the_grid() {
    assert!(same(tri(0, 8), -1, 1));
    assert!(same(tri(1, 8), -1, 2));
    assert!(same(tri(4, 8), 1, 1));
    assert!(same(tri(6, 8), 0, 1));
    assert!(same(saw(0, 8), 1, 1));
    assert!(same(saw(3, 8), 1, 4));
    assert!(same(saw(7, 8), -3, 4));
    assert!(same(square(3, 8), 1, 1));
    assert!(same(square(4, 8), -1, 1));
    assert!(same(Shape::Tri.at(3, 8), 1, 2));
    assert!(same(Shape::Saw.at(4, 8), 0, 1));
    assert!(same(Shape::Square.at(7, 8), -1, 1));
}

#[test]
fn waveforms_at_the_largest_size() {
    let a = tri(usize::MAX - 1, usize::MAX);
    assert_eq!(a.den, usize::MAX as u128);
    assert_eq!(a.num, 3 * usize::MAX as i128 - 4 * (usize::MAX - 1) as i128);
    let b = saw(usize::MAX - 1, usize::MAX);
    assert_eq!(b.num, usize::MAX as i128 - 2 * (usize::MAX - 1) as i128);
    let c = square(usize::MAX / 2, usize::MAX);
    assert!(same(c, 1, 1));
}

#[test]
fn next_index_wraps_at_the_end() {
    assert_eq!(next_index(0, 4), 1);
    assert_eq!(next_index(2, 4), 3);
    assert_eq!(next_index(3, 4), 0);
    assert_eq!(next_index(0, 1), 0);
    assert_eq!(next_index(usize::MAX - 1, usize::MAX), 0);
}
