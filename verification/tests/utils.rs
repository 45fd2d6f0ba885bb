use p3_baby_bear::BabyBear;
use p3_field::PrimeField32;

use stark_backend::domain::{
    is_power_of_two, log2_ceil_u8, log2_strict_usize_checked, pow2_usize, Domain, GENERATOR,
};
use stark_backend::matrix::{BaseMatrix, MatrixDimensions};
use stark_backend::utils::{
    batch_multiplicative_inverse_allowing_zero, parallelize_chunks, worker_count, workers_for,
};

const P: u32 = 0x78000001;

#[test]
fn forty_items_for_twelve_workers() {
    let slices = parallelize_chunks(40, 1, 12);
    let sizes: Vec<usize> = slices.iter().map(|s| s.1).collect();
    assert_eq!(sizes, vec![4, 4, 4, 4, 3, 3, 3, 3, 3, 3, 3, 3]);
    let offsets: Vec<usize> = slices.iter().map(|s| s.0).collect();
    assert_eq!(offsets, vec![0, 4, 8, 12, 16, 19, 22, 25, 28, 31, 34, 37]);
}

#[test]
fn slices_hold_whole_chunks() {
    assert_eq!(
        parallelize_chunks(40, 4, 3),
        vec![(0, 16), (16, 12), (28, 12)]
    );
    assert_eq!(parallelize_chunks(16, 4, 4), vec![(0, 4), (4, 4), (8, 4), (12, 4)]);
    assert_eq!(parallelize_chunks(16, 8, 1), vec![(0, 16)]);
}

#[test]
fn fewer_chunks_than_workers_give_one_chunk_each() {
    assert_eq!(parallelize_chunks(12, 4, 8), vec![(0, 4), (4, 4), (8, 4)]);
    assert_eq!(parallelize_chunks(2, 2, 5), vec![(0, 2)]);
    assert_eq!(parallelize_chunks(0, 3, 5), vec![]);
}

#[test]
fn slices_cover_every_item_once() {
    for (len, chunk, threads) in [(1024, 8, 7), (96, 3, 5), (30, 1, 30), (64, 64, 2)] {
        let slices = parallelize_chunks(len, chunk, threads);
        let mut next = 0;
        let longest = slices.iter().map(|s| s.1).max().unwrap();
        for &(offset, size) in &slices {
            assert_eq!(offset, next);
            assert!(size > 0 && size % chunk == 0);
            assert!(size + chunk >= longest);
            next += size;
        }
        assert_eq!(next, len);
        assert_eq!(slices.len(), threads.min(len / chunk));
    }
}

#[test]
fn inverses_are_taken_and_zeros_left_alone() {
    let values = vec![0, 1, 2, P - 1, 0, 12345, P, 3, P + 2];
    let inverses = batch_multiplicative_inverse_allowing_zero(values.clone());
    assert_eq!(inverses.len(), values.len());
    for (&value, &inverse) in values.iter().zip(&inverses) {
        if value % P == 0 {
            assert_eq!(inverse, value);
        } else {
            assert!(inverse < P);
            assert_eq!((value as u64 % P as u64) * inverse as u64 % P as u64, 1);
        }
    }
    assert_eq!(inverses[1], 1);
    assert_eq!(inverses[2], (P + 1) / 2);
    assert_eq!(inverses[3], P - 1);
    assert_eq!(inverses[8], (P + 1) / 2);
    assert_eq!(
        batch_multiplicative_inverse_allowing_zero(vec![]),
        Vec::<u32>::new()
    );
    assert_eq!(batch_multiplicative_inverse_allowing_zero(vec![0, 0]), vec![0, 0]);
}

#[test]
fn matrix_holds_its_entries_row_after_row() {
    let m = BaseMatrix::new(vec![1, 2, 3, 4, 5, 6], 3);
    assert_eq!(m.width(), 3);
    assert_eq!(m.height(), 2);
    assert_eq!(m.get(0, 0), Some(1));
    assert_eq!(m.get(0, 2), Some(3));
    assert_eq!(m.get(1, 0), Some(4));
    assert_eq!(m.get(1, 2), Some(6));
    assert_eq!(m.get(2, 0), None);
    assert_eq!(m.get(0, 3), None);
    assert_eq!(m.to_values(), vec![1, 2, 3, 4, 5, 6]);
    assert_eq!(MatrixDimensions::height(&m), 2);
    assert_eq!(MatrixDimensions::width(&m), 3);
}

#[test]
fn matrix_entries_are_canonical() {
    let m = BaseMatrix::new(vec![P, P + 5, u32::MAX, P - 1], 2);
    assert_eq!(m.get(0, 0), Some(0));
    assert_eq!(m.get(0, 1), Some(5));
    assert_eq!(m.get(1, 0), Some(u32::MAX % P));
    assert_eq!(m.get(1, 1), Some(P - 1));
}

#[test]
fn matrix_without_entries_has_no_rows() {
    let m = BaseMatrix::new(vec![], 0);
    assert_eq!((m.width(), m.height()), (0, 0));
    assert_eq!(m.get(0, 0), None);
    let m = BaseMatrix::new(vec![], 4);
    assert_eq!((m.width(), m.height()), (4, 0));
    assert!(m.to_values().is_empty());
}

#[test]
fn powers_of_two_and_their_logarithms() {
    assert_eq!(log2_strict_usize_checked(1), Some(0));
    assert_eq!(log2_strict_usize_checked(2), Some(1));
    assert_eq!(log2_strict_usize_checked(1 << 20), Some(20));
    assert_eq!(log2_strict_usize_checked(0), None);
    assert_eq!(log2_strict_usize_checked(3), None);
    assert_eq!(log2_strict_usize_checked(12), None);
    assert!(is_power_of_two(1) && is_power_of_two(64));
    assert!(!is_power_of_two(0) && !is_power_of_two(6) && !is_power_of_two(65));
    assert_eq!(pow2_usize(0), 1);
    assert_eq!(pow2_usize(27), 1 << 27);
    let ceilings: Vec<usize> = [0u8, 1, 2, 3, 4, 5, 8, 9, 128, 129, 255]
        .iter()
        .map(|&n| log2_ceil_u8(n))
        .collect();
    assert_eq!(ceilings, vec![0, 0, 1, 2, 2, 3, 3, 4, 7, 8, 8]);
}

#[test]
fn disjoint_domain_is_shifted_by_the_generator() {
    let trace_domain = Domain::natural(5);
    assert_eq!(
        trace_domain,
        Domain {
            log_size: 5,
            shift: 1
        }
    );
    assert_eq!(trace_domain.size(), 32);
    let quotient_domain = trace_domain.create_disjoint_domain(7);
    assert_eq!(
        quotient_domain,
        Domain {
            log_size: 7,
            shift: GENERATOR
        }
    );
    let twice = quotient_domain.create_disjoint_domain(0);
    assert_eq!(
        twice,
        Domain {
            log_size: 0,
            shift: GENERATOR * GENERATOR
        }
    );
    let wrapped = Domain {
        log_size: 1,
        shift: P - 1,
    }
    .create_disjoint_domain(1);
    assert_eq!(
        wrapped.shift,
        (BabyBear::new(P - 1) * BabyBear::new(GENERATOR)).as_canonical_u32()
    );
    assert_eq!(wrapped.shift, P - GENERATOR);
    assert_eq!(<BabyBear as p3_field::Field>::GENERATOR.as_canonical_u32(), GENERATOR);
}

#[test]
fn there_is_a_worker_for_every_thread_and_at_least_one() {
    assert_eq!(workers_for(0), 1);
    assert_eq!(workers_for(1), 1);
    assert_eq!(workers_for(12), 12);
    assert_eq!(workers_for(usize::MAX), usize::MAX);
    assert!(worker_count() >= 1);
}
