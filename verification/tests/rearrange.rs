use iron_indexer::db::models::BackfillJob;
use iron_indexer::db::types::Address;
use iron_indexer::rearrange::rearrange;

fn job(ids: &[u8], low: u64, high: u64) -> BackfillJob {
    BackfillJob {
        addresses: ids.iter().map(|i| Address::repeat_byte(*i)).collect(),
        low,
        high,
    }
}

fn check(input: Vec<BackfillJob>, expected: Vec<BackfillJob>) {
    let result = rearrange(&input);
    assert_eq!(result, expected);
}

#[test]
fn adjacent_jobs_1() {
    check(
        vec![job(&[0x1], 0, 10), job(&[0x1], 10, 20)],
        vec![job(&[0x1], 0, 10), job(&[0x1], 10, 20)],
    );
}

#[test]
fn same_range_different_addresses() {
    check(
        vec![job(&[0x1], 0, 10), job(&[0x2], 0, 10)],
        vec![job(&[0x1, 0x2], 0, 10)],
    );
}

#[test]
fn empty_range() {
    check(vec![job(&[0x1], 0, 0)], vec![]);
}

#[test]
fn single_block() {
    check(vec![job(&[0x1], 0, 1)], vec![job(&[0x1], 0, 1)]);
}

#[test]
fn mix1() {
    check(
        vec![job(&[0x1], 1, 2), job(&[0x2], 1, 3)],
        vec![job(&[0x1, 0x2], 1, 2), job(&[0x2], 2, 3)],
    );
}

#[test]
fn mix2() {
    check(
        vec![job(&[0x1], 1, 10), job(&[0x2], 5, 15)],
        vec![
            job(&[0x1], 1, 5),
            job(&[0x1, 0x2], 5, 10),
            job(&[0x2], 10, 15),
        ],
    );
}

#[test]
fn mix3() {
    check(
        vec![
            job(&[0x1], 10, 20),
            job(&[0x2], 15, 25),
            job(&[0x3], 20, 30),
        ],
        vec![
            job(&[0x1], 10, 15),
            job(&[0x1, 0x2], 15, 20),
            job(&[0x2, 0x3], 20, 25),
            job(&[0x3], 25, 30),
        ],
    );
}

#[test]
fn mix4() {
    check(
        vec![
            job(&[0x1], 10, 21),
            job(&[0x2], 15, 25),
            job(&[0x3], 20, 30),
        ],
        vec![
            job(&[0x1], 10, 15),
            job(&[0x1, 0x2], 15, 20),
            job(&[0x1, 0x2, 0x3], 20, 21),
            job(&[0x2, 0x3], 21, 25),
            job(&[0x3], 25, 30),
        ],
    );
}

#[test]
fn disjoint_jobs_are_kept() {
    check(
        vec![job(&[0xa], 0, 10), job(&[0xb], 20, 30)],
        vec![job(&[0xa], 0, 10), job(&[0xb], 20, 30)],
    );
}

#[test]
fn jobs_sorted_by_high_descending() {
    check(
        vec![
            job(&[0x3], 20, 30),
            job(&[0x2], 15, 25),
            job(&[0x1], 10, 20),
        ],
        vec![
            job(&[0x1], 10, 15),
            job(&[0x1, 0x2], 15, 20),
            job(&[0x2, 0x3], 20, 25),
            job(&[0x3], 25, 30),
        ],
    );
}

#[test]
fn an_address_of_two_jobs_is_kept_once() {
    check(
        vec![job(&[0x1, 0x2], 0, 10), job(&[0x2, 0x1], 5, 10)],
        vec![job(&[0x1, 0x2], 0, 5), job(&[0x1, 0x2], 5, 10)],
    );
}

#[test]
fn rearranging_twice_changes_nothing() {
    let input = vec![
        job(&[0x1], 10, 21),
        job(&[0x2], 15, 25),
        job(&[0x3], 20, 30),
        job(&[0x4], 7, 7),
    ];
    let once = rearrange(&input);
    let twice = rearrange(&once);
    assert_eq!(once, twice);
}

#[test]
fn no_two_rearranged_jobs_share_a_block() {
    let input = vec![
        job(&[0x1], 3, 40),
        job(&[0x2], 15, 25),
        job(&[0x3], 20, 30),
        job(&[0x1], 35, 50),
    ];
    let out = rearrange(&input);
    for i in 0..out.len() {
        assert!(out[i].low < out[i].high);
        for j in (i + 1)..out.len() {
            assert!(out[i].high <= out[j].low);
        }
    }
}

#[test]
fn every_block_keeps_its_addresses() {
    let input = vec![
        job(&[0x1], 3, 40),
        job(&[0x2], 15, 25),
        job(&[0x3], 20, 30),
        job(&[0x1], 35, 50),
    ];
    let out = rearrange(&input);
    for block in 0u64..60 {
        for id in 0u8..5 {
            let a = Address::repeat_byte(id);
            let before = input
                .iter()
                .any(|j| j.low <= block && block < j.high && j.addresses.contains(&a));
            let after = out
                .iter()
                .filter(|j| j.low <= block && block < j.high && j.addresses.contains(&a))
                .count();
            assert_eq!(after, if before { 1 } else { 0 });
        }
    }
}

fn next(seed: &mut u64) -> u64 {
    *seed = seed.wrapping_mul(6364136223846793005).wrapping_add(1442695040888963407);
    *seed >> 33
}

#[test]
fn arbitrary_jobs_keep_their_coverage() {
    let mut seed = 42u64;
    for _ in 0..200 {
        let count = next(&mut seed) % 7;
        let input: Vec<BackfillJob> = (0..count)
            .map(|_| {
                let low = next(&mut seed) % 24;
                let high = next(&mut seed) % 24;
                let ids: Vec<u8> =
                    (0..next(&mut seed) % 4).map(|_| (next(&mut seed) % 5) as u8).collect();
                job(&ids, low, high)
            })
            .collect();
        let out = rearrange(&input);
        for i in 0..out.len() {
            assert!(out[i].low < out[i].high);
            assert!(!out[i].addresses.is_empty());
            assert!(out[i].addresses.windows(2).all(|w| w[0].0 < w[1].0));
            assert!(input.iter().any(|j| j.low != j.high && (j.low == out[i].low || j.high == out[i].low)));
            assert!(input.iter().any(|j| j.low != j.high && (j.low == out[i].high || j.high == out[i].high)));
            if i + 1 < out.len() {
                assert!(out[i].high <= out[i + 1].low);
            }
        }
        for block in 0u64..25 {
            for id in 0u8..5 {
                let a = Address::repeat_byte(id);
                let before = input
                    .iter()
                    .any(|j| j.low <= block && block < j.high && j.addresses.contains(&a));
                let after = out
                    .iter()
                    .filter(|j| j.low <= block && block < j.high && j.addresses.contains(&a))
                    .count();
                assert_eq!(after, if before { 1 } else { 0 });
            }
        }
        assert_eq!(rearrange(&out), out);
    }
}
