use rtb_aggregator::nmax::NMax;

fn items(m: &NMax<u32>) -> Vec<u32> {
    m.iter().copied().collect()
}

#[test]
fn nmax_keeps_newest_first() {
    let mut m = NMax::new(3);
    assert_eq!(items(&m), Vec::<u32>::new());
    for i in 1..=5u32 {
        m.push(i);
    }
    assert_eq!(items(&m), vec![5, 4, 3]);
}

#[test]
fn nmax_below_capacity_keeps_all() {
    let mut m = NMax::new(10);
    m.push(1u32);
    m.push(2);
    assert_eq!(items(&m), vec![2, 1]);
}

#[test]
fn nmax_zero_capacity_keeps_nothing() {
    let mut m = NMax::new(0);
    m.push(1u32);
    assert_eq!(items(&m), Vec::<u32>::new());
}

#[test]
fn nmax_after_pushes_holds_newest_first() {
    for n in 0..5usize {
        for k in 0..8u32 {
            let mut m = NMax::new(n);
            for i in 1..=k {
                m.push(i);
            }
            let expected: Vec<u32> = (1..=k).rev().take(n).collect();
            assert_eq!(items(&m), expected);
            assert_eq!(m.iter().count(), std::cmp::min(n, k as usize));
        }
    }
}
