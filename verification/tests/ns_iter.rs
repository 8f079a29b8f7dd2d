use espresso_core::ns_iter::{Index, Iter};

fn collect(counts: Vec<usize>) -> Vec<(u32, u32)> {
    let mut it = Iter::new(counts);
    let mut out = vec![];
    while let Some(Index { namespace, position }) = it.next() {
        out.push((namespace, position));
    }
    // exhausted iterators stay exhausted
    assert!(it.next().is_none());
    out
}

#[test]
fn iter_all_positions() {
    assert_eq!(collect(vec![2, 0, 1]), vec![(0, 0), (0, 1), (2, 0)]);
    assert_eq!(collect(vec![]), vec![]);
    assert_eq!(collect(vec![0, 0]), vec![]);
    assert_eq!(collect(vec![0, 3]), vec![(1, 0), (1, 1), (1, 2)]);
}
