use espresso_core::leaf_chain::{get_leaf_chain, sort_leaves_by_view, LeafChainUnavailable, LeafInfo};

fn leaf(height: u64, view: u64, justify_qc_view: u64) -> LeafInfo {
    LeafInfo { height, view, justify_qc_view }
}

#[test]
fn leaf_chain_consecutive_views() {
    // unsorted input: 10 <- 11 <- 12
    let leaves = vec![leaf(6, 12, 11), leaf(4, 10, 9), leaf(5, 11, 10)];
    let chain = get_leaf_chain(&leaves, 4).unwrap();
    assert_eq!(chain, vec![leaf(4, 10, 9), leaf(5, 11, 10), leaf(6, 12, 11)]);
}

#[test]
fn leaf_chain_with_gap_then_consecutive() {
    // 10 <- 12 (gap), 12 <- 13 (consecutive), 13 <- 15 confirms
    let leaves = vec![
        leaf(4, 10, 9),
        leaf(5, 12, 10),
        leaf(9, 14, 3),
        leaf(6, 13, 12),
        leaf(7, 15, 13),
    ];
    let chain = get_leaf_chain(&leaves, 4).unwrap();
    assert_eq!(
        chain,
        vec![leaf(4, 10, 9), leaf(5, 12, 10), leaf(6, 13, 12), leaf(7, 15, 13)]
    );
}

#[test]
fn leaf_chain_missing_height() {
    let leaves = vec![leaf(4, 10, 9), leaf(5, 11, 10), leaf(6, 12, 11)];
    assert_eq!(get_leaf_chain(&leaves, 8), Err(LeafChainUnavailable { height: 8 }));
    assert_eq!(get_leaf_chain(&vec![], 0), Err(LeafChainUnavailable { height: 0 }));
}

#[test]
fn leaf_chain_unconfirmed() {
    // 10 <- 11 is consecutive but nothing certifies 11
    let leaves = vec![leaf(4, 10, 9), leaf(5, 11, 10)];
    assert_eq!(get_leaf_chain(&leaves, 4), Err(LeafChainUnavailable { height: 4 }));
}

#[test]
fn leaf_sort_is_stable() {
    let leaves = vec![leaf(1, 5, 0), leaf(2, 3, 0), leaf(3, 5, 1), leaf(4, 1, 0)];
    let sorted = sort_leaves_by_view(&leaves);
    assert_eq!(sorted, vec![leaf(4, 1, 0), leaf(2, 3, 0), leaf(1, 5, 0), leaf(3, 5, 1)]);
}
