use interact::ExpectTree;

#[test]
fn expect_main() {
    let mut et: ExpectTree<i32> = ExpectTree::new();
    assert_eq!(et.last(), None);

    et.advance(2);
    assert_eq!(et.clone().into_flatten(), vec![vec![2]]);
    assert_eq!(et.last(), Some(&2));

    et.advance(3);
    assert_eq!(et.clone().into_flatten(), vec![vec![2, 3]]);
    assert_eq!(et.last(), Some(&3));

    et.retract_path(et.path_len() - 1);
    assert_eq!(et.last(), Some(&2));

    et.advance(3);
    assert_eq!(et.clone().into_flatten(), vec![vec![2, 3]]);

    et.retract_path(et.path_len() - 1);
    et.advance(4);
    assert_eq!(et.clone().into_flatten(), vec![vec![2, 3], vec![2, 4]]);

    et.retract_path(et.path_len() - 2);
    et.advance(1);
    assert_eq!(
        et.clone().into_flatten(),
        vec![vec![2, 3], vec![2, 4], vec![1]]
    );

    et.retract_path(et.path_len() - 1);
    et.advance(2);
    et.advance(3);
    et.advance(6);
    assert_eq!(
        et.clone().into_flatten(),
        vec![vec![2, 3, 6], vec![2, 4], vec![1]]
    );

    et.retract_path(et.path_len() - 1);
    et.advance(7);
    assert_eq!(
        et.clone().into_flatten(),
        vec![vec![2, 3, 6], vec![2, 3, 7], vec![2, 4], vec![1]]
    );
}
