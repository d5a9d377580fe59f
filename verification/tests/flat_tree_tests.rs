use svg_diff::flat_tree::tree::Builder;

#[test]
fn simple_test() {
    // Insert a root and some children
    let mut b = Builder::new();
    b.start_element(0);
    b.start_end_element(1);
    b.start_end_element(2);
    b.start_end_element(3);
    b.end_element();
    let t = b.build();

    // Test
    assert_eq!(
        t.children(0)
            .iter()
            .map(|&i| t.get(i.clone()).unwrap().clone())
            .collect::<Vec<usize>>(),
        vec![1, 2, 3]
    );
    assert_eq!(*t.parent(1).unwrap(), 0);
}

#[test]
fn multi_children_test() {
    // Insert a root and some children
    let mut t = Builder::new();
    t.start_element(0);
    t.start_element(1);
    t.start_end_element(2);
    t.start_end_element(3);
    t.start_end_element(4);
    t.end_element();
    t.start_end_element(5);
    t.start_end_element(6);
    t.start_end_element(7);
    t.end_element();
    let t = t.build();

    // Test
    assert_eq!(
        t.children(0)
            .iter()
            .map(|&i| t.get(i.clone()).unwrap().clone())
            .collect::<Vec<usize>>(),
        vec![1, 5, 6, 7]
    );
    assert_eq!(
        t.children(1)
            .iter()
            .map(|&i| t.get(i.clone()).unwrap().clone())
            .collect::<Vec<usize>>(),
        vec![2, 3, 4]
    );
    assert_eq!(*t.next_sibling(2).unwrap(), 3);
    assert_eq!(*t.next_sibling(3).unwrap(), 4);
    assert_eq!(t.next_sibling(4), None);
    assert_eq!(t.prev_sibling(2), None);
    assert_eq!(*t.prev_sibling(3).unwrap(), 2);
    assert_eq!(*t.prev_sibling(4).unwrap(), 3);
    assert_eq!(t.parent(0), None);
    assert_eq!(*t.parent(1).unwrap(), 0);
    assert_eq!(*t.parent(2).unwrap(), 1);
    assert_eq!(*t.parent(3).unwrap(), 1);
    assert_eq!(*t.parent(4).unwrap(), 1);
    assert_eq!(*t.parent(5).unwrap(), 0);
}
