use tt_rust::tsort::TopSort;

#[test]
fn test1() {
    let mut tsort = TopSort::new();
    tsort.add(9, 2);
    tsort.add(3, 7);
    tsort.add(7, 5);
    tsort.add(5, 8);
    tsort.add(8, 6);
    tsort.add(4, 6);
    tsort.add(1, 3);
    tsort.add(7, 4);
    tsort.add(9, 5);
    tsort.add(2, 8);
    assert_eq!(tsort.sorted(), vec![1, 9, 2, 3, 7, 4, 5, 8, 6]);
}
