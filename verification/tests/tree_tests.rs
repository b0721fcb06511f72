use bluebook_core::interval_tree::{intersect, Interval, IntervalTree};

fn iv(start: usize, end: usize) -> Interval {
    Interval { start, end }
}

fn name_of(start: usize, end: usize) -> String {
    let mut name: String = "".to_string();
    name.push_str(&start.to_string());
    name.push(':');
    name.push_str(&end.to_string());
    name
}

fn insert_and_validate(tree: &mut IntervalTree<String>, start: usize, end: usize) {
    tree.insert(iv(start, end), name_of(start, end));
}

fn assert_intersections(
    tree: &IntervalTree<String>,
    target: (usize, usize),
    expected_results: Vec<(usize, usize)>,
) {
    let mut actual: Vec<(Interval, String)> = tree
        .find(iv(target.0, target.1))
        .into_iter()
        .map(|e| (e.0, e.1.clone()))
        .collect();
    actual.sort_by(|x1, x2| x1.1.cmp(&x2.1));
    let mut expected: Vec<(Interval, String)> = expected_results
        .iter()
        .map(|r| (iv(r.0, r.1), name_of(r.0, r.1)))
        .collect();
    expected.sort_by(|x1, x2| x1.1.cmp(&x2.1));
    assert_eq!(actual.len(), expected.len());
    for (a, e) in actual.iter().zip(expected.iter()) {
        assert_eq!(a.0, e.0);
        assert_eq!(a.1, e.1);
    }
}

fn assert_not_found(tree: &IntervalTree<String>, target: (usize, usize)) {
    assert_intersections(tree, target, vec![]);
}

#[test]
fn test_insertion_and_intersection() {
    let mut tree: IntervalTree<String> = IntervalTree::new();
    assert_eq!(tree.find(iv(1, 2)).len(), 0);
    tree.insert(iv(50, 51), "50:51".to_string());
    assert_not_found(&tree, (49, 50));
    assert_intersections(&tree, (49, 55), vec![(50, 51)]);
    assert_not_found(&tree, (51, 55));
    assert_not_found(&tree, (52, 55));
    assert_not_found(&tree, (40, 45));
    insert_and_validate(&mut tree, 80, 81);
    assert_intersections(&tree, (80, 83), vec![(80, 81)]);
    assert_intersections(&tree, (1, 100), vec![(50, 51), (80, 81)]);
    assert_not_found(&tree, (82, 83));
    insert_and_validate(&mut tree, 30, 35);
    assert_intersections(&tree, (25, 33), vec![(30, 35)]);
    assert_intersections(&tree, (1, 100), vec![(30, 35), (50, 51), (80, 81)]);
    assert_not_found(&tree, (42, 43));
    assert_not_found(&tree, (35, 36));
    assert_not_found(&tree, (22, 29));
    insert_and_validate(&mut tree, 70, 77);
    assert_intersections(&tree, (75, 79), vec![(70, 77)]);
    assert_intersections(&tree, (1, 100), vec![(30, 35), (50, 51), (70, 77), (80, 81)]);
    assert_not_found(&tree, (62, 68));
    assert_intersections(&tree, (75, 77), vec![(70, 77)]);
    assert_not_found(&tree, (78, 79));
    assert_intersections(&tree, (49, 51), vec![(50, 51)]);
    assert_intersections(&tree, (49, 55), vec![(50, 51)]);
    assert_not_found(&tree, (51, 55));
    assert_not_found(&tree, (52, 55));
    assert_not_found(&tree, (40, 45));
    insert_and_validate(&mut tree, 101, 102);
    insert_and_validate(&mut tree, 103, 104);
    insert_and_validate(&mut tree, 105, 106);
    insert_and_validate(&mut tree, 107, 108);
    insert_and_validate(&mut tree, 111, 112);
    insert_and_validate(&mut tree, 113, 114);
    insert_and_validate(&mut tree, 115, 116);
    insert_and_validate(&mut tree, 117, 118);
    insert_and_validate(&mut tree, 119, 129);
    assert_not_found(&tree, (112, 113));
    assert_not_found(&tree, (108, 109));
    assert_intersections(&tree, (106, 108), vec![(107, 108)]);
    assert_intersections(&tree, (1, 100), vec![(30, 35), (50, 51), (70, 77), (80, 81)]);
    assert_intersections(&tree, (1, 101), vec![(30, 35), (50, 51), (70, 77), (80, 81)]);
    assert_intersections(
        &tree,
        (1, 102),
        vec![(30, 35), (50, 51), (70, 77), (80, 81), (101, 102)],
    );
    assert_intersections(
        &tree,
        (100, 200),
        vec![
            (101, 102),
            (103, 104),
            (105, 106),
            (107, 108),
            (111, 112),
            (113, 114),
            (115, 116),
            (117, 118),
            (119, 129),
        ],
    );
}

#[test]
fn test_insertion_and_intersection_2() {
    let mut tree: IntervalTree<String> = IntervalTree::new();
    // interval size we'll insert into the tree
    let k: usize = 10;
    for i in 100..200usize {
        insert_and_validate(&mut tree, i, i + k);
    }
    for i in 90..210usize {
        // "random" interval length we'll search against; the exact
        // formula doesn't matter, only that it varies around k
        let l = k / 2 + i % k;
        let lower_bound = i;
        let upper_bound = i + l;
        let smallest_start = std::cmp::max(lower_bound + 1 - k, 100);
        let largest_start = std::cmp::min(upper_bound, 200);
        let mut expected_intersections = vec![];
        for j in smallest_start..largest_start {
            expected_intersections.push((j, j + k));
        }
        assert_intersections(&tree, (lower_bound, upper_bound), expected_intersections);
    }
}

#[test]
fn zero_width_ranges() {
    let mut tree: IntervalTree<String> = IntervalTree::new();
    tree.insert(iv(10, 10), "10:10".to_string());

    assert_not_found(&tree, (5, 15));
    assert_not_found(&tree, (10, 10));

    insert_and_validate(&mut tree, 50, 60);
    assert_not_found(&tree, (55, 55));
}

#[test]
fn from_iterator() {
    let tree: IntervalTree<()> =
        IntervalTree::from_iter(vec![(iv(10, 100), ()), (iv(10, 20), ()), (iv(1, 8), ())]);
    assert_eq!(tree.find(iv(0, 1000)).len(), 3);
    let pairs: Vec<(Interval, ())> = tree
        .find(iv(11, 30))
        .into_iter()
        .map(|e| (e.0, *e.1))
        .collect();
    let tree2: IntervalTree<()> = IntervalTree::from_iter(pairs);
    assert_eq!(tree2.find(iv(0, 1000)).len(), 2);
}

#[test]
fn iter_mut() {
    let mut tree: IntervalTree<usize> =
        IntervalTree::from_iter(vec![(iv(10, 100), 0), (iv(10, 20), 0), (iv(1, 8), 0)]);
    let q = Interval::new(11, 30).unwrap();
    tree.map_overlapping(q, &|d: usize| d + 1);
    assert!(tree.find(iv(0, 100)).iter().all(|e| if intersect(&e.0, &q) {
        *e.1 == 1
    } else {
        *e.1 == 0
    }));
}

#[test]
fn test_update_single_interval() {
    let mut tree: IntervalTree<String> = IntervalTree::new();
    tree.insert(iv(10, 20), "10:20".to_string());
    tree.update_interval(iv(10, 20), iv(15, 25));

    let found = tree.find(iv(15, 25));
    let updated_node = found.first().unwrap();
    assert_eq!(updated_node.0, Interval::new(15, 25).unwrap());
    assert_eq!(*updated_node.1, "10:20".to_string());
}

#[test]
fn test_update_multiple_intervals() {
    let mut tree: IntervalTree<String> = IntervalTree::new();
    tree.insert(iv(10, 20), "10:20".to_string());
    tree.insert(iv(10, 20), "10:20".to_string());
    tree.update_interval(iv(10, 20), iv(15, 25));

    let updated_nodes = tree.find(iv(15, 25));
    assert_eq!(updated_nodes.len(), 2);
    for node in updated_nodes {
        assert_eq!(node.0, Interval::new(15, 25).unwrap());
        assert_eq!(*node.1, "10:20".to_string());
    }
}

#[test]
fn test_update_non_existent_interval() {
    let mut tree: IntervalTree<String> = IntervalTree::new();
    tree.insert(iv(10, 20), "10:20".to_string());
    tree.update_interval(iv(20, 30), iv(25, 35)); // interval not present

    let found = tree.find(iv(10, 20));
    let found_node = found.first().unwrap();
    assert_eq!(found_node.0, Interval::new(10, 20).unwrap());
    assert_eq!(*found_node.1, "10:20".to_string());
}

#[test]
fn test_tree_properties_after_update() {
    let mut tree: IntervalTree<String> = IntervalTree::new();
    tree.insert(iv(10, 20), "10:20".to_string());
    tree.insert(iv(30, 40), "30:40".to_string());
    tree.insert(iv(50, 60), "50:60".to_string());

    tree.update_interval(iv(10, 20), iv(15, 25));

    // the tree must still answer queries correctly for the new keys
    let mut found: Vec<(usize, usize)> = tree
        .find(iv(0, 100))
        .iter()
        .map(|e| (e.0.start, e.0.end))
        .collect();
    found.sort();
    assert_eq!(found, vec![(15, 25), (30, 40), (50, 60)]);
    let near = tree.find(iv(16, 26));
    assert_eq!(near.len(), 1);
    assert_eq!(near[0].0, iv(15, 25));
    assert_eq!(tree.find(iv(25, 30)).len(), 0);
}

#[test]
fn interval_tree_query_scenario() {
    // three disjoint intervals; a query crossing two of them reports
    // exactly those two
    let mut tree: IntervalTree<String> = IntervalTree::new();
    tree.insert(iv(10, 20), "a".to_string());
    tree.insert(iv(30, 40), "b".to_string());
    tree.insert(iv(50, 60), "c".to_string());
    let found = tree.find(iv(15, 35));
    let mut starts: Vec<usize> = found.iter().map(|e| e.0.start).collect();
    starts.sort();
    assert_eq!(starts, vec![10, 30]);
}
