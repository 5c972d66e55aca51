use linked_structs::btree::BTree;
use linked_structs::btree::Node;

fn values(tree: &BTree<usize>) -> Vec<usize> {
    tree.in_order().into_iter().copied().collect()
}

fn grown(items: &[usize]) -> BTree<usize> {
    let mut tree = BTree::new();
    for &item in items {
        tree.insert(item);
    }
    tree
}

#[test]
fn empty_tree_finds_nothing_and_visits_nothing() {
    let tree = BTree::<usize>::new();
    assert!(tree.search(0).is_none());
    assert!(tree.search(7).is_none());
    assert!(tree.root().is_none());
    assert_eq!(tree.height(), 0);
    assert_eq!(values(&tree), Vec::<usize>::new());
}

#[test]
fn first_insert_becomes_root_at_depth_one() {
    let mut tree = BTree::<usize>::new();
    tree.insert(42);
    let root = tree.root().unwrap();
    assert_eq!(*root.data(), 42);
    assert_eq!(root.lvl(), 1);
    assert!(root.left().is_none());
    assert!(root.right().is_none());
    assert_eq!(tree.height(), 1);
}

#[test]
fn ascending_inserts_make_a_right_chain() {
    let tree = grown(&[1, 2, 3, 4]);
    let root = tree.root().unwrap();
    assert_eq!(*root.data(), 1);
    assert_eq!(root.lvl(), 1);
    assert!(root.left().is_none());
    let second = root.right().unwrap();
    assert_eq!((*second.data(), second.lvl()), (2, 2));
    assert!(second.left().is_none());
    let third = second.right().unwrap();
    assert_eq!((*third.data(), third.lvl()), (3, 3));
    assert!(third.left().is_none());
    let fourth = third.right().unwrap();
    assert_eq!((*fourth.data(), fourth.lvl()), (4, 4));
    assert!(fourth.left().is_none());
    assert!(fourth.right().is_none());
    assert!(tree.search(9).is_none());
    assert!(tree.search(10).is_none());
    assert_eq!(values(&tree), vec![1, 2, 3, 4]);
    assert_eq!(tree.height(), 4);
}

#[test]
fn descending_inserts_make_a_left_chain() {
    let tree = grown(&[3, 2, 1]);
    let root = tree.root().unwrap();
    assert_eq!(*root.data(), 3);
    assert!(root.right().is_none());
    let second = root.left().unwrap();
    assert_eq!((*second.data(), second.lvl()), (2, 2));
    assert!(second.right().is_none());
    let third = second.left().unwrap();
    assert_eq!((*third.data(), third.lvl()), (1, 3));
    assert_eq!(values(&tree), vec![1, 2, 3]);
    assert_eq!(tree.height(), 3);
}

#[test]
fn smaller_goes_left_and_others_go_right() {
    let tree = grown(&[5, 3, 8, 4, 7, 9, 1]);
    let root = tree.root().unwrap();
    assert_eq!(*root.data(), 5);
    let left = root.left().unwrap();
    let right = root.right().unwrap();
    assert_eq!((*left.data(), left.lvl()), (3, 2));
    assert_eq!((*right.data(), right.lvl()), (8, 2));
    assert_eq!(*left.left().unwrap().data(), 1);
    assert_eq!(*left.right().unwrap().data(), 4);
    assert_eq!(*right.left().unwrap().data(), 7);
    assert_eq!(*right.right().unwrap().data(), 9);
    assert_eq!(right.right().unwrap().lvl(), 3);
    assert_eq!(tree.height(), 3);
    assert_eq!(values(&tree), vec![1, 3, 4, 5, 7, 8, 9]);
}

#[test]
fn ties_go_right_and_are_all_kept() {
    let tree = grown(&[2, 2, 1, 2]);
    let root = tree.root().unwrap();
    assert_eq!((*root.data(), root.lvl()), (2, 1));
    assert_eq!(*root.left().unwrap().data(), 1);
    let twin = root.right().unwrap();
    assert_eq!((*twin.data(), twin.lvl()), (2, 2));
    assert!(twin.left().is_none());
    let third = twin.right().unwrap();
    assert_eq!((*third.data(), third.lvl()), (2, 3));
    assert_eq!(values(&tree), vec![1, 2, 2, 2]);
}

#[test]
fn search_returns_the_first_match_from_the_top() {
    let tree = grown(&[2, 2, 1, 2]);
    let hit = tree.search(2).unwrap();
    assert_eq!((*hit.data(), hit.lvl()), (2, 1));
    assert_eq!(*hit.left().unwrap().data(), 1);
    let low = tree.search(1).unwrap();
    assert_eq!((*low.data(), low.lvl()), (1, 2));
    assert!(low.left().is_none());
    assert!(low.right().is_none());
}

#[test]
fn every_inserted_value_is_found_and_no_other() {
    let items = [50, 20, 70, 10, 30, 60, 80, 20, 65];
    let tree = grown(&items);
    for &item in &items {
        let hit = tree.search(item).unwrap();
        assert_eq!(*hit.data(), item);
    }
    for missing in [0, 15, 25, 55, 66, 81, 1000] {
        assert!(tree.search(missing).is_none());
    }
}

#[test]
fn search_finds_a_value_in_the_right_subtree_after_missing_on_the_left() {
    let tree = grown(&[5, 3, 8]);
    let hit = tree.search(8).unwrap();
    assert_eq!((*hit.data(), hit.lvl()), (8, 2));
    let hit = tree.search(3).unwrap();
    assert_eq!((*hit.data(), hit.lvl()), (3, 2));
}

#[test]
fn traversal_never_steps_down() {
    let items = [9, 4, 7, 4, 1, 12, 0, 9, 3, 15, 2, 8, 8, 6];
    let tree = grown(&items);
    let seen = values(&tree);
    assert_eq!(seen.len(), items.len());
    for pair in seen.windows(2) {
        assert!(pair[0] <= pair[1]);
    }
    let mut sorted = items.to_vec();
    sorted.sort();
    assert_eq!(seen, sorted);
}

#[test]
fn height_grows_by_at_most_one_per_insert() {
    let mut tree = BTree::<usize>::new();
    let mut last = 0;
    for item in [4, 2, 6, 1, 3, 5, 7, 8] {
        tree.insert(item);
        let now = tree.height();
        assert!(last <= now && now <= last + 1);
        last = now;
    }
    assert_eq!(last, 4);
}

#[test]
fn tree_of_strings_orders_by_their_own_comparison() {
    let mut tree = BTree::<String>::new();
    for word in ["pear", "apple", "quince", "fig"] {
        tree.insert(word.to_string());
    }
    let seen: Vec<String> = tree.in_order().into_iter().cloned().collect();
    assert_eq!(seen, vec!["apple", "fig", "pear", "quince"]);
    assert_eq!(tree.search("fig".to_string()).unwrap().lvl(), 3);
    assert!(tree.search("plum".to_string()).is_none());
}

#[test]
fn lone_node_is_a_leaf_at_its_depth() {
    let node = Node::new(7u32, 3);
    assert_eq!(*node.data(), 7);
    assert_eq!(node.lvl(), 3);
    assert!(node.left().is_none());
    assert!(node.right().is_none());
}
