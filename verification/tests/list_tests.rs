use linked_structs::list::List;
use linked_structs::list::ListNode;

fn contents(list: &List<i32>) -> Vec<i32> {
    let mut out = Vec::new();
    let mut walk = list.iter();
    while let Some(value) = walk.next() {
        out.push(*value);
    }
    out
}

#[test]
fn new_list_is_empty() {
    let list = List::<i32>::new();
    assert_eq!(list.len(), 0);
    assert!(list.front().is_none());
    assert!(list.back().is_none());
    assert_eq!(contents(&list), Vec::<i32>::new());
}

#[test]
fn pop_front_on_empty_list_gives_nothing_and_changes_nothing() {
    let mut list = List::<i32>::new();
    assert!(list.pop_front().is_none());
    assert_eq!(list.len(), 0);
    assert!(list.front().is_none());
    assert!(list.back().is_none());
    assert!(list.pop_front().is_none());
    assert_eq!(list.len(), 0);
}

#[test]
fn push_front_on_empty_list_sets_head_and_tail() {
    let mut list = List::<i32>::new();
    list.push_front(5);
    assert_eq!(list.len(), 1);
    assert_eq!(list.front(), Some(&5));
    assert_eq!(list.back(), Some(&5));
}

#[test]
fn push_back_on_empty_list_sets_head_and_tail() {
    let mut list = List::<i32>::new();
    list.push_back(5);
    assert_eq!(list.len(), 1);
    assert_eq!(list.front(), Some(&5));
    assert_eq!(list.back(), Some(&5));
}

#[test]
fn push_front_prepends() {
    let mut list = List::<i32>::new();
    list.push_front(1);
    list.push_front(2);
    list.push_front(3);
    assert_eq!(contents(&list), vec![3, 2, 1]);
    assert_eq!(list.front(), Some(&3));
    assert_eq!(list.back(), Some(&1));
}

#[test]
fn push_back_appends() {
    let mut list = List::<i32>::new();
    list.push_back(1);
    list.push_back(2);
    list.push_back(3);
    assert_eq!(contents(&list), vec![1, 2, 3]);
    assert_eq!(list.front(), Some(&1));
    assert_eq!(list.back(), Some(&3));
}

#[test]
fn mixed_pushes_keep_front_values_reversed_before_back_values() {
    let mut list = List::<i32>::new();
    list.push_back(1);
    list.push_front(2);
    list.push_back(3);
    list.push_front(4);
    list.push_back(5);
    assert_eq!(contents(&list), vec![4, 2, 1, 3, 5]);
    assert_eq!(list.len(), 5);
}

#[test]
fn pop_front_detaches_the_head_node() {
    let mut list = List::<i32>::new();
    list.push_back(1);
    list.push_back(2);
    list.push_back(3);
    let node = list.pop_front().unwrap();
    assert_eq!(*node.data(), 1);
    assert_eq!(node.into_data(), 1);
    assert_eq!(contents(&list), vec![2, 3]);
    assert_eq!(list.len(), 2);
    assert_eq!(list.front(), Some(&2));
    assert_eq!(list.back(), Some(&3));
}

#[test]
fn length_is_pushes_less_successful_pops() {
    let mut list = List::<i32>::new();
    let mut pushes = 0;
    let mut pops = 0;
    assert!(list.pop_front().is_none());
    for round in 0..20 {
        list.push_back(round);
        pushes += 1;
        if round % 3 == 0 {
            list.push_front(-round);
            pushes += 1;
        }
        if round % 4 == 1 && list.pop_front().is_some() {
            pops += 1;
        }
        assert_eq!(list.len(), pushes - pops);
        assert_eq!(contents(&list).len(), pushes - pops);
    }
    assert_eq!(list.len(), 22);
}

#[test]
fn pushing_then_popping_as_often_drains_the_list() {
    let mut list = List::<i32>::new();
    for value in 0..7 {
        if value % 2 == 0 {
            list.push_back(value);
        } else {
            list.push_front(value);
        }
    }
    let mut taken = Vec::new();
    for _ in 0..7 {
        taken.push(list.pop_front().unwrap().into_data());
    }
    assert_eq!(taken, vec![5, 3, 1, 0, 2, 4, 6]);
    assert_eq!(list.len(), 0);
    assert!(list.front().is_none());
    assert!(list.back().is_none());
    assert!(list.pop_front().is_none());
    list.push_back(11);
    assert_eq!(list.len(), 1);
    assert_eq!(list.front(), Some(&11));
    assert_eq!(list.back(), Some(&11));
    assert_eq!(contents(&list), vec![11]);
}

#[test]
fn ninety_nine_pushes_and_ten_pops_leave_eighty_nine() {
    let mut list = List::<u8>::new();
    for _ in 1..100 {
        list.push_back(1);
    }
    assert_eq!(list.len(), 99);
    for _ in 1..10 {
        assert!(list.pop_front().is_some());
    }
    assert_eq!(list.len(), 90);
    assert!(list.pop_front().is_some());
    assert_eq!(list.len(), 89);
    assert_eq!(list.front(), Some(&1));
    assert_eq!(list.back(), Some(&1));
    let mut walk = list.iter();
    let mut seen = 0;
    while let Some(value) = walk.next() {
        assert_eq!(*value, 1);
        seen += 1;
    }
    assert_eq!(seen, 89);
}

#[test]
fn pushes_after_pops_keep_the_order() {
    let mut list = List::<i32>::new();
    for value in 1..=4 {
        list.push_back(value);
    }
    assert_eq!(list.pop_front().unwrap().into_data(), 1);
    assert_eq!(list.pop_front().unwrap().into_data(), 2);
    list.push_back(5);
    list.push_front(0);
    list.push_back(6);
    assert_eq!(contents(&list), vec![0, 3, 4, 5, 6]);
    assert_eq!(list.pop_front().unwrap().into_data(), 0);
    assert_eq!(list.pop_front().unwrap().into_data(), 3);
    assert_eq!(list.pop_front().unwrap().into_data(), 4);
    list.push_front(9);
    assert_eq!(contents(&list), vec![9, 5, 6]);
    assert_eq!(list.front(), Some(&9));
    assert_eq!(list.back(), Some(&6));
    assert_eq!(list.len(), 3);
}

#[test]
fn iter_is_lazy_finite_and_can_be_started_again() {
    let mut list = List::<i32>::new();
    list.push_back(10);
    list.push_back(20);
    let mut walk = list.iter();
    assert_eq!(walk.next(), Some(&10));
    assert_eq!(walk.next(), Some(&20));
    assert_eq!(walk.next(), None);
    assert_eq!(walk.next(), None);
    let mut again = list.iter();
    assert_eq!(again.next(), Some(&10));
    assert_eq!(contents(&list), vec![10, 20]);
}

#[test]
fn iter_mut_writes_through_to_the_list() {
    let mut list = List::<i32>::new();
    list.push_back(1);
    list.push_back(2);
    list.push_front(0);
    {
        let mut walk = list.iter_mut();
        while let Some(value) = walk.next() {
            *value = *value * 10 + 1;
        }
        assert!(walk.next().is_none());
    }
    assert_eq!(contents(&list), vec![1, 11, 21]);
    assert_eq!(list.len(), 3);
    assert_eq!(list.front(), Some(&1));
    assert_eq!(list.back(), Some(&21));
}

#[test]
fn iter_mut_given_up_early_changes_only_what_it_passed() {
    let mut list = List::<i32>::new();
    for value in 1..=4 {
        list.push_back(value);
    }
    {
        let mut walk = list.iter_mut();
        if let Some(value) = walk.next() {
            *value = 100;
        }
        assert_eq!(walk.next(), Some(&mut 2));
    }
    assert_eq!(contents(&list), vec![100, 2, 3, 4]);
    list.push_back(5);
    assert_eq!(contents(&list), vec![100, 2, 3, 4, 5]);
}

#[test]
fn iter_mut_on_empty_list_gives_nothing() {
    let mut list = List::<i32>::new();
    let mut walk = list.iter_mut();
    assert!(walk.next().is_none());
}

#[test]
fn list_of_owned_values_hands_them_back() {
    let mut list = List::<String>::new();
    list.push_back("b".to_string());
    list.push_front("a".to_string());
    let first = list.pop_front().unwrap();
    assert_eq!(first.data(), "a");
    assert_eq!(first.into_data(), "a".to_string());
    assert_eq!(list.front().map(|s| s.as_str()), Some("b"));
}

#[test]
fn lone_node_holds_its_value() {
    let node = ListNode::new(3u8);
    assert_eq!(*node.data(), 3);
    assert_eq!(node.into_data(), 3);
}
