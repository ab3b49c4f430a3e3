use sortlist::shared_list::insert;
use sortlist::shared_list::remove;
use sortlist::shared_list::SharedList;

fn chain_values(list: &SharedList<i32>, start: usize) -> Vec<i32> {
    let mut out = Vec::new();
    let mut cur = Some(start);
    while let Some(h) = cur {
        out.push(*list.value_of(h));
        cur = list.next_of(h);
    }
    out
}

#[test]
fn insert_after_and_remove_after() {
    let mut list: SharedList<i32> = SharedList::new();
    let a = list.add_node(10);
    insert(&mut list, a, 30);
    insert(&mut list, a, 20);
    assert_eq!(chain_values(&list, a), vec![10, 20, 30]);

    // Splice a node in right after the head.
    insert(&mut list, a, 15);
    assert_eq!(chain_values(&list, a), vec![10, 15, 20, 30]);

    // Unlink it again.
    remove(&mut list, a);
    assert_eq!(chain_values(&list, a), vec![10, 20, 30]);
}

#[test]
fn remove_after_without_successor_is_no_op() {
    let mut list: SharedList<i32> = SharedList::new();
    let a = list.add_node(1);
    remove(&mut list, a);
    assert_eq!(chain_values(&list, a), vec![1]);
}

#[test]
fn write_through_one_handle_is_seen_through_all() {
    let mut list: SharedList<i32> = SharedList::new();
    let a = list.add_node(3);
    insert(&mut list, a, 2);
    let b = list.next_of(a).unwrap();
    let b_alias = b;
    list.set_value(b_alias, 10);
    assert_eq!(*list.value_of(b), 10);
    assert_eq!(chain_values(&list, a), vec![3, 10]);
}

#[test]
fn unlinked_node_stays_reachable_through_its_handle() {
    let mut list: SharedList<i32> = SharedList::new();
    let a = list.add_node(1);
    insert(&mut list, a, 2);
    let dropped = list.next_of(a).unwrap();
    remove(&mut list, a);
    // The node is out of the chain but its holders keep their access.
    assert_eq!(*list.value_of(dropped), 2);
    assert_eq!(chain_values(&list, a), vec![1]);
}
