use lgp::linked_list::{LinkedList, Node};

#[test]
fn given_a_list_of_elems_when_extended_then_linked_list_is_fill_with_elements() {
    let elements = [1, 2, 3, 4, 5];
    let mut linked_list = LinkedList::new();

    assert!(linked_list.is_empty());
    linked_list.extend(elements.to_vec());
    assert_eq!(linked_list.len(), elements.len());

    let mut current = linked_list.head();
    assert_eq!(current.map(|node| node.data), Some(elements[0]));
    current = current.and_then(|node| node.next());
    assert_eq!(current.map(|node| node.data), Some(elements[1]));
    current = current.and_then(|node| node.next());
    assert_eq!(current.map(|node| node.data), Some(elements[2]));
    current = current.and_then(|node| node.next());
    assert_eq!(current.map(|node| node.data), Some(elements[3]));
    current = current.and_then(|node| node.next());
    assert_eq!(current.map(|node| node.data), Some(elements[4]));
}

#[test]
fn given_a_list_of_elems_when_appended_to_linked_list_then_linked_list_contains_item() {
    let mut linked_list = LinkedList::new();
    linked_list.append(1);
    linked_list.append(2);
    linked_list.append(3);

    assert_eq!(linked_list.len(), 3);

    assert_eq!(linked_list.dequeue().map(|node| node.data), Some(1));
    assert_eq!(linked_list.dequeue().map(|node| node.data), Some(2));
    assert_eq!(linked_list.dequeue().map(|node| node.data), Some(3));
}

#[test]
fn given_two_nodes_when_point_to_is_called_then_node_one_points_to_node_two() {
    let mut first_node = Node::new_dyn(1);
    let second_node = Node::new_dyn(2);

    let previous_next = first_node.point_to(Some(second_node.as_ptr()));
    assert_eq!(previous_next, None);

    assert_eq!(first_node.next().map(|node| node.data), Some(2));
    assert_eq!(first_node.next().and_then(|node| node.next()), None)
}

#[test]
fn given_linked_list_when_accessors_called_then_nodes_are_returned() {
    let elems = [1, 2, 3, 4];
    let mut linked_list = LinkedList::new();
    linked_list.extend(elems.to_vec());

    assert_eq!(linked_list.head().map(|node| node.data), Some(1));
    assert_eq!(linked_list.tail().map(|node| node.data), Some(4));
}

#[test]
fn given_linked_list_cursor_when_next_is_called_then_nodes_are_cycled() {
    let elems = [1, 2, 3, 4];

    let mut list = LinkedList::new();
    list.extend(elems.to_vec());

    let mut cursor = list.cursor_mut();

    assert_eq!(cursor.current(), None);
    cursor.next();
    assert_eq!(cursor.current(), Some(&1));
    cursor.next();
    assert_eq!(cursor.current(), Some(&2));
    cursor.next();
    assert_eq!(cursor.current(), Some(&3));
    cursor.next();
    assert_eq!(cursor.current(), Some(&4));
    cursor.next();
    assert_eq!(cursor.current(), None);
    cursor.next();
    assert_eq!(cursor.current(), Some(&1));

    let mut null_list = LinkedList::<i32>::new();
    let mut cursor_null = null_list.cursor_mut();

    assert_eq!(cursor_null.current(), None);
    cursor_null.next();
    assert_eq!(cursor_null.current(), None);
}

#[test]
fn given_linked_lists_when_split_after_is_called_then_a_new_list_is_returned() {
    let elems = [1, 2, 3, 4, 5];
    let mut list = LinkedList::new();
    list.extend(elems.to_vec());

    let mut cursor = list.cursor_mut();

    cursor.next();

    assert_eq!(cursor.current(), Some(&1));

    let mut split_list = cursor.split_after();

    cursor.next();

    assert_eq!(cursor.current(), None);

    cursor.next();

    assert_eq!(cursor.current(), Some(&1));

    let mut split_cursor = split_list.cursor_mut();

    split_cursor.next();

    assert_eq!(split_cursor.current(), Some(&2));
}

#[test]
fn given_linked_list_cursor_when_seek_then_element_at_index_is_reached() {
    let elems = [1, 2, 3, 4, 5];
    let mut list = LinkedList::new();
    list.extend(elems.to_vec());

    let mut cursor = list.cursor_mut();
    cursor.seek(3);
    assert_eq!(cursor.current(), Some(&4));
    // 55 wraps around to index 0.
    cursor.seek(55);
    assert_eq!(cursor.current(), Some(&1));
}

#[test]
fn seek_before_and_after_land_next_to_the_index() {
    let mut list = LinkedList::new();
    list.extend(vec![10, 20, 30]);
    let mut cursor = list.cursor_mut();
    cursor.seek_before(2);
    assert_eq!(cursor.current(), Some(&20));
    cursor.seek_after(2);
    assert_eq!(cursor.current(), Some(&10));
    cursor.reset();
    assert_eq!(cursor.current(), None);
}

#[test]
fn split_before_the_head_moves_the_whole_list() {
    let mut list = LinkedList::new();
    list.extend(vec![1, 2, 3]);
    let mut cursor = list.cursor_mut();
    let moved = cursor.split_after();
    assert_eq!(moved.len(), 3);
    assert_eq!(list.len(), 0);
    assert!(list.head().is_none());
}

#[test]
fn iterators_walk_the_items_in_order() {
    let mut list = LinkedList::new();
    list.extend(vec![7, 8, 9]);
    let mut iter = list.iter();
    assert_eq!(iter.next(), Some(&7));
    assert_eq!(iter.next(), Some(&8));
    assert_eq!(iter.next(), Some(&9));
    assert_eq!(iter.next(), None);

    let mut owned = list.into_iter();
    assert_eq!(owned.next(), Some(7));
    assert_eq!(owned.next(), Some(8));
    assert_eq!(owned.next(), Some(9));
    assert_eq!(owned.next(), None);
}

#[test]
fn clear_empties_the_list() {
    let mut list = LinkedList::new();
    list.extend(vec![1, 2]);
    list.clear();
    assert!(list.is_empty());
    assert!(list.tail().is_none());
    assert!(list.dequeue().is_none());
}

fn items_of(list: &LinkedList<i32>) -> Vec<i32> {
    let mut out = Vec::new();
    let mut iter = list.iter();
    while let Some(x) = iter.next() {
        out.push(*x);
    }
    out
}

#[test]
fn given_linked_list_cursors_when_swap_with_no_end_then_pointers_are_swapped() {
    let e1 = [1, 2, 3, 4, 5];
    let e2 = [6, 7, 8, 9, 10];
    let mut l1 = LinkedList::new();
    let mut l2 = LinkedList::new();
    l1.extend(e1.to_vec());
    l2.extend(e2.to_vec());

    let mut c1 = l1.cursor_mut();
    let mut c2 = l2.cursor_mut();

    c1.swap(&mut c2, 2, 2, None, None);

    let e12 = [1, 2, 8, 9, 10];
    let e21 = [6, 7, 3, 4, 5];

    assert_eq!(items_of(&l1), e12.to_vec());
    assert_eq!(items_of(&l2), e21.to_vec());
}

#[test]
fn given_linked_list_cursor_when_swap_with_ends_then_pointers_are_swapped() {
    let e1 = [1, 2, 3, 4, 5];
    let e2 = [6, 7, 8, 9, 10];
    let mut l1 = LinkedList::new();
    let mut l2 = LinkedList::new();
    l1.extend(e1.to_vec());
    l2.extend(e2.to_vec());

    let mut c1 = l1.cursor_mut();
    let mut c2 = l2.cursor_mut();

    c1.swap(&mut c2, 2, 2, Some(4), Some(4));

    let e12 = [1, 2, 8, 9, 5];
    let e21 = [6, 7, 3, 4, 10];

    assert_eq!(items_of(&l1), e12.to_vec());
    assert_eq!(items_of(&l2), e21.to_vec());
    assert_eq!(l1.len(), 5);
    assert_eq!(l2.len(), 5);
}

#[test]
fn swapping_segments_of_different_lengths_moves_the_lengths() {
    let mut l1 = LinkedList::new();
    let mut l2 = LinkedList::new();
    l1.extend(vec![1, 2, 3]);
    l2.extend(vec![4, 5, 6, 7]);
    let mut c1 = l1.cursor_mut();
    let mut c2 = l2.cursor_mut();
    c1.swap(&mut c2, 0, 1, Some(1), Some(4));
    assert_eq!(items_of(&l1), vec![5, 6, 7, 2, 3]);
    assert_eq!(items_of(&l2), vec![4, 1]);
    assert_eq!(l1.len(), 5);
    assert_eq!(l2.len(), 2);
}

#[test]
fn mutable_walks_change_items_in_place() {
    let mut list = LinkedList::new();
    list.extend(vec![1, 2, 3]);
    {
        let mut iter = list.iter_mut();
        while let Some(x) = iter.next() {
            *x *= 10;
        }
    }
    assert_eq!(items_of(&list), vec![10, 20, 30]);

    let mut node = Node::new_dyn(1);
    let _ = node.point_to(Some(Node::new_dyn(2)));
    if let Some(next) = node.next_mut() {
        next.data = 5;
    }
    assert_eq!(node.next().map(|n| n.data), Some(5));
    assert_eq!(node.remove_next().map(|n| n.data), Some(5));
    assert!(node.next_mut().is_none());
}
