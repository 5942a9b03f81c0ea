use exercises::linked_list::LinkedList;

fn items<T: Clone>(list: &LinkedList<T>) -> Vec<T> {
    let mut out = Vec::new();
    let mut it = list.iter();
    while let Some(x) = it.next() {
        out.push(x.clone());
    }
    out
}

#[test]
fn test_push_front() {
    let mut list = LinkedList::new();
    list.push_front(1);
    list.push_front(2);
    list.push_front(3);

    assert_eq!(items(&list), vec![3, 2, 1]);
}

#[test]
fn test_push_back() {
    let mut list = LinkedList::new();
    list.push_back(1);
    list.push_back(2);
    list.push_back(3);

    assert_eq!(items(&list), vec![1, 2, 3]);
}

#[test]
fn test_pop_front() {
    let mut list = LinkedList::new();
    list.push_front(1);
    list.push_front(2);

    assert_eq!(list.pop_front(), Some(2));
    assert_eq!(list.pop_front(), Some(1));
    assert_eq!(list.pop_front(), None);
}

#[test]
fn test_len() {
    let mut list = LinkedList::new();
    assert_eq!(list.len(), 0);
    assert!(list.is_empty());

    list.push_front(1);
    list.push_front(2);
    assert_eq!(list.len(), 2);
    assert!(!list.is_empty());
}

#[test]
fn mixed_pushes_keep_order() {
    let mut list: LinkedList<i32> = LinkedList::default();
    list.push_back(10);
    list.push_front(1);
    list.push_back(20);
    assert_eq!(items(&list), vec![1, 10, 20]);
    assert_eq!(list.pop_front(), Some(1));
    assert_eq!(items(&list), vec![10, 20]);
    assert_eq!(list.len(), 2);
}
