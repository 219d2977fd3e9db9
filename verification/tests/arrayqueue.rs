use xenos::collections::{ArrayQueue, QueueError};

const SIZE: usize = 64;

#[test]
fn test_len() {
    let mut q = ArrayQueue::<usize, SIZE>::default();

    assert_eq!(q.len(), 0);

    for i in 0..=(SIZE * 3) {
        q.push_back(i);
    }

    assert_eq!(q.len(), SIZE);
    let expected = SIZE * 2 + 1..SIZE * 3;
    let mut it = q.iter();
    for y in expected {
        let x = it.next().expect("Expected more values in the queue");
        assert_eq!(*x, y);
    }
}

#[test]
fn test_pops() {
    let mut queue = ArrayQueue::<i32, SIZE>::from_slice(&[1, 2, 3, 4, 5, 6, 7, 8, 9]);

    assert_eq!(queue.len(), 9);

    for i in 1..=9 {
        let n = queue
            .try_pop_front()
            .expect("Expected more values in the queue");
        assert_eq!(n, i);
    }

    assert_eq!(queue.len(), 0);
    queue
        .try_pop_front()
        .expect_err("Expected the queue to be empty");
}

#[test]
fn test_peek() {
    let mut queue = ArrayQueue::<i32, SIZE>::from_slice(&[1, 2, 3, 4, 5, 6, 7, 8, 9]);

    assert_eq!(queue.len(), 9);

    let first = *queue.front().expect("Expected queue not to be empty");
    let last = *queue.back().expect("Expected queue not to be empty");
    assert_eq!(first, 1);
    assert_eq!(last, 9);

    for _ in 0..2 {
        queue
            .try_pop_front()
            .expect("Expected more values in the queue");
    }

    let first = *queue.front().expect("Expected queue not to be empty");
    let last = *queue.back().expect("Expected queue not to be empty");
    assert_eq!(first, 3);
    assert_eq!(last, 9);
}

#[test]
fn full_queue_iterates_all_items_in_order() {
    let mut q = ArrayQueue::<u8, 4>::new();
    for i in 0..6u8 {
        q.push_back(i);
    }
    let mut it = q.iter();
    let mut seen = Vec::new();
    while let Some(x) = it.next() {
        seen.push(*x);
    }
    assert_eq!(seen, vec![2, 3, 4, 5]);
}

#[test]
fn try_push_back_on_full_queue_fails() {
    let mut q = ArrayQueue::<u8, 2>::new();
    assert!(q.try_push_back(1).is_ok());
    assert!(q.try_push_back(2).is_ok());
    assert_eq!(q.try_push_back(3).err(), Some(QueueError::Full));
    assert_eq!(q.len(), 2);
    assert_eq!(*q.front().unwrap(), 1);
    assert_eq!(*q.back().unwrap(), 2);
}

#[test]
fn try_push_front_on_full_queue_fails() {
    let mut q = ArrayQueue::<u8, 2>::new();
    assert!(q.try_push_front(1).is_ok());
    assert!(q.try_push_front(2).is_ok());
    assert_eq!(q.try_push_front(3).err(), Some(QueueError::Full));
    assert_eq!(*q.front().unwrap(), 2);
    assert_eq!(*q.back().unwrap(), 1);
}

#[test]
fn push_front_drops_last_when_full() {
    let mut q = ArrayQueue::<u8, 3>::from_slice(&[1, 2, 3]);
    q.push_front(0);
    assert_eq!(q.len(), 3);
    assert_eq!(q.try_pop_front(), Ok(0));
    assert_eq!(q.try_pop_front(), Ok(1));
    assert_eq!(q.try_pop_front(), Ok(2));
    assert_eq!(q.try_pop_front(), Err(QueueError::Empty));
}

#[test]
fn push_front_grows_when_one_slot_is_left() {
    let mut q = ArrayQueue::<u8, 3>::from_slice(&[1, 2]);
    q.push_front(0);
    assert_eq!(q.len(), 3);
    assert_eq!(*q.back().unwrap(), 2);
}

#[test]
fn pushed_reference_writes_through() {
    let mut q = ArrayQueue::<u8, 3>::new();
    *q.push_back(1) = 7;
    *q.push_front(2) = 8;
    assert_eq!(*q.front().unwrap(), 8);
    assert_eq!(*q.back().unwrap(), 7);
}

#[test]
fn extend_keeps_newest_items() {
    let mut q = ArrayQueue::<u32, 3>::new();
    q.extend(vec![1, 2, 3, 4, 5]);
    assert_eq!(q.len(), 3);
    assert_eq!(q.try_pop_front(), Ok(3));
    assert_eq!(q.try_pop_front(), Ok(4));
    assert_eq!(q.try_pop_front(), Ok(5));
}

#[test]
fn extend_on_a_filled_queue_keeps_newest_items() {
    let mut q = ArrayQueue::<u32, 4>::from_slice(&[1, 2]);
    q.extend(vec![3]);
    assert_eq!(q.to_vec(), vec![1, 2, 3]);
    q.extend(vec![4, 5, 6]);
    assert_eq!(q.to_vec(), vec![3, 4, 5, 6]);
    assert!(q.len() <= q.capacity());
}

#[test]
fn empty_queue_peeks_fail() {
    let q = ArrayQueue::<u8, 3>::new();
    assert_eq!(q.front().err(), Some(QueueError::Empty));
    assert_eq!(q.back().err(), Some(QueueError::Empty));
    assert_eq!(q.capacity(), 3);
    assert!(q.iter().next().is_none());
}

#[test]
fn from_slice_takes_at_most_capacity() {
    let q = ArrayQueue::<u8, 2>::from_slice(&[5, 6, 7]);
    assert_eq!(q.len(), 2);
    assert_eq!(*q.front().unwrap(), 5);
    assert_eq!(*q.back().unwrap(), 6);
}

#[test]
fn test_serialize() {
    let queue: ArrayQueue<usize, SIZE> = ArrayQueue::from_slice(&[1, 2, 3, 4, 5, 6, 7, 8, 9]);

    assert_eq!(queue.len(), 9);

    let s = serde_json::to_string(&queue.to_vec()).expect("Failed to seralize queue");

    assert_eq!(s, "[1,2,3,4,5,6,7,8,9]");
}

#[test]
fn test_deserialize() {
    let s = "[6,7,8,9,1,2,3,4,5]";

    let items: Vec<i32> = serde_json::from_str(s).expect("Failed to deserialize");
    let q: ArrayQueue<i32, SIZE> = ArrayQueue::try_from_slice(&items).expect("Failed to deserialize");

    assert_eq!(q.len(), 9);

    for (x, y) in [6, 7, 8, 9, 1, 2, 3, 4, 5].iter().zip(q.to_vec().iter()) {
        assert_eq!(x, y);
    }
}

#[test]
fn reading_back_too_many_items_fails() {
    let items = [1u8, 2, 3, 4, 5];
    let r: Result<ArrayQueue<u8, 4>, QueueError> = ArrayQueue::try_from_slice(&items);
    assert!(matches!(r, Err(QueueError::Full)));
    let q: ArrayQueue<u8, 5> = ArrayQueue::try_from_slice(&items).unwrap();
    assert_eq!(q.to_vec(), vec![1, 2, 3, 4, 5]);
}
