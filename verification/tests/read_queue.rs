use touche::input::Input;
use touche::read_queue::{QueuedReader, ReadQueue};

#[test]
fn first_slot_holds_the_reader() {
    let mut queue = ReadQueue::new(Input::new(b"abcdef".to_vec()));
    let mut first = queue.enqueue();
    assert!(first.is_current());
    let mut reader = first.take().unwrap();
    assert_eq!(reader.read(3), b"abc");
    first.restore(reader);
    assert!(first.is_current());
    assert!(first.release(&mut queue).is_none());
    let mut second = queue.enqueue();
    assert!(second.is_current());
    assert_eq!(second.take().unwrap().read(3), b"def");
}

#[test]
fn reader_passes_down_the_line_in_order() {
    let mut queue = ReadQueue::new(7_u8);
    let first = queue.enqueue();
    let mut second = queue.enqueue();
    let mut third = queue.enqueue();
    assert!(first.is_current());
    assert!(!second.is_current());
    assert!(!third.is_current());

    assert!(!third.acquire(&mut queue));
    assert!(!second.acquire(&mut queue));
    let third: QueuedReader<u8> = third.release(&mut queue).unwrap();
    assert!(first.release(&mut queue).is_none());

    let mut third = third;
    assert!(!third.acquire(&mut queue));
    assert!(second.acquire(&mut queue));
    assert!(second.acquire(&mut queue));
    assert_eq!(second.take(), Some(7));
    second.restore(8);
    assert!(second.release(&mut queue).is_none());
    assert!(third.acquire(&mut queue));
    assert_eq!(third.take(), Some(8));
}

#[test]
fn waiting_slot_passes_its_turn_on() {
    let mut queue = ReadQueue::new(1_u8);
    let first = queue.enqueue();
    let second = queue.enqueue();
    let mut third = queue.enqueue();
    assert!(first.release(&mut queue).is_none());
    assert!(second.release(&mut queue).is_none());
    assert!(third.acquire(&mut queue));
    assert_eq!(third.take(), Some(1));
    assert!(matches!(queue, ReadQueue::Next(_)));
}
