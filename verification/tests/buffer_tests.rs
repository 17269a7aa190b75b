use naia_core::sequence_buffer::SequenceBuffer;
use naia_core::tick_queue::TickQueue;

#[test]
fn sequence_buffer_insert_and_get() {
    let mut buffer: SequenceBuffer<u32> = SequenceBuffer::with_capacity(8);
    assert_eq!(buffer.sequence_num(), 0);
    assert!(buffer.insert(3, 30));
    assert_eq!(buffer.sequence_num(), 4);
    assert!(buffer.contains(3));
    assert!(!buffer.contains(11));
    assert_eq!(buffer.get(3), Some(&30));
    assert_eq!(buffer.get(4), None);
}

#[test]
fn sequence_buffer_refuses_too_old() {
    let mut buffer: SequenceBuffer<u32> = SequenceBuffer::with_capacity(8);
    assert!(buffer.insert(100, 1));
    // the ring now covers 93..=100
    assert!(buffer.insert(93, 2));
    assert!(!buffer.insert(92, 3));
    assert!(!buffer.contains(92));
    assert_eq!(buffer.sequence_num(), 101);
}

#[test]
fn sequence_buffer_evicts_on_advance() {
    let mut buffer: SequenceBuffer<u32> = SequenceBuffer::with_capacity(8);
    assert!(buffer.insert(1, 10));
    assert!(buffer.insert(2, 20));
    // writing 9 shares the slot of 1 and skips over it
    assert!(buffer.insert(9, 90));
    assert!(!buffer.contains(1));
    assert!(buffer.contains(2));
    assert!(buffer.contains(9));
    // a jump beyond the whole ring empties it
    assert!(buffer.insert(50, 500));
    assert!(!buffer.contains(2));
    assert!(!buffer.contains(9));
    assert_eq!(buffer.get(50), Some(&500));
}

#[test]
fn sequence_buffer_remove_and_replace() {
    let mut buffer: SequenceBuffer<u32> = SequenceBuffer::with_capacity(4);
    assert!(buffer.insert(7, 70));
    assert_eq!(buffer.replace(7, 71), Ok(70));
    assert_eq!(buffer.replace(6, 60), Err(60));
    assert_eq!(buffer.remove(7), Some(71));
    assert_eq!(buffer.remove(7), None);
    assert!(!buffer.contains(7));
}

#[test]
fn sequence_buffer_wraps() {
    let mut buffer: SequenceBuffer<u32> = SequenceBuffer::with_capacity(64);
    assert!(buffer.insert(65534, 1));
    assert!(buffer.insert(65535, 2));
    assert!(buffer.insert(0, 3));
    assert!(buffer.insert(1, 4));
    assert_eq!(buffer.sequence_num(), 2);
    assert_eq!(buffer.get(65534), Some(&1));
    assert_eq!(buffer.get(65535), Some(&2));
    assert_eq!(buffer.get(0), Some(&3));
    assert_eq!(buffer.get(1), Some(&4));
}

#[test]
fn tick_queue_hands_out_earliest_first() {
    let mut queue: TickQueue<u8> = TickQueue::new();
    queue.add_item(52, 2);
    queue.add_item(50, 0);
    queue.add_item(51, 1);
    assert_eq!(queue.len(), 3);
    assert_eq!(queue.pop_item(52), Some((50, 0)));
    assert_eq!(queue.pop_item(52), Some((51, 1)));
    assert_eq!(queue.pop_item(52), Some((52, 2)));
    assert_eq!(queue.pop_item(52), None);
}

#[test]
fn tick_queue_waits_for_the_tick() {
    let mut queue: TickQueue<u8> = TickQueue::new();
    queue.add_item(10, 1);
    assert_eq!(queue.pop_item(9), None);
    assert_eq!(queue.len(), 1);
    assert_eq!(queue.pop_item(10), Some((10, 1)));
}

#[test]
fn tick_queue_orders_across_wrap() {
    let mut queue: TickQueue<u8> = TickQueue::new();
    queue.add_item(1, 3);
    queue.add_item(65535, 1);
    queue.add_item(0, 2);
    assert_eq!(queue.pop_item(5), Some((65535, 1)));
    assert_eq!(queue.pop_item(5), Some((0, 2)));
    assert_eq!(queue.pop_item(5), Some((1, 3)));
}

#[test]
fn tick_queue_keeps_arrival_order_for_equal_ticks() {
    let mut queue: TickQueue<u8> = TickQueue::new();
    queue.add_item(7, 1);
    queue.add_item(7, 2);
    assert_eq!(queue.pop_item(7), Some((7, 1)));
    assert_eq!(queue.pop_item(7), Some((7, 2)));
}

#[test]
fn ring_drops_what_is_older() {
    let mut ring: SequenceBuffer<u8> = SequenceBuffer::with_capacity(8);
    assert!(ring.insert(3, 30));
    assert!(ring.insert(5, 50));
    assert!(ring.insert(6, 60));
    ring.remove_older(5);
    assert!(!ring.contains(3));
    assert_eq!(ring.get(5), Some(&50));
    assert_eq!(ring.get(6), Some(&60));
    assert_eq!(ring.sequence_num(), 7);
    // what lies ahead across the wrap is not older
    let mut ring: SequenceBuffer<u8> = SequenceBuffer::with_capacity(8);
    assert!(ring.insert(65534, 1));
    assert!(ring.insert(1, 2));
    ring.remove_older(65535);
    assert!(!ring.contains(65534));
    assert_eq!(ring.get(1), Some(&2));
}
