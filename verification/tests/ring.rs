use handoff::spsc::available_read;
use handoff::spsc::available_write;
use handoff::spsc::channel;
use handoff::spsc::is_counterpart_active;
use handoff::spsc::RingBuffer;
use handoff::spsc::Sender;
use std::cell::Cell;
use std::rc::Rc;

struct Counted(Rc<Cell<i32>>);

impl Drop for Counted {
    fn drop(&mut self) {
        self.0.set(self.0.get() + 1);
    }
}

#[test]
fn occupancy_of_equal_cursors_is_zero() {
    assert_eq!(available_read(0, 0, 5), 0);
    assert_eq!(available_read(3, 3, 5), 0);
    assert_eq!(available_write(0, 0, 5), 4);
    assert_eq!(available_write(4, 4, 5), 4);
}

#[test]
fn occupancy_counts_forward_from_the_read_cursor() {
    assert_eq!(available_read(3, 1, 5), 2);
    assert_eq!(available_write(3, 1, 5), 2);
    assert_eq!(available_read(4, 0, 5), 4);
    assert_eq!(available_write(4, 0, 5), 0);
}

#[test]
fn occupancy_wraps_at_the_end_of_the_storage() {
    assert_eq!(available_read(1, 3, 5), 3);
    assert_eq!(available_write(1, 3, 5), 1);
    assert_eq!(available_read(0, 1, 5), 4);
    assert_eq!(available_write(0, 1, 5), 0);
}

#[test]
fn occupancy_near_the_largest_size() {
    let size = usize::MAX;
    assert_eq!(available_read(0, size - 1, size), 1);
    assert_eq!(available_write(size - 1, 0, size), 0);
    assert_eq!(available_write(0, size - 1, size), size - 2);
}

#[test]
fn ring_starts_empty() {
    let mut ring: RingBuffer<u8> = RingBuffer::new(3);
    assert_eq!(ring.available_read(), 0);
    assert_eq!(ring.available_write(), 3);
    assert_eq!(ring.try_read(), None);
}

#[test]
fn ring_keeps_the_order_of_writes() {
    let mut ring = RingBuffer::new(3);
    assert!(ring.try_write(10));
    assert!(ring.try_write(20));
    assert!(ring.try_write(30));
    assert_eq!(ring.available_read(), 3);
    assert_eq!(ring.available_write(), 0);
    assert_eq!(ring.try_read(), Some(10));
    assert_eq!(ring.try_read(), Some(20));
    assert_eq!(ring.try_read(), Some(30));
    assert_eq!(ring.try_read(), None);
}

#[test]
fn ring_refuses_a_write_when_full_and_stays_as_it_is() {
    let mut ring = RingBuffer::new(2);
    assert!(ring.try_write(1));
    assert!(ring.try_write(2));
    assert!(!ring.try_write(3));
    assert_eq!(ring.available_read(), 2);
    assert_eq!(ring.try_read(), Some(1));
    assert_eq!(ring.try_read(), Some(2));
    assert_eq!(ring.try_read(), None);
}

#[test]
fn ring_of_capacity_one() {
    let mut ring = RingBuffer::new(1);
    assert!(ring.try_write(7));
    assert!(!ring.try_write(8));
    assert_eq!(ring.try_read(), Some(7));
    assert_eq!(ring.try_read(), None);
    assert!(ring.try_write(9));
    assert_eq!(ring.try_read(), Some(9));
}

#[test]
fn ring_cursors_wrap_many_times() {
    let mut ring = RingBuffer::new(2);
    let mut next_in: u32 = 0;
    let mut next_out: u32 = 0;
    for round in 0..25 {
        let burst = 1 + round % 2;
        for _ in 0..burst {
            assert!(ring.try_write(next_in));
            next_in += 1;
        }
        assert_eq!(ring.available_read(), burst as usize);
        for _ in 0..burst {
            assert_eq!(ring.try_read(), Some(next_out));
            next_out += 1;
        }
        assert_eq!(ring.try_read(), None);
    }
    assert_eq!(next_out, next_in);
}

#[test]
fn ring_clear_empties_and_leaves_the_capacity() {
    let mut ring = RingBuffer::new(3);
    assert!(ring.try_write(1));
    assert!(ring.try_write(2));
    assert_eq!(ring.try_read(), Some(1));
    assert!(ring.try_write(3));
    ring.clear();
    assert_eq!(ring.available_read(), 0);
    assert_eq!(ring.available_write(), 3);
    assert_eq!(ring.try_read(), None);
    assert!(ring.try_write(4));
    assert!(ring.try_write(5));
    assert!(ring.try_write(6));
    assert!(!ring.try_write(7));
    assert_eq!(ring.try_read(), Some(4));
}

#[test]
fn ring_drops_a_value_that_does_not_fit() {
    let drops = Rc::new(Cell::new(0));
    let mut ring = RingBuffer::new(1);
    assert!(ring.try_write(Counted(drops.clone())));
    assert_eq!(drops.get(), 0);
    assert!(!ring.try_write(Counted(drops.clone())));
    assert_eq!(drops.get(), 1);
    drop(ring);
    assert_eq!(drops.get(), 2);
}

#[test]
fn ring_clear_finalizes_nothing() {
    let drops = Rc::new(Cell::new(0));
    {
        let mut ring = RingBuffer::new(4);
        assert!(ring.try_write(Counted(drops.clone())));
        assert!(ring.try_write(Counted(drops.clone())));
        ring.clear();
        assert_eq!(drops.get(), 0);
        assert!(ring.try_write(Counted(drops.clone())));
        assert_eq!(drops.get(), 0);
    }
    // only the value written after the clear was still in the ring
    assert_eq!(drops.get(), 1);
}

#[test]
fn channel_keeps_the_order_of_sends() {
    let (send, recv) = channel(8);
    for value in 0..8 {
        assert!(send.try_send(value * 3));
    }
    for value in 0..8 {
        assert_eq!(recv.try_recv(), Some(value * 3));
    }
    assert_eq!(recv.try_recv(), None);
}

#[test]
fn channel_accepts_exactly_its_capacity() {
    for capacity in 1..6usize {
        let (send, recv) = channel(capacity);
        for value in 0..capacity {
            assert!(send.try_send(value));
        }
        assert!(!send.try_send(capacity));
        for value in 0..capacity {
            assert_eq!(recv.try_recv(), Some(value));
        }
        assert_eq!(recv.try_recv(), None);
    }
}

#[test]
fn channel_sends_and_receives_in_turns() {
    let (send, recv) = channel(1);
    for value in 0..20 {
        assert!(send.try_send(value));
        assert_eq!(recv.try_recv(), Some(value));
        assert_eq!(recv.try_recv(), None);
    }
}

#[test]
fn channel_sizes_are_free_space_and_occupancy() {
    let (send, recv) = channel(4);
    assert_eq!(send.size(), 4);
    assert_eq!(recv.size(), 0);
    assert!(send.try_send('a'));
    assert!(send.try_send('b'));
    assert!(send.try_send('c'));
    assert_eq!(send.size(), 1);
    assert_eq!(recv.size(), 3);
    assert_eq!(recv.try_recv(), Some('a'));
    assert_eq!(send.size(), 2);
    assert_eq!(recv.size(), 2);
}

#[test]
fn channel_clear_resets_without_finalizing() {
    let drops = Rc::new(Cell::new(0));
    {
        let (send, recv) = channel(4);
        assert!(send.try_send(Counted(drops.clone())));
        assert!(send.try_send(Counted(drops.clone())));
        assert!(send.try_send(Counted(drops.clone())));
        send.clear();
        assert_eq!(send.size(), 4);
        assert_eq!(recv.size(), 0);
        assert!(recv.try_recv().is_none());
        assert_eq!(drops.get(), 0);
    }
    assert_eq!(drops.get(), 0);
}

#[test]
fn channel_drops_a_value_sent_to_a_full_channel() {
    let drops = Rc::new(Cell::new(0));
    let (send, _recv) = channel(1);
    assert!(send.try_send(Counted(drops.clone())));
    assert!(!send.try_send(Counted(drops.clone())));
    assert_eq!(drops.get(), 1);
}

#[test]
fn channel_outlives_one_handle() {
    let (send, recv) = channel(2);
    assert!(send.try_send(1));
    assert!(send.try_send(2));
    drop(send);
    assert!(!recv.is_sender_active());
    assert_eq!(recv.try_recv(), Some(1));
    assert_eq!(recv.try_recv(), Some(2));
    assert_eq!(recv.try_recv(), None);
}

#[test]
fn channel_liveness_follows_the_other_handle() {
    let (send, recv) = channel::<u8>(1);
    assert!(send.is_receiver_active());
    assert!(recv.is_sender_active());
    drop(recv);
    assert!(!send.is_receiver_active());
    assert!(send.try_send(1));
    assert!(!send.try_send(2));
}

#[test]
fn counterpart_is_active_with_exactly_two_handles() {
    assert!(!is_counterpart_active(0));
    assert!(!is_counterpart_active(1));
    assert!(is_counterpart_active(2));
    assert!(!is_counterpart_active(3));
    assert!(!is_counterpart_active(usize::MAX));
}

#[test]
fn channel_handles_share_one_ring() {
    let (send, recv) = channel(2);
    assert!(send.is_receiver_active());
    assert!(recv.is_sender_active());
    assert!(send.try_send(11));
    assert_eq!(recv.size(), 1);
    assert_eq!(recv.try_recv(), Some(11));
    assert_eq!(send.size(), 2);
}

#[test]
fn ring_hands_back_a_value_that_does_not_fit() {
    let mut ring = RingBuffer::new(2);
    assert_eq!(ring.try_put(1), None);
    assert_eq!(ring.try_put(2), None);
    assert_eq!(ring.try_put(3), Some(3));
    assert_eq!(ring.available_read(), 2);
    assert_eq!(ring.try_read(), Some(1));
    assert_eq!(ring.try_put(4), None);
    assert_eq!(ring.try_read(), Some(2));
    assert_eq!(ring.try_read(), Some(4));
    assert_eq!(ring.try_read(), None);
}

#[test]
fn ring_hands_back_without_finalizing() {
    let drops = Rc::new(Cell::new(0));
    let mut ring = RingBuffer::new(1);
    assert!(ring.try_put(Counted(drops.clone())).is_none());
    let rejected = ring.try_put(Counted(drops.clone()));
    assert!(rejected.is_some());
    assert_eq!(drops.get(), 0);
    drop(rejected);
    assert_eq!(drops.get(), 1);
}

struct UsesChannel {
    sender: Rc<Sender<UsesChannel>>,
    free_seen: Rc<Cell<usize>>,
}

impl Drop for UsesChannel {
    fn drop(&mut self) {
        self.free_seen.set(self.sender.size());
    }
}

#[test]
fn rejected_value_may_use_the_channel_in_its_destructor() {
    let free_seen = Rc::new(Cell::new(usize::MAX));
    let (send, recv) = channel::<UsesChannel>(1);
    let send = Rc::new(send);
    assert!(send.try_send(UsesChannel { sender: send.clone(), free_seen: free_seen.clone() }));
    assert_eq!(free_seen.get(), usize::MAX);
    assert!(!send.try_send(UsesChannel { sender: send.clone(), free_seen: free_seen.clone() }));
    // the rejected value was dropped after the ring was released, and found it full
    assert_eq!(free_seen.get(), 0);
    let first = recv.try_recv();
    assert!(first.is_some());
    drop(first);
    assert_eq!(free_seen.get(), 1);
}
