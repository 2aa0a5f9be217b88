use threat_engine::queue::{
    pop_step, push_step, sequence_when_held, sequence_when_released, MpmcQueue, PopStep, PushStep,
    Slot,
};

#[test]
fn push_pop_single_thread() {
    let mut q: MpmcQueue<u32> = MpmcQueue::new(4);
    assert!(q.push(1).is_ok());
    assert!(q.push(2).is_ok());
    assert_eq!(q.pop(), Some(1));
    assert_eq!(q.pop(), Some(2));
    assert_eq!(q.pop(), None);
}

#[test]
fn rejects_when_full() {
    let mut q: MpmcQueue<u32> = MpmcQueue::new(2);
    assert!(q.push(1).is_ok());
    assert!(q.push(2).is_ok());
    assert_eq!(q.push(3), Err(3));
}

#[test]
fn a_single_slot_holds_a_single_item() {
    let mut q: MpmcQueue<u32> = MpmcQueue::new(1);
    assert_eq!(q.pop(), None);
    assert_eq!(q.push(1), Ok(()));
    assert_eq!(q.push(2), Err(2));
    assert_eq!(q.pop(), Some(1));
    assert_eq!(q.pop(), None);
    assert_eq!(q.push(3), Ok(()));
    assert_eq!(q.pop(), Some(3));
}

#[test]
fn order_is_kept_over_many_laps() {
    let mut q: MpmcQueue<u32> = MpmcQueue::new(4);
    let mut next_in: u32 = 0;
    let mut next_out: u32 = 0;
    for round in 0..1000u32 {
        for _ in 0..(round % 5) {
            let room = next_in - next_out < 4;
            assert_eq!(q.push(next_in).is_ok(), room);
            if room {
                next_in += 1;
            }
        }
        for _ in 0..(round % 3) {
            let expected = if next_out < next_in { Some(next_out) } else { None };
            assert_eq!(q.pop(), expected);
            if expected.is_some() {
                next_out += 1;
            }
        }
    }
    assert!(next_out > 400);
}

#[test]
fn a_queue_holds_items_that_are_no_numbers() {
    let mut q: MpmcQueue<String> = MpmcQueue::new(2);
    assert_eq!(q.push("a".to_string()), Ok(()));
    assert_eq!(q.push("b".to_string()), Ok(()));
    assert_eq!(q.push("c".to_string()), Err("c".to_string()));
    assert_eq!(q.pop(), Some("a".to_string()));
}

#[test]
fn a_fresh_queue_comes_apart_into_its_slots() {
    let q: MpmcQueue<u32> = MpmcQueue::new(4);
    let slots: Vec<Slot<u32>> = q.into_slots();
    let sequences: Vec<u64> = slots.iter().map(|s| s.sequence).collect();
    assert_eq!(sequences, vec![0, 2, 4, 6]);
    assert!(slots.iter().all(|s| s.value.is_none()));
}

#[test]
fn steps_follow_the_sequence_of_the_slot() {
    assert!(matches!(push_step(10, 5), PushStep::Claim));
    assert!(matches!(push_step(9, 5), PushStep::Full));
    assert!(matches!(push_step(11, 5), PushStep::Stale));
    assert!(matches!(pop_step(11, 5), PopStep::Claim));
    assert!(matches!(pop_step(10, 5), PopStep::Empty));
    assert!(matches!(pop_step(12, 5), PopStep::Stale));
    assert_eq!(sequence_when_held(5), 11);
    assert_eq!(sequence_when_released(5, 3), 18);
}

#[test]
fn steps_agree_where_positions_wrap_round() {
    assert_eq!(sequence_when_held(u64::MAX), u64::MAX);
    assert!(matches!(pop_step(u64::MAX, u64::MAX), PopStep::Claim));
    let released = sequence_when_released(u64::MAX, 3);
    assert_eq!(released, 6);
    assert!(matches!(push_step(released, 3), PushStep::Claim));
}

/// A thread that pushes or pops, between two of its atomic steps.
enum Thread {
    Idle,
    /// It has read the position.
    HasPosition(u64),
    /// It has read the sequence of the slot.
    HasSequence(u64, u64),
    /// It has claimed the position and owns the slot.
    Owns(u64),
}

/// Eight producers and four consumers share a ring of slots as threads would,
/// one atomic step at a time, in an order that a generator of pseudo-random
/// numbers draws.
#[test]
fn concurrent_stress_no_lost_or_duplicated_items() {
    const PRODUCERS: usize = 8;
    const PER_PRODUCER: usize = 20_000;
    const TOTAL: usize = PRODUCERS * PER_PRODUCER;
    const CONSUMERS: usize = 4;

    let mut slots: Vec<Slot<usize>> = MpmcQueue::<usize>::new(1 << 16).into_slots();
    let mask: u64 = slots.len() as u64 - 1;
    let mut enqueue_pos: u64 = 0;
    let mut dequeue_pos: u64 = 0;
    let mut threads: Vec<Thread> = (0..PRODUCERS + CONSUMERS).map(|_| Thread::Idle).collect();
    let mut pushed = vec![0usize; PRODUCERS];
    let mut seen = vec![false; TOTAL];
    let mut total_popped = 0usize;
    let mut random: u64 = 0x9E37_79B9_7F4A_7C15;

    while total_popped < TOTAL {
        random = random.wrapping_mul(6364136223846793005).wrapping_add(1442695040888963407);
        let who = ((random >> 33) as usize) % threads.len();
        let producer = who < PRODUCERS;
        if producer && pushed[who] == PER_PRODUCER {
            continue;
        }
        threads[who] = match threads[who] {
            Thread::Idle => Thread::HasPosition(if producer { enqueue_pos } else { dequeue_pos }),
            Thread::HasPosition(pos) => {
                Thread::HasSequence(pos, slots[(pos & mask) as usize].sequence)
            }
            Thread::HasSequence(pos, sequence) if producer => match push_step(sequence, pos) {
                PushStep::Claim if enqueue_pos == pos => {
                    enqueue_pos = pos.wrapping_add(1);
                    Thread::Owns(pos)
                }
                PushStep::Claim => Thread::HasPosition(enqueue_pos),
                PushStep::Full => Thread::Idle,
                PushStep::Stale => Thread::HasPosition(enqueue_pos),
            },
            Thread::HasSequence(pos, sequence) => match pop_step(sequence, pos) {
                PopStep::Claim if dequeue_pos == pos => {
                    dequeue_pos = pos.wrapping_add(1);
                    Thread::Owns(pos)
                }
                PopStep::Claim => Thread::HasPosition(dequeue_pos),
                PopStep::Empty => Thread::Idle,
                PopStep::Stale => Thread::HasPosition(dequeue_pos),
            },
            Thread::Owns(pos) if producer => {
                let slot = &mut slots[(pos & mask) as usize];
                assert!(slot.value.is_none());
                slot.value = Some(who * PER_PRODUCER + pushed[who]);
                slot.sequence = sequence_when_held(pos);
                pushed[who] += 1;
                Thread::Idle
            }
            Thread::Owns(pos) => {
                let slot = &mut slots[(pos & mask) as usize];
                let item = slot.value.take().expect("a claimed slot holds an item");
                slot.sequence = sequence_when_released(pos, mask);
                assert!(!seen[item], "item {item} delivered twice");
                seen[item] = true;
                total_popped += 1;
                Thread::Idle
            }
        };
    }

    let total_seen = seen.iter().filter(|b| **b).count();
    assert_eq!(total_seen, TOTAL, "lost or duplicated items under concurrency");
}
