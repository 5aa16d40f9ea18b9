use remote::chunk::{chunk_count, split_into_chunks, Assembly, Chunk, Chunker};

const FAR: u64 = u64::MAX;

fn parts(data: &[u8], size: usize, id: u32, deadline: u64) -> Vec<Chunk> {
    split_into_chunks(data, size, id, deadline)
}

fn clone_chunk(c: &Chunk) -> Chunk {
    Chunk { data: c.data.clone(), id: c.id, part: c.part, total: c.total, deadline: c.deadline }
}

#[test]
fn chunk_count_rounds_up() {
    assert_eq!(chunk_count(10, 4), 3);
    assert_eq!(chunk_count(8, 4), 2);
    assert_eq!(chunk_count(0, 4), 0);
    assert_eq!(chunk_count(1, 1), 1);
    assert_eq!(chunk_count(1000, 1000), 1);
    assert_eq!(chunk_count(1001, 1000), 2);
}

#[test]
fn split_cuts_in_order_with_numbers() {
    let cs = parts(b"hello world", 4, 9, 1234);
    assert_eq!(cs.len(), 3);
    assert_eq!(cs[0].data, b"hell".to_vec());
    assert_eq!(cs[1].data, b"o wo".to_vec());
    assert_eq!(cs[2].data, b"rld".to_vec());
    for (i, c) in cs.iter().enumerate() {
        assert_eq!(c.id, 9);
        assert_eq!(c.part, i as u32);
        assert_eq!(c.total, 3);
        assert_eq!(c.deadline, 1234);
    }
}

#[test]
fn split_of_empty_message_has_no_parts() {
    assert_eq!(parts(b"", 4, 0, FAR).len(), 0);
}

#[test]
fn split_exact_multiple() {
    let cs = parts(&[1, 2, 3, 4, 5, 6], 3, 1, FAR);
    assert_eq!(cs.len(), 2);
    assert_eq!(cs[0].data, vec![1, 2, 3]);
    assert_eq!(cs[1].data, vec![4, 5, 6]);
}

#[test]
fn chunks_compare_by_slot_not_payload() {
    let a = Chunk { data: vec![1], id: 1, part: 2, total: 3, deadline: 5 };
    let b = Chunk { data: vec![9, 9], id: 1, part: 2, total: 3, deadline: 7 };
    let c = Chunk { data: vec![1], id: 1, part: 1, total: 3, deadline: 5 };
    assert!(a == b);
    assert!(a != c);
}

#[test]
fn reassembly_in_order_gives_back_the_message() {
    let msg: Vec<u8> = (0u8..=200).collect();
    let cs = parts(&msg, 16, 3, 1000);
    let n = cs.len();
    let mut a = Assembly::new();
    for (i, c) in cs.into_iter().enumerate() {
        let out = a.handle_chunk(c, 10);
        if i + 1 < n {
            assert!(out.is_none());
            assert_eq!(a.pending_ids(), vec![3]);
        } else {
            assert_eq!(out, Some(msg.clone()));
        }
    }
    assert!(a.pending_ids().is_empty());
}

#[test]
fn reassembly_in_reverse_order_gives_back_the_message() {
    let msg = b"the quick brown fox jumps over the lazy dog".to_vec();
    let mut cs = parts(&msg, 5, 11, 1000);
    cs.reverse();
    let n = cs.len();
    let mut a = Assembly::new();
    for (i, c) in cs.into_iter().enumerate() {
        let out = a.handle_chunk(c, 999);
        if i + 1 < n {
            assert!(out.is_none());
        } else {
            assert_eq!(out, Some(msg.clone()));
        }
    }
    assert!(a.pending_ids().is_empty());
}

#[test]
fn reassembly_in_shuffled_order_gives_back_the_message() {
    let msg: Vec<u8> = (0u8..50).collect();
    let cs = parts(&msg, 7, 2, 1000);
    assert_eq!(cs.len(), 8);
    let order = [3usize, 7, 0, 5, 1, 6, 2, 4];
    let mut a = Assembly::new();
    for (k, &i) in order.iter().enumerate() {
        let out = a.handle_chunk(clone_chunk(&cs[i]), 0);
        if k + 1 < order.len() {
            assert!(out.is_none());
        } else {
            assert_eq!(out, Some(msg.clone()));
        }
    }
}

#[test]
fn single_part_message_is_whole_at_once() {
    let mut a = Assembly::new();
    let c = Chunk { data: vec![7, 8, 9], id: 4, part: 0, total: 1, deadline: 100 };
    assert_eq!(a.handle_chunk(c, 50), Some(vec![7, 8, 9]));
    assert!(a.pending_ids().is_empty());
}

#[test]
fn duplicate_part_is_ignored() {
    let msg = b"abcdefghi".to_vec();
    let cs = parts(&msg, 3, 5, 100);
    let mut a = Assembly::new();
    assert!(a.handle_chunk(clone_chunk(&cs[0]), 1).is_none());
    assert!(a.handle_chunk(clone_chunk(&cs[0]), 1).is_none());
    assert!(a.handle_chunk(clone_chunk(&cs[1]), 1).is_none());
    assert!(a.handle_chunk(clone_chunk(&cs[1]), 1).is_none());
    assert_eq!(a.handle_chunk(clone_chunk(&cs[2]), 1), Some(msg));
}

#[test]
fn expired_part_is_dropped() {
    let mut a = Assembly::new();
    let c = Chunk { data: vec![1], id: 1, part: 0, total: 2, deadline: 100 };
    assert!(a.handle_chunk(c, 100).is_none());
    assert!(a.pending_ids().is_empty());
    let single = Chunk { data: vec![1], id: 2, part: 0, total: 1, deadline: 100 };
    assert!(a.handle_chunk(single, 200).is_none());
}

#[test]
fn messages_are_kept_apart_by_id() {
    let m1 = b"first message".to_vec();
    let m2 = b"second one!!".to_vec();
    let c1 = parts(&m1, 4, 1, 100);
    let c2 = parts(&m2, 4, 2, 100);
    let mut a = Assembly::new();
    assert!(a.handle_chunk(clone_chunk(&c1[0]), 0).is_none());
    assert!(a.handle_chunk(clone_chunk(&c2[0]), 0).is_none());
    let mut ids = a.pending_ids();
    ids.sort();
    assert_eq!(ids, vec![1, 2]);
    for c in c2.iter().skip(1).take(c2.len() - 2) {
        assert!(a.handle_chunk(clone_chunk(c), 0).is_none());
    }
    assert_eq!(a.handle_chunk(clone_chunk(c2.last().unwrap()), 0), Some(m2));
    assert_eq!(a.pending_ids(), vec![1]);
    for c in c1.iter().skip(1).take(c1.len() - 2) {
        assert!(a.handle_chunk(clone_chunk(c), 0).is_none());
    }
    assert_eq!(a.handle_chunk(clone_chunk(c1.last().unwrap()), 0), Some(m1));
}

#[test]
fn expiry_drops_exactly_the_messages_with_an_expired_part() {
    let mut a = Assembly::new();
    assert!(a.handle_chunk(Chunk { data: vec![1], id: 1, part: 0, total: 3, deadline: 50 }, 0).is_none());
    assert!(a.handle_chunk(Chunk { data: vec![2], id: 1, part: 1, total: 3, deadline: 50 }, 0).is_none());
    assert!(a.handle_chunk(Chunk { data: vec![3], id: 2, part: 0, total: 2, deadline: 500 }, 0).is_none());
    a.remove_elapsed_chunks(10);
    let mut ids = a.pending_ids();
    ids.sort();
    assert_eq!(ids, vec![1, 2]);
    a.remove_elapsed_chunks(50);
    assert_eq!(a.pending_ids(), vec![2]);
    assert_eq!(
        a.handle_chunk(Chunk { data: vec![4], id: 2, part: 1, total: 2, deadline: 500 }, 60),
        Some(vec![3, 4])
    );
}

#[test]
fn chunker_numbers_messages_and_cuts_them() {
    let mut ch = Chunker::new(4);
    let first = ch.chunk(b"0123456789", FAR);
    assert_eq!(first.len(), 3);
    assert!(first.iter().all(|c| c.id == 0 && c.total == 3 && c.deadline == FAR));
    assert_eq!(ch.next_chunk_id, 1);
    let second = ch.chunk(b"ab", FAR);
    assert_eq!(second.len(), 1);
    assert_eq!(second[0].id, 1);
    assert_eq!(second[0].data, b"ab".to_vec());
    assert_eq!(ch.next_chunk_id, 2);
}

#[test]
fn chunker_gives_up_on_a_passed_deadline() {
    let mut ch = Chunker::new(2);
    let out = ch.chunk(b"abcdef", 0);
    assert!(out.is_empty());
    assert_eq!(ch.next_chunk_id, 1);
}

#[test]
fn receive_by_the_clock_round_trip() {
    let mut ch = Chunker::new(3);
    let msg = b"round trip through the clock".to_vec();
    let cs = ch.chunk(&msg, FAR);
    let mut a = Assembly::new();
    let mut whole = None;
    for c in cs {
        whole = a.receive(c);
    }
    assert_eq!(whole, Some(msg));
    a.expire();
    assert!(a.pending_ids().is_empty());
}

#[test]
fn expire_by_the_clock_drops_old_parts() {
    let mut a = Assembly::new();
    assert!(a.handle_chunk(Chunk { data: vec![1], id: 3, part: 0, total: 2, deadline: 10 }, 0).is_none());
    a.expire();
    assert!(a.pending_ids().is_empty());
}

#[test]
fn next_part_is_cut_while_the_deadline_is_ahead() {
    let msg = b"hello world";
    let c = remote::chunk::next_part(msg, 4, 7, 100, 1, 99).unwrap();
    assert_eq!(c.data, b"o wo".to_vec());
    assert_eq!((c.id, c.part, c.total, c.deadline), (7, 1, 3, 100));
    let last = remote::chunk::next_part(msg, 4, 7, 100, 2, 0).unwrap();
    assert_eq!(last.data, b"rld".to_vec());
}

#[test]
fn next_part_is_withheld_once_the_deadline_passed() {
    let msg = b"hello world";
    assert!(remote::chunk::next_part(msg, 4, 7, 100, 0, 100).is_none());
    assert!(remote::chunk::next_part(msg, 4, 7, 100, 0, 5000).is_none());
}
