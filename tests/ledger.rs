use lamport_ledger::balance_table::BalanceTable;
use lamport_ledger::blockchain::{op_to_str, Block, Blockchain};
use lamport_ledger::client::{Client, ClientError, Message, Outgoing};
use lamport_ledger::lamport::LamportQueue;
use lamport_ledger::utils::calculate_hash;
use std::collections::VecDeque;

fn block(from: u64, to: u64, amt: i64, hash: &str) -> Block {
    Block { from, to, amt, hash_pointer: hash.to_string() }
}

fn peers(ids: &[u64]) -> Vec<Client> {
    let mut clients = Vec::new();
    for &id in ids {
        let mut c = Client::new(id);
        for &p in ids {
            if p != id {
                c.add_peer(p);
            }
        }
        clients.push(c);
    }
    clients
}

fn deliver(clients: &mut Vec<Client>, pending: &mut VecDeque<Outgoing>) {
    while let Some(o) = pending.pop_front() {
        let idx = clients.iter().position(|c| c.client_id == o.to).unwrap();
        let out = clients[idx].handle_message(o.message).unwrap();
        pending.extend(out);
    }
}

fn balance(c: &Client, id: u64) -> Option<i64> {
    c.balance_table.balance_of(id)
}

#[test]
fn clock_increment_and_update() {
    let mut q = LamportQueue::new();
    assert_eq!(q.get_clock(), 0);
    q.increment();
    assert_eq!(q.get_clock(), 1);
    q.update(7);
    assert_eq!(q.get_clock(), 8);
    q.update(3);
    assert_eq!(q.get_clock(), 9);
    q.update(9);
    assert_eq!(q.get_clock(), 10);
}

#[test]
fn queue_orders_by_timestamp_then_id() {
    let mut q = LamportQueue::new();
    assert!(q.peek().is_none());
    q.insert(5, 2);
    q.insert(3, 9);
    q.insert(3, 1);
    q.insert(3, 1);
    let head = *q.peek().unwrap();
    assert_eq!((head.lamport_clock, head.client_id), (3, 1));
    q.pop();
    let head = *q.peek().unwrap();
    assert_eq!((head.lamport_clock, head.client_id), (3, 1));
    q.pop();
    let head = *q.peek().unwrap();
    assert_eq!((head.lamport_clock, head.client_id), (3, 9));
    q.pop();
    let head = *q.peek().unwrap();
    assert_eq!((head.lamport_clock, head.client_id), (5, 2));
    q.pop();
    assert!(q.peek().is_none());
    q.pop();
    assert!(q.peek().is_none());
}

#[test]
fn queue_head_independent_of_insertion_order() {
    let mut a = LamportQueue::new();
    let mut b = LamportQueue::new();
    for (t, id) in [(4, 1), (2, 3), (2, 2), (7, 0)] {
        a.insert(t, id);
    }
    for (t, id) in [(7, 0), (2, 2), (4, 1), (2, 3)] {
        b.insert(t, id);
    }
    for _ in 0..4 {
        let ha = *a.peek().unwrap();
        let hb = *b.peek().unwrap();
        assert_eq!(ha, hb);
        a.pop();
        b.pop();
    }
    assert!(a.peek().is_none() && b.peek().is_none());
}

#[test]
fn seeding_twice_keeps_ten() {
    let mut t = BalanceTable::new();
    t.seed(4, 10);
    t.seed(4, 10);
    assert_eq!(t.balance_of(4), Some(10));
    assert_eq!(t.balances.len(), 1);
}

#[test]
fn update_of_absent_id_is_ignored() {
    let mut t = BalanceTable::new();
    t.seed(1, 10);
    t.seed(2, 10);
    t.update_balance(9, -5);
    t.update_balance(1, -4);
    assert_eq!(t.balance_of(9), None);
    assert_eq!(t.balance_of(1), Some(6));
    assert_eq!(t.balance_of(2), Some(10));
}

#[test]
fn transaction_from_absent_id() {
    let mut t = BalanceTable::new();
    t.seed(1, 10);
    t.seed(2, 10);
    assert!(t.apply_transaction(9, 1, 4));
    assert_eq!(t.balance_of(1), Some(14));
    assert_eq!(t.balance_of(2), Some(10));
    assert_eq!(t.balance_of(9), None);
    assert!(t.apply_transaction(9, 8, 4));
    assert_eq!(t.balances.len(), 2);
}

#[test]
fn negative_amount_moves_the_other_way() {
    let mut t = BalanceTable::new();
    t.seed(1, 10);
    t.seed(2, 10);
    assert!(t.apply_transaction(1, 2, -3));
    assert_eq!(t.balance_of(1), Some(13));
    assert_eq!(t.balance_of(2), Some(7));
}

#[test]
fn overflowing_transaction_is_refused() {
    let mut t = BalanceTable::new();
    t.seed(1, i64::MIN + 1);
    t.seed(2, 10);
    assert!(!t.apply_transaction(1, 2, 5));
    assert_eq!(t.balance_of(1), Some(i64::MIN + 1));
    assert_eq!(t.balance_of(2), Some(10));
    t.seed(1, 0);
    t.seed(2, i64::MAX);
    assert!(!t.apply_transaction(1, 2, 1));
    assert_eq!(t.balance_of(1), Some(0));
    assert!(t.apply_transaction(2, 2, 1));
    assert_eq!(t.balance_of(2), Some(i64::MAX));
}

#[test]
fn operation_strings() {
    assert_eq!(op_to_str(1, 2, 3), "1->2 amt 3");
    assert_eq!(op_to_str(0, 10, -5), "0->10 amt -5");
    assert_eq!(op_to_str(u64::MAX, 907, i64::MIN), "18446744073709551615->907 amt -9223372036854775808");
    assert_eq!(op_to_str(42, 0, 0), "42->0 amt 0");
}

#[test]
fn hash_of_concatenation() {
    assert_eq!(
        calculate_hash("1->2 amt 3", ""),
        "e61a3919e60b926727271a89266103209b8e187d55217159e94c5b532e241a4f"
    );
    assert_eq!(
        calculate_hash("", ""),
        "e3b0c44298fc1c149afbf4c8996fb92427ae41e4649b934ca495991b7852b855"
    );
    assert_eq!(calculate_hash("1->2 am", "t 3"), calculate_hash("1->2 amt 3", ""));
}

#[test]
fn chain_of_two_blocks() {
    let mut chain = Blockchain::new();
    assert_eq!(chain.tail_hash(), "");
    chain.ready_block(1, 2, 1);
    assert!(chain.ready);
    let b1 = chain.create_block();
    assert!(!chain.ready);
    assert_eq!(b1.hash_pointer, "94f735f7c51599d3d1807d0176f9b3216100677b64eaa875f432668d65d7c885");
    chain.ready_block(2, 1, 2);
    let b2 = chain.create_block();
    assert_eq!((b2.from, b2.to, b2.amt), (2, 1, 2));
    assert_eq!(b2.hash_pointer, "78e2b6e94dd85a90f5470b2c7a8274bb297625bd5b5d6520fd38c22a9dbab443");
    assert_eq!(chain.tail_hash(), b2.hash_pointer);
    assert_eq!(chain.blocks().len(), 2);
    assert!(chain.verify());
}

#[test]
fn every_prefix_verifies() {
    let mut chain = Blockchain::new();
    let mut copy = Blockchain::new();
    assert!(copy.verify());
    for i in 0..6u64 {
        chain.ready_block(i, i + 1, i as i64 - 3);
        let b = chain.create_block();
        copy.add_block(b);
        assert!(copy.verify());
    }
    assert_eq!(copy.blocks().len(), 6);
}

#[test]
fn tampered_block_fails_verification() {
    let mut chain = Blockchain::new();
    chain.ready_block(1, 2, 3);
    chain.create_block();
    assert!(chain.verify());
    chain.add_block(block(2, 1, 1, "not a hash"));
    assert!(!chain.verify());
    assert_eq!(chain.blocks().len(), 2);
}

#[test]
fn scenario_single_transfer() {
    let mut clients = peers(&[1, 2]);
    let mut pending: VecDeque<Outgoing> = VecDeque::new();
    pending.extend(clients[0].submit(2, 3).unwrap());
    deliver(&mut clients, &mut pending);
    for c in &clients {
        assert_eq!(c.blockchain.blocks().len(), 1);
        let b = &c.blockchain.blocks()[0];
        assert_eq!((b.from, b.to, b.amt), (1, 2, 3));
        assert_eq!(b.hash_pointer, "e61a3919e60b926727271a89266103209b8e187d55217159e94c5b532e241a4f");
        assert_eq!(balance(c, 1), Some(7));
        assert_eq!(balance(c, 2), Some(13));
        assert!(!c.requesting);
        assert!(c.lamport_queue.peek().is_none());
    }
}

#[test]
fn scenario_concurrent_submits_tie_break_by_id() {
    let mut clients = peers(&[1, 2]);
    let mut pending: VecDeque<Outgoing> = VecDeque::new();
    let a = clients[0].submit(2, 1).unwrap();
    let b = clients[1].submit(1, 2).unwrap();
    assert!(matches!(a[0].message, Message::Request { client_id: 1, lamport_clock: 1 }));
    assert!(matches!(b[0].message, Message::Request { client_id: 2, lamport_clock: 1 }));
    pending.extend(a);
    pending.extend(b);
    deliver(&mut clients, &mut pending);
    for c in &clients {
        let blocks = c.blockchain.blocks();
        assert_eq!(blocks.len(), 2);
        assert_eq!((blocks[0].from, blocks[0].to, blocks[0].amt), (1, 2, 1));
        assert_eq!((blocks[1].from, blocks[1].to, blocks[1].amt), (2, 1, 2));
        assert_eq!(blocks[1].hash_pointer, "78e2b6e94dd85a90f5470b2c7a8274bb297625bd5b5d6520fd38c22a9dbab443");
        assert_eq!(balance(c, 1), Some(11));
        assert_eq!(balance(c, 2), Some(9));
        assert!(c.blockchain.verify());
    }
}

#[test]
fn scenario_three_peers_sequential() {
    let mut clients = peers(&[1, 2, 3]);
    let mut pending: VecDeque<Outgoing> = VecDeque::new();
    pending.extend(clients[0].submit(2, 5).unwrap());
    deliver(&mut clients, &mut pending);
    pending.extend(clients[2].submit(1, 2).unwrap());
    deliver(&mut clients, &mut pending);
    for c in &clients {
        assert_eq!(balance(c, 1), Some(7));
        assert_eq!(balance(c, 2), Some(15));
        assert_eq!(balance(c, 3), Some(8));
        assert_eq!(c.blockchain.blocks().len(), 2);
        assert_eq!(c.blockchain.tail_hash(), clients[0].blockchain.tail_hash());
        assert!(c.blockchain.verify());
    }
}

#[test]
fn release_with_absent_id_leaves_balances() {
    let mut c = Client::new(1);
    c.add_peer(2);
    c.lamport_queue.insert(1, 2);
    let out = c
        .handle_message(Message::Release { client_id: 2, lamport_clock: 3, block: block(9, 9, 4, "x") })
        .unwrap();
    assert!(out.is_empty());
    assert_eq!(balance(&c, 1), Some(10));
    assert_eq!(balance(&c, 2), Some(10));
    assert_eq!(c.balance_table.balances.len(), 2);
    assert_eq!(c.blockchain.blocks().len(), 1);
    assert_eq!(c.lamport_queue.get_clock(), 4);
    assert!(c.lamport_queue.peek().is_none());
}

#[test]
fn request_is_queued_and_replied() {
    let mut c = Client::new(1);
    c.add_peer(2);
    let out = c.handle_message(Message::Request { client_id: 2, lamport_clock: 5 }).unwrap();
    assert_eq!(out.len(), 1);
    assert_eq!(out[0].to, 2);
    assert!(matches!(out[0].message, Message::Reply { client_id: 1, lamport_clock: 6 }));
    let head = *c.lamport_queue.peek().unwrap();
    assert_eq!((head.lamport_clock, head.client_id), (5, 2));
}

#[test]
fn clock_never_decreases() {
    let mut c = Client::new(1);
    c.add_peer(2);
    let mut last = c.lamport_queue.get_clock();
    c.submit(2, 1).unwrap();
    assert!(c.lamport_queue.get_clock() >= last);
    last = c.lamport_queue.get_clock();
    c.handle_message(Message::Reply { client_id: 2, lamport_clock: 0 }).unwrap();
    assert!(c.lamport_queue.get_clock() > last);
    last = c.lamport_queue.get_clock();
    c.handle_message(Message::Request { client_id: 2, lamport_clock: 1 }).unwrap();
    assert!(c.lamport_queue.get_clock() > last);
}

#[test]
fn overlapping_submit_is_refused() {
    let mut c = Client::new(1);
    c.add_peer(2);
    c.submit(2, 1).unwrap();
    assert_eq!(c.submit(2, 4).unwrap_err(), ClientError::AlreadyRequesting);
    assert_eq!(c.blockchain.next_block.amt, 1);
}

#[test]
fn clock_overflow_is_refused() {
    let mut c = Client::new(1);
    c.add_peer(2);
    let e = c.handle_message(Message::Reply { client_id: 2, lamport_clock: u64::MAX });
    assert_eq!(e.unwrap_err(), ClientError::ClockOverflow);
    assert_eq!(c.lamport_queue.get_clock(), 0);
    c.handle_message(Message::Reply { client_id: 2, lamport_clock: u64::MAX - 1 }).unwrap();
    assert_eq!(c.lamport_queue.get_clock(), u64::MAX);
    let e = c.handle_message(Message::Request { client_id: 2, lamport_clock: 3 });
    assert_eq!(e.unwrap_err(), ClientError::ClockOverflow);
    assert_eq!(c.submit(2, 1).unwrap_err(), ClientError::ClockOverflow);
    assert!(!c.requesting);
}

#[test]
fn request_may_take_the_last_clock_value() {
    let mut c = Client::new(1);
    c.add_peer(2);
    c.handle_message(Message::Reply { client_id: 2, lamport_clock: u64::MAX - 2 }).unwrap();
    assert_eq!(c.lamport_queue.get_clock(), u64::MAX - 1);
    let out = c.handle_message(Message::Request { client_id: 2, lamport_clock: 5 }).unwrap();
    assert_eq!(c.lamport_queue.get_clock(), u64::MAX);
    assert!(matches!(out[0].message, Message::Reply { client_id: 1, lamport_clock: u64::MAX }));
}

#[test]
fn reply_without_commit_may_take_the_last_clock_value() {
    let mut c = Client::new(1);
    c.add_peer(2);
    c.add_peer(3);
    c.submit(2, 1).unwrap();
    let out = c.handle_message(Message::Reply { client_id: 2, lamport_clock: u64::MAX - 1 }).unwrap();
    assert!(out.is_empty());
    assert_eq!(c.lamport_queue.get_clock(), u64::MAX);
    assert_eq!(c.reply_count, 1);
}

#[test]
fn commit_that_would_overflow_is_refused() {
    let mut c = Client::new(1);
    c.add_peer(2);
    c.submit(2, 1).unwrap();
    let e = c.handle_message(Message::Reply { client_id: 2, lamport_clock: u64::MAX - 1 });
    assert_eq!(e.unwrap_err(), ClientError::ClockOverflow);
    assert_eq!(c.lamport_queue.get_clock(), 1);
    assert_eq!(c.reply_count, 0);
    let out = c.handle_message(Message::Reply { client_id: 2, lamport_clock: u64::MAX - 2 }).unwrap();
    assert_eq!(out.len(), 1);
    assert_eq!(c.lamport_queue.get_clock(), u64::MAX);
    assert_eq!(c.blockchain.blocks().len(), 1);
}

#[test]
fn release_that_would_lead_to_overflowing_commit_is_refused() {
    let mut c = Client::new(1);
    c.add_peer(2);
    c.handle_message(Message::Request { client_id: 2, lamport_clock: 1 }).unwrap();
    c.submit(2, 1).unwrap();
    c.handle_message(Message::Reply { client_id: 2, lamport_clock: 1 }).unwrap();
    assert!(c.requesting);
    let release = Message::Release { client_id: 2, lamport_clock: u64::MAX - 1, block: block(2, 1, 1, "h") };
    assert_eq!(c.handle_message(release).unwrap_err(), ClientError::ClockOverflow);
    assert_eq!(c.blockchain.blocks().len(), 0);
    let release = Message::Release { client_id: 2, lamport_clock: 7, block: block(2, 1, 1, "h") };
    let out = c.handle_message(release).unwrap();
    assert_eq!(out.len(), 1);
    assert_eq!(c.blockchain.blocks().len(), 2);
    assert_eq!(balance(&c, 1), Some(10));
}

#[test]
fn peers_registered_once_and_seeded() {
    let mut c = Client::new(1);
    c.add_peer(2);
    c.add_peer(2);
    c.add_peer(1);
    c.add_peer(3);
    assert_eq!(c.peer_count(), 2);
    assert_eq!(balance(&c, 2), Some(10));
    assert_eq!(balance(&c, 1), Some(10));
    assert_eq!(balance(&c, 3), Some(10));
}

#[test]
fn sealing_with_a_given_hash() {
    let mut chain = Blockchain::new();
    chain.ready_block(3, 4, -2);
    let b = chain.seal_block("abc".to_string());
    assert_eq!((b.from, b.to, b.amt), (3, 4, -2));
    assert_eq!(b.hash_pointer, "abc");
    assert_eq!(chain.tail_hash(), "abc");
    assert!(!chain.verify());
}
