use crate::balance_table::{transfer_fits, transfer_of, BalanceTable};
use crate::blockchain::{chain_valid, lemma_push_valid, link_hash, tail_of, Block, Blockchain};
use crate::lamport::{head_of, observe_of, pop_of, LamportQueue};
use vstd::multiset::Multiset;
use vstd::prelude::*;

verus! {

/// A protocol message between peers.
#[derive(Clone, Debug)]
pub enum Message {
    Request { client_id: u64, lamport_clock: u64 },
    Reply { client_id: u64, lamport_clock: u64 },
    Release { client_id: u64, lamport_clock: u64, block: Block },
}

impl Message {
    /// The logical timestamp the message carries.
    pub open spec fn stamp(self) -> u64 {
        match self {
            Message::Request { lamport_clock, .. } => lamport_clock,
            Message::Reply { lamport_clock, .. } => lamport_clock,
            Message::Release { lamport_clock, .. } => lamport_clock,
        }
    }
}

/// A message to be sent to the peer `to`.
#[derive(Clone, Debug)]
pub struct Outgoing {
    pub to: u64,
    pub message: Message,
}

/// Why a local submit or an inbound message was refused; the state is then
/// left unchanged.
#[derive(Clone, Copy, Debug, PartialEq, Eq, Structural)]
pub enum ClientError {
    /// A local request is still outstanding.
    AlreadyRequesting,
    /// The logical clock would pass `u64::MAX`.
    ClockOverflow,
}

/// The abstract state of one peer.
pub struct ClientState {
    pub chain: Seq<Block>,
    pub balances: Map<u64, i64>,
    pub entries: Multiset<(u64, u64)>,
    pub clock: u64,
    pub reply_count: u64,
    pub requesting: bool,
    pub staged: (u64, u64, i64),
}

/// The balances after applying block `b`'s transfer, when it fits in `i64`.
pub open spec fn settle(m: Map<u64, i64>, b: Block) -> Map<u64, i64> {
    if transfer_fits(m, b.from, b.to, b.amt) {
        transfer_of(m, b.from, b.to, b.amt)
    } else {
        m
    }
}

/// The state after a local submit of (id, to, amt) stamped `clock + 1`.
pub open spec fn submit_of(s: ClientState, id: u64, to: u64, amt: i64) -> ClientState {
    ClientState {
        entries: s.entries.insert(((s.clock + 1) as u64, id)),
        clock: (s.clock + 1) as u64,
        reply_count: 0,
        requesting: true,
        staged: (id, to, amt),
        ..s
    }
}

/// The state after receiving REQUEST{sender, t}.
pub open spec fn request_of(s: ClientState, sender: u64, t: u64) -> ClientState {
    ClientState {
        entries: s.entries.insert((t, sender)),
        clock: observe_of(s.clock, t) as u64,
        ..s
    }
}

/// The state after receiving a REPLY stamped `t`: replies are counted only
/// while a local request is outstanding.
pub open spec fn reply_of(s: ClientState, t: u64) -> ClientState {
    ClientState {
        clock: observe_of(s.clock, t) as u64,
        reply_count: if s.requesting && s.reply_count < u64::MAX {
            (s.reply_count + 1) as u64
        } else {
            s.reply_count
        },
        ..s
    }
}

/// The state after receiving RELEASE{sender, t, b}: the head request is
/// removed and the block is appended and applied.
pub open spec fn release_of(s: ClientState, t: u64, b: Block) -> ClientState {
    ClientState {
        chain: s.chain.push(b),
        balances: settle(s.balances, b),
        entries: pop_of(s.entries),
        clock: observe_of(s.clock, t) as u64,
        ..s
    }
}

/// The commit condition: every peer has replied, the head of the queue is
/// this peer's request, and a local request is outstanding.
pub open spec fn commit_ready(s: ClientState, id: u64, n: nat) -> bool {
    &&& s.requesting
    &&& s.reply_count == n
    &&& head_of(s.entries) matches Some(e) && e.1 == id
}

/// `b` is the block sealed from the staged transaction on top of the chain.
pub open spec fn sealed(s: ClientState, b: Block) -> bool {
    &&& b.from == s.staged.0
    &&& b.to == s.staged.1
    &&& b.amt == s.staged.2
    &&& b.hash_pointer@ == link_hash(b.from, b.to, b.amt, tail_of(s.chain))
}

/// The state after committing the sealed block `b`.
pub open spec fn commit_of(s: ClientState, b: Block) -> ClientState {
    ClientState {
        chain: s.chain.push(b),
        balances: settle(s.balances, b),
        entries: pop_of(s.entries),
        clock: (s.clock + 1) as u64,
        reply_count: 0,
        requesting: false,
        ..s
    }
}

/// The message `m` addressed to every peer, in order.
pub open spec fn broadcast(peers: Seq<u64>, m: Message) -> Seq<Outgoing> {
    peers.map_values(|p: u64| Outgoing { to: p, message: m })
}

/// The state and messages that E5 produces from `s`: a commit when the
/// condition holds, nothing otherwise.
pub open spec fn after_commit_check(
    s: ClientState,
    id: u64,
    peers: Seq<u64>,
    s2: ClientState,
    out: Seq<Outgoing>,
) -> bool {
    if commit_ready(s, id, peers.len()) {
        exists|b: Block|
            #![trigger sealed(s, b)]
            sealed(s, b) && s2 == commit_of(s, b) && out == broadcast(
                peers,
                Message::Release { client_id: id, lamport_clock: (s.clock + 1) as u64, block: b },
            )
    } else {
        s2 == s && out == Seq::<Outgoing>::empty()
    }
}

/// The state that a message's handler leaves before the commit check.
pub open spec fn handled_of(s: ClientState, msg: Message) -> ClientState {
    match msg {
        Message::Request { client_id, lamport_clock } => request_of(s, client_id, lamport_clock),
        Message::Reply { lamport_clock, .. } => reply_of(s, lamport_clock),
        Message::Release { lamport_clock, block, .. } => release_of(s, lamport_clock, block),
    }
}

/// The messages a handler sends before the commit check: a REPLY to a
/// REQUEST, stamped with the clock after observing it.
pub open spec fn direct_replies(s: ClientState, id: u64, msg: Message) -> Seq<Outgoing> {
    match msg {
        Message::Request { client_id, lamport_clock } => seq![
            Outgoing {
                to: client_id,
                message: Message::Reply {
                    client_id: id,
                    lamport_clock: observe_of(s.clock, lamport_clock) as u64,
                },
            },
        ],
        _ => Seq::empty(),
    }
}

/// Chain and balance convergence: when the committing peer and a receiving
/// peer held the same chain and balances, committing block `b` on one and
/// applying its RELEASE on the other leaves both with the same chain and the
/// same balances again, whatever the RELEASE's timestamp.
pub proof fn lemma_release_converges(s: ClientState, t: ClientState, b: Block, stamp: u64)
    requires
        s.chain == t.chain,
        s.balances == t.balances,
    ensures
        commit_of(s, b).chain == release_of(t, stamp, b).chain,
        commit_of(s, b).balances == release_of(t, stamp, b).balances,
{
}

/// Two peers that apply the same RELEASEs in the same order from the same
/// chain and balances end with the same chain and balances.
pub proof fn lemma_releases_converge(
    s: ClientState,
    t: ClientState,
    stamps_s: Seq<u64>,
    stamps_t: Seq<u64>,
    blocks: Seq<Block>,
)
    requires
        s.chain == t.chain,
        s.balances == t.balances,
        stamps_s.len() == blocks.len(),
        stamps_t.len() == blocks.len(),
    ensures
        replay(s, stamps_s, blocks).chain == replay(t, stamps_t, blocks).chain,
        replay(s, stamps_s, blocks).balances == replay(t, stamps_t, blocks).balances,
        replay(s, stamps_s, blocks).chain == s.chain + blocks,
    decreases blocks.len(),
{
    if blocks.len() > 0 {
        let n = blocks.len() - 1;
        lemma_releases_converge(s, t, stamps_s.take(n), stamps_t.take(n), blocks.take(n));
        assert(s.chain + blocks =~= (s.chain + blocks.take(n)).push(blocks[n]));
    }
}

/// The state after applying the RELEASEs stamped `stamps` carrying `blocks`,
/// in order.
pub open spec fn replay(s: ClientState, stamps: Seq<u64>, blocks: Seq<Block>) -> ClientState
    decreases blocks.len(),
{
    if blocks.len() == 0 || stamps.len() != blocks.len() {
        s
    } else {
        let n = blocks.len() - 1;
        release_of(replay(s, stamps.take(n), blocks.take(n)), stamps[n], blocks[n])
    }
}

/// Hash integrity across the protocol: a commit keeps a valid chain valid,
/// and so does a RELEASE carrying the block committed on the same chain.
pub proof fn lemma_commit_keeps_chain_valid(s: ClientState, t: ClientState, b: Block, stamp: u64)
    requires
        chain_valid(s.chain),
        t.chain == s.chain,
        sealed(s, b),
    ensures
        chain_valid(commit_of(s, b).chain),
        chain_valid(release_of(t, stamp, b).chain),
{
    lemma_push_valid(s.chain, b);
}

/// Mutual exclusion: two peers that hold the same pending requests cannot
/// both meet the commit condition unless they are the same peer.
pub proof fn lemma_mutual_exclusion(
    s1: ClientState,
    id1: u64,
    n1: nat,
    s2: ClientState,
    id2: u64,
    n2: nat,
)
    requires
        s1.entries == s2.entries,
        commit_ready(s1, id1, n1),
        commit_ready(s2, id2, n2),
    ensures
        id1 == id2,
{
}

/// Handling `msg` would drive the clock past `u64::MAX`: observing its
/// timestamp does not fit, or it lands on `u64::MAX` and the commit that
/// follows would tick once more.
pub open spec fn overflows(s: ClientState, id: u64, n: nat, msg: Message) -> bool {
    ||| observe_of(s.clock, msg.stamp()) > u64::MAX
    ||| (observe_of(s.clock, msg.stamp()) == u64::MAX && !(msg is Request) && commit_ready(
        handled_of(s, msg),
        id,
        n,
    ))
}

/// Chain and balance convergence through the handler: when the committing
/// peer `a` and a receiving peer `b` held the same chain and balances, the
/// RELEASE that the commit sends leaves `b`, once handled, with the chain and
/// balances of the committer.
pub proof fn lemma_handled_release_converges(
    a: ClientState,
    a2: ClientState,
    id: u64,
    peers: Seq<u64>,
    out: Seq<Outgoing>,
    b: ClientState,
)
    requires
        commit_ready(a, id, peers.len()),
        after_commit_check(a, id, peers, a2, out),
        peers.len() > 0,
        b.chain == a.chain,
        b.balances == a.balances,
    ensures
        out[0].message is Release,
        handled_of(b, out[0].message).chain == a2.chain,
        handled_of(b, out[0].message).balances == a2.balances,
{
    let blk = choose|blk: Block|
        #![trigger sealed(a, blk)]
        sealed(a, blk) && a2 == commit_of(a, blk) && out == broadcast(
            peers,
            Message::Release { client_id: id, lamport_clock: (a.clock + 1) as u64, block: blk },
        );
    assert(out[0].message == Message::Release {
        client_id: id,
        lamport_clock: (a.clock + 1) as u64,
        block: blk,
    });
}

/// Queue determinism through the handler: peers holding the same pending
/// requests still hold the same ones, and see the same head, after handling
/// the same REQUEST or RELEASE.
pub proof fn lemma_handled_queue_determinism(a: ClientState, b: ClientState, msg: Message)
    requires
        a.entries == b.entries,
    ensures
        handled_of(a, msg).entries == handled_of(b, msg).entries,
        head_of(handled_of(a, msg).entries) == head_of(handled_of(b, msg).entries),
{
}

/// One peer: its identity, its peers, and the state it replicates.
pub struct Client {
    pub client_id: u64,
    pub peers: Vec<u64>,
    pub blockchain: Blockchain,
    pub balance_table: BalanceTable,
    pub lamport_queue: LamportQueue,
    pub reply_count: u64,
    pub requesting: bool,
}

impl View for Client {
    type V = ClientState;

    open spec fn view(&self) -> ClientState {
        ClientState {
            chain: self.blockchain@,
            balances: self.balance_table@,
            entries: self.lamport_queue.entries(),
            clock: self.lamport_queue.clock(),
            reply_count: self.reply_count,
            requesting: self.requesting,
            staged: (
                self.blockchain.next_block.from,
                self.blockchain.next_block.to,
                self.blockchain.next_block.amt,
            ),
        }
    }
}

impl Client {
    /// A peer with no peers registered yet, holding its own initial balance
    /// of 10.
    pub fn new(client_id: u64) -> (r: Client)
        ensures
            r.client_id == client_id,
            r.peers@ == Seq::<u64>::empty(),
            r@.chain == Seq::<Block>::empty(),
            r@.balances == Map::<u64, i64>::empty().insert(client_id, 10),
            r@.entries == Multiset::<(u64, u64)>::empty(),
            r@.clock == 0,
            r@.reply_count == 0,
            !r@.requesting,
    {
        let mut balance_table = BalanceTable::new();
        balance_table.seed(client_id, 10);
        Client {
            client_id,
            peers: Vec::new(),
            blockchain: Blockchain::new(),
            balance_table,
            lamport_queue: LamportQueue::new(),
            reply_count: 0,
            requesting: false,
        }
    }

    /// Registers `peer_id` as a peer (once; never this peer itself) and
    /// seeds its balance to 10.
    pub fn add_peer(&mut self, peer_id: u64)
        ensures
            final(self).client_id == old(self).client_id,
            final(self).peers@ == (if peer_id == old(self).client_id || old(self).peers@.contains(
                peer_id,
            ) {
                old(self).peers@
            } else {
                old(self).peers@.push(peer_id)
            }),
            final(self)@ == (ClientState {
                balances: old(self)@.balances.insert(peer_id, 10),
                ..old(self)@
            }),
    {
        let mut known = peer_id == self.client_id;
        let mut i: usize = 0;
        while i < self.peers.len() && !known
            invariant
                i <= self.peers@.len(),
                known == (peer_id == self.client_id || exists|j: int|
                    0 <= j < i && self.peers@[j] == peer_id),
            decreases self.peers@.len() - i,
        {
            if self.peers[i] == peer_id {
                known = true;
            }
            i = i + 1;
        }
        if !known {
            self.peers.push(peer_id);
        }
        self.balance_table.seed(peer_id, 10);
        proof {
            if old(self).peers@.contains(peer_id) {
                assert(known);
            }
        }
    }

    /// The number of registered peers.
    pub fn peer_count(&self) -> (r: usize)
        ensures
            r == self.peers@.len(),
    {
        self.peers.len()
    }

    /// `m` addressed to every peer.
    fn broadcast_message(&self, m: &Message) -> (r: Vec<Outgoing>)
        ensures
            r@ == broadcast(self.peers@, *m),
    {
        let mut out: Vec<Outgoing> = Vec::new();
        let mut i: usize = 0;
        while i < self.peers.len()
            invariant
                i <= self.peers@.len(),
                out@ == broadcast(self.peers@.subrange(0, i as int), *m),
            decreases self.peers@.len() - i,
        {
            let msg = match m {
                Message::Request { client_id, lamport_clock } => Message::Request {
                    client_id: *client_id,
                    lamport_clock: *lamport_clock,
                },
                Message::Reply { client_id, lamport_clock } => Message::Reply {
                    client_id: *client_id,
                    lamport_clock: *lamport_clock,
                },
                Message::Release { client_id, lamport_clock, block } => Message::Release {
                    client_id: *client_id,
                    lamport_clock: *lamport_clock,
                    block: block.replicate(),
                },
            };
            out.push(Outgoing { to: self.peers[i], message: msg });
            proof {
                assert(self.peers@.subrange(0, i + 1) =~= self.peers@.subrange(0, i as int).push(
                    self.peers@[i as int],
                ));
                assert(out@ =~= broadcast(self.peers@.subrange(0, i + 1), *m));
            }
            i = i + 1;
        }
        proof {
            assert(self.peers@.subrange(0, i as int) =~= self.peers@);
        }
        out
    }

    /// E1: stamps a new local request for the transfer of `amt` to `to`,
    /// queues it, stages the transaction and asks every peer.
    pub fn submit(&mut self, to: u64, amt: i64) -> (r: Result<Vec<Outgoing>, ClientError>)
        ensures
            final(self).client_id == old(self).client_id,
            final(self).peers == old(self).peers,
            final(self)@.clock >= old(self)@.clock,
            old(self)@.requesting ==> r == Err::<Vec<Outgoing>, ClientError>(
                ClientError::AlreadyRequesting,
            ) && final(self)@ == old(self)@,
            !old(self)@.requesting && old(self)@.clock == u64::MAX ==> r == Err::<
                Vec<Outgoing>,
                ClientError,
            >(ClientError::ClockOverflow) && final(self)@ == old(self)@,
            !old(self)@.requesting && old(self)@.clock < u64::MAX ==> (r matches Ok(out) && out@
                == broadcast(
                old(self).peers@,
                Message::Request {
                    client_id: old(self).client_id,
                    lamport_clock: (old(self)@.clock + 1) as u64,
                },
            ) && final(self)@ == submit_of(old(self)@, old(self).client_id, to, amt)),
    {
        if self.requesting {
            return Err(ClientError::AlreadyRequesting);
        }
        if self.lamport_queue.get_clock() == u64::MAX {
            return Err(ClientError::ClockOverflow);
        }
        self.lamport_queue.increment();
        let t = self.lamport_queue.get_clock();
        self.lamport_queue.insert(t, self.client_id);
        self.blockchain.ready_block(self.client_id, to, amt);
        self.requesting = true;
        self.reply_count = 0;
        let m = Message::Request { client_id: self.client_id, lamport_clock: t };
        let out = self.broadcast_message(&m);
        Ok(out)
    }

    /// E5: commits the staged transaction when every peer has replied and
    /// this peer's request heads the queue, and then releases it to every
    /// peer.
    fn try_commit(&mut self) -> (r: Vec<Outgoing>)
        requires
            commit_ready(old(self)@, old(self).client_id, old(self).peers@.len()) ==> old(
                self,
            )@.clock < u64::MAX,
        ensures
            final(self).client_id == old(self).client_id,
            final(self).peers == old(self).peers,
            after_commit_check(old(self)@, old(self).client_id, old(self).peers@, final(self)@, r@),
    {
        let ready = match self.lamport_queue.peek() {
            Some(e) => self.requesting && self.reply_count == self.peers.len() as u64
                && e.client_id == self.client_id,
            None => false,
        };
        if !ready {
            return Vec::new();
        }
        let ghost s = self@;
        let block = self.blockchain.create_block();
        self.balance_table.apply_transaction(block.from, block.to, block.amt);
        self.lamport_queue.increment();
        self.lamport_queue.pop();
        self.reply_count = 0;
        self.requesting = false;
        let m = Message::Release {
            client_id: self.client_id,
            lamport_clock: self.lamport_queue.get_clock(),
            block,
        };
        let out = self.broadcast_message(&m);
        proof {
            assert(commit_ready(s, self.client_id, self.peers@.len()));
            assert(sealed(s, block));
            assert(self@ == commit_of(s, block));
            assert(m == Message::Release {
                client_id: self.client_id,
                lamport_clock: (s.clock + 1) as u64,
                block,
            });
        }
        out
    }

    /// E2 to E5: handles one inbound message and returns the messages to send.
    /// A message is refused, leaving the state as it was, only when handling
    /// it would drive the clock past `u64::MAX`.
    pub fn handle_message(&mut self, msg: Message) -> (r: Result<Vec<Outgoing>, ClientError>)
        ensures
            final(self).client_id == old(self).client_id,
            final(self).peers == old(self).peers,
            final(self)@.clock >= old(self)@.clock,
            overflows(old(self)@, old(self).client_id, old(self).peers@.len(), msg) ==> r == Err::<
                Vec<Outgoing>,
                ClientError,
            >(ClientError::ClockOverflow) && final(self)@ == old(self)@,
            r is Ok ==> final(self)@.clock > old(self)@.clock && final(self)@.clock > msg.stamp(),
            !overflows(old(self)@, old(self).client_id, old(self).peers@.len(), msg) ==> (r matches Ok(
                out,
            ) && {
                let s1 = handled_of(old(self)@, msg);
                let direct = direct_replies(old(self)@, old(self).client_id, msg);
                if msg is Request {
                    final(self)@ == s1 && out@ == direct
                } else {
                    exists|rest: Seq<Outgoing>|
                        after_commit_check(
                            s1,
                            old(self).client_id,
                            old(self).peers@,
                            final(self)@,
                            rest,
                        ) && out@ == direct + rest
                }
            }),
    {
        let t = match &msg {
            Message::Request { lamport_clock, .. } => *lamport_clock,
            Message::Reply { lamport_clock, .. } => *lamport_clock,
            Message::Release { lamport_clock, .. } => *lamport_clock,
        };
        let c = self.lamport_queue.get_clock();
        if c == u64::MAX || t == u64::MAX {
            return Err(ClientError::ClockOverflow);
        }
        if (c >= t && c == u64::MAX - 1) || (c < t && t == u64::MAX - 1) {
            // The clock will land on `u64::MAX`: refuse what would commit.
            let n = self.peers.len() as u64;
            let commits = match &msg {
                Message::Request { .. } => false,
                Message::Reply { .. } => {
                    let count = if self.requesting && self.reply_count < u64::MAX {
                        self.reply_count + 1
                    } else {
                        self.reply_count
                    };
                    let mine = match self.lamport_queue.peek() {
                        Some(e) => e.client_id == self.client_id,
                        None => false,
                    };
                    self.requesting && count == n && mine
                },
                Message::Release { .. } => {
                    let mine = match self.lamport_queue.peek_after_pop() {
                        Some(e) => e.client_id == self.client_id,
                        None => false,
                    };
                    self.requesting && self.reply_count == n && mine
                },
            };
            if commits {
                return Err(ClientError::ClockOverflow);
            }
        }
        let ghost s0 = self@;
        match msg {
            Message::Request { client_id, lamport_clock } => {
                self.lamport_queue.insert(lamport_clock, client_id);
                self.lamport_queue.update(lamport_clock);
                let reply = Message::Reply {
                    client_id: self.client_id,
                    lamport_clock: self.lamport_queue.get_clock(),
                };
                let mut out: Vec<Outgoing> = Vec::new();
                out.push(Outgoing { to: client_id, message: reply });
                proof {
                    assert(out@ =~= direct_replies(s0, self.client_id, msg));
                }
                Ok(out)
            },
            Message::Reply { client_id, lamport_clock } => {
                self.lamport_queue.update(lamport_clock);
                if self.requesting && self.reply_count < u64::MAX {
                    self.reply_count = self.reply_count + 1;
                }
                let out = self.try_commit();
                proof {
                    assert(out@ =~= direct_replies(s0, self.client_id, msg) + out@);
                }
                Ok(out)
            },
            Message::Release { client_id, lamport_clock, block } => {
                // The head is the sender's request: a peer releases only after
                // heading its own queue, which needs a reply from every peer,
                // and its REQUEST and RELEASE travel on one ordered connection.
                self.lamport_queue.pop();
                self.lamport_queue.update(lamport_clock);
                let from = block.from;
                let to = block.to;
                let amt = block.amt;
                self.blockchain.add_block(block);
                self.balance_table.apply_transaction(from, to, amt);
                let out = self.try_commit();
                proof {
                    assert(out@ =~= direct_replies(s0, self.client_id, msg) + out@);
                }
                Ok(out)
            },
        }
    }
}

} // verus!
