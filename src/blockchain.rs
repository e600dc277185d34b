use crate::utils::{calculate_hash, sha256_hex};
use vstd::prelude::*;
use vstd::string::StringExecFns;

verus! {

/// The decimal digit for `d < 10`.
pub open spec fn digit_char(d: nat) -> char {
    if d == 0 { '0' }
    else if d == 1 { '1' }
    else if d == 2 { '2' }
    else if d == 3 { '3' }
    else if d == 4 { '4' }
    else if d == 5 { '5' }
    else if d == 6 { '6' }
    else if d == 7 { '7' }
    else if d == 8 { '8' }
    else { '9' }
}

/// The decimal rendering of `n`, without leading zeros.
pub open spec fn decimal(n: nat) -> Seq<char>
    decreases n,
{
    if n < 10 {
        seq![digit_char(n)]
    } else {
        decimal(n / 10).push(digit_char(n % 10))
    }
}

/// The decimal rendering of a signed integer, with a leading `-` when negative.
pub open spec fn signed_decimal(i: int) -> Seq<char> {
    if i < 0 {
        seq!['-'].add(decimal((-i) as nat))
    } else {
        decimal(i as nat)
    }
}

/// The operation string `"{from}->{to} amt {amt}"`.
pub open spec fn op_string(from: u64, to: u64, amt: i64) -> Seq<char> {
    decimal(from as nat) + seq!['-', '>'] + decimal(to as nat) + seq![' ', 'a', 'm', 't', ' ']
        + signed_decimal(amt as int)
}

/// A transaction together with the hash pointer that chains it to its
/// predecessor.
#[derive(Clone, Debug)]
pub struct Block {
    pub from: u64,
    pub to: u64,
    pub amt: i64,
    pub hash_pointer: String,
}

impl Block {
    /// A copy of the block, field for field.
    pub fn replicate(&self) -> (r: Block)
        ensures
            r == *self,
    {
        Block {
            from: self.from,
            to: self.to,
            amt: self.amt,
            hash_pointer: self.hash_pointer.clone(),
        }
    }
}

/// The hash pointer of the block before position `i`, or the empty text for
/// the first block.
pub open spec fn prev_hash(s: Seq<Block>, i: int) -> Seq<char> {
    if i == 0 {
        Seq::empty()
    } else {
        s[i - 1].hash_pointer@
    }
}

/// The hash pointer of the last block, or the empty text.
pub open spec fn tail_of(s: Seq<Block>) -> Seq<char> {
    prev_hash(s, s.len() as int)
}

/// The hash pointer that a block carrying (from, to, amt) gets after a block
/// whose hash pointer is `prev`.
pub open spec fn link_hash(from: u64, to: u64, amt: i64, prev: Seq<char>) -> Seq<char> {
    sha256_hex(op_string(from, to, amt) + prev)
}

/// The block at position `i` carries the hash of its operation string
/// followed by its predecessor's hash pointer.
pub open spec fn block_links(s: Seq<Block>, i: int) -> bool {
    s[i].hash_pointer@ == link_hash(s[i].from, s[i].to, s[i].amt, prev_hash(s, i))
}

/// Every block of the chain is linked to its predecessor.
pub open spec fn chain_valid(s: Seq<Block>) -> bool {
    forall|i: int| 0 <= i < s.len() ==> #[trigger] block_links(s, i)
}

/// Every prefix of a valid chain is valid.
pub proof fn lemma_prefix_valid(s: Seq<Block>, k: int)
    requires
        chain_valid(s),
        0 <= k <= s.len(),
    ensures
        chain_valid(s.subrange(0, k)),
{
    let p = s.subrange(0, k);
    assert forall|i: int| 0 <= i < p.len() implies #[trigger] block_links(p, i) by {
        assert(block_links(s, i));
        if i > 0 {
            assert(p[i - 1] == s[i - 1]);
        }
    }
}

/// A valid chain extended by a block that links to its tail is valid.
pub proof fn lemma_push_valid(s: Seq<Block>, b: Block)
    requires
        chain_valid(s),
        b.hash_pointer@ == link_hash(b.from, b.to, b.amt, tail_of(s)),
    ensures
        chain_valid(s.push(b)),
{
    let t = s.push(b);
    assert forall|i: int| 0 <= i < t.len() implies #[trigger] block_links(t, i) by {
        if i < s.len() {
            assert(block_links(s, i));
            if i > 0 {
                assert(t[i - 1] == s[i - 1]);
            }
        }
    }
}

/// The digit `d < 10` as text.
fn digit_str(d: u64) -> (r: &'static str)
    requires
        d < 10,
    ensures
        r@ == seq![digit_char(d as nat)],
{
    proof {
        reveal_strlit("0");
        reveal_strlit("1");
        reveal_strlit("2");
        reveal_strlit("3");
        reveal_strlit("4");
        reveal_strlit("5");
        reveal_strlit("6");
        reveal_strlit("7");
        reveal_strlit("8");
        reveal_strlit("9");
    }
    if d == 0 { "0" }
    else if d == 1 { "1" }
    else if d == 2 { "2" }
    else if d == 3 { "3" }
    else if d == 4 { "4" }
    else if d == 5 { "5" }
    else if d == 6 { "6" }
    else if d == 7 { "7" }
    else if d == 8 { "8" }
    else { "9" }
}

/// Appends the decimal rendering of `n` to `s`.
fn push_decimal(s: &mut String, n: u64)
    ensures
        final(s)@ == old(s)@ + decimal(n as nat),
    decreases n,
{
    if n < 10 {
        s.append(digit_str(n));
    } else {
        push_decimal(s, n / 10);
        s.append(digit_str(n % 10));
        proof {
            assert(decimal(n as nat) == decimal((n / 10) as nat).push(digit_char((n % 10) as nat)));
            assert(final(s)@ =~= old(s)@ + decimal(n as nat));
        }
    }
}

/// The operation string `"{from}->{to} amt {amt}"` of a transaction.
pub fn op_to_str(from: u64, to: u64, amt: i64) -> (r: String)
    ensures
        r@ == op_string(from, to, amt),
{
    proof {
        reveal_strlit("->");
        reveal_strlit(" amt ");
        reveal_strlit("-");
    }
    let mut s = String::new();
    push_decimal(&mut s, from);
    s.append("->");
    push_decimal(&mut s, to);
    s.append(" amt ");
    if amt < 0 {
        s.append("-");
        let magnitude: u64 = (0i128 - amt as i128) as u64;
        push_decimal(&mut s, magnitude);
    } else {
        push_decimal(&mut s, amt as u64);
    }
    assert(s@ =~= op_string(from, to, amt));
    s
}

/// The replicated, hash-chained transaction log of one peer, with the
/// transaction staged to be sealed next.
pub struct Blockchain {
    pub blocks: Vec<Block>,
    pub next_block: Block,
    pub ready: bool,
}

impl View for Blockchain {
    type V = Seq<Block>;

    open spec fn view(&self) -> Seq<Block> {
        self.blocks@
    }
}

impl Blockchain {
    pub fn new() -> (r: Blockchain)
        ensures
            r@ == Seq::<Block>::empty(),
            chain_valid(r@),
            !r.ready,
            r.next_block.from == 0,
            r.next_block.to == 0,
            r.next_block.amt == 0,
            r.next_block.hash_pointer@ == Seq::<char>::empty(),
    {
        Blockchain {
            blocks: Vec::new(),
            next_block: Block { from: 0, to: 0, amt: 0, hash_pointer: String::new() },
            ready: false,
        }
    }

    /// Stages the transaction (from, to, amt) to be sealed by `create_block`.
    pub fn ready_block(&mut self, from: u64, to: u64, amt: i64)
        ensures
            final(self)@ == old(self)@,
            final(self).ready,
            final(self).next_block.from == from,
            final(self).next_block.to == to,
            final(self).next_block.amt == amt,
            final(self).next_block.hash_pointer == old(self).next_block.hash_pointer,
    {
        self.next_block.from = from;
        self.next_block.to = to;
        self.next_block.amt = amt;
        self.ready = true;
    }

    /// The hash pointer of the last block, or the empty text.
    pub fn tail_hash(&self) -> (r: String)
        ensures
            r@ == tail_of(self@),
    {
        if self.blocks.len() != 0 {
            self.blocks[self.blocks.len() - 1].hash_pointer.clone()
        } else {
            String::new()
        }
    }

    /// Seals the staged transaction into a block carrying `hash_pointer`,
    /// appends it and returns it.
    pub fn seal_block(&mut self, hash_pointer: String) -> (r: Block)
        ensures
            r.from == old(self).next_block.from,
            r.to == old(self).next_block.to,
            r.amt == old(self).next_block.amt,
            r.hash_pointer == hash_pointer,
            final(self)@ == old(self)@.push(r),
            !final(self).ready,
            final(self).next_block == old(self).next_block,
    {
        let block = Block {
            from: self.next_block.from,
            to: self.next_block.to,
            amt: self.next_block.amt,
            hash_pointer,
        };
        self.blocks.push(block.replicate());
        self.ready = false;
        block
    }

    /// Seals the staged transaction into a block chained to the current tail,
    /// appends it and returns it.
    pub fn create_block(&mut self) -> (r: Block)
        ensures
            r.from == old(self).next_block.from,
            r.to == old(self).next_block.to,
            r.amt == old(self).next_block.amt,
            r.hash_pointer@ == link_hash(r.from, r.to, r.amt, tail_of(old(self)@)),
            final(self)@ == old(self)@.push(r),
            !final(self).ready,
            final(self).next_block == old(self).next_block,
            chain_valid(old(self)@) ==> chain_valid(final(self)@),
    {
        let previous_hash = self.tail_hash();
        let op = op_to_str(self.next_block.from, self.next_block.to, self.next_block.amt);
        let hash_pointer = calculate_hash(op.as_str(), previous_hash.as_str());
        let ghost before = self@;
        let block = self.seal_block(hash_pointer);
        proof {
            if chain_valid(before) {
                lemma_push_valid(before, block);
            }
        }
        block
    }

    /// Appends a block received from a peer as it is; whether the chain stays
    /// valid depends on whether the block links to the current tail.
    pub fn add_block(&mut self, block: Block)
        ensures
            final(self)@ == old(self)@.push(block),
            final(self).next_block == old(self).next_block,
            final(self).ready == old(self).ready,
            chain_valid(old(self)@) ==> (chain_valid(final(self)@) <==> block.hash_pointer@
                == link_hash(block.from, block.to, block.amt, tail_of(old(self)@))),
    {
        proof {
            if chain_valid(self@) && block.hash_pointer@ == link_hash(
                block.from,
                block.to,
                block.amt,
                tail_of(self@),
            ) {
                lemma_push_valid(self@, block);
            }
            let t = self@.push(block);
            assert(t[t.len() - 1] == block);
            assert(chain_valid(t) ==> block_links(t, t.len() - 1));
        }
        self.blocks.push(block);
    }

    /// The blocks, oldest first.
    pub fn blocks(&self) -> (r: &Vec<Block>)
        ensures
            r@ == self@,
    {
        &self.blocks
    }

    /// Tells whether every block links to its predecessor.
    pub fn verify(&self) -> (r: bool)
        ensures
            r == chain_valid(self@),
    {
        let mut i: usize = 0;
        while i < self.blocks.len()
            invariant
                i <= self.blocks@.len(),
                forall|j: int| 0 <= j < i ==> #[trigger] block_links(self@, j),
            decreases self.blocks@.len() - i,
        {
            let b = &self.blocks[i];
            let op = op_to_str(b.from, b.to, b.amt);
            let h = if i == 0 {
                calculate_hash(op.as_str(), "")
            } else {
                calculate_hash(op.as_str(), self.blocks[i - 1].hash_pointer.as_str())
            };
            proof {
                reveal_strlit("");
                assert(op@ + Seq::<char>::empty() =~= op@);
            }
            if h != b.hash_pointer {
                assert(!block_links(self@, i as int));
                return false;
            }
            i = i + 1;
        }
        true
    }
}

} // verus!
