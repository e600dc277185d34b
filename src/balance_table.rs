use std::collections::HashMap;
use vstd::prelude::*;

verus! {

broadcast use vstd::std_specs::hash::group_hash_axioms;

/// The table after adding `delta` to `id`'s balance; an absent id is left out.
pub open spec fn apply_of(m: Map<u64, i64>, id: u64, delta: int) -> Map<u64, i64> {
    if m.contains_key(id) {
        m.insert(id, (m[id] + delta) as i64)
    } else {
        m
    }
}

/// Adding `delta` to `id`'s balance stays within `i64`.
pub open spec fn apply_fits(m: Map<u64, i64>, id: u64, delta: int) -> bool {
    m.contains_key(id) ==> i64::MIN <= m[id] + delta <= i64::MAX
}

/// Both steps of a transfer (debit `from`, then credit `to`) stay within `i64`.
pub open spec fn transfer_fits(m: Map<u64, i64>, from: u64, to: u64, amt: i64) -> bool {
    &&& apply_fits(m, from, -amt)
    &&& apply_fits(apply_of(m, from, -amt), to, amt as int)
}

/// The table after a transfer: `from` is debited by `amt`, then `to` credited.
pub open spec fn transfer_of(m: Map<u64, i64>, from: u64, to: u64, amt: i64) -> Map<u64, i64> {
    apply_of(apply_of(m, from, -amt), to, amt as int)
}

/// Seeding an id twice with the same value leaves the table as seeding it
/// once does, with that value as the id's balance.
pub proof fn lemma_seed_idempotent(m: Map<u64, i64>, id: u64, value: i64)
    ensures
        m.insert(id, value).insert(id, value) == m.insert(id, value),
        m.insert(id, value).insert(id, value)[id] == value,
{
    assert(m.insert(id, value).insert(id, value) =~= m.insert(id, value));
}

/// The balance of every known participant.
pub struct BalanceTable {
    pub balances: HashMap<u64, i64>,
}

impl View for BalanceTable {
    type V = Map<u64, i64>;

    open spec fn view(&self) -> Map<u64, i64> {
        self.balances@
    }
}

impl BalanceTable {
    pub fn new() -> (r: BalanceTable)
        ensures
            r@ == Map::<u64, i64>::empty(),
    {
        let balances = HashMap::new();
        BalanceTable { balances }
    }

    /// Sets `client`'s balance to `value`, whether or not it was known.
    pub fn seed(&mut self, client: u64, value: i64)
        ensures
            final(self)@ == old(self)@.insert(client, value),
    {
        self.balances.insert(client, value);
    }

    /// The balance of `client`, if it is known.
    pub fn balance_of(&self, client: u64) -> (r: Option<i64>)
        ensures
            r == (if self@.contains_key(client) {
                Some(self@[client])
            } else {
                None
            }),
    {
        match self.balances.get(&client) {
            Some(b) => Some(*b),
            None => None,
        }
    }

    /// Adds `amount` to `client`'s balance; an unknown client is ignored.
    pub fn update_balance(&mut self, client: u64, amount: i64)
        requires
            apply_fits(old(self)@, client, amount as int),
        ensures
            final(self)@ == apply_of(old(self)@, client, amount as int),
    {
        match self.balances.get(&client) {
            Some(b) => {
                let nb: i64 = *b + amount;
                self.balances.insert(client, nb);
            },
            None => {},
        }
    }

    /// Applies the transfer of `amt` from `from` to `to` when every balance it
    /// touches stays within `i64`, and tells whether it did; otherwise the
    /// table is left as it was.
    pub fn apply_transaction(&mut self, from: u64, to: u64, amt: i64) -> (r: bool)
        ensures
            r == transfer_fits(old(self)@, from, to, amt),
            r ==> final(self)@ == transfer_of(old(self)@, from, to, amt),
            !r ==> final(self)@ == old(self)@,
    {
        let debit: i64 = match self.balances.get(&from) {
            Some(b) => {
                let d = (*b as i128) - (amt as i128);
                if d < i64::MIN as i128 || d > i64::MAX as i128 {
                    return false;
                }
                d as i64
            },
            None => 0,
        };
        let from_known = self.balances.contains_key(&from);
        let credit_base: Option<i64> = if to == from && from_known {
            Some(debit)
        } else {
            match self.balances.get(&to) {
                Some(b) => Some(*b),
                None => None,
            }
        };
        let credit: i64 = match credit_base {
            Some(b) => {
                let c = (b as i128) + (amt as i128);
                if c < i64::MIN as i128 || c > i64::MAX as i128 {
                    return false;
                }
                c as i64
            },
            None => 0,
        };
        if from_known {
            self.balances.insert(from, debit);
        }
        if credit_base.is_some() {
            self.balances.insert(to, credit);
        }
        true
    }
}

} // verus!
