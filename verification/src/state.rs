//! The ledger state machine: account balances and nonces derived by
//! replaying blocks, with all-or-nothing application of each block.

use vstd::prelude::*;
use vstd::pervasive::VecAdditionalExecFns;
use vstd::string::StringExecFns;
use crate::errors::StateError;
use crate::types::{spec_is_coinbase, Block, Transaction};
use crate::util::str_eq;

verus! {

/// An account: its balance and the nonce expected of its next transaction.
#[derive(Clone, Copy, Debug, PartialEq, Eq, Structural)]
pub struct Account {
    pub balance: u64,
    pub nonce: u64,
}

/// The derived account table. Modelled as a map from address to account;
/// unknown addresses read as a zero account.
#[derive(Clone, Debug)]
pub struct State {
    pub accounts: Vec<(String, Account)>,
}

/// First-match lookup in the account entries.
pub open spec fn spec_lookup(entries: Seq<(String, Account)>, a: Seq<char>) -> Option<Account>
    decreases entries.len(),
{
    if entries.len() == 0 {
        None
    } else if (entries[0].0)@ == a {
        Some(entries[0].1)
    } else {
        spec_lookup(entries.drop_first(), a)
    }
}

/// The entries as a mathematical map.
pub open spec fn entries_map(entries: Seq<(String, Account)>) -> Map<Seq<char>, Account> {
    Map::new(
        |a: Seq<char>| spec_lookup(entries, a) is Some,
        |a: Seq<char>| spec_lookup(entries, a).unwrap(),
    )
}

impl View for State {
    type V = Map<Seq<char>, Account>;

    open spec fn view(&self) -> Map<Seq<char>, Account> {
        entries_map(self.accounts@)
    }
}

/// The account under an address, a zero account when absent.
pub open spec fn spec_account(m: Map<Seq<char>, Account>, a: Seq<char>) -> Account {
    if m.dom().contains(a) {
        m[a]
    } else {
        Account { balance: 0, nonce: 0 }
    }
}

/// Whether a transaction is legal against the given accounts: the sender's
/// nonce must match exactly, amount + fee must not overflow, and the sender
/// must cover it. A coinbase passes; its placement is checked per block.
pub open spec fn spec_tx_check(m: Map<Seq<char>, Account>, tx: Transaction) -> Option<StateError> {
    if spec_is_coinbase(tx) {
        None
    } else {
        let s = spec_account(m, tx.from@);
        if tx.nonce != s.nonce {
            Some(StateError::InvalidNonce)
        } else if tx.amount + tx.fee > u64::MAX {
            Some(StateError::AmountOverflow)
        } else if (s.balance as int) < tx.amount + tx.fee {
            Some(StateError::InsufficientBalance)
        } else {
            None
        }
    }
}

/// The accounts after one transaction: debit the sender by amount + fee and
/// advance its nonce (unless a coinbase), then credit the receiver with the
/// amount. All arithmetic saturates, so the function is total.
pub open spec fn spec_apply_tx(m: Map<Seq<char>, Account>, tx: Transaction) -> Map<
    Seq<char>,
    Account,
> {
    let m1 = if spec_is_coinbase(tx) {
        m
    } else {
        let s = spec_account(m, tx.from@);
        m.insert(
            tx.from@,
            Account {
                balance: s.balance.saturating_sub(tx.amount.saturating_add(tx.fee)),
                nonce: s.nonce.saturating_add(1),
            },
        )
    };
    let r = spec_account(m1, tx.to@);
    m1.insert(tx.to@, Account { balance: r.balance.saturating_add(tx.amount), nonce: r.nonce })
}

/// The first state error in `txs[i..]`, validating each transaction against
/// the accounts as mutated by its predecessors; a coinbase after index 0 is
/// misplaced. `None` means the whole block passes.
pub open spec fn spec_block_check(
    m: Map<Seq<char>, Account>,
    txs: Seq<Transaction>,
    i: int,
) -> Option<StateError>
    decreases txs.len() - i,
{
    if i < 0 || i >= txs.len() {
        None
    } else {
        let tx = txs[i];
        if i > 0 && spec_is_coinbase(tx) {
            Some(StateError::MisplacedCoinbase)
        } else if spec_tx_check(m, tx) is Some {
            spec_tx_check(m, tx)
        } else {
            spec_block_check(spec_apply_tx(m, tx), txs, i + 1)
        }
    }
}

/// The accounts after applying `txs[i..]` in order.
pub open spec fn spec_apply_txs(
    m: Map<Seq<char>, Account>,
    txs: Seq<Transaction>,
    i: int,
) -> Map<Seq<char>, Account>
    decreases txs.len() - i,
{
    if i < 0 || i >= txs.len() {
        m
    } else {
        spec_apply_txs(spec_apply_tx(m, txs[i]), txs, i + 1)
    }
}

proof fn lemma_lookup_push(entries: Seq<(String, Account)>, p: (String, Account), x: Seq<char>)
    ensures
        spec_lookup(entries.push(p), x) == (if spec_lookup(entries, x) is Some {
            spec_lookup(entries, x)
        } else if (p.0)@ == x {
            Some(p.1)
        } else {
            None::<Account>
        }),
    decreases entries.len(),
{
    let e2 = entries.push(p);
    if entries.len() == 0 {
        assert(e2[0] == p);
        assert(e2.drop_first() =~= Seq::<(String, Account)>::empty());
        assert(spec_lookup(e2.drop_first(), x) is None);
        assert(spec_lookup(entries, x) is None);
    } else {
        assert(e2[0] == entries[0]);
        assert(e2.drop_first() =~= entries.drop_first().push(p));
        lemma_lookup_push(entries.drop_first(), p, x);
        if (entries[0].0)@ == x {
            assert(spec_lookup(e2, x) == Some(entries[0].1));
            assert(spec_lookup(entries, x) == Some(entries[0].1));
        } else {
            assert(spec_lookup(e2, x) == spec_lookup(entries.drop_first().push(p), x));
            assert(spec_lookup(entries, x) == spec_lookup(entries.drop_first(), x));
        }
    }
}

proof fn lemma_lookup_update(
    entries: Seq<(String, Account)>,
    i: int,
    q: (String, Account),
    x: Seq<char>,
)
    requires
        0 <= i < entries.len(),
        forall|j: int| 0 <= j < i ==> (#[trigger] entries[j].0)@ != (entries[i].0)@,
        (q.0)@ == (entries[i].0)@,
    ensures
        spec_lookup(entries.update(i, q), x) == (if (entries[i].0)@ == x {
            Some(q.1)
        } else {
            spec_lookup(entries, x)
        }),
    decreases i,
{
    if i == 0 {
        assert(entries.update(0, q)[0] == q);
        assert(entries.update(0, q).drop_first() =~= entries.drop_first());
    } else {
        assert(entries.update(i, q)[0] == entries[0]);
        assert(entries.update(i, q).drop_first() =~= entries.drop_first().update(i - 1, q));
        assert forall|j: int| 0 <= j < i - 1 implies (#[trigger] entries.drop_first()[j].0)@ != (
        entries.drop_first()[i - 1].0)@ by {
            assert(entries.drop_first()[j] == entries[j + 1]);
        }
        lemma_lookup_update(entries.drop_first(), i - 1, q, x);
    }
}

proof fn lemma_lookup_at_first_match(entries: Seq<(String, Account)>, i: int)
    requires
        0 <= i < entries.len(),
        forall|j: int| 0 <= j < i ==> (#[trigger] entries[j].0)@ != (entries[i].0)@,
    ensures
        spec_lookup(entries, (entries[i].0)@) == Some(entries[i].1),
    decreases i,
{
    if i > 0 {
        assert forall|j: int| 0 <= j < i - 1 implies (#[trigger] entries.drop_first()[j].0)@ != (
        entries.drop_first()[i - 1].0)@ by {
            assert(entries.drop_first()[j] == entries[j + 1]);
        }
        lemma_lookup_at_first_match(entries.drop_first(), i - 1);
    }
}

proof fn lemma_lookup_none(entries: Seq<(String, Account)>, x: Seq<char>)
    requires
        forall|j: int| 0 <= j < entries.len() ==> (#[trigger] entries[j].0)@ != x,
    ensures
        spec_lookup(entries, x) is None,
    decreases entries.len(),
{
    if entries.len() > 0 {
        lemma_lookup_none(entries.drop_first(), x);
    }
}

impl State {
    /// An empty account table.
    pub fn new() -> (r: State)
        ensures
            r@ == Map::<Seq<char>, Account>::empty(),
    {
        let r = State { accounts: Vec::new() };
        proof {
            assert(r@ =~= Map::<Seq<char>, Account>::empty());
        }
        r
    }

    /// An equal copy; spelled out so the equality is known to the verifier.
    pub fn duplicate(&self) -> (r: State)
        ensures
            r.accounts@ == self.accounts@,
            r@ == self@,
    {
        let mut out: Vec<(String, Account)> = Vec::new();
        let mut i: usize = 0;
        while i < self.accounts.len()
            invariant
                i <= self.accounts.len(),
                out@ =~= self.accounts@.subrange(0, i as int),
            decreases self.accounts.len() - i,
        {
            let p = &self.accounts[i];
            out.push((p.0.clone(), p.1));
            i = i + 1;
        }
        assert(out@ =~= self.accounts@);
        State { accounts: out }
    }

    /// The index of the entry holding `address`, if any; the first match.
    fn find_index(&self, address: &str) -> (r: Option<usize>)
        ensures
            match r {
                Some(i) => i < self.accounts@.len() && (self.accounts@[i as int].0)@ == address@
                    && forall|j: int|
                    0 <= j < i ==> (#[trigger] self.accounts@[j].0)@ != address@,
                None => forall|j: int|
                    0 <= j < self.accounts@.len() ==> (#[trigger] self.accounts@[j].0)@
                        != address@,
            },
    {
        let mut i: usize = 0;
        while i < self.accounts.len()
            invariant
                i <= self.accounts.len(),
                forall|j: int| 0 <= j < i ==> (#[trigger] self.accounts@[j].0)@ != address@,
            decreases self.accounts.len() - i,
        {
            if str_eq(self.accounts[i].0.as_str(), address) {
                return Some(i);
            }
            i = i + 1;
        }
        None
    }

    /// The account recorded under `address`, a zero account when absent.
    pub fn get_account(&self, address: &str) -> (r: Account)
        ensures
            r == spec_account(self@, address@),
    {
        match self.find_index(address) {
            Some(i) => {
                proof {
                    lemma_lookup_at_first_match(self.accounts@, i as int);
                }
                self.accounts[i].1
            },
            None => {
                proof {
                    lemma_lookup_none(self.accounts@, address@);
                }
                Account { balance: 0, nonce: 0 }
            },
        }
    }

    /// Record `acct` under `address`, replacing any earlier entry.
    fn set_account(&mut self, address: &str, acct: Account)
        ensures
            final(self)@ == old(self)@.insert(address@, acct),
    {
        let ghost e1 = self.accounts@;
        match self.find_index(address) {
            Some(i) => {
                let key = self.accounts[i].0.clone();
                self.accounts.set(i, (key, acct));
                proof {
                    let q = self.accounts@[i as int];
                    assert(self.accounts@ == e1.update(i as int, q));
                    assert forall|x: Seq<char>|
                        spec_lookup(self.accounts@, x) == (if (e1[i as int].0)@ == x {
                            Some(q.1)
                        } else {
                            spec_lookup(e1, x)
                        }) by {
                        lemma_lookup_update(e1, i as int, q, x);
                    }
                    assert(entries_map(self.accounts@) =~= entries_map(e1).insert(address@, acct));
                }
            },
            None => {
                let key = String::from_str(address);
                self.accounts.push((key, acct));
                proof {
                    let p = self.accounts@.last();
                    assert(self.accounts@ == e1.push(p));
                    assert forall|x: Seq<char>|
                        spec_lookup(self.accounts@, x) == (if spec_lookup(e1, x) is Some {
                            spec_lookup(e1, x)
                        } else if (p.0)@ == x {
                            Some(p.1)
                        } else {
                            None::<Account>
                        }) by {
                        lemma_lookup_push(e1, p, x);
                    }
                    lemma_lookup_none(e1, address@);
                    assert(entries_map(self.accounts@) =~= entries_map(e1).insert(address@, acct));
                }
            },
        }
    }

    /// The balance recorded under `address`; 0 for unknown addresses.
    pub fn get_balance(&self, address: &str) -> (r: u64)
        ensures
            r == spec_account(self@, address@).balance,
    {
        self.get_account(address).balance
    }

    /// The next expected nonce recorded under `address`; 0 for unknown
    /// addresses.
    pub fn get_nonce(&self, address: &str) -> (r: u64)
        ensures
            r == spec_account(self@, address@).nonce,
    {
        self.get_account(address).nonce
    }

    /// Apply a block all-or-nothing: each transaction is validated against
    /// the accounts as mutated by its predecessors; on the first error the
    /// state is left untouched, otherwise every transaction is applied.
    pub fn apply_block(&mut self, block: &Block) -> (r: Result<(), StateError>)
        ensures
            r is Ok <==> spec_block_check(old(self)@, block.txs@, 0) is None,
            r is Ok ==> final(self)@ == spec_apply_txs(old(self)@, block.txs@, 0),
            r matches Err(e) ==> final(self)@ == old(self)@ && spec_block_check(
                old(self)@,
                block.txs@,
                0,
            ) == Some(e),
    {
        let mut scratch = self.duplicate();
        let n = block.txs.len();
        let mut i: usize = 0;
        while i < n
            invariant
                n == block.txs@.len(),
                i <= n,
                spec_block_check(old(self)@, block.txs@, 0) == spec_block_check(
                    scratch@,
                    block.txs@,
                    i as int,
                ),
                spec_apply_txs(old(self)@, block.txs@, 0) == spec_apply_txs(
                    scratch@,
                    block.txs@,
                    i as int,
                ),
                self@ == old(self)@,
                self.accounts@ == old(self).accounts@,
            decreases n - i,
        {
            let tx = &block.txs[i];
            if i > 0 && tx.is_coinbase() {
                return Err(StateError::MisplacedCoinbase);
            }
            let ghost before = scratch@;
            if !tx.is_coinbase() {
                let s = scratch.get_account(tx.from.as_str());
                if tx.nonce != s.nonce {
                    return Err(StateError::InvalidNonce);
                }
                let total = match tx.amount.checked_add(tx.fee) {
                    Some(t) => t,
                    None => {
                        return Err(StateError::AmountOverflow);
                    },
                };
                if s.balance < total {
                    return Err(StateError::InsufficientBalance);
                }
                scratch.set_account(
                    tx.from.as_str(),
                    Account { balance: s.balance - total, nonce: s.nonce.saturating_add(1) },
                );
            }
            let rcv = scratch.get_account(tx.to.as_str());
            scratch.set_account(
                tx.to.as_str(),
                Account { balance: rcv.balance.saturating_add(tx.amount), nonce: rcv.nonce },
            );
            proof {
                assert(spec_tx_check(before, block.txs@[i as int]) is None);
                assert(scratch@ == spec_apply_tx(before, block.txs@[i as int]));
            }
            i = i + 1;
        }
        self.accounts = scratch.accounts;
        Ok(())
    }
}

} // verus!
