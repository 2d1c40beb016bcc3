//! The mempool: admitted but unconfirmed transactions in insertion order,
//! with per-sender sequential nonces and uniqueness on admission.

use vstd::prelude::*;
use vstd::string::StringExecFns;
use crate::errors::AdmissionError;
use crate::hash::{spec_tx_id, tx_hash};
use crate::types::{spec_validate_accept, Transaction};
use crate::util::str_eq;

verus! {

/// Pending transactions, first admitted first; insertion order is the
/// inclusion priority.
#[derive(Debug)]
pub struct Mempool {
    pub txs: Vec<Transaction>,
}

/// How many pending transactions a sender has.
pub open spec fn spec_count_from(txs: Seq<Transaction>, sender: Seq<char>) -> int
    decreases txs.len(),
{
    if txs.len() == 0 {
        0
    } else {
        spec_count_from(txs.drop_last(), sender) + if txs.last().from@ == sender {
            1int
        } else {
            0int
        }
    }
}

/// The sender's pending count never exceeds the pool size.
pub proof fn lemma_count_from_bound(txs: Seq<Transaction>, sender: Seq<char>)
    ensures
        0 <= spec_count_from(txs, sender) <= txs.len(),
    decreases txs.len(),
{
    if txs.len() > 0 {
        lemma_count_from_bound(txs.drop_last(), sender);
    }
}

/// The nonce the pool expects next from a sender: the base nonce plus the
/// sender's pending count, saturating.
pub open spec fn spec_expected_nonce(txs: Seq<Transaction>, sender: Seq<char>, base: u64) -> u64 {
    if base + spec_count_from(txs, sender) > u64::MAX {
        u64::MAX
    } else {
        (base + spec_count_from(txs, sender)) as u64
    }
}

/// Whether a pending transaction from `sender` already carries `nonce`.
pub open spec fn spec_contains_from_nonce(
    txs: Seq<Transaction>,
    sender: Seq<char>,
    nonce: u64,
) -> bool {
    exists|j: int|
        0 <= j < txs.len() && (#[trigger] txs[j]).from@ == sender && txs[j].nonce == nonce
}

/// Whether a pending transaction already has the identity `id`.
pub open spec fn spec_contains_id(txs: Seq<Transaction>, id: Seq<char>) -> bool {
    exists|j: int| 0 <= j < txs.len() && spec_tx_id(#[trigger] txs[j]) == id
}

/// The index of the first pending transaction with identity `id`, or -1.
pub open spec fn spec_first_id_index(txs: Seq<Transaction>, id: Seq<char>) -> int
    decreases txs.len(),
{
    if txs.len() == 0 {
        -1
    } else if spec_tx_id(txs[0]) == id {
        0
    } else {
        let r = spec_first_id_index(txs.drop_first(), id);
        if r < 0 {
            -1
        } else {
            r + 1
        }
    }
}

/// What admission under the nonce rule decides: the transaction must be
/// well-formed, carry exactly the expected nonce, and duplicate neither a
/// pending (sender, nonce) pair nor a pending id.
pub open spec fn spec_admit(txs: Seq<Transaction>, tx: Transaction, base: u64) -> Result<
    (),
    AdmissionError,
> {
    match spec_validate_accept(tx) {
        Err(e) => Err(AdmissionError::Malformed(e)),
        Ok(_) => if tx.nonce != spec_expected_nonce(txs, tx.from@, base) {
            Err(AdmissionError::InvalidNonce)
        } else if spec_contains_from_nonce(txs, tx.from@, tx.nonce) {
            Err(AdmissionError::DuplicateNonce)
        } else if spec_contains_id(txs, spec_tx_id(tx)) {
            Err(AdmissionError::DuplicateTx)
        } else {
            Ok(())
        },
    }
}

/// What admission without the nonce rule decides.
pub open spec fn spec_admit_unchecked(txs: Seq<Transaction>, tx: Transaction) -> Result<
    (),
    AdmissionError,
> {
    match spec_validate_accept(tx) {
        Err(e) => Err(AdmissionError::Malformed(e)),
        Ok(_) => if spec_contains_id(txs, spec_tx_id(tx)) {
            Err(AdmissionError::DuplicateTx)
        } else {
            Ok(())
        },
    }
}

/// Admitting a transaction raises its sender's expected nonce by one and
/// leaves every other sender's expected nonce unchanged.
pub proof fn lemma_expected_nonce_after_admit(
    txs: Seq<Transaction>,
    tx: Transaction,
    sender: Seq<char>,
    base: u64,
)
    ensures
        tx.from@ == sender && base + spec_count_from(txs, sender) + 1 <= u64::MAX
            ==> spec_expected_nonce(txs.push(tx), sender, base) == spec_expected_nonce(
            txs,
            sender,
            base,
        ) + 1,
        tx.from@ != sender ==> spec_expected_nonce(txs.push(tx), sender, base)
            == spec_expected_nonce(txs, sender, base),
{
    assert(txs.push(tx).drop_last() =~= txs);
    assert(txs.push(tx).last() == tx);
    lemma_count_from_bound(txs, sender);
    if tx.from@ == sender {
        assert(spec_count_from(txs.push(tx), sender) == spec_count_from(txs, sender) + 1);
        if base + spec_count_from(txs, sender) + 1 <= u64::MAX {
            assert(spec_expected_nonce(txs.push(tx), sender, base) == base + spec_count_from(
                txs,
                sender,
            ) + 1);
            assert(spec_expected_nonce(txs, sender, base) == base + spec_count_from(txs, sender));
        }
    } else {
        assert(spec_count_from(txs.push(tx), sender) == spec_count_from(txs, sender));
    }
}

proof fn lemma_first_id_index_at(txs: Seq<Transaction>, id: Seq<char>, i: int)
    requires
        0 <= i < txs.len(),
        spec_tx_id(txs[i]) == id,
        forall|j: int| 0 <= j < i ==> spec_tx_id(#[trigger] txs[j]) != id,
    ensures
        spec_first_id_index(txs, id) == i,
    decreases i,
{
    if i > 0 {
        assert forall|j: int| 0 <= j < i - 1 implies spec_tx_id(
            #[trigger] txs.drop_first()[j],
        ) != id by {
            assert(txs.drop_first()[j] == txs[j + 1]);
        }
        assert(txs.drop_first()[i - 1] == txs[i]);
        lemma_first_id_index_at(txs.drop_first(), id, i - 1);
    }
}

impl Default for Mempool {
    /// An empty pool.
    fn default() -> (r: Mempool)
        ensures
            r.txs@ == Seq::<Transaction>::empty(),
    {
        Mempool { txs: Vec::new() }
    }
}

impl Mempool {
    /// Where the pool is persisted by default.
    pub fn default_path() -> (r: String)
        ensures
            r@ == "data/mempool.json"@,
    {
        String::from_str("data/mempool.json")
    }

    /// The next expected nonce for `sender` given a base nonce (usually from
    /// the chain): base plus the sender's pending count, saturating.
    pub fn next_nonce_for(&self, sender: &str, base_nonce: u64) -> (r: u64)
        ensures
            r == spec_expected_nonce(self.txs@, sender@, base_nonce),
    {
        let mut count: u64 = 0;
        let mut i: usize = 0;
        while i < self.txs.len()
            invariant
                i <= self.txs@.len(),
                count == spec_count_from(self.txs@.subrange(0, i as int), sender@),
                count <= i,
            decreases self.txs@.len() - i,
        {
            let ghost pre = self.txs@.subrange(0, i as int);
            if str_eq(self.txs[i].from.as_str(), sender) {
                count = count + 1;
            }
            proof {
                assert(self.txs@.subrange(0, i + 1).drop_last() =~= pre);
                assert(self.txs@.subrange(0, i + 1).last() == self.txs@[i as int]);
            }
            i = i + 1;
        }
        proof {
            assert(self.txs@.subrange(0, self.txs@.len() as int) =~= self.txs@);
            lemma_count_from_bound(self.txs@, sender@);
        }
        base_nonce.saturating_add(count)
    }

    /// Whether no pending transaction shares this transaction's id.
    fn ensure_unique_hash(&self, tx: &Transaction) -> (r: Result<(), AdmissionError>)
        ensures
            r is Ok <==> !spec_contains_id(self.txs@, spec_tx_id(*tx)),
            r is Err ==> r == Err::<(), AdmissionError>(AdmissionError::DuplicateTx),
    {
        let h = tx_hash(tx);
        let mut i: usize = 0;
        while i < self.txs.len()
            invariant
                i <= self.txs@.len(),
                h@ == spec_tx_id(*tx),
                forall|j: int| 0 <= j < i ==> spec_tx_id(#[trigger] self.txs@[j]) != h@,
            decreases self.txs@.len() - i,
        {
            let other = tx_hash(&self.txs[i]);
            if str_eq(other.as_str(), h.as_str()) {
                return Err(AdmissionError::DuplicateTx);
            }
            i = i + 1;
        }
        Ok(())
    }

    /// Admit a transaction under the per-sender nonce rule: it must be
    /// well-formed, carry exactly the expected nonce (base plus pending
    /// count; no gaps, no repeats), and duplicate neither a pending
    /// (sender, nonce) pair nor a pending id. On success it is appended.
    pub fn add_tx_checked(&mut self, tx: Transaction, base_nonce: u64) -> (r: Result<
        (),
        AdmissionError,
    >)
        ensures
            r == spec_admit(old(self).txs@, tx, base_nonce),
            r is Ok ==> final(self).txs@ == old(self).txs@.push(tx),
            r is Err ==> final(self).txs@ == old(self).txs@,
    {
        if let Err(e) = tx.validate_accept() {
            return Err(AdmissionError::Malformed(e));
        }
        let expected = self.next_nonce_for(tx.from.as_str(), base_nonce);
        if tx.nonce != expected {
            return Err(AdmissionError::InvalidNonce);
        }
        let mut i: usize = 0;
        while i < self.txs.len()
            invariant
                i <= self.txs@.len(),
                self.txs@ == old(self).txs@,
                spec_validate_accept(tx) is Ok,
                tx.nonce == spec_expected_nonce(old(self).txs@, tx.from@, base_nonce),
                forall|j: int|
                    0 <= j < i ==> !((#[trigger] self.txs@[j]).from@ == tx.from@ && self.txs@[
                    j].nonce == tx.nonce),
            decreases self.txs@.len() - i,
        {
            if str_eq(self.txs[i].from.as_str(), tx.from.as_str()) && self.txs[i].nonce
                == tx.nonce {
                proof {
                    assert((self.txs@[i as int]).from@ == tx.from@ && self.txs@[i as int].nonce
                        == tx.nonce);
                }
                return Err(AdmissionError::DuplicateNonce);
            }
            i = i + 1;
        }
        if let Err(e) = self.ensure_unique_hash(&tx) {
            return Err(e);
        }
        self.txs.push(tx);
        Ok(())
    }

    /// Admit a transaction without the nonce rule: it must be well-formed
    /// and not duplicate a pending id. On success it is appended.
    pub fn add_tx(&mut self, tx: Transaction) -> (r: Result<(), AdmissionError>)
        ensures
            r == spec_admit_unchecked(old(self).txs@, tx),
            r is Ok ==> final(self).txs@ == old(self).txs@.push(tx),
            r is Err ==> final(self).txs@ == old(self).txs@,
    {
        if let Err(e) = tx.validate_accept() {
            return Err(AdmissionError::Malformed(e));
        }
        if let Err(e) = self.ensure_unique_hash(&tx) {
            return Err(e);
        }
        self.txs.push(tx);
        Ok(())
    }

    /// Remove the first pending transaction with the given id, if any; used
    /// after a block holding it is accepted.
    pub fn remove_tx(&mut self, id: &str)
        ensures
            spec_contains_id(old(self).txs@, id@) ==> final(self).txs@ == old(self).txs@.remove(
                spec_first_id_index(old(self).txs@, id@),
            ),
            !spec_contains_id(old(self).txs@, id@) ==> final(self).txs@ == old(self).txs@,
    {
        let mut i: usize = 0;
        while i < self.txs.len()
            invariant
                i <= self.txs@.len(),
                self.txs@ == old(self).txs@,
                forall|j: int| 0 <= j < i ==> spec_tx_id(#[trigger] self.txs@[j]) != id@,
            decreases self.txs@.len() - i,
        {
            let h = tx_hash(&self.txs[i]);
            if str_eq(h.as_str(), id) {
                proof {
                    lemma_first_id_index_at(self.txs@, id@, i as int);
                }
                self.txs.remove(i);
                return ;
            }
            i = i + 1;
        }
    }

    /// Empty the pool and hand back its former contents in order.
    pub fn drain(&mut self) -> (r: Vec<Transaction>)
        ensures
            r@ == old(self).txs@,
            final(self).txs@ == Seq::<Transaction>::empty(),
    {
        let r = self.txs.split_off(0);
        proof {
            assert(r@ =~= old(self).txs@);
            assert(final(self).txs@ =~= Seq::<Transaction>::empty());
        }
        r
    }
}

} // verus!
