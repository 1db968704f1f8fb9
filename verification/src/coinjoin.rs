//! Pool state: denomination-bucketed deposits, nullifier replay protection,
//! and the per-denomination pool records.
//!
//! The mixer state is a plain value. The host environment supplies ledger
//! facts (the current timestamp) as arguments; everything here is verified.

use vstd::prelude::*;
use crate::denomination::Denomination;
use crate::error::BatcherError;

verus! {

/// An account, token or contract identity, as an opaque handle.
#[derive(Clone, Copy, Debug, PartialEq, Eq, Structural)]
pub struct Address(pub u64);

/// An opaque 32-byte tag (commitment, nullifier or root), as two 128-bit halves.
#[derive(Clone, Copy, Debug, PartialEq, Eq, Structural)]
pub struct Bytes32(pub u128, pub u128);

impl Bytes32 {
    /// The all-zero tag.
    pub fn zero() -> (r: Bytes32)
        ensures
            r == (Bytes32(0, 0)),
    {
        Bytes32(0, 0)
    }
}

/// Deposit information with cryptographic commitments, slippage protection
/// and an expiry mechanism. Commitments and nullifiers are client-provided
/// opaque tags; the core only stores commitments and enforces global
/// nullifier uniqueness.
#[derive(Clone, Copy, Debug, PartialEq, Eq, Structural)]
pub struct Deposit {
    pub commitment: Bytes32,
    pub timestamp: u64,
    pub nullifier: Bytes32,
    pub fee_paid: i128,
    /// Funding identity, used only for the unique-sender gate.
    pub sender_address: Address,
    /// Identity that shall receive the mixed output.
    pub recipient_address: Address,
    /// Maximum realized batch slippage, in basis points.
    pub max_slippage_bps: u32,
    /// `timestamp` plus 48 hours.
    pub expiry_timestamp: u64,
    pub token_in: Address,
    pub token_out: Address,
    /// Per-participant floor on the equal share.
    pub min_amount_out: i128,
}

/// Withdrawal request with blinding.
#[derive(Clone, Copy, Debug, PartialEq, Eq, Structural)]
pub struct WithdrawalRequest {
    pub nullifier_hash: Bytes32,
    pub recipient_hash: Bytes32,
    pub proof_hash: Bytes32,
    pub requested_timestamp: u64,
}

/// Pool for mixing transactions, one per denomination.
pub struct CoinJoinPool {
    pub denomination: Denomination,
    /// Pending deposits, in insertion order.
    pub deposits: Vec<Deposit>,
    pub withdrawals: Vec<WithdrawalRequest>,
    /// Reserved for a future accumulator root; stored, never interpreted.
    pub merkle_root: Bytes32,
    /// Mixing is blocked until this many distinct senders are pooled.
    pub minimum_pool_size: u32,
    /// Upper bound on deposits processed per mixing invocation.
    pub maximum_pool_size: u32,
    /// Mixer fee charged on deposit, in basis points.
    pub fee_basis_points: u32,
}

/// Pool statistics and status.
#[derive(Clone, Copy, Debug, PartialEq, Eq, Structural)]
pub struct PoolStats {
    pub denomination: Denomination,
    pub current_pool_size: u32,
    pub total_deposits: u64,
    pub total_withdrawals: u64,
    pub current_fees: u32,
    pub estimated_wait_time: u32,
}

/// Public deposit information. Deliberately omits the commitment, the
/// nullifier and the sender.
#[derive(Clone, Copy, Debug, PartialEq, Eq, Structural)]
pub struct DepositInfo {
    pub min_amount_out: i128,
    pub max_slippage_bps: u32,
    pub expiry_timestamp: u64,
    pub timestamp: u64,
    pub fee_paid: i128,
}

/// A pool record together with its cumulative counters.
pub struct PoolEntry {
    pub pool: CoinJoinPool,
    pub total_deposits: u64,
    pub total_withdrawals: u64,
}

/// The whole mixer state: one pool per denomination and the global set of
/// used nullifiers.
pub struct CoinJoinMixer {
    pub coinjoin_enabled: bool,
    pub small: PoolEntry,
    pub medium: PoolEntry,
    pub large: PoolEntry,
    pub extra_large: PoolEntry,
    /// Every nullifier ever recorded; never accepted twice.
    pub used_nullifiers: Vec<Bytes32>,
}

/// Seconds in the 48-hour deposit expiry window.
pub const EXPIRY_WINDOW_SECS: u64 = 172_800;

impl Deposit {
    /// The deposit record that a valid request creates.
    pub open spec fn new_spec(
        denomination: Denomination,
        commitment: Bytes32,
        nullifier: Bytes32,
        sender_address: Address,
        recipient_address: Address,
        max_slippage_bps: u32,
        token_in: Address,
        token_out: Address,
        min_amount_out: i128,
        now: u64,
        fee_basis_points: u32,
    ) -> Deposit {
        Deposit {
            commitment,
            timestamp: now,
            nullifier,
            fee_paid: (denomination.value_spec() * fee_basis_points as int / 10000) as i128,
            sender_address,
            recipient_address,
            max_slippage_bps,
            expiry_timestamp: (now + EXPIRY_WINDOW_SECS) as u64,
            token_in,
            token_out,
            min_amount_out,
        }
    }
}

/// The nullifiers of a deposit sequence.
pub open spec fn nullifiers_of(s: Seq<Deposit>) -> Seq<Bytes32> {
    s.map_values(|d: Deposit| d.nullifier)
}

/// No two deposits of `s` share a nullifier.
pub open spec fn nullifiers_distinct(s: Seq<Deposit>) -> bool {
    forall|i: int, j: int|
        0 <= i < j < s.len() ==> s[i].nullifier != s[j].nullifier
}

/// The number of distinct sender addresses in `s`: each deposit counts
/// unless an earlier deposit has the same sender.
pub open spec fn distinct_sender_count(s: Seq<Deposit>) -> nat
    decreases s.len(),
{
    if s.len() == 0 {
        0
    } else {
        distinct_sender_count(s.drop_last()) + if exists|j: int|
            0 <= j < s.len() - 1 && s[j].sender_address == s.last().sender_address {
            0nat
        } else {
            1nat
        }
    }
}

impl CoinJoinPool {
    /// Every config field of `self` equals the one of `other`; the deposit
    /// and withdrawal queues are left free.
    pub open spec fn same_config(self, other: CoinJoinPool) -> bool {
        &&& self.denomination == other.denomination
        &&& self.merkle_root == other.merkle_root
        &&& self.minimum_pool_size == other.minimum_pool_size
        &&& self.maximum_pool_size == other.maximum_pool_size
        &&& self.fee_basis_points == other.fee_basis_points
    }

    /// Well-formedness of a single pool record for denomination `d`. The
    /// fee recorded on a deposit never exceeds the largest denomination
    /// scaled by the largest 32-bit fee rate.
    pub open spec fn wf(self, d: Denomination) -> bool {
        &&& self.denomination == d
        &&& self.minimum_pool_size >= 2
        &&& nullifiers_distinct(self.deposits@)
        &&& forall|i: int| 0 <= i < self.deposits@.len()
            ==> 0 <= (#[trigger] self.deposits@[i]).fee_paid <= 1_000_000_000_000_000
    }
}

/// Nullifier uniqueness: in a well-formed mixer state, no two stored
/// deposits — whether in one pool or across pools — share a nullifier.
pub proof fn lemma_nullifier_uniqueness(m: CoinJoinMixer, da: Denomination, db: Denomination,
    i: int, j: int)
    requires
        m.wf(),
        0 <= i < m.pool_spec(da).deposits@.len(),
        0 <= j < m.pool_spec(db).deposits@.len(),
        !(da == db && i == j),
    ensures
        m.pool_spec(da).deposits@[i].nullifier != m.pool_spec(db).deposits@[j].nullifier,
{
    if da == db {
        assert(m.pool_spec(da).wf(da)) by {
            match da {
                Denomination::Small => {},
                Denomination::Medium => {},
                Denomination::Large => {},
                Denomination::ExtraLarge => {},
            }
        }
    }
}

impl CoinJoinMixer {
    /// The pool entry of a denomination.
    pub open spec fn entry_spec(self, d: Denomination) -> PoolEntry {
        match d {
            Denomination::Small => self.small,
            Denomination::Medium => self.medium,
            Denomination::Large => self.large,
            Denomination::ExtraLarge => self.extra_large,
        }
    }

    /// The pool record of a denomination.
    pub open spec fn pool_spec(self, d: Denomination) -> CoinJoinPool {
        self.entry_spec(d).pool
    }

    /// `self` with the entry of `d` replaced.
    pub open spec fn with_entry(self, d: Denomination, e: PoolEntry) -> CoinJoinMixer {
        match d {
            Denomination::Small => CoinJoinMixer { small: e, ..self },
            Denomination::Medium => CoinJoinMixer { medium: e, ..self },
            Denomination::Large => CoinJoinMixer { large: e, ..self },
            Denomination::ExtraLarge => CoinJoinMixer { extra_large: e, ..self },
        }
    }

    /// `self` with the pool record of `d` replaced, counters kept.
    pub open spec fn with_pool(self, d: Denomination, pool: CoinJoinPool) -> CoinJoinMixer {
        self.with_entry(d, PoolEntry { pool, ..self.entry_spec(d) })
    }

    /// Whether a nullifier has ever been recorded.
    pub open spec fn nullifier_used_spec(self, n: Bytes32) -> bool {
        self.used_nullifiers@.contains(n)
    }

    /// Deposits stored in different pools never share a nullifier.
    pub open spec fn cross_pool_nullifiers_distinct(self) -> bool {
        forall|da: Denomination, db: Denomination, i: int, j: int|
            #![trigger self.pool_spec(da).deposits@[i], self.pool_spec(db).deposits@[j]]
            da != db
                && 0 <= i < self.pool_spec(da).deposits@.len()
                && 0 <= j < self.pool_spec(db).deposits@.len()
                ==> self.pool_spec(da).deposits@[i].nullifier
                    != self.pool_spec(db).deposits@[j].nullifier
    }

    /// Well-formedness: each pool sits in its own slot, stored deposits
    /// never share a nullifier (within or across pools), and every stored
    /// nullifier is recorded in the global set.
    pub open spec fn wf(self) -> bool {
        &&& self.small.pool.wf(Denomination::Small)
        &&& self.medium.pool.wf(Denomination::Medium)
        &&& self.large.pool.wf(Denomination::Large)
        &&& self.extra_large.pool.wf(Denomination::ExtraLarge)
        &&& self.cross_pool_nullifiers_distinct()
        &&& forall|d: Denomination, i: int|
            0 <= i < self.pool_spec(d).deposits@.len()
                ==> self.nullifier_used_spec(#[trigger] self.pool_spec(d).deposits@[i].nullifier)
    }

    /// Initialize the mixer with one empty pool per denomination, default
    /// configuration, and mixing enabled.
    pub fn init_coinjoin() -> (m: CoinJoinMixer)
        ensures
            m.wf(),
            m.coinjoin_enabled,
            m.used_nullifiers@ == Seq::<Bytes32>::empty(),
            forall|d: Denomination| (#[trigger] m.entry_spec(d)) == (PoolEntry {
                pool: CoinJoinPool {
                    denomination: d,
                    deposits: m.pool_spec(d).deposits,
                    withdrawals: m.pool_spec(d).withdrawals,
                    merkle_root: Bytes32(0, 0),
                    minimum_pool_size: 3,
                    maximum_pool_size: 10,
                    fee_basis_points: 10,
                },
                total_deposits: 0,
                total_withdrawals: 0,
            }),
            forall|d: Denomination| (#[trigger] m.pool_spec(d)).deposits@ == Seq::<Deposit>::empty(),
            forall|d: Denomination|
                (#[trigger] m.pool_spec(d)).withdrawals@ == Seq::<WithdrawalRequest>::empty(),
    {
        let m = CoinJoinMixer {
            coinjoin_enabled: true,
            small: Self::empty_entry(Denomination::Small),
            medium: Self::empty_entry(Denomination::Medium),
            large: Self::empty_entry(Denomination::Large),
            extra_large: Self::empty_entry(Denomination::ExtraLarge),
            used_nullifiers: Vec::new(),
        };
        proof {
            assert forall|d: Denomination| (#[trigger] m.pool_spec(d)).deposits@
                == Seq::<Deposit>::empty() by {
                match d {
                    Denomination::Small => {},
                    Denomination::Medium => {},
                    Denomination::Large => {},
                    Denomination::ExtraLarge => {},
                }
            }
        }
        m
    }

    /// A fresh mixer with mixing disabled, as the state reads before
    /// initialization.
    pub fn new_disabled() -> (m: CoinJoinMixer)
        ensures
            m.wf(),
            !m.coinjoin_enabled,
            m.used_nullifiers@ == Seq::<Bytes32>::empty(),
            forall|d: Denomination| (#[trigger] m.pool_spec(d)).deposits@ == Seq::<Deposit>::empty(),
            forall|d: Denomination|
                (#[trigger] m.pool_spec(d)).withdrawals@ == Seq::<WithdrawalRequest>::empty(),
    {
        let m = CoinJoinMixer {
            coinjoin_enabled: false,
            small: Self::empty_entry(Denomination::Small),
            medium: Self::empty_entry(Denomination::Medium),
            large: Self::empty_entry(Denomination::Large),
            extra_large: Self::empty_entry(Denomination::ExtraLarge),
            used_nullifiers: Vec::new(),
        };
        proof {
            assert forall|d: Denomination| (#[trigger] m.pool_spec(d)).deposits@
                == Seq::<Deposit>::empty() by {
                match d {
                    Denomination::Small => {},
                    Denomination::Medium => {},
                    Denomination::Large => {},
                    Denomination::ExtraLarge => {},
                }
            }
        }
        m
    }

    fn empty_entry(d: Denomination) -> (e: PoolEntry)
        ensures
            e.pool.wf(d),
            e.pool.deposits@ == Seq::<Deposit>::empty(),
            e.pool.withdrawals@ == Seq::<WithdrawalRequest>::empty(),
            e.pool.merkle_root == (Bytes32(0, 0)),
            e.pool.minimum_pool_size == 3,
            e.pool.maximum_pool_size == 10,
            e.pool.fee_basis_points == 10,
            e.pool.denomination == d,
            e.total_deposits == 0,
            e.total_withdrawals == 0,
    {
        PoolEntry {
            pool: CoinJoinPool {
                denomination: d,
                deposits: Vec::new(),
                withdrawals: Vec::new(),
                merkle_root: Bytes32::zero(),
                minimum_pool_size: 3,
                maximum_pool_size: 10,
                fee_basis_points: 10,
            },
            total_deposits: 0,
            total_withdrawals: 0,
        }
    }

    /// Get the pool record of a denomination.
    pub fn get_pool(&self, denomination: Denomination) -> (p: &CoinJoinPool)
        ensures
            *p == self.pool_spec(denomination),
    {
        match denomination {
            Denomination::Small => &self.small.pool,
            Denomination::Medium => &self.medium.pool,
            Denomination::Large => &self.large.pool,
            Denomination::ExtraLarge => &self.extra_large.pool,
        }
    }

    /// Replace the pool record of a denomination. The caller shows that the
    /// replacement keeps the state well-formed.
    pub fn update_pool(&mut self, denomination: Denomination, pool: CoinJoinPool)
        requires
            old(self).with_pool(denomination, pool).wf(),
        ensures
            *final(self) == old(self).with_pool(denomination, pool),
            final(self).wf(),
    {
        match denomination {
            Denomination::Small => {
                self.small.pool = pool;
            },
            Denomination::Medium => {
                self.medium.pool = pool;
            },
            Denomination::Large => {
                self.large.pool = pool;
            },
            Denomination::ExtraLarge => {
                self.extra_large.pool = pool;
            },
        }
    }

    /// Deposit funds into the pool of `denomination`, recording the deposit
    /// at the back of the queue and retiring its nullifier forever.
    ///
    /// Fails with `InvalidInput` iff mixing is disabled or the nullifier was
    /// ever recorded before; a failed call leaves the state untouched.
    pub fn deposit(
        &mut self,
        denomination: Denomination,
        recipient_commitment: Bytes32,
        nullifier: Bytes32,
        sender_address: Address,
        recipient_address: Address,
        max_slippage_bps: u32,
        token_in: Address,
        token_out: Address,
        min_amount_out: i128,
        now: u64,
    ) -> (r: Result<(), BatcherError>)
        requires
            old(self).wf(),
            now + EXPIRY_WINDOW_SECS <= u64::MAX,
        ensures
            final(self).wf(),
            r.is_ok() <==> (old(self).coinjoin_enabled
                && !old(self).nullifier_used_spec(nullifier)),
            r matches Err(e) ==> e == BatcherError::InvalidInput && *final(self) == *old(self),
            r.is_ok() ==> ({
                let dep = Deposit::new_spec(
                    denomination, recipient_commitment, nullifier, sender_address,
                    recipient_address, max_slippage_bps, token_in, token_out,
                    min_amount_out, now, old(self).pool_spec(denomination).fee_basis_points,
                );
                &&& final(self).pool_spec(denomination).deposits@
                    == old(self).pool_spec(denomination).deposits@.push(dep)
                &&& final(self).pool_spec(denomination).same_config(
                    old(self).pool_spec(denomination))
                &&& final(self).pool_spec(denomination).withdrawals@
                    == old(self).pool_spec(denomination).withdrawals@
                &&& final(self).entry_spec(denomination).total_deposits == (
                    if old(self).entry_spec(denomination).total_deposits < u64::MAX {
                        old(self).entry_spec(denomination).total_deposits + 1
                    } else {
                        old(self).entry_spec(denomination).total_deposits as int
                    })
                &&& final(self).entry_spec(denomination).total_withdrawals
                    == old(self).entry_spec(denomination).total_withdrawals
                &&& forall|d2: Denomination| d2 != denomination
                    ==> #[trigger] final(self).entry_spec(d2) == old(self).entry_spec(d2)
                &&& final(self).used_nullifiers@ == old(self).used_nullifiers@.push(nullifier)
                &&& final(self).coinjoin_enabled == old(self).coinjoin_enabled
            }),
    {
        if !self.coinjoin_enabled {
            return Err(BatcherError::InvalidInput);
        }
        if self.is_nullifier_used(nullifier) {
            return Err(BatcherError::InvalidInput);
        }
        let fee_basis_points = self.get_pool(denomination).fee_basis_points;
        let value = denomination.value();
        let dep = Deposit {
            commitment: recipient_commitment,
            timestamp: now,
            nullifier,
            fee_paid: value * fee_basis_points as i128 / 10000,
            sender_address,
            recipient_address,
            max_slippage_bps,
            expiry_timestamp: now + EXPIRY_WINDOW_SECS,
            token_in,
            token_out,
            min_amount_out,
        };
        self.used_nullifiers.push(nullifier);
        match denomination {
            Denomination::Small => Self::push_to(&mut self.small, dep),
            Denomination::Medium => Self::push_to(&mut self.medium, dep),
            Denomination::Large => Self::push_to(&mut self.large, dep),
            Denomination::ExtraLarge => Self::push_to(&mut self.extra_large, dep),
        }
        proof {
            let o = *old(self);
            let f = *self;
            assert forall|d: Denomination, i: int|
                0 <= i < f.pool_spec(d).deposits@.len()
                    implies f.nullifier_used_spec(#[trigger] f.pool_spec(d).deposits@[i].nullifier)
            by {
                let nl = f.pool_spec(d).deposits@[i].nullifier;
                if d == denomination && i == f.pool_spec(d).deposits@.len() - 1 {
                    assert(f.used_nullifiers@[f.used_nullifiers@.len() - 1] == nl);
                } else {
                    assert(o.pool_spec(d).deposits@[i].nullifier == nl);
                    assert(o.nullifier_used_spec(nl));
                    let k = choose|k: int|
                        0 <= k < o.used_nullifiers@.len() && o.used_nullifiers@[k] == nl;
                    assert(f.used_nullifiers@[k] == nl);
                }
            }
            assert forall|d: Denomination| #[trigger] f.pool_spec(d).wf(d) by {
                if d == denomination {
                    let os = o.pool_spec(d).deposits@;
                    assert forall|i: int, j: int|
                        0 <= i < j < f.pool_spec(d).deposits@.len()
                            implies f.pool_spec(d).deposits@[i].nullifier
                                != f.pool_spec(d).deposits@[j].nullifier
                    by {
                        if j == os.len() {
                            assert(o.nullifier_used_spec(os[i].nullifier));
                        }
                    }
                }
            }
            assert forall|da: Denomination, db: Denomination, i: int, j: int|
                #![trigger f.pool_spec(da).deposits@[i], f.pool_spec(db).deposits@[j]]
                da != db
                    && 0 <= i < f.pool_spec(da).deposits@.len()
                    && 0 <= j < f.pool_spec(db).deposits@.len()
                    implies f.pool_spec(da).deposits@[i].nullifier
                        != f.pool_spec(db).deposits@[j].nullifier by {
                if da == denomination && i == f.pool_spec(da).deposits@.len() - 1 {
                    assert(o.pool_spec(db).deposits@[j] == f.pool_spec(db).deposits@[j]);
                    assert(o.nullifier_used_spec(o.pool_spec(db).deposits@[j].nullifier));
                } else if db == denomination && j == f.pool_spec(db).deposits@.len() - 1 {
                    assert(o.pool_spec(da).deposits@[i] == f.pool_spec(da).deposits@[i]);
                    assert(o.nullifier_used_spec(o.pool_spec(da).deposits@[i].nullifier));
                } else {
                    assert(o.pool_spec(da).deposits@[i] == f.pool_spec(da).deposits@[i]);
                    assert(o.pool_spec(db).deposits@[j] == f.pool_spec(db).deposits@[j]);
                }
            }
            assert(f.small.pool.wf(Denomination::Small));
            assert(f.medium.pool.wf(Denomination::Medium));
            assert(f.large.pool.wf(Denomination::Large));
            assert(f.extra_large.pool.wf(Denomination::ExtraLarge));
        }
        Ok(())
    }

    /// Request withdrawal from a mixed pool, retiring the nullifier hash.
    ///
    /// Fails with `InvalidInput` iff mixing is disabled or the nullifier
    /// hash was ever recorded before; a failed call leaves the state
    /// untouched.
    pub fn request_withdrawal(
        &mut self,
        denomination: Denomination,
        nullifier_hash: Bytes32,
        recipient_hash: Bytes32,
        proof_hash: Bytes32,
        now: u64,
    ) -> (r: Result<(), BatcherError>)
        requires
            old(self).wf(),
        ensures
            final(self).wf(),
            r.is_ok() <==> (old(self).coinjoin_enabled
                && !old(self).nullifier_used_spec(nullifier_hash)),
            r matches Err(e) ==> e == BatcherError::InvalidInput && *final(self) == *old(self),
            r.is_ok() ==> ({
                let w = WithdrawalRequest {
                    nullifier_hash,
                    recipient_hash,
                    proof_hash,
                    requested_timestamp: now,
                };
                &&& final(self).pool_spec(denomination).withdrawals@
                    == old(self).pool_spec(denomination).withdrawals@.push(w)
                &&& final(self).pool_spec(denomination).deposits@
                    == old(self).pool_spec(denomination).deposits@
                &&& final(self).pool_spec(denomination).same_config(
                    old(self).pool_spec(denomination))
                &&& final(self).entry_spec(denomination).total_withdrawals == (
                    if old(self).entry_spec(denomination).total_withdrawals < u64::MAX {
                        old(self).entry_spec(denomination).total_withdrawals + 1
                    } else {
                        old(self).entry_spec(denomination).total_withdrawals as int
                    })
                &&& final(self).entry_spec(denomination).total_deposits
                    == old(self).entry_spec(denomination).total_deposits
                &&& forall|d2: Denomination| d2 != denomination
                    ==> #[trigger] final(self).entry_spec(d2) == old(self).entry_spec(d2)
                &&& final(self).used_nullifiers@
                    == old(self).used_nullifiers@.push(nullifier_hash)
                &&& final(self).coinjoin_enabled == old(self).coinjoin_enabled
            }),
    {
        if !self.coinjoin_enabled {
            return Err(BatcherError::InvalidInput);
        }
        if self.is_nullifier_used(nullifier_hash) {
            return Err(BatcherError::InvalidInput);
        }
        let w = WithdrawalRequest {
            nullifier_hash,
            recipient_hash,
            proof_hash,
            requested_timestamp: now,
        };
        self.used_nullifiers.push(nullifier_hash);
        match denomination {
            Denomination::Small => Self::push_withdrawal(&mut self.small, w),
            Denomination::Medium => Self::push_withdrawal(&mut self.medium, w),
            Denomination::Large => Self::push_withdrawal(&mut self.large, w),
            Denomination::ExtraLarge => Self::push_withdrawal(&mut self.extra_large, w),
        }
        proof {
            let o = *old(self);
            let f = *self;
            assert forall|d: Denomination, i: int|
                0 <= i < f.pool_spec(d).deposits@.len()
                    implies f.nullifier_used_spec(#[trigger] f.pool_spec(d).deposits@[i].nullifier)
            by {
                let nl = f.pool_spec(d).deposits@[i].nullifier;
                assert(o.pool_spec(d).deposits@[i].nullifier == nl);
                assert(o.nullifier_used_spec(nl));
                let k = choose|k: int|
                    0 <= k < o.used_nullifiers@.len() && o.used_nullifiers@[k] == nl;
                assert(f.used_nullifiers@[k] == nl);
            }
            assert forall|da: Denomination, db: Denomination, i: int, j: int|
                #![trigger f.pool_spec(da).deposits@[i], f.pool_spec(db).deposits@[j]]
                da != db
                    && 0 <= i < f.pool_spec(da).deposits@.len()
                    && 0 <= j < f.pool_spec(db).deposits@.len()
                    implies f.pool_spec(da).deposits@[i].nullifier
                        != f.pool_spec(db).deposits@[j].nullifier by {
                assert(o.pool_spec(da).deposits@[i] == f.pool_spec(da).deposits@[i]);
                assert(o.pool_spec(db).deposits@[j] == f.pool_spec(db).deposits@[j]);
            }
            assert(f.small.pool.wf(Denomination::Small));
            assert(f.medium.pool.wf(Denomination::Medium));
            assert(f.large.pool.wf(Denomination::Large));
            assert(f.extra_large.pool.wf(Denomination::ExtraLarge));
        }
        Ok(())
    }

    fn push_to(e: &mut PoolEntry, dep: Deposit)
        ensures
            final(e).pool.deposits@ == old(e).pool.deposits@.push(dep),
            final(e).pool.same_config(old(e).pool),
            final(e).pool.withdrawals@ == old(e).pool.withdrawals@,
            final(e).total_withdrawals == old(e).total_withdrawals,
            final(e).total_deposits == (if old(e).total_deposits < u64::MAX {
                old(e).total_deposits + 1
            } else {
                old(e).total_deposits as int
            }),
    {
        e.pool.deposits.push(dep);
        if e.total_deposits < u64::MAX {
            e.total_deposits = e.total_deposits + 1;
        }
    }

    fn push_withdrawal(e: &mut PoolEntry, w: WithdrawalRequest)
        ensures
            final(e).pool.withdrawals@ == old(e).pool.withdrawals@.push(w),
            final(e).pool.same_config(old(e).pool),
            final(e).pool.deposits@ == old(e).pool.deposits@,
            final(e).total_deposits == old(e).total_deposits,
            final(e).total_withdrawals == (if old(e).total_withdrawals < u64::MAX {
                old(e).total_withdrawals + 1
            } else {
                old(e).total_withdrawals as int
            }),
    {
        e.pool.withdrawals.push(w);
        if e.total_withdrawals < u64::MAX {
            e.total_withdrawals = e.total_withdrawals + 1;
        }
    }

    /// The statistics of the pool entry `e` of denomination `d`: the live
    /// deposit count, the cumulative counters, the fee rate, and the wait
    /// estimate of five blocks per deposit still missing.
    pub open spec fn pool_stats_spec(e: PoolEntry, d: Denomination) -> PoolStats {
        let len = e.pool.deposits@.len() as int;
        PoolStats {
            denomination: d,
            current_pool_size: (if len <= u32::MAX as int {
                len
            } else {
                u32::MAX as int
            }) as u32,
            total_deposits: e.total_deposits,
            total_withdrawals: e.total_withdrawals,
            current_fees: e.pool.fee_basis_points,
            estimated_wait_time: (if len >= e.pool.minimum_pool_size as int {
                0int
            } else if (e.pool.minimum_pool_size as int - len) * 5 <= u32::MAX as int {
                (e.pool.minimum_pool_size as int - len) * 5
            } else {
                u32::MAX as int
            }) as u32,
        }
    }

    /// Get pool statistics for monitoring.
    pub fn get_pool_stats(&self, denomination: Denomination) -> (s: PoolStats)
        ensures
            s == Self::pool_stats_spec(self.entry_spec(denomination), denomination),
    {
        let entry = match denomination {
            Denomination::Small => &self.small,
            Denomination::Medium => &self.medium,
            Denomination::Large => &self.large,
            Denomination::ExtraLarge => &self.extra_large,
        };
        let n = entry.pool.deposits.len();
        let current_pool_size: u32 = if n >= u32::MAX as usize {
            u32::MAX
        } else {
            n as u32
        };
        let estimated_wait_time: u32 = if n >= entry.pool.minimum_pool_size as usize {
            0
        } else {
            let missing: u64 = (entry.pool.minimum_pool_size as u64 - n as u64) * 5;
            if missing > u32::MAX as u64 {
                u32::MAX
            } else {
                missing as u32
            }
        };
        PoolStats {
            denomination,
            current_pool_size,
            total_deposits: entry.total_deposits,
            total_withdrawals: entry.total_withdrawals,
            current_fees: entry.pool.fee_basis_points,
            estimated_wait_time,
        }
    }

    /// Get deposit details for monitoring. Returns public information only:
    /// neither commitment, nor nullifier, nor sender.
    pub fn get_deposit_details(&self, denomination: Denomination, index: u32)
        -> (r: Result<DepositInfo, BatcherError>)
        ensures
            ({
                let deps = self.pool_spec(denomination).deposits@;
                match r {
                    Ok(info) => index < deps.len() && info == (DepositInfo {
                        min_amount_out: deps[index as int].min_amount_out,
                        max_slippage_bps: deps[index as int].max_slippage_bps,
                        expiry_timestamp: deps[index as int].expiry_timestamp,
                        timestamp: deps[index as int].timestamp,
                        fee_paid: deps[index as int].fee_paid,
                    }),
                    Err(e) => e == BatcherError::InvalidInput && index >= deps.len(),
                }
            }),
    {
        let pool = self.get_pool(denomination);
        if (index as usize) >= pool.deposits.len() {
            return Err(BatcherError::InvalidInput);
        }
        let dep = &pool.deposits[index as usize];
        Ok(DepositInfo {
            min_amount_out: dep.min_amount_out,
            max_slippage_bps: dep.max_slippage_bps,
            expiry_timestamp: dep.expiry_timestamp,
            timestamp: dep.timestamp,
            fee_paid: dep.fee_paid,
        })
    }

    /// Estimate gas cost for mixing operations: a base cost, a per-deposit
    /// cost, accumulator maintenance and event emission.
    pub fn estimate_mixing_gas_cost(deposit_count: u32) -> (cost: u64)
        ensures
            cost == 25_000 + deposit_count * 8_000 + 5_000 + 3_000,
    {
        let base_cost = 25_000u64;
        let per_deposit_cost = 8_000u64;
        let merkle_cost = 5_000u64;
        let event_cost = 3_000u64;
        base_cost + (deposit_count as u64 * per_deposit_cost) + merkle_cost + event_cost
    }

    /// Check if an amount is a supported denomination.
    pub fn is_supported_denomination(amount: i128) -> (r: bool)
        ensures
            r == Denomination::from_amount_spec(amount as int).is_some(),
    {
        Denomination::from_amount(amount).is_some()
    }

    /// Calculate the required deposit count for an amount: one deposit per
    /// supported denomination amount.
    pub fn calculate_deposit_count(amount: i128) -> (r: Result<u32, BatcherError>)
        ensures
            match r {
                Ok(n) => n == 1 && Denomination::from_amount_spec(amount as int).is_some(),
                Err(e) => e == BatcherError::InvalidInput
                    && Denomination::from_amount_spec(amount as int).is_none(),
            },
    {
        if !Self::is_supported_denomination(amount) {
            return Err(BatcherError::InvalidInput);
        }
        Ok(1)
    }

    /// Check if a nullifier has been used (double-spending protection).
    pub fn is_nullifier_used(&self, nullifier: Bytes32) -> (r: bool)
        ensures
            r == self.nullifier_used_spec(nullifier),
    {
        let n = self.used_nullifiers.len();
        let mut i: usize = 0;
        while i < n
            invariant
                n == self.used_nullifiers@.len(),
                0 <= i <= n,
                forall|j: int| 0 <= j < i ==> self.used_nullifiers@[j] != nullifier,
            decreases n - i,
        {
            if self.used_nullifiers[i] == nullifier {
                return true;
            }
            i = i + 1;
        }
        false
    }
}

} // verus!
