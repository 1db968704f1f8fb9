//! The public contract surface.
//!
//! [`SoroSwapBatcher`] carries the contract's persistent state: the owner,
//! the factory and router addresses, the initialized flag and the mixer.
//! The host passes in what only the ledger knows — the current timestamp,
//! whether the caller authorized the call, and a live view of the pair —
//! and performs the transfers that come back in the receipts.

use vstd::prelude::*;
use crate::coinjoin::{Address, Bytes32, CoinJoinMixer, Deposit, EXPIRY_WINDOW_SECS};
use crate::denomination::Denomination;
use crate::error::BatcherError;
use crate::settle::{
    cap_spec, mix_outcome, settled_plan_ok, PairView, SettlementPlan, Transfer,
};

verus! {

/// Acknowledgment of a private swap: the ledger timestamp the deposit is
/// keyed by, the custody transfer the host owes, and — when the deposit
/// made the pool ready and a set qualified — the settlement to perform.
#[derive(Debug)]
pub struct SwapReceipt {
    /// The ledger timestamp at deposit time.
    pub timestamp: u64,
    /// The input transfer: `amount_in` of `token_in`, user to custody.
    pub deposit_transfer: Transfer,
    /// The opportunistic settlement, when one qualified.
    pub settlement: Option<SettlementPlan>,
    /// The error that deferred settlement, if any; the deposit stands
    /// regardless.
    pub settlement_error: Option<BatcherError>,
}

/// The batch contract state.
pub struct SoroSwapBatcher {
    pub initialized: bool,
    pub owner: Address,
    pub factory_addr: Address,
    pub router_addr: Address,
    /// The contract's own identity, custodian of pooled funds.
    pub contract_address: Address,
    pub mixer: CoinJoinMixer,
}

impl SoroSwapBatcher {
    /// Well-formedness of the whole contract state.
    pub open spec fn wf(self) -> bool {
        self.mixer.wf()
    }

    /// A fresh, uninitialized contract at address `contract_address`.
    pub fn new(contract_address: Address) -> (s: SoroSwapBatcher)
        ensures
            s.wf(),
            !s.initialized,
            s.contract_address == contract_address,
            !s.mixer.coinjoin_enabled,
            s.mixer.used_nullifiers@ == Seq::<Bytes32>::empty(),
            forall|d: Denomination|
                (#[trigger] s.mixer.pool_spec(d)).deposits@ == Seq::<Deposit>::empty(),
    {
        SoroSwapBatcher {
            initialized: false,
            owner: Address(0),
            factory_addr: Address(0),
            router_addr: Address(0),
            contract_address,
            mixer: CoinJoinMixer::new_disabled(),
        }
    }

    /// Initialize the batch contract with its owner and the factory and
    /// router addresses, and enable mixing with one empty pool per
    /// denomination. Rejected with `AlreadyInitialized` the second time.
    pub fn initialize(
        &mut self,
        owner: Address,
        factory_address: Address,
        router_address: Address,
    ) -> (r: Result<(), BatcherError>)
        requires
            old(self).wf(),
        ensures
            final(self).wf(),
            r.is_ok() <==> !old(self).initialized,
            r matches Err(e) ==> e == BatcherError::AlreadyInitialized
                && *final(self) == *old(self),
            r.is_ok() ==> ({
                &&& final(self).initialized
                &&& final(self).owner == owner
                &&& final(self).factory_addr == factory_address
                &&& final(self).router_addr == router_address
                &&& final(self).contract_address == old(self).contract_address
                &&& final(self).mixer.coinjoin_enabled
                &&& final(self).mixer.used_nullifiers@ == Seq::<Bytes32>::empty()
                &&& forall|d: Denomination| (#[trigger] final(self).mixer.pool_spec(d))
                    == (crate::coinjoin::CoinJoinPool {
                        denomination: d,
                        deposits: final(self).mixer.pool_spec(d).deposits,
                        withdrawals: final(self).mixer.pool_spec(d).withdrawals,
                        merkle_root: Bytes32(0, 0),
                        minimum_pool_size: 3,
                        maximum_pool_size: 10,
                        fee_basis_points: 10,
                    })
                &&& forall|d: Denomination|
                    (#[trigger] final(self).mixer.pool_spec(d)).deposits@
                        == Seq::<Deposit>::empty()
                &&& forall|d: Denomination|
                    (#[trigger] final(self).mixer.entry_spec(d)).total_deposits == 0
                        && final(self).mixer.entry_spec(d).total_withdrawals == 0
            }),
    {
        if self.initialized {
            return Err(BatcherError::AlreadyInitialized);
        }
        self.owner = owner;
        self.factory_addr = factory_address;
        self.router_addr = router_address;
        self.initialized = true;
        self.mixer = CoinJoinMixer::init_coinjoin();
        Ok(())
    }

    /// Check if the contract is initialized.
    pub fn is_initialized(&self) -> (r: bool)
        ensures
            r == self.initialized,
    {
        self.initialized
    }

    /// Check if mixing is enabled.
    pub fn is_coinjoin_enabled(&self) -> (r: bool)
        ensures
            r == self.mixer.coinjoin_enabled,
    {
        self.mixer.coinjoin_enabled
    }

    /// Get the contract owner.
    pub fn get_owner(&self) -> (r: Result<Address, BatcherError>)
        ensures
            self.initialized ==> ({
                &&& r matches Ok(a) && a == self.owner
            }),
            !self.initialized ==> ({
                &&& r matches Err(e) && e == BatcherError::NotInitialized
            }),
    {
        if !self.initialized {
            return Err(BatcherError::NotInitialized);
        }
        Ok(self.owner)
    }

    /// Get the router address.
    pub fn get_router(&self) -> (r: Result<Address, BatcherError>)
        ensures
            self.initialized ==> ({
                &&& r matches Ok(a) && a == self.router_addr
            }),
            !self.initialized ==> ({
                &&& r matches Err(e) && e == BatcherError::NotInitialized
            }),
    {
        if !self.initialized {
            return Err(BatcherError::NotInitialized);
        }
        Ok(self.router_addr)
    }

    /// Get the factory address.
    pub fn get_factory(&self) -> (r: Result<Address, BatcherError>)
        ensures
            self.initialized ==> ({
                &&& r matches Ok(a) && a == self.factory_addr
            }),
            !self.initialized ==> ({
                &&& r matches Err(e) && e == BatcherError::NotInitialized
            }),
    {
        if !self.initialized {
            return Err(BatcherError::NotInitialized);
        }
        Ok(self.factory_addr)
    }

    /// Private swap with mixing: validate the amount against the fixed
    /// denominations, record the deposit (durable from then on, whatever
    /// settlement does), and — when a pair view is at hand — opportunistically
    /// drive settlement. A settlement failure never fails the deposit: it is
    /// reported in the receipt and the deposit stays queued.
    ///
    /// Fails only when the contract is uninitialized, the caller is not
    /// authorized, the amount is no denomination, mixing is disabled, or the
    /// nullifier was seen before.
    pub fn private_swap(
        &mut self,
        token_in: Address,
        token_out: Address,
        amount_in: i128,
        min_amount_out: i128,
        max_slippage_bps: u32,
        user_address: Address,
        receiving_address: Address,
        commitment: Bytes32,
        nullifier: Bytes32,
        user_authorized: bool,
        now: u64,
        pair: Option<&PairView>,
    ) -> (r: Result<SwapReceipt, BatcherError>)
        requires
            old(self).wf(),
            now + EXPIRY_WINDOW_SECS <= u64::MAX,
        ensures
            final(self).wf(),
            r.is_ok() <==> ({
                &&& old(self).initialized
                &&& user_authorized
                &&& Denomination::from_amount_spec(amount_in as int) is Some
                &&& old(self).mixer.coinjoin_enabled
                &&& !old(self).mixer.nullifier_used_spec(nullifier)
            }),
            r matches Err(e) ==> ({
                &&& *final(self) == *old(self)
                &&& e == (if !old(self).initialized {
                    BatcherError::NotInitialized
                } else if !user_authorized {
                    BatcherError::Unauthorized
                } else {
                    BatcherError::InvalidInput
                })
            }),
            r matches Ok(receipt) ==> ({
                let d = Denomination::from_amount_spec(amount_in as int)->0;
                let pool0 = old(self).mixer.pool_spec(d);
                let dep = Deposit::new_spec(d, commitment, nullifier, user_address,
                    receiving_address, max_slippage_bps, token_in, token_out,
                    min_amount_out, now, pool0.fee_basis_points);
                let deps1 = pool0.deposits@.push(dep);
                let cap = pool0.maximum_pool_size as int;
                &&& receipt.timestamp == now
                &&& receipt.deposit_transfer == (Transfer {
                    token: token_in,
                    from: user_address,
                    to: old(self).contract_address,
                    amount: amount_in,
                })
                &&& final(self).initialized == old(self).initialized
                &&& final(self).owner == old(self).owner
                &&& final(self).factory_addr == old(self).factory_addr
                &&& final(self).router_addr == old(self).router_addr
                &&& final(self).contract_address == old(self).contract_address
                &&& final(self).mixer.coinjoin_enabled
                &&& final(self).mixer.used_nullifiers@
                    == old(self).mixer.used_nullifiers@.push(nullifier)
                &&& final(self).mixer.pool_spec(d).same_config(pool0)
                &&& final(self).mixer.pool_spec(d).withdrawals@ == pool0.withdrawals@
                &&& forall|d2: Denomination| d2 != d
                    ==> #[trigger] final(self).mixer.entry_spec(d2)
                        == old(self).mixer.entry_spec(d2)
                &&& final(self).mixer.entry_spec(d).total_withdrawals
                    == old(self).mixer.entry_spec(d).total_withdrawals
                &&& final(self).mixer.entry_spec(d).total_deposits == (
                    if old(self).mixer.entry_spec(d).total_deposits < u64::MAX {
                        old(self).mixer.entry_spec(d).total_deposits + 1
                    } else {
                        old(self).mixer.entry_spec(d).total_deposits as int
                    })
                &&& (match pair {
                    None => ({
                        &&& final(self).mixer.pool_spec(d).deposits@ == deps1
                        &&& receipt.settlement is None
                        &&& receipt.settlement_error is None
                    }),
                    Some(pv) => (match mix_outcome(d, deps1,
                        pool0.minimum_pool_size as int, cap, *pv, now) {
                        None => ({
                            &&& final(self).mixer.pool_spec(d).deposits@ == deps1
                            &&& receipt.settlement is None
                            &&& receipt.settlement_error is None
                        }),
                        Some(Err(e)) => ({
                            &&& final(self).mixer.pool_spec(d).deposits@ == deps1
                            &&& receipt.settlement is None
                            &&& receipt.settlement_error == Some(e)
                        }),
                        Some(Ok(k)) => ({
                            &&& receipt.settlement matches Some(plan)
                                && settled_plan_ok(d, deps1, cap, *pv,
                                    old(self).contract_address, now, k, plan)
                            &&& final(self).mixer.pool_spec(d).deposits@
                                == crate::settle::kept_after_settle(d, deps1, cap, *pv,
                                    now, k)
                            &&& receipt.settlement_error is None
                        }),
                    }),
                })
            }),
    {
        if !self.initialized {
            return Err(BatcherError::NotInitialized);
        }
        if !user_authorized {
            return Err(BatcherError::Unauthorized);
        }
        let denomination = match Denomination::from_amount(amount_in) {
            Some(d) => d,
            None => {
                return Err(BatcherError::InvalidInput);
            },
        };

        let deposit_transfer = Transfer {
            token: token_in,
            from: user_address,
            to: self.contract_address,
            amount: amount_in,
        };
        match self.mixer.deposit(denomination, commitment, nullifier, user_address,
            receiving_address, max_slippage_bps, token_in, token_out, min_amount_out, now) {
            Ok(()) => {},
            Err(e) => {
                return Err(e);
            },
        }

        // Attempt settlement opportunistically; the deposit stands whatever
        // happens here.
        let contract_address = self.contract_address;
        let (settlement, settlement_error) = match pair {
            Some(pv) => {
                match self.mixer.execute_mixing(denomination, None, pv, contract_address,
                    now) {
                    Ok(m) => (m.settlement, None),
                    Err(e) => (None, Some(e)),
                }
            },
            None => (None, None),
        };

        Ok(SwapReceipt {
            timestamp: now,
            deposit_transfer,
            settlement,
            settlement_error,
        })
    }

    /// Execute mixing manually for one denomination, named by its symbolic
    /// tag. Returns the anonymity-set size of the settled batch, `0` when
    /// the pool is not ready.
    pub fn execute_coinjoin_mixing(
        &mut self,
        denomination_symbol: &str,
        max_deposits: Option<u32>,
        pair: &PairView,
        now: u64,
    ) -> (r: Result<u32, BatcherError>)
        requires
            old(self).wf(),
        ensures
            final(self).wf(),
            !old(self).initialized ==> ({
                &&& *final(self) == *old(self)
                &&& r matches Err(e) && e == BatcherError::NotInitialized
            }),
            (old(self).initialized
                && (forall|d: Denomination| denomination_symbol@ != #[trigger] d.symbol_spec()))
                ==> ({
                    &&& *final(self) == *old(self)
                    &&& r matches Err(e) && e == BatcherError::InvalidInput
                }),
            forall|d: Denomination| (old(self).initialized
                && denomination_symbol@ == #[trigger] d.symbol_spec()) ==> ({
                let pool0 = old(self).mixer.pool_spec(d);
                let cap = cap_spec(max_deposits, pool0.maximum_pool_size);
                &&& (!old(self).mixer.coinjoin_enabled ==> ({
                    &&& *final(self) == *old(self)
                    &&& r matches Err(e) && e == BatcherError::InvalidInput
                }))
                &&& (old(self).mixer.coinjoin_enabled ==> (match mix_outcome(d,
                    pool0.deposits@, pool0.minimum_pool_size as int, cap, *pair, now) {
                    None => *final(self) == *old(self) && r == Ok::<u32, BatcherError>(0u32),
                    Some(Err(e)) => ({
                        &&& *final(self) == *old(self)
                        &&& r matches Err(e2) && e2 == e
                    }),
                    Some(Ok(k)) => ({
                        &&& r == Ok::<u32, BatcherError>(k as u32)
                        &&& final(self).mixer.pool_spec(d).deposits@
                            == crate::settle::kept_after_settle(d, pool0.deposits@, cap,
                                *pair, now, k)
                        &&& final(self).mixer.pool_spec(d).same_config(pool0)
                        &&& final(self).mixer.pool_spec(d).withdrawals@ == pool0.withdrawals@
                        &&& forall|d2: Denomination| d2 != d
                            ==> #[trigger] final(self).mixer.entry_spec(d2)
                                == old(self).mixer.entry_spec(d2)
                        &&& final(self).mixer.entry_spec(d).total_deposits
                            == old(self).mixer.entry_spec(d).total_deposits
                        &&& final(self).mixer.entry_spec(d).total_withdrawals
                            == old(self).mixer.entry_spec(d).total_withdrawals
                        &&& final(self).mixer.used_nullifiers@
                            == old(self).mixer.used_nullifiers@
                        &&& final(self).initialized && final(self).owner == old(self).owner
                        &&& final(self).factory_addr == old(self).factory_addr
                        &&& final(self).router_addr == old(self).router_addr
                        &&& final(self).contract_address == old(self).contract_address
                    }),
                }))
            }),
    {
        if !self.initialized {
            return Err(BatcherError::NotInitialized);
        }
        let denomination = match Denomination::from_symbol(denomination_symbol) {
            Ok(d) => d,
            Err(e) => {
                return Err(e);
            },
        };
        proof {
            assert forall|d: Denomination| denomination_symbol@ == #[trigger] d.symbol_spec()
                implies d == denomination by {
                crate::denomination::lemma_symbol_injective(d, denomination);
            }
        }
        let contract_address = self.contract_address;
        let mix_result = match self.mixer.execute_mixing(denomination, max_deposits, pair,
            contract_address, now) {
            Ok(m) => m,
            Err(e) => {
                return Err(e);
            },
        };
        Ok(mix_result.anonymity_set_size)
    }

    /// Get mixing statistics for a denomination named by its symbolic tag:
    /// the live pool size, the fee rate in basis points, and the estimated
    /// wait.
    pub fn get_coinjoin_stats(&self, denomination_symbol: &str)
        -> (r: Result<(u32, u32, u32), BatcherError>)
        ensures
            (forall|d: Denomination| denomination_symbol@ != #[trigger] d.symbol_spec())
                ==> ({
                    &&& r matches Err(e) && e == BatcherError::InvalidInput
                }),
            forall|d: Denomination| denomination_symbol@ == #[trigger] d.symbol_spec()
                ==> ({
                    let stats = CoinJoinMixer::pool_stats_spec(self.mixer.entry_spec(d), d);
                    r == Ok::<(u32, u32, u32), BatcherError>((stats.current_pool_size,
                        stats.current_fees, stats.estimated_wait_time))
                }),
    {
        let denomination = match Denomination::from_symbol(denomination_symbol) {
            Ok(d) => d,
            Err(e) => {
                return Err(e);
            },
        };
        proof {
            assert forall|d: Denomination| denomination_symbol@ == #[trigger] d.symbol_spec()
                implies d == denomination by {
                crate::denomination::lemma_symbol_injective(d, denomination);
            }
        }
        let stats = self.mixer.get_pool_stats(denomination);
        Ok((stats.current_pool_size, stats.current_fees, stats.estimated_wait_time))
    }

    /// Get privacy-safe details of one pending deposit, by denomination tag
    /// and queue position: `(min_amount_out, max_slippage_bps,
    /// expiry_timestamp, timestamp, fee_paid)`.
    pub fn get_deposit_details(&self, denomination_symbol: &str, index: u32)
        -> (r: Result<(i128, u32, u64, u64, i128), BatcherError>)
        ensures
            (forall|d: Denomination| denomination_symbol@ != #[trigger] d.symbol_spec())
                ==> ({
                    &&& r matches Err(e) && e == BatcherError::InvalidInput
                }),
            forall|d: Denomination| denomination_symbol@ == #[trigger] d.symbol_spec()
                ==> ({
                    let deps = self.mixer.pool_spec(d).deposits@;
                    match r {
                        Ok(info) => index < deps.len() && info == (
                            deps[index as int].min_amount_out,
                            deps[index as int].max_slippage_bps,
                            deps[index as int].expiry_timestamp,
                            deps[index as int].timestamp,
                            deps[index as int].fee_paid,
                        ),
                        Err(e) => e == BatcherError::InvalidInput && index >= deps.len(),
                    }
                }),
    {
        let denomination = match Denomination::from_symbol(denomination_symbol) {
            Ok(d) => d,
            Err(e) => {
                return Err(e);
            },
        };
        proof {
            assert forall|d: Denomination| denomination_symbol@ == #[trigger] d.symbol_spec()
                implies d == denomination by {
                crate::denomination::lemma_symbol_injective(d, denomination);
            }
        }
        let info = match self.mixer.get_deposit_details(denomination, index) {
            Ok(i) => i,
            Err(e) => {
                return Err(e);
            },
        };
        Ok((info.min_amount_out, info.max_slippage_bps, info.expiry_timestamp,
            info.timestamp, info.fee_paid))
    }
}

} // verus!
