//! The closed table of admissible deposit sizes.
//!
//! Deposits are accepted only in one of four fixed amounts (base units),
//! each reachable by a short symbolic tag.

use vstd::prelude::*;
use crate::error::BatcherError;

verus! {

/// Fixed denomination amounts for mixing, in base units.
#[derive(Clone, Copy, Debug, PartialEq, Eq, Structural)]
pub enum Denomination {
    Small,
    Medium,
    Large,
    ExtraLarge,
}

/// No two denominations share a symbolic tag.
pub proof fn lemma_symbol_injective(a: Denomination, b: Denomination)
    ensures
        a.symbol_spec() == b.symbol_spec() ==> a == b,
{
    if a != b && a.symbol_spec() == b.symbol_spec() {
        assert(Denomination::Small.symbol_spec().len() == 2);
        assert(Denomination::Medium.symbol_spec().len() == 3);
        assert(Denomination::Large.symbol_spec().len() == 2);
        assert(Denomination::ExtraLarge.symbol_spec().len() == 3);
        assert(Denomination::Small.symbol_spec()[1] == '0');
        assert(Denomination::Large.symbol_spec()[1] == 'K');
        assert(Denomination::Medium.symbol_spec()[2] == '0');
        assert(Denomination::ExtraLarge.symbol_spec()[2] == 'K');
    }
}

impl Denomination {
    /// The base-unit amount of this denomination.
    pub open spec fn value_spec(&self) -> int {
        match self {
            Denomination::Small => 10_000_000,
            Denomination::Medium => 100_000_000,
            Denomination::Large => 1_000_000_000,
            Denomination::ExtraLarge => 2_000_000_000,
        }
    }

    /// The symbolic tag of this denomination.
    pub open spec fn symbol_spec(&self) -> Seq<char> {
        match self {
            Denomination::Small => seq!['1', '0'],
            Denomination::Medium => seq!['1', '0', '0'],
            Denomination::Large => seq!['1', 'K'],
            Denomination::ExtraLarge => seq!['1', '0', 'K'],
        }
    }

    /// The denomination whose value is `amount`, if any.
    pub open spec fn from_amount_spec(amount: int) -> Option<Denomination> {
        if amount == 10_000_000 {
            Some(Denomination::Small)
        } else if amount == 100_000_000 {
            Some(Denomination::Medium)
        } else if amount == 1_000_000_000 {
            Some(Denomination::Large)
        } else if amount == 2_000_000_000 {
            Some(Denomination::ExtraLarge)
        } else {
            None
        }
    }

    pub fn value(&self) -> (v: i128)
        ensures
            v == self.value_spec(),
    {
        match self {
            Denomination::Small => 10_000_000,
            Denomination::Medium => 100_000_000,
            Denomination::Large => 1_000_000_000,
            Denomination::ExtraLarge => 2_000_000_000,
        }
    }

    pub fn symbol(&self) -> (s: &'static str)
        ensures
            s@ == self.symbol_spec(),
    {
        match self {
            Denomination::Small => {
                let s = "10";
                proof {
                    reveal_strlit("10");
                    assert(s@ =~= self.symbol_spec());
                }
                s
            },
            Denomination::Medium => {
                let s = "100";
                proof {
                    reveal_strlit("100");
                    assert(s@ =~= self.symbol_spec());
                }
                s
            },
            Denomination::Large => {
                let s = "1K";
                proof {
                    reveal_strlit("1K");
                    assert(s@ =~= self.symbol_spec());
                }
                s
            },
            Denomination::ExtraLarge => {
                let s = "10K";
                proof {
                    reveal_strlit("10K");
                    assert(s@ =~= self.symbol_spec());
                }
                s
            },
        }
    }

    pub fn from_amount(amount: i128) -> (r: Option<Denomination>)
        ensures
            r == Denomination::from_amount_spec(amount as int),
    {
        if amount == 10_000_000 {
            Some(Denomination::Small)
        } else if amount == 100_000_000 {
            Some(Denomination::Medium)
        } else if amount == 1_000_000_000 {
            Some(Denomination::Large)
        } else if amount == 2_000_000_000 {
            Some(Denomination::ExtraLarge)
        } else {
            None
        }
    }

    /// The denomination whose symbolic tag is `symbol`; `InvalidInput` on an
    /// unknown tag.
    pub fn from_symbol(symbol: &str) -> (r: Result<Denomination, BatcherError>)
        ensures
            match r {
                Ok(d) => symbol@ == d.symbol_spec(),
                Err(e) => {
                    &&& e == BatcherError::InvalidInput
                    &&& forall|d: Denomination| symbol@ != #[trigger] d.symbol_spec()
                },
            },
    {
        let len = symbol.unicode_len();
        if len == 2 {
            let c0 = symbol.get_char(0);
            let c1 = symbol.get_char(1);
            if c0 == '1' && c1 == '0' {
                proof {
                    assert(symbol@ =~= Denomination::Small.symbol_spec());
                }
                Ok(Denomination::Small)
            } else if c0 == '1' && c1 == 'K' {
                proof {
                    assert(symbol@ =~= Denomination::Large.symbol_spec());
                }
                Ok(Denomination::Large)
            } else {
                proof {
                    assert(forall|d: Denomination| symbol@ != #[trigger] d.symbol_spec()) by {
                        assert(symbol@ != Denomination::Small.symbol_spec());
                        assert(symbol@ != Denomination::Medium.symbol_spec());
                        assert(symbol@ != Denomination::Large.symbol_spec());
                        assert(symbol@ != Denomination::ExtraLarge.symbol_spec());
                    }
                }
                Err(BatcherError::InvalidInput)
            }
        } else if len == 3 {
            let c0 = symbol.get_char(0);
            let c1 = symbol.get_char(1);
            let c2 = symbol.get_char(2);
            if c0 == '1' && c1 == '0' && c2 == '0' {
                proof {
                    assert(symbol@ =~= Denomination::Medium.symbol_spec());
                }
                Ok(Denomination::Medium)
            } else if c0 == '1' && c1 == '0' && c2 == 'K' {
                proof {
                    assert(symbol@ =~= Denomination::ExtraLarge.symbol_spec());
                }
                Ok(Denomination::ExtraLarge)
            } else {
                proof {
                    assert(forall|d: Denomination| symbol@ != #[trigger] d.symbol_spec()) by {
                        assert(symbol@ != Denomination::Small.symbol_spec());
                        assert(symbol@ != Denomination::Medium.symbol_spec());
                        assert(symbol@ != Denomination::Large.symbol_spec());
                        assert(symbol@ != Denomination::ExtraLarge.symbol_spec());
                    }
                }
                Err(BatcherError::InvalidInput)
            }
        } else {
            proof {
                assert(forall|d: Denomination| symbol@ != #[trigger] d.symbol_spec()) by {
                    assert(symbol@ != Denomination::Small.symbol_spec());
                    assert(symbol@ != Denomination::Medium.symbol_spec());
                    assert(symbol@ != Denomination::Large.symbol_spec());
                    assert(symbol@ != Denomination::ExtraLarge.symbol_spec());
                }
            }
            Err(BatcherError::InvalidInput)
        }
    }
}

} // verus!
