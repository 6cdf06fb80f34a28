use vstd::prelude::*;

verus! {

/// A transferable value: either an amount of a native coin or a balance
/// on a secondary token contract. Ledger arithmetic uses a wider type
/// than the 64-bit wire amount, so repeated increments do not overflow.
#[derive(Debug, Clone, PartialEq)]
pub enum Amount {
    Native { denom: String, amount: u128 },
    Cw20 { address: String, amount: u128 },
}

/// Ghost image of an [`Amount`].
pub ghost enum AmountV {
    Native { denom: Seq<char>, amount: u128 },
    Cw20 { address: Seq<char>, amount: u128 },
}

impl View for Amount {
    type V = AmountV;

    open spec fn view(&self) -> AmountV {
        match self {
            Amount::Native { denom, amount } => AmountV::Native {
                denom: denom@,
                amount: *amount,
            },
            Amount::Cw20 { address, amount } => AmountV::Cw20 {
                address: address@,
                amount: *amount,
            },
        }
    }
}

/// The tag that marks a denomination as a secondary-token balance: the
/// contract address follows the prefix `cw20:`.
pub open spec fn spec_is_cw20_denom(d: Seq<char>) -> bool {
    d.len() >= 5 && d.subrange(0, 5) == "cw20:"@
}

/// The variant a denomination tag and an amount denote.
pub open spec fn spec_amount_from_parts(d: Seq<char>, amount: u128) -> AmountV {
    if spec_is_cw20_denom(d) {
        AmountV::Cw20 { address: d.subrange(5, d.len() as int), amount }
    } else {
        AmountV::Native { denom: d, amount }
    }
}

impl Amount {
    /// Builds the variant the denomination tag selects: a `cw20:` prefix
    /// names a token contract, any other tag a native coin.
    pub fn from_parts(denom: String, amount: u128) -> (a: Amount)
        ensures
            a@ == spec_amount_from_parts(denom@, amount),
    {
        proof {
            reveal_strlit("cw20:");
        }
        let n = denom.as_str().unicode_len();
        if n >= 5 {
            let c0 = denom.as_str().get_char(0);
            let c1 = denom.as_str().get_char(1);
            let c2 = denom.as_str().get_char(2);
            let c3 = denom.as_str().get_char(3);
            let c4 = denom.as_str().get_char(4);
            if c0 == 'c' && c1 == 'w' && c2 == '2' && c3 == '0' && c4 == ':' {
                assert(denom@.subrange(0, 5) =~= "cw20:"@);
                let address = denom.as_str().substring_char(5, n).to_owned();
                return Amount::Cw20 { address, amount };
            }
            assert(denom@.subrange(0, 5) != "cw20:"@) by {
                if denom@.subrange(0, 5) == "cw20:"@ {
                    assert(denom@.subrange(0, 5)[0] == 'c');
                    assert(denom@.subrange(0, 5)[1] == 'w');
                    assert(denom@.subrange(0, 5)[2] == '2');
                    assert(denom@.subrange(0, 5)[3] == '0');
                    assert(denom@.subrange(0, 5)[4] == ':');
                }
            }
            return Amount::Native { denom, amount };
        }
        Amount::Native { denom, amount }
    }

    /// The numeric amount the value carries, in either variant.
    pub fn amount(&self) -> (r: u128)
        ensures
            r == match self@ {
                AmountV::Native { amount, .. } => amount,
                AmountV::Cw20 { amount, .. } => amount,
            },
    {
        match self {
            Amount::Native { amount, .. } => *amount,
            Amount::Cw20 { amount, .. } => *amount,
        }
    }
}

} // verus!
