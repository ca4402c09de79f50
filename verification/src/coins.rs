//! Coins, what they are worth, and what there is to say of a quarter.

use vstd::prelude::*;
use vstd::string::StringExecFns;

verus! {

/// A state that mints its own quarters.
#[derive(Debug, Clone, Copy, PartialEq, Eq, Structural)]
pub enum UsState {
    Alabama,
    Alaska,
}

/// A coin. A quarter may carry the state that minted it.
pub enum Coin {
    Penny,
    Nickel,
    Dime,
    Quarter(Option<UsState>),
}

/// The worth of a coin in cents.
pub open spec fn cents(coin: Coin) -> nat {
    match coin {
        Coin::Penny => 1,
        Coin::Nickel => 5,
        Coin::Dime => 10,
        Coin::Quarter(_) => 25,
    }
}

/// The name of a state, as text.
pub open spec fn state_name(state: UsState) -> Seq<char> {
    match state {
        UsState::Alabama => "Alabama"@,
        UsState::Alaska => "Alaska"@,
    }
}

/// What is announced of a coin: of a quarter where it comes from, or that
/// nothing is known of that; of any other coin nothing.
pub open spec fn notice(coin: Coin) -> Option<Seq<char>> {
    match coin {
        Coin::Quarter(Some(state)) => Some("A Quarter from "@ + state_name(state)),
        Coin::Quarter(None) => Some("A generic Quarter"@),
        _ => None,
    }
}

impl UsState {
    /// The name of the state.
    pub fn name(&self) -> (n: &'static str)
        ensures
            n@ == state_name(*self),
    {
        match self {
            UsState::Alabama => "Alabama",
            UsState::Alaska => "Alaska",
        }
    }
}

/// The worth of a coin in cents: 1, 5, 10 or 25.
pub fn value_in_cents(coin: &Coin) -> (c: u8)
    ensures
        c == cents(*coin),
{
    match coin {
        Coin::Penny => 1,
        Coin::Nickel => 5,
        Coin::Dime => 10,
        Coin::Quarter(_) => 25,
    }
}

/// The line that goes with a coin when its worth is asked for: one for each
/// quarter, none for the other coins.
pub fn quarter_notice(coin: &Coin) -> (line: Option<String>)
    ensures
        match line {
            Some(text) => notice(*coin) == Some(text@),
            None => notice(*coin).is_none(),
        },
{
    match coin {
        Coin::Quarter(state) => {
            if let Some(state) = state {
                let line = String::from_str("A Quarter from ").concat(state.name());
                Some(line)
            } else {
                Some(String::from_str("A generic Quarter"))
            }
        },
        _ => None,
    }
}

} // verus!
