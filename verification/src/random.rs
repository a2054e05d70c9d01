//! Chance-based amusements: a coin flip and a round of roulette.
//!
//! The draw itself comes from the random number generator; which message a
//! draw produces is verified.

use vstd::prelude::*;

verus! {

/// Relies on rand's `random::<bool>`: a fresh draw of a boolean, heads or
/// tails with equal chance. Nothing can be promised of a random value.
#[verifier::external_body]
fn random_bool() -> bool {
    rand::random::<bool>()
}

/// Relies on rand's `Rng::gen_range` over `0..6`: a fresh draw from the six
/// chambers. The result lies below six; nothing else can be promised of a
/// random value.
#[verifier::external_body]
fn spin_chamber() -> (r: u8)
    ensures
        r < 6,
{
    rand::Rng::gen_range(&mut rand::thread_rng(), 0..6u8)
}

/// The message for a coin flip's draw.
pub open spec fn coin_text(heads: bool) -> Seq<char> {
    if heads {
        "Heads"@
    } else {
        "Tails"@
    }
}

/// The message for one of the six chambers: the single loaded one fires.
pub open spec fn roulette_text(chamber: u8) -> Seq<char> {
    if chamber == 0 {
        "Dead"@
    } else {
        "Alive"@
    }
}

/// The message a coin flip's draw produces.
pub fn coin_outcome(heads: bool) -> (r: String)
    ensures
        r@ == coin_text(heads),
{
    if heads {
        String::from_str("Heads")
    } else {
        String::from_str("Tails")
    }
}

/// The message one of the six chambers produces.
pub fn roulette_outcome(chamber: u8) -> (r: String)
    requires
        chamber < 6,
    ensures
        r@ == roulette_text(chamber),
{
    if chamber == 0 {
        String::from_str("Dead")
    } else {
        String::from_str("Alive")
    }
}

/// Flip a coin.
pub fn coin() -> (r: String)
    ensures
        r@ == coin_text(true) || r@ == coin_text(false),
{
    coin_outcome(random_bool())
}

/// Play a round of roulette: one chamber of six is loaded.
pub fn roulette() -> (r: String)
    ensures
        exists|c: u8| c < 6 && r@ == #[trigger] roulette_text(c),
{
    let c = spin_chamber();
    let r = roulette_outcome(c);
    proof {
        assert(r@ == roulette_text(c));
    }
    r
}

} // verus!
