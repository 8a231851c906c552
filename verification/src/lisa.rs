//! The eight-ball command: a roll between 0 and 1999 and the answer it earns.

use vstd::prelude::*;
use rand::Rng;
use crate::text::{decimal, push_decimal, push_str};

verus! {

/// Rolls lie below this bound.
pub const ROLL_BOUND: u64 = 2000;

/// A number drawn by `rand::thread_rng().gen_range(0..bound)`. The contract
/// claims only what holds of every draw: it lies below `bound`.
#[verifier::external_body]
pub(crate) fn random_below(bound: u64) -> (n: u64)
    requires
        bound > 0,
    ensures
        n < bound,
{
    rand::thread_rng().gen_range(0..bound)
}

/// The answer for a roll, before the roll itself is appended.
pub open spec fn answer(roll: nat) -> Seq<char> {
    if roll > 1800 {
        "Yes!"@
    } else if roll > 1600 {
        "It is certain."@
    } else if roll > 1400 {
        "Obviously."@
    } else if roll > 1200 {
        "Probably... maybe."@
    } else if roll > 1000 {
        "How am I supposed to know?"@
    } else if roll > 800 {
        "I don't think so."@
    } else if roll > 600 {
        "No."@
    } else if roll > 400 {
        "Never ever."@
    } else if roll > 200 {
        "Absolutely not."@
    } else if roll > 100 {
        "How about no?"@
    } else if roll > 50 {
        "Maybe after I hit this fat vape."@
    } else if roll > 25 {
        "Maybe after I hit this fat vape. *blows cloud*"@
    } else if roll > 12 {
        "*Starts aggressively dabbing to assert dominance*"@
    } else if roll > 5 {
        "OwO What's this? *Notices your qwestion* Rawr X3 *nuzzles* How are you? *pounces on you* you're so warm o3o *notices you have a bulge* someone's happy! *nuzzles your necky wecky* ~murr~"@
    } else if roll > 1 {
        "Pebis."@
    } else {
        "https://www.youtube.com/watch?v=HS3hxgREKKw"@
    }
}

/// The whole reply for a roll: the answer, then the roll in brackets.
pub open spec fn spec_reply(roll: nat) -> Seq<char> {
    answer(roll) + " ("@ + decimal(roll) + ")"@
}

fn answer_for(roll: u64) -> (a: &'static str)
    ensures
        a@ == answer(roll as nat),
{
    if roll > 1800 {
        "Yes!"
    } else if roll > 1600 {
        "It is certain."
    } else if roll > 1400 {
        "Obviously."
    } else if roll > 1200 {
        "Probably... maybe."
    } else if roll > 1000 {
        "How am I supposed to know?"
    } else if roll > 800 {
        "I don't think so."
    } else if roll > 600 {
        "No."
    } else if roll > 400 {
        "Never ever."
    } else if roll > 200 {
        "Absolutely not."
    } else if roll > 100 {
        "How about no?"
    } else if roll > 50 {
        "Maybe after I hit this fat vape."
    } else if roll > 25 {
        "Maybe after I hit this fat vape. *blows cloud*"
    } else if roll > 12 {
        "*Starts aggressively dabbing to assert dominance*"
    } else if roll > 5 {
        "OwO What's this? *Notices your qwestion* Rawr X3 *nuzzles* How are you? *pounces on you* you're so warm o3o *notices you have a bulge* someone's happy! *nuzzles your necky wecky* ~murr~"
    } else if roll > 1 {
        "Pebis."
    } else {
        "https://www.youtube.com/watch?v=HS3hxgREKKw"
    }
}

/// The reply for a given roll.
pub fn reply_for_roll(roll: u64) -> (reply: String)
    ensures
        reply@ == spec_reply(roll as nat),
{
    let mut reply = String::new();
    push_str(&mut reply, answer_for(roll));
    push_str(&mut reply, " (");
    push_decimal(&mut reply, roll);
    push_str(&mut reply, ")");
    assert(reply@ =~= spec_reply(roll as nat));
    reply
}

/// Rolls and answers: the roll drawn lies below `ROLL_BOUND` and the reply is
/// the one for that roll.
pub fn ask_lisa() -> (answered: (u64, String))
    ensures
        answered.0 < ROLL_BOUND,
        answered.1@ == spec_reply(answered.0 as nat),
{
    let roll = random_below(ROLL_BOUND);
    (roll, reply_for_roll(roll))
}

} // verus!
