//! The schedule of the throttle that limits how many requests all users together
//! make per second: a leaky bucket that lets a number of tokens out at a fixed pace.

use vstd::prelude::*;

verus! {

/// The pause between two releases of tokens, in microseconds, and how many tokens
/// are released each time: one per `1_000_000 / requests` microseconds, gathered
/// into pauses of at least ten milliseconds.
pub open spec fn throttle_plan(throttle_requests: nat) -> (nat, nat) {
    let pause: nat = 1_000_000nat / throttle_requests;
    if pause < 10_000 {
        let tokens: nat = 10_000nat / pause;
        (pause * tokens, tokens)
    } else {
        (pause, 1)
    }
}

/// Law: the throttle releases tokens at the requested rate. Each token stands for
/// `1_000_000 / requests` microseconds (the requested pace, floored to whole
/// microseconds), so a pause lasts exactly as many of them as it releases tokens.
/// A pace of ten milliseconds or more releases one token per pause; a faster one
/// gathers as many tokens as fit in ten milliseconds, and no more.
pub proof fn lemma_throttle_keeps_rate(throttle_requests: nat)
    requires
        0 < throttle_requests <= 1_000_000,
    ensures
        ({
            let pace = 1_000_000nat / throttle_requests;
            let (pause, tokens) = throttle_plan(throttle_requests);
            &&& tokens >= 1
            &&& pause == tokens * pace
            &&& pace >= 10_000 ==> tokens == 1 && pause == pace
            &&& pace < 10_000 ==> pause <= 10_000 < pause + pace
        }),
{
    let pace = 1_000_000nat / throttle_requests;
    assert(pace >= 1) by (nonlinear_arith)
        requires
            pace == 1_000_000nat / throttle_requests,
            0 < throttle_requests <= 1_000_000,
    ;
    if pace < 10_000 {
        let tokens = 10_000nat / pace;
        assert(tokens >= 1 && pace * tokens <= 10_000 < pace * tokens + pace) by (nonlinear_arith)
            requires
                tokens == 10_000nat / pace,
                1 <= pace < 10_000,
        ;
        assert(pace * tokens == tokens * pace) by (nonlinear_arith);
    }
}

/// How the throttle paces requests: the pause between two releases of tokens, in
/// microseconds, and how many tokens it releases each time. Pauses are kept at
/// about ten milliseconds at least, as sleeping has millisecond granularity.
pub fn throttle_schedule(throttle_requests: usize) -> (r: (u64, u32))
    requires
        0 < throttle_requests <= 1_000_000,
    ensures
        (r.0 as nat, r.1 as nat) == throttle_plan(throttle_requests as nat),
        r.1 >= 1,
        r.0 == r.1 * (1_000_000nat / (throttle_requests as nat)),
        1_000_000nat / (throttle_requests as nat) >= 10_000 ==> r.1 == 1,
        1_000_000nat / (throttle_requests as nat) < 10_000 ==> r.0 <= 10_000 < r.0 + 1_000_000nat / (throttle_requests as nat),
{
    proof {
        lemma_throttle_keeps_rate(throttle_requests as nat);
    }
    let pause: u64 = 1_000_000 / (throttle_requests as u64);
    proof {
        assert(pause >= 1) by (nonlinear_arith)
            requires
                pause as int == 1_000_000int / (throttle_requests as int),
                0 < throttle_requests <= 1_000_000,
        ;
    }
    if pause < 10_000 {
        // In nanoseconds, as the pause is compared to ten milliseconds.
        let tokens_wide: u128 = 10_000_000u128 / (pause as u128 * 1000);
        proof {
            assert(tokens_wide as int == 10_000int / (pause as int)) by (nonlinear_arith)
                requires
                    tokens_wide as int == 10_000_000int / (pause as int * 1000int),
                    pause >= 1,
            ;
            assert(tokens_wide >= 1) by (nonlinear_arith)
                requires
                    tokens_wide as int == 10_000int / (pause as int),
                    1 <= pause < 10_000,
            ;
            assert(pause * tokens_wide <= 10_000) by (nonlinear_arith)
                requires
                    tokens_wide as int == 10_000int / (pause as int),
                    pause >= 1,
            ;
        }
        let tokens = tokens_wide as u32;
        (pause * (tokens as u64), tokens)
    } else {
        (pause, 1)
    }
}

} // verus!
