//! Authentication: when a password is needed, and how many tries it gets.
use vstd::prelude::*;

verus! {

/// Whether the user must authenticate before the command runs.
#[derive(Debug, Clone, Copy, PartialEq, Eq, Structural)]
pub enum AuthNeed {
    /// No password is asked for: the rule says `nopass`, or a valid time
    /// stamp stands in for it.
    NotNeeded,
    /// A password is asked for.
    Password,
    /// A password would be needed, but asking is forbidden (`-n`).
    Refused,
}

/// Whether a password is asked for, given the rule's `nopass`, whether a
/// valid time stamp stands in for it, and whether asking is forbidden.
pub fn auth_need(nopass: bool, persist_valid: bool, non_interactive: bool) -> (r: AuthNeed)
    ensures
        (nopass || persist_valid) ==> r == AuthNeed::NotNeeded,
        !(nopass || persist_valid) && non_interactive ==> r == AuthNeed::Refused,
        !(nopass || persist_valid) && !non_interactive ==> r == AuthNeed::Password,
{
    if nopass || persist_valid {
        AuthNeed::NotNeeded
    } else if non_interactive {
        AuthNeed::Refused
    } else {
        AuthNeed::Password
    }
}

/// How many times a password is asked for before authentication fails.
pub const AUTH_TRIES: u32 = 3;

/// What follows an authentication attempt.
#[derive(Debug, Clone, Copy, PartialEq, Eq, Structural)]
pub enum AuthStep {
    /// The user is authenticated.
    Granted,
    /// The attempt failed: the user is told so and asked again.
    Retry,
    /// The attempt failed, and it was the last one: authentication fails.
    GiveUp,
}

/// What follows attempt number `attempt` (counted from one).
pub open spec fn attempt_step(attempt: int, succeeded: bool) -> AuthStep {
    if succeeded {
        AuthStep::Granted
    } else if attempt < AUTH_TRIES {
        AuthStep::Retry
    } else {
        AuthStep::GiveUp
    }
}

/// The steps taken when the attempts from number `done + 1` on have the
/// outcomes `results[done..]`: attempts go on while they are answered with
/// `Retry`.
pub open spec fn auth_steps(results: Seq<bool>, done: int) -> Seq<AuthStep>
    decreases AUTH_TRIES - done,
{
    if done < 0 || done >= AUTH_TRIES || done >= results.len() {
        Seq::empty()
    } else {
        let s = attempt_step(done + 1, results[done]);
        if s is Retry {
            seq![s] + auth_steps(results, done + 1)
        } else {
            seq![s]
        }
    }
}

/// With the outcomes of three attempts, the attempts stop at the first that
/// succeeds, or after the third; each earlier one is answered with `Retry`;
/// the user is let in exactly when some attempt succeeds, and otherwise the
/// last step gives up.
pub proof fn law_three_attempts(results: Seq<bool>)
    requires
        results.len() == 3,
    ensures
        auth_steps(results, 0).len() == (if results[0] {
            1int
        } else if results[1] {
            2int
        } else {
            3int
        }),
        forall|j: int|
            0 <= j < auth_steps(results, 0).len() - 1 ==> #[trigger] auth_steps(results, 0)[j]
                == AuthStep::Retry,
        auth_steps(results, 0).last() == AuthStep::Granted <==> (results[0] || results[1]
            || results[2]),
        auth_steps(results, 0).last() != AuthStep::Granted ==> auth_steps(results, 0).last()
            == AuthStep::GiveUp,
{
    reveal_with_fuel(auth_steps, 4);
    let s2 = auth_steps(results, 2);
    let s1 = auth_steps(results, 1);
    let s0 = auth_steps(results, 0);
    assert(s2 =~= seq![attempt_step(3, results[2])]);
    if !results[1] {
        assert(s1 =~= seq![AuthStep::Retry] + s2);
    }
    if !results[0] {
        assert(s0 =~= seq![AuthStep::Retry] + s1);
    }
}

/// What follows attempt number `attempt` (counted from one) when it
/// `succeeded` or not: a failed attempt is answered with an apology (or an
/// insult), and the third failure ends the authentication.
pub fn after_attempt(attempt: u32, succeeded: bool) -> (s: AuthStep)
    requires
        1 <= attempt <= AUTH_TRIES,
    ensures
        s == attempt_step(attempt as int, succeeded),
        succeeded ==> s == AuthStep::Granted,
        !succeeded && attempt < AUTH_TRIES ==> s == AuthStep::Retry,
        !succeeded && attempt == AUTH_TRIES ==> s == AuthStep::GiveUp,
{
    if succeeded {
        AuthStep::Granted
    } else if attempt < AUTH_TRIES {
        AuthStep::Retry
    } else {
        AuthStep::GiveUp
    }
}

} // verus!
