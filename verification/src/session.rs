//! The decisions of a mining session, as a state machine.
//!
//! A session runs rounds: read the contract's status, stop if the supply or
//! the wallet's allowance is used up, fetch the wallet's challenge, solve the
//! puzzle, have the contract check the nonce, submit it, and pause. The
//! network calls, the solving and the sleeping happen outside; each of them
//! reports back as an `Event`, and `Session::step` answers with the next
//! `Action`. After `Sleep`, `Cooldown` and `NextRound` the caller starts the next round
//! with `Event::Ready`, saying whether the user still wants to run.
use vstd::prelude::*;

use crate::status::{supply_exhausted, wallet_cap_reached, wallet_cap_wei, ContractStatus};
use crate::uint::be_value;

verus! {

/// Seconds to wait after the status could not be read.
pub const STATUS_RETRY_SECS: u64 = 15;

/// Seconds to wait after the challenge could not be read.
pub const CHALLENGE_RETRY_SECS: u64 = 5;

/// Why a session ended.
pub enum StopReason {
    /// The user asked to stop.
    Interrupted,
    /// The contract's whole supply has been minted.
    SupplyExhausted,
    /// This wallet has minted its whole allowance.
    WalletCapReached,
}

/// What happened since the last action.
pub enum Event {
    /// Start of a round; `running` is false once the user asked to stop.
    Ready { running: bool },
    /// The contract's status, or `None` where it could not be read.
    Status(Option<ContractStatus>),
    /// The wallet's challenge, or `None` where it could not be read.
    Challenge(Option<[u8; 32]>),
    /// The puzzle was solved with `nonce`.
    Solved { nonce: u64, running: bool },
    /// The contract's own check of the nonce, or `None` where the check failed to run.
    Verified(Option<bool>),
    /// The mint transaction went through (`ok`) or failed.
    Submitted { ok: bool, running: bool },
    /// The status was read again after a mint, for the new balance.
    Refreshed { running: bool },
}

/// What the caller is to do next.
pub enum Action {
    FetchStatus,
    /// Wait, then start the next round.
    Sleep { secs: u64 },
    FetchChallenge,
    Solve { challenge: [u8; 32], target: [u8; 32] },
    /// Ask the contract whether the nonce is still valid.
    Verify { nonce: u64 },
    Submit { nonce: u64 },
    RefreshStatus,
    /// Pause between rounds, then start the next round.
    Cooldown { secs: u64 },
    /// Start the next round at once.
    NextRound,
    Stop(StopReason),
}

/// A mining session: the rounds begun, the mints that went through, the pause between
/// rounds, and what the current round has learnt (the target, the amount the next mint
/// pays, the nonce found).
pub struct Session {
    pub round: u64,
    pub mints: u64,
    pub pause_secs: u64,
    pub target: [u8; 32],
    pub next_mint: [u8; 32],
    pub nonce: u64,
}

/// The end of a round: pause if the user still runs the miner and a pause is set.
pub open spec fn after_round(pause_secs: u64, running: bool) -> Action {
    if running && pause_secs > 0 {
        Action::Cooldown { secs: pause_secs }
    } else {
        Action::NextRound
    }
}

/// The transition of the session on an event: the next state and the action.
pub open spec fn next(s: Session, e: Event) -> (Session, Action) {
    match e {
        Event::Ready { running } => if running {
            (Session { round: (s.round + 1) as u64, ..s }, Action::FetchStatus)
        } else {
            (s, Action::Stop(StopReason::Interrupted))
        },
        Event::Status(None) => (s, Action::Sleep { secs: STATUS_RETRY_SECS }),
        Event::Status(Some(st)) => if be_value(st.total_minted@) >= be_value(st.max_supply@) {
            (s, Action::Stop(StopReason::SupplyExhausted))
        } else if be_value(st.wallet_minted@) >= wallet_cap_wei() {
            (s, Action::Stop(StopReason::WalletCapReached))
        } else {
            (Session { target: st.target, next_mint: st.next_mint, ..s }, Action::FetchChallenge)
        },
        Event::Challenge(None) => (s, Action::Sleep { secs: CHALLENGE_RETRY_SECS }),
        Event::Challenge(Some(c)) => (s, Action::Solve { challenge: c, target: s.target }),
        Event::Solved { nonce, running } => if running {
            (Session { nonce, ..s }, Action::Verify { nonce })
        } else {
            (s, Action::Stop(StopReason::Interrupted))
        },
        Event::Verified(Some(false)) => (s, Action::NextRound),
        Event::Verified(_) => (s, Action::Submit { nonce: s.nonce }),
        Event::Submitted { ok, running } => if ok {
            (Session { mints: (s.mints + 1) as u64, ..s }, Action::RefreshStatus)
        } else {
            (s, after_round(s.pause_secs, running))
        },
        Event::Refreshed { running } => (s, after_round(s.pause_secs, running)),
    }
}

/// The counters do not run past their range on this event.
pub open spec fn can_step(s: Session, e: Event) -> bool {
    &&& (e matches Event::Ready { running } ==> (running ==> s.round < u64::MAX))
    &&& (e matches Event::Submitted { ok, .. } ==> (ok ==> s.mints < u64::MAX))
}

impl Session {
    /// A session that has run no round yet and pauses `pause_secs` between rounds.
    pub fn new(pause_secs: u64) -> (s: Self)
        ensures
            s.round == 0,
            s.mints == 0,
            s.pause_secs == pause_secs,
            s.target@ == Seq::new(32, |i: int| 0u8),
            s.next_mint@ == Seq::new(32, |i: int| 0u8),
            s.nonce == 0,
    {
        Session { round: 0, mints: 0, pause_secs, target: [0u8; 32], next_mint: [0u8; 32], nonce: 0 }
    }

    fn end_of_round(&self, running: bool) -> (a: Action)
        ensures
            a == after_round(self.pause_secs, running),
    {
        if running && self.pause_secs > 0 {
            Action::Cooldown { secs: self.pause_secs }
        } else {
            Action::NextRound
        }
    }

    /// Takes an event and returns the next action.
    pub fn step(&mut self, event: Event) -> (action: Action)
        requires
            can_step(*old(self), event),
        ensures
            (*final(self), action) == next(*old(self), event),
    {
        match event {
            Event::Ready { running } => {
                if running {
                    self.round = self.round + 1;
                    Action::FetchStatus
                } else {
                    Action::Stop(StopReason::Interrupted)
                }
            },
            Event::Status(None) => Action::Sleep { secs: STATUS_RETRY_SECS },
            Event::Status(Some(st)) => {
                if supply_exhausted(&st) {
                    Action::Stop(StopReason::SupplyExhausted)
                } else if wallet_cap_reached(&st) {
                    Action::Stop(StopReason::WalletCapReached)
                } else {
                    self.target = st.target;
                    self.next_mint = st.next_mint;
                    Action::FetchChallenge
                }
            },
            Event::Challenge(None) => Action::Sleep { secs: CHALLENGE_RETRY_SECS },
            Event::Challenge(Some(c)) => Action::Solve { challenge: c, target: self.target },
            Event::Solved { nonce, running } => {
                if running {
                    self.nonce = nonce;
                    Action::Verify { nonce }
                } else {
                    Action::Stop(StopReason::Interrupted)
                }
            },
            Event::Verified(Some(false)) => Action::NextRound,
            Event::Verified(_) => Action::Submit { nonce: self.nonce },
            Event::Submitted { ok, running } => {
                if ok {
                    self.mints = self.mints + 1;
                    Action::RefreshStatus
                } else {
                    self.end_of_round(running)
                }
            },
            Event::Refreshed { running } => self.end_of_round(running),
        }
    }
}

/// Each round that starts counts one; nothing else changes the count of rounds.
pub proof fn lemma_rounds_count_starts(s: Session, e: Event)
    ensures
        next(s, e).0.round == if e matches Event::Ready { running } && running {
            (s.round + 1) as u64
        } else {
            s.round
        },
{
}

/// The count of mints grows by one for each transaction that went through and never
/// otherwise.
pub proof fn lemma_mints_count_successes(s: Session, e: Event)
    ensures
        next(s, e).0.mints == if e matches Event::Submitted { ok, .. } && ok {
            (s.mints + 1) as u64
        } else {
            s.mints
        },
{
}

/// A session never mints past the supply or the wallet's allowance: a status that shows
/// either used up ends it.
pub proof fn lemma_stops_when_used_up(s: Session, st: ContractStatus)
    requires
        be_value(st.total_minted@) >= be_value(st.max_supply@) || be_value(st.wallet_minted@)
            >= wallet_cap_wei(),
    ensures
        next(s, Event::Status(Some(st))).1 is Stop,
{
}

/// The puzzle is solved against the target of the status read in the same round.
pub proof fn lemma_solves_against_status_target(s: Session, st: ContractStatus, c: [u8; 32])
    requires
        next(s, Event::Status(Some(st))).1 is FetchChallenge,
    ensures
        next(next(s, Event::Status(Some(st))).0, Event::Challenge(Some(c))).1 == (Action::Solve {
            challenge: c,
            target: st.target,
        }),
{
}

/// The nonce submitted is the nonce that was solved and checked.
pub proof fn lemma_submits_solved_nonce(s: Session, nonce: u64, check: Option<bool>)
    requires
        check != Some(false),
    ensures
        next(next(s, Event::Solved { nonce, running: true }).0, Event::Verified(check)).1 == (
        Action::Submit { nonce }),
{
}

/// Once the user asks to stop, the next round does not start.
pub proof fn lemma_stop_request_ends(s: Session)
    ensures
        next(s, Event::Ready { running: false }) == (s, Action::Stop(StopReason::Interrupted)),
{
}

/// A status below both limits, the supply not all minted and the wallet under its
/// allowance of 10,000 tokens (of 18 decimals), never ends the session: the round goes on
/// to fetch the challenge, and mines against that status's target.
pub proof fn lemma_mines_below_limits(s: Session, st: ContractStatus)
    requires
        be_value(st.total_minted@) < be_value(st.max_supply@),
        be_value(st.wallet_minted@) < 10_000 * 1_000_000_000_000_000_000,
    ensures
        next(s, Event::Status(Some(st))).1 == Action::FetchChallenge,
        next(s, Event::Status(Some(st))).0.target == st.target,
        next(s, Event::Status(Some(st))).0.next_mint == st.next_mint,
{
}

/// The session stops for the wallet's allowance exactly on a status where the wallet has
/// minted at least 10,000 tokens and the supply is not all minted; it stops for the supply
/// exactly on a status where everything has been minted.
pub proof fn lemma_limit_stops_exactly(s: Session, e: Event)
    ensures
        next(s, e).1 == Action::Stop(StopReason::WalletCapReached) <==> (e matches Event::Status(
            Some(st),
        ) && be_value(st.total_minted@) < be_value(st.max_supply@) && be_value(st.wallet_minted@)
            >= 10_000 * 1_000_000_000_000_000_000),
        next(s, e).1 == Action::Stop(StopReason::SupplyExhausted) <==> (e matches Event::Status(
            Some(st),
        ) && be_value(st.total_minted@) >= be_value(st.max_supply@)),
{
}

/// Every pause between rounds lasts exactly the session's pause, and only a pause that is
/// set is taken.
pub proof fn lemma_cooldown_is_the_pause(s: Session, e: Event)
    ensures
        next(s, e).1 matches Action::Cooldown { secs } ==> secs == s.pause_secs && secs > 0,
{
}

/// A round that ends (the mint refreshed, or the transaction failed) while the user still
/// runs the miner pauses for the session's pause where one is set, and otherwise goes
/// straight to the next round; the session itself is left as it was.
pub proof fn lemma_round_end_pauses(s: Session, running: bool)
    ensures
        running && s.pause_secs > 0 ==> next(s, Event::Refreshed { running }).1 == (
        Action::Cooldown { secs: s.pause_secs }),
        running && s.pause_secs > 0 ==> next(s, Event::Submitted { ok: false, running }).1 == (
        Action::Cooldown { secs: s.pause_secs }),
        !(running && s.pause_secs > 0) ==> next(s, Event::Refreshed { running }).1
            == Action::NextRound,
        !(running && s.pause_secs > 0) ==> next(s, Event::Submitted { ok: false, running }).1
            == Action::NextRound,
        next(s, Event::Refreshed { running }).0 == s,
        next(s, Event::Submitted { ok: false, running }).0 == s,
{
}

} // verus!
