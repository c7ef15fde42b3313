use pfft_miner::session::{Action, Event, Session, StopReason};
use pfft_miner::status::{status_from_chain, ContractStatus};
use pfft_miner::uint::be32_from_u128;

fn open_status(hex_zeros: u64) -> ContractStatus {
    status_from_chain(
        hex_zeros,
        be32_from_u128(5),
        be32_from_u128(100),
        be32_from_u128(7),
        be32_from_u128(0),
        be32_from_u128(0),
    )
}

#[test]
fn a_full_round_with_a_mint() {
    let mut s = Session::new(5);
    assert!(matches!(s.step(Event::Ready { running: true }), Action::FetchStatus));
    assert_eq!(s.round, 1);
    let st = open_status(1);
    let target = st.target;
    assert!(matches!(s.step(Event::Status(Some(st))), Action::FetchChallenge));
    assert_eq!(s.next_mint, be32_from_u128(7));
    match s.step(Event::Challenge(Some([9u8; 32]))) {
        Action::Solve { challenge, target: t } => {
            assert_eq!(challenge, [9u8; 32]);
            assert_eq!(t, target);
        }
        _ => panic!("expected Solve"),
    }
    assert!(matches!(s.step(Event::Solved { nonce: 42, running: true }), Action::Verify { nonce: 42 }));
    assert!(matches!(s.step(Event::Verified(Some(true))), Action::Submit { nonce: 42 }));
    assert!(matches!(s.step(Event::Submitted { ok: true, running: true }), Action::RefreshStatus));
    assert_eq!(s.mints, 1);
    assert!(matches!(s.step(Event::Refreshed { running: true }), Action::Cooldown { secs: 5 }));
    assert!(matches!(s.step(Event::Ready { running: true }), Action::FetchStatus));
    assert_eq!(s.round, 2);
}

#[test]
fn read_errors_retry_after_a_pause() {
    let mut s = Session::new(5);
    s.step(Event::Ready { running: true });
    assert!(matches!(s.step(Event::Status(None)), Action::Sleep { secs: 15 }));
    s.step(Event::Ready { running: true });
    s.step(Event::Status(Some(open_status(1))));
    assert!(matches!(s.step(Event::Challenge(None)), Action::Sleep { secs: 5 }));
    assert_eq!(s.round, 2);
}

#[test]
fn stale_nonce_starts_a_new_round_without_pause() {
    let mut s = Session::new(5);
    s.step(Event::Ready { running: true });
    s.step(Event::Status(Some(open_status(1))));
    s.step(Event::Challenge(Some([1u8; 32])));
    s.step(Event::Solved { nonce: 3, running: true });
    assert!(matches!(s.step(Event::Verified(Some(false))), Action::NextRound));
    assert_eq!(s.mints, 0);
}

#[test]
fn failed_check_still_submits() {
    let mut s = Session::new(0);
    s.step(Event::Solved { nonce: 11, running: true });
    assert!(matches!(s.step(Event::Verified(None)), Action::Submit { nonce: 11 }));
}

#[test]
fn failed_submission_ends_the_round() {
    let mut s = Session::new(5);
    assert!(matches!(s.step(Event::Submitted { ok: false, running: true }), Action::Cooldown { secs: 5 }));
    assert!(matches!(s.step(Event::Submitted { ok: false, running: false }), Action::NextRound));
    assert_eq!(s.mints, 0);
    let mut t = Session::new(0);
    assert!(matches!(t.step(Event::Refreshed { running: true }), Action::NextRound));
}

#[test]
fn stops_when_supply_or_allowance_is_used_up() {
    let mut s = Session::new(5);
    let full = status_from_chain(1, be32_from_u128(100), be32_from_u128(100), [0; 32], [0; 32], [0; 32]);
    assert!(matches!(s.step(Event::Status(Some(full))), Action::Stop(StopReason::SupplyExhausted)));
    let capped = status_from_chain(
        1,
        be32_from_u128(1),
        be32_from_u128(100),
        [0; 32],
        be32_from_u128(10_000 * 10u128.pow(18)),
        [0; 32],
    );
    assert!(matches!(s.step(Event::Status(Some(capped))), Action::Stop(StopReason::WalletCapReached)));
}

#[test]
fn stop_request_is_honoured() {
    let mut s = Session::new(5);
    assert!(matches!(s.step(Event::Ready { running: false }), Action::Stop(StopReason::Interrupted)));
    assert_eq!(s.round, 0);
    assert!(matches!(s.step(Event::Solved { nonce: 1, running: false }), Action::Stop(StopReason::Interrupted)));
}
