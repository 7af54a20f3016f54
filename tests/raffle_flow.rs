use nft_raffle::contract::{Contract, RaffleError};
use nft_raffle::raffle::{Status, ONE_NEAR};

const CUSTODIAN: &str = "nft.custodian";

fn open_raffle(c: &mut Contract, creator: &str, msg: &str) -> bool {
    c.nft_on_transfer(
        CUSTODIAN.to_string(),
        "depositor".to_string(),
        creator.to_string(),
        "token-1".to_string(),
        msg.to_string(),
    )
}

fn seed(b: u8) -> [u8; 32] {
    [b; 32]
}

#[test]
fn three_entries_trigger_draw_and_payout() {
    let mut c = Contract::new();
    assert!(!open_raffle(&mut c, "creator", "3,100"));
    let price = 100 * ONE_NEAR;
    let a = c.join_raffle(0, "alice".to_string(), price, 10, seed(1)).unwrap();
    assert!(a.refund.is_none());
    assert!(a.settlement.is_none());
    let b = c.join_raffle(0, "bob".to_string(), price, 11, seed(2)).unwrap();
    assert!(b.settlement.is_none());
    let out = c.join_raffle(0, "carol".to_string(), price, 12, seed(3)).unwrap();
    let s = out.settlement.expect("third entry draws");
    assert_eq!(s.raffle_id, 0);
    assert_eq!(s.creator, "creator");
    assert_eq!(s.payout, 300 * ONE_NEAR);
    assert!(["alice", "bob", "carol"].contains(&s.winner.as_str()));
    assert_eq!(s.prize.smart_contract, CUSTODIAN);
    assert_eq!(s.prize.id, "token-1");
    let r = c.get_raffle_by_id(0).unwrap();
    assert_eq!(r.status, Status::Closed);
    assert_eq!(r.winner, Some(s.winner.clone()));
    assert_eq!(r.participants, vec!["alice".to_string(), "bob".to_string(), "carol".to_string()]);
}

#[test]
fn overpayment_is_refunded() {
    let mut c = Contract::new();
    assert!(!open_raffle(&mut c, "creator", "2,50"));
    let out = c.join_raffle(0, "alice".to_string(), 70 * ONE_NEAR, 1, seed(0)).unwrap();
    assert_eq!(out.refund, Some(20 * ONE_NEAR));
    assert!(out.settlement.is_none());
    let r = c.get_raffle_by_id(0).unwrap();
    assert_eq!(r.participants, vec!["alice".to_string()]);
    assert_eq!(r.status, Status::Opened);
    assert_eq!(r.winner, None);
}

#[test]
fn exact_payment_has_no_refund() {
    let mut c = Contract::new();
    assert!(!open_raffle(&mut c, "creator", "2,50"));
    let out = c.join_raffle(0, "alice".to_string(), 50 * ONE_NEAR, 1, seed(0)).unwrap();
    assert_eq!(out.refund, None);
}

#[test]
fn creator_cannot_enter() {
    let mut c = Contract::new();
    assert!(!open_raffle(&mut c, "creator", "2,50"));
    let r = c.join_raffle(0, "creator".to_string(), 50 * ONE_NEAR, 1, seed(0));
    assert_eq!(r.err(), Some(RaffleError::SelfEntry));
    let raffle = c.get_raffle_by_id(0).unwrap();
    assert!(raffle.participants.is_empty());
    assert_eq!(raffle.status, Status::Opened);
}

#[test]
fn capacity_one_returns_asset() {
    let mut c = Contract::new();
    assert!(open_raffle(&mut c, "creator", "1,100"));
    assert_eq!(c.next_id(), 0);
    assert!(c.active_raffles().is_empty());
}

#[test]
fn malformed_messages_return_asset() {
    let mut c = Contract::new();
    assert!(open_raffle(&mut c, "creator", "3"));
    assert!(open_raffle(&mut c, "creator", "3,100,5"));
    assert!(open_raffle(&mut c, "creator", "x,100"));
    assert!(open_raffle(&mut c, "creator", "3,"));
    assert!(open_raffle(&mut c, "creator", "0,100"));
    assert!(open_raffle(&mut c, "creator", "4294967296,100"));
    assert!(open_raffle(&mut c, "creator", "3,0"));
    assert_eq!(c.next_id(), 0);
}

#[test]
fn custodian_calling_itself_returns_asset() {
    let mut c = Contract::new();
    let r = c.nft_on_transfer(
        CUSTODIAN.to_string(),
        CUSTODIAN.to_string(),
        "creator".to_string(),
        "token-1".to_string(),
        "2,5".to_string(),
    );
    assert!(r);
    assert_eq!(c.next_id(), 0);
}

#[test]
fn unknown_raffle_is_not_found() {
    let mut c = Contract::new();
    let r = c.join_raffle(7, "alice".to_string(), ONE_NEAR, 1, seed(0));
    assert_eq!(r.err(), Some(RaffleError::NotFound));
    assert_eq!(c.get_raffle_by_id(7).err(), Some(RaffleError::NotFound));
}

#[test]
fn underpayment_is_refused() {
    let mut c = Contract::new();
    assert!(!open_raffle(&mut c, "creator", "2,50"));
    let r = c.join_raffle(0, "alice".to_string(), 50 * ONE_NEAR - 1, 1, seed(0));
    assert_eq!(r.err(), Some(RaffleError::InsufficientPayment));
    assert!(c.get_raffle_by_id(0).unwrap().participants.is_empty());
}

#[test]
fn closed_raffle_refuses_entries() {
    let mut c = Contract::new();
    assert!(!open_raffle(&mut c, "creator", "2,1"));
    c.join_raffle(0, "alice".to_string(), ONE_NEAR, 1, seed(4)).unwrap();
    let out = c.join_raffle(0, "bob".to_string(), ONE_NEAR, 1, seed(4)).unwrap();
    assert!(out.settlement.is_some());
    let winner = c.get_raffle_by_id(0).unwrap().winner;
    let r = c.join_raffle(0, "carol".to_string(), ONE_NEAR, 2, seed(5));
    assert_eq!(r.err(), Some(RaffleError::RaffleClosed));
    let after = c.get_raffle_by_id(0).unwrap();
    assert_eq!(after.winner, winner);
    assert_eq!(after.participants.len(), 2);
}

#[test]
fn repeated_entries_are_kept() {
    let mut c = Contract::new();
    assert!(!open_raffle(&mut c, "creator", "3,1"));
    c.join_raffle(0, "alice".to_string(), ONE_NEAR, 1, seed(0)).unwrap();
    c.join_raffle(0, "alice".to_string(), ONE_NEAR, 1, seed(0)).unwrap();
    let r = c.get_raffle_by_id(0).unwrap();
    assert_eq!(r.participants, vec!["alice".to_string(), "alice".to_string()]);
    assert_eq!(r.status, Status::Opened);
}

#[test]
fn proceeds_at_the_largest_price() {
    let mut c = Contract::new();
    assert!(!open_raffle(&mut c, "creator", "2,170141183460469"));
    let price = 170141183460469 * ONE_NEAR;
    c.join_raffle(0, "alice".to_string(), price, 1, seed(0)).unwrap();
    let out = c.join_raffle(0, "bob".to_string(), price, 1, seed(0)).unwrap();
    assert_eq!(out.settlement.unwrap().payout, 2 * 170141183460469 * ONE_NEAR);
}

#[test]
fn proceeds_overflow_is_refused() {
    let mut c = Contract::new();
    assert!(!open_raffle(&mut c, "creator", "2,170141183460470"));
    let price = 170141183460470 * ONE_NEAR;
    c.join_raffle(0, "alice".to_string(), price, 1, seed(0)).unwrap();
    let r = c.join_raffle(0, "bob".to_string(), price, 1, seed(0));
    assert_eq!(r.err(), Some(RaffleError::ProceedsOverflow));
    let raffle = c.get_raffle_by_id(0).unwrap();
    assert_eq!(raffle.participants.len(), 1);
    assert_eq!(raffle.status, Status::Opened);
}

#[test]
fn price_too_large_to_scale_returns_asset() {
    let mut c = Contract::new();
    assert!(!open_raffle(&mut c, "creator", "2,340282366920938"));
    assert!(open_raffle(&mut c, "creator", "2,340282366920939"));
    assert_eq!(c.next_id(), 1);
    assert_eq!(c.get_raffle_by_id(0).unwrap().ticket_price, 340282366920938 * ONE_NEAR);
}

#[test]
fn intake_records_terms() {
    let mut c = Contract::new();
    assert!(!open_raffle(&mut c, "creator", "+4,+7"));
    let r = c.get_raffle_by_id(0).unwrap();
    assert_eq!(r.creator, "creator");
    assert_eq!(r.participants_number, 4);
    assert_eq!(r.ticket_price, 7 * ONE_NEAR);
    assert_eq!(r.status, Status::Opened);
    assert_eq!(r.winner, None);
    assert_eq!(r.prize.smart_contract, CUSTODIAN);
}

#[test]
fn active_raffles_lists_open_ones() {
    let mut c = Contract::new();
    assert!(!open_raffle(&mut c, "creator", "2,1"));
    assert!(!open_raffle(&mut c, "creator", "3,1"));
    assert!(!open_raffle(&mut c, "creator", "2,1"));
    c.join_raffle(1, "alice".to_string(), ONE_NEAR, 1, seed(0)).unwrap();
    c.join_raffle(0, "alice".to_string(), ONE_NEAR, 1, seed(0)).unwrap();
    c.join_raffle(0, "bob".to_string(), ONE_NEAR, 1, seed(0)).unwrap();
    let open: Vec<u64> = c.active_raffles().iter().map(|(id, _)| *id).collect();
    assert_eq!(open, vec![1, 2]);
    assert_eq!(c.active_raffles()[0].1.participants, vec!["alice".to_string()]);
}
