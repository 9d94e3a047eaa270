use pallets::account::{self, Role};
use pallets::currency::Balances;
use pallets::dispatch::DispatchError;
use pallets::fund_raising::{self, Config};
use pallets::rating::{Error, Event, GenesisConfig, Pallet};

const CREATOR: u64 = 2;
const BENEFICIARY: u64 = 20;
const CONTRIBUTOR: u64 = 3;
const OTHER: u64 = 4;
const SYS_A: u64 = 10;
const SYS_B: u64 = 11;

struct World {
    accounts: account::Pallet,
    funds: fund_raising::Pallet,
    rating: Pallet,
}

/// Fund 0 (created at block 1, ended after block 31) with contributions by
/// CREATOR, CONTRIBUTOR, OTHER and SYS_A.
fn ended_fund() -> World {
    let mut accounts = account::GenesisConfig { sysman_accountmap: vec![SYS_A, SYS_B] }.build();
    for who in [CREATOR, CONTRIBUTOR, OTHER] {
        accounts.register_account(who, vec![]).unwrap();
    }
    let mut ledger = Balances::new();
    for who in [CREATOR, CONTRIBUTOR, OTHER, SYS_A] {
        ledger.make_free_balance_be(who, 1000);
    }
    let config = Config {
        submission_deposit: 10,
        min_contribution: 5,
        fee_percent: 10,
        percent: 10,
        min_votenum: 2,
        retirement_period: 0,
        voting_period: 10,
    };
    let mut funds = fund_raising::Pallet::new(config);
    funds.create(&accounts, &mut ledger, CREATOR, BENEFICIARY, 50, 20, 1).unwrap();
    funds.vote(&accounts, SYS_A, 0, 5).unwrap();
    funds.vote(&accounts, SYS_B, 0, 5).unwrap();
    for who in [CREATOR, CONTRIBUTOR, OTHER, SYS_A] {
        funds.contribute(&mut ledger, who, 0, 10, 12).unwrap();
    }
    World { accounts, funds, rating: GenesisConfig { amount_num: 3 }.build() }
}

fn score(w: &World, who: u64) -> i32 {
    w.accounts.account_storage(who).unwrap().score
}

fn rate(w: &mut World, who: u64, val: u64, rate: i32, now: u64) -> Result<Event, DispatchError> {
    w.rating.evaluation(&mut w.accounts, &w.funds, who, 0, val, rate, now)
}

#[test]
fn genesis_amount() {
    assert_eq!(GenesisConfig { amount_num: 7 }.build().amount(), Some(7));
    assert_eq!(GenesisConfig::default().amount_num, 0);
}

#[test]
fn rating_weights() {
    // ratings 0..=5 weigh -3, -2, -1, 1, 2, 3
    let expected = [94, 96, 98, 102, 104, 106];
    for rating in 0..6 {
        let mut w = ended_fund();
        let new_score = expected[rating as usize];
        assert_eq!(rate(&mut w, CONTRIBUTOR, CREATOR, rating, 32), Ok(Event::ScoreCheck(CREATOR, new_score)));
        assert_eq!(score(&w, CREATOR), new_score);
        assert_eq!(score(&w, CONTRIBUTOR), 100);
    }
}

#[test]
fn rating_scales_with_rater_score_and_rounds_toward_zero() {
    let mut w = ended_fund();
    assert_eq!(rate(&mut w, SYS_A, CREATOR, 5, 32), Ok(Event::ScoreCheck(CREATOR, 118)));
    assert_eq!(rate(&mut w, CONTRIBUTOR, CREATOR, 5, 32), Ok(Event::ScoreCheck(CREATOR, 124)));
    // -124 / 100 rounds toward zero to -1
    assert_eq!(rate(&mut w, CREATOR, CONTRIBUTOR, 2, 32), Ok(Event::ScoreCheck(CONTRIBUTOR, 98)));
    assert_eq!(score(&w, SYS_A), 500);
    let mut w = ended_fund();
    assert_eq!(rate(&mut w, SYS_A, CREATOR, 0, 32), Ok(Event::ScoreCheck(CREATOR, 82)));
}

#[test]
fn creator_rates_contributor() {
    let mut w = ended_fund();
    assert_eq!(rate(&mut w, CREATOR, OTHER, 4, 32), Ok(Event::ScoreCheck(OTHER, 104)));
    assert_eq!(score(&w, CREATOR), 100);
}

#[test]
fn rated_score_stays_between_zero_and_maximum() {
    let mut w = ended_fund();
    for _ in 0..60 {
        rate(&mut w, SYS_A, CREATOR, 5, 32).unwrap();
    }
    assert_eq!(score(&w, CREATOR), 1000);
    for _ in 0..20 {
        rate(&mut w, CREATOR, CONTRIBUTOR, 0, 32).unwrap();
    }
    assert_eq!(score(&w, CONTRIBUTOR), 0);
}

#[test]
fn evaluation_errors() {
    let mut w = ended_fund();
    let r = |e| Err(DispatchError::Rating(e));
    let f = |e| Err(DispatchError::FundRaising(e));
    assert_eq!(rate(&mut w, 99, CREATOR, 2, 32), r(Error::InvalidAccount));
    assert_eq!(rate(&mut w, CONTRIBUTOR, 99, 2, 32), r(Error::InvalidAccount));
    assert_eq!(rate(&mut w, CONTRIBUTOR, CREATOR, 2, 31), f(fund_raising::Error::FundStillActive));
    assert_eq!(rate(&mut w, SYS_B, CREATOR, 2, 32), f(fund_raising::Error::NoContribution));
    assert_eq!(
        w.rating.evaluation(&mut w.accounts, &w.funds, CONTRIBUTOR, 9, CREATOR, 2, 32),
        f(fund_raising::Error::InvalidIndex)
    );
    // neither party is the creator
    assert_eq!(rate(&mut w, CONTRIBUTOR, OTHER, 2, 32), r(Error::CannotEvaluate));
    assert_eq!(rate(&mut w, SYS_A, OTHER, 5, 32), r(Error::CannotEvaluate));
    // a creator cannot rate itself
    assert_eq!(rate(&mut w, CREATOR, CREATOR, 2, 32), r(Error::CannotEvaluate));
    assert_eq!(rate(&mut w, CONTRIBUTOR, CREATOR, 6, 32), r(Error::InvalidScore));
    assert_eq!(rate(&mut w, CONTRIBUTOR, CREATOR, -1, 32), r(Error::InvalidScore));
    assert_eq!(score(&w, OTHER), 100);
    assert_eq!(score(&w, CREATOR), 100);
}

#[test]
fn check_score_reads_score() {
    let mut w = ended_fund();
    rate(&mut w, CONTRIBUTOR, CREATOR, 4, 32).unwrap();
    assert_eq!(w.rating.check_score(&w.accounts, CONTRIBUTOR, CREATOR), Ok(Event::ScoreCheck(CREATOR, 104)));
    assert_eq!(
        w.rating.check_score(&w.accounts, 99, CREATOR),
        Err(DispatchError::Rating(Error::InvalidAccount))
    );
    assert_eq!(
        w.rating.check_score(&w.accounts, CONTRIBUTOR, 99),
        Err(DispatchError::Rating(Error::InvalidAccount))
    );
}

#[test]
fn rated_user_can_become_voter() {
    let mut w = ended_fund();
    while score(&w, CREATOR) < 500 {
        rate(&mut w, SYS_A, CREATOR, 5, 32).unwrap();
    }
    assert_eq!(score(&w, CREATOR), 514);
    assert_eq!(w.accounts.voter_request(CREATOR), Ok(account::Event::VoterRequest(CREATOR)));
    assert_eq!(w.accounts.account_storage(CREATOR).unwrap().flag, account::Flag::On);
    assert_eq!(w.accounts.votercheck_sysmen(SYS_A, CREATOR), Ok(account::Event::VoterRegistered(CREATOR)));
    assert_eq!(w.accounts.account_storage(CREATOR).unwrap().role, Role::Voter);
    // the role map is not updated by the voter check
    assert_eq!(w.accounts.account_role(CREATOR), Some(Role::User));
}
