use frame_support::sp_runtime::traits::{AccountIdConversion, BlakeTwo256};
use frame_support::PalletId;
use pallets::account;
use pallets::currency::{self, Balances};
use pallets::dispatch::DispatchError;
use pallets::fund_raising::{Config, EnsureRaising, Error, Event, FundInfo, Pallet};

const CREATOR: u64 = 2;
const BENEFICIARY: u64 = 20;
const CONTRIBUTOR: u64 = 3;
const OTHER: u64 = 4;
const SYS_A: u64 = 10;
const SYS_B: u64 = 11;

fn pot() -> u64 {
    u64::from_le_bytes(*b"modlex/c")
}

fn config() -> Config {
    Config {
        submission_deposit: 10,
        min_contribution: 5,
        fee_percent: 10,
        percent: 10,
        min_votenum: 2,
        retirement_period: 0,
        voting_period: 10,
    }
}

struct World {
    accounts: account::Pallet,
    ledger: Balances,
    funds: Pallet,
}

fn world() -> World {
    let mut accounts = account::GenesisConfig { sysman_accountmap: vec![SYS_A, SYS_B] }.build();
    accounts.register_account(CREATOR, vec![]).unwrap();
    accounts.register_account(CONTRIBUTOR, vec![]).unwrap();
    accounts.register_account(OTHER, vec![]).unwrap();
    let mut ledger = Balances::new();
    ledger.make_free_balance_be(CREATOR, 1000);
    ledger.make_free_balance_be(CONTRIBUTOR, 1000);
    ledger.make_free_balance_be(OTHER, 1000);
    World { accounts, ledger, funds: Pallet::new(config()) }
}

fn fr(e: Error) -> DispatchError {
    DispatchError::FundRaising(e)
}

/// A world with fund 0 created at block 1 (end 31) and voted twice.
fn voted_world(goal: u64) -> World {
    let mut w = world();
    assert_eq!(
        w.funds.create(&w.accounts, &mut w.ledger, CREATOR, BENEFICIARY, goal, 20, 1),
        Ok(Event::Created(0, 1, 31))
    );
    assert_eq!(w.funds.vote(&w.accounts, SYS_A, 0, 5), Ok(Event::Voted(SYS_A, 0, 1, 5)));
    assert_eq!(w.funds.vote(&w.accounts, SYS_B, 0, 6), Ok(Event::Voted(SYS_B, 0, 2, 6)));
    w
}

#[test]
fn fund_account_is_shared_pot() {
    assert_eq!(Pallet::fund_account_id(0), pot());
    assert_eq!(Pallet::fund_account_id(7), pot());
    let expected: u64 = PalletId(*b"ex/cfund").into_sub_account_truncating(3u32);
    assert_eq!(Pallet::fund_account_id(3), expected);
}

#[test]
fn id_from_index_hashes_prefixed_index() {
    let id = Pallet::id_from_index(0x0102_0304);
    let mut seed = b"crowdfnd".to_vec();
    seed.extend_from_slice(&[4, 3, 2, 1]);
    assert_eq!(id.len(), 32);
    assert_eq!(id, <BlakeTwo256 as frame_support::sp_runtime::traits::Hash>::hash(&seed).as_ref().to_vec());
    assert_ne!(Pallet::id_from_index(0), Pallet::id_from_index(1));
}

#[test]
fn create_stores_fund_and_takes_deposit() {
    let mut w = world();
    let r = w.funds.create(&w.accounts, &mut w.ledger, CREATOR, BENEFICIARY, 50, 20, 1);
    assert_eq!(r, Ok(Event::Created(0, 1, 31)));
    assert_eq!(w.funds.fund_count(), 1);
    assert_eq!(
        w.funds.funds(0),
        Some(FundInfo {
            fundnum: 0,
            creater: CREATOR,
            beneficiary: BENEFICIARY,
            deposit: 10,
            raised: 0,
            start: 1,
            end: 31,
            goal: 50,
            totalvote: 0,
            voteflag: false,
        })
    );
    assert_eq!(w.ledger.free_balance(CREATOR), 990);
    assert_eq!(w.ledger.free_balance(pot()), 10);
    let r = w.funds.create(&w.accounts, &mut w.ledger, CREATOR, BENEFICIARY, 50, 5, 3);
    assert_eq!(r, Ok(Event::Created(1, 3, 18)));
    assert_eq!(w.funds.fund_count(), 2);
}

#[test]
fn create_errors() {
    let mut w = world();
    assert_eq!(
        w.funds.create(&w.accounts, &mut w.ledger, 99, BENEFICIARY, 50, 20, 1),
        Err(fr(Error::InvalidAccount))
    );
    assert_eq!(
        w.funds.create(&w.accounts, &mut w.ledger, CREATOR, BENEFICIARY, 50, 0, 1),
        Err(fr(Error::EndTooEarly))
    );
    w.ledger.make_free_balance_be(CREATOR, 9);
    assert_eq!(
        w.funds.create(&w.accounts, &mut w.ledger, CREATOR, BENEFICIARY, 50, 20, 1),
        Err(DispatchError::Currency(currency::Error::InsufficientBalance))
    );
    assert_eq!(w.funds.fund_count(), 0);
    assert_eq!(w.ledger.free_balance(CREATOR), 9);
}

#[test]
fn vote_records_members_and_raises_flag() {
    let mut w = world();
    w.funds.create(&w.accounts, &mut w.ledger, CREATOR, BENEFICIARY, 50, 20, 1).unwrap();
    assert_eq!(w.funds.vote(&w.accounts, SYS_A, 0, 5), Ok(Event::Voted(SYS_A, 0, 1, 5)));
    assert!(!w.funds.funds(0).unwrap().voteflag);
    assert_eq!(w.funds.vote(&w.accounts, SYS_B, 0, 10), Ok(Event::Voted(SYS_B, 0, 2, 10)));
    let f = w.funds.funds(0).unwrap();
    assert_eq!(f.totalvote, 2);
    assert!(f.voteflag);
    assert_eq!(w.funds.memberlist(0, 0), Some(SYS_A));
    assert_eq!(w.funds.memberlist(0, 1), Some(SYS_B));
    assert_eq!(w.funds.memberlist(0, 2), None);
    // the vote mark does not read as a contribution
    assert_eq!(w.funds.contribution_get(0, SYS_A), 0);
    assert_eq!(w.funds.vote_get(0, SYS_A), 1);
    assert_eq!(w.funds.vote_get(0, CONTRIBUTOR), 0);
}

#[test]
fn vote_errors() {
    let mut w = world();
    w.funds.create(&w.accounts, &mut w.ledger, CREATOR, BENEFICIARY, 50, 20, 1).unwrap();
    assert_eq!(w.funds.vote(&w.accounts, 99, 0, 5), Err(fr(Error::InvalidAccount)));
    assert_eq!(w.funds.vote(&w.accounts, CONTRIBUTOR, 0, 5), Err(fr(Error::NotEnoughScore)));
    assert_eq!(w.funds.vote(&w.accounts, SYS_A, 9, 5), Err(fr(Error::InvalidIndex)));
    assert_eq!(w.funds.vote(&w.accounts, SYS_A, 0, 11), Err(fr(Error::CannnotVote)));
    assert_eq!(w.funds.funds(0).unwrap().totalvote, 0);
}

#[test]
fn vote_twice_fails() {
    let mut w = world();
    w.funds.create(&w.accounts, &mut w.ledger, CREATOR, BENEFICIARY, 50, 20, 1).unwrap();
    assert_eq!(w.funds.vote(&w.accounts, SYS_A, 0, 5), Ok(Event::Voted(SYS_A, 0, 1, 5)));
    assert_eq!(w.funds.vote(&w.accounts, SYS_A, 0, 6), Err(fr(Error::Alreadyvoted)));
    assert_eq!(w.funds.funds(0).unwrap().totalvote, 1);
    assert_eq!(w.funds.memberlist(0, 1), None);
}

#[test]
fn contribute_moves_value_into_pot() {
    let mut w = voted_world(500);
    let r = w.funds.contribute(&mut w.ledger, CONTRIBUTOR, 0, 100, 12);
    assert_eq!(r, Ok(Event::Contributed(CONTRIBUTOR, 0, 100, 12)));
    let r = w.funds.contribute(&mut w.ledger, CONTRIBUTOR, 0, 20, 13);
    assert_eq!(r, Ok(Event::Contributed(CONTRIBUTOR, 0, 120, 13)));
    assert_eq!(w.funds.funds(0).unwrap().raised, 120);
    assert_eq!(w.funds.contribution_get(0, CONTRIBUTOR), 120);
    assert_eq!(w.ledger.free_balance(CONTRIBUTOR), 880);
    assert_eq!(w.ledger.free_balance(pot()), 130);
}

#[test]
fn contribute_errors() {
    let mut w = world();
    w.funds.create(&w.accounts, &mut w.ledger, CREATOR, BENEFICIARY, 50, 20, 1).unwrap();
    assert_eq!(w.funds.contribute(&mut w.ledger, CONTRIBUTOR, 0, 4, 12), Err(fr(Error::ContributionTooSmall)));
    assert_eq!(w.funds.contribute(&mut w.ledger, CONTRIBUTOR, 5, 10, 12), Err(fr(Error::InvalidIndex)));
    assert_eq!(w.funds.contribute(&mut w.ledger, CONTRIBUTOR, 0, 10, 12), Err(fr(Error::CannotContribution)));
    w.funds.vote(&w.accounts, SYS_A, 0, 5).unwrap();
    w.funds.vote(&w.accounts, SYS_B, 0, 5).unwrap();
    assert_eq!(w.funds.contribute(&mut w.ledger, CONTRIBUTOR, 0, 10, 11), Err(fr(Error::VoteStillActive)));
    assert_eq!(w.funds.contribute(&mut w.ledger, CONTRIBUTOR, 0, 10, 31), Err(fr(Error::ContributionPeriodOver)));
    assert_eq!(w.funds.contribute(&mut w.ledger, CONTRIBUTOR, 0, 51, 12), Err(fr(Error::ContributionOverGoal)));
    assert_eq!(
        w.funds.contribute(&mut w.ledger, 77, 0, 10, 12),
        Err(DispatchError::Currency(currency::Error::InsufficientBalance))
    );
    assert_eq!(w.funds.funds(0).unwrap().raised, 0);
    assert_eq!(w.ledger.free_balance(pot()), 10);
}

#[test]
fn dispense_pays_beneficiary_voters_and_caller() {
    let mut w = voted_world(100);
    w.funds.contribute(&mut w.ledger, CONTRIBUTOR, 0, 100, 12).unwrap();
    assert_eq!(w.funds.dispense(&mut w.ledger, OTHER, 0, 31), Err(fr(Error::FundStillActive)));
    assert_eq!(w.funds.dispense(&mut w.ledger, OTHER, 0, 32), Ok(Event::Dispensed(0, 32, OTHER)));
    // gross share (100 / 10) / 2 = 5; beneficiary 100 - 10 = 90; share 5 - 5 / 10 = 5
    assert_eq!(w.ledger.free_balance(BENEFICIARY), 90);
    assert_eq!(w.ledger.free_balance(SYS_A), 5);
    assert_eq!(w.ledger.free_balance(SYS_B), 5);
    assert_eq!(w.ledger.free_balance(OTHER), 1010);
    assert_eq!(w.ledger.free_balance(pot()), 0);
    assert_eq!(w.funds.funds(0), None);
    assert_eq!(w.funds.contribution_get(0, CONTRIBUTOR), 0);
    assert_eq!(w.funds.memberlist(0, 0), Some(SYS_A));
}

#[test]
fn dispense_keeps_back_part_of_voter_share() {
    let mut w = voted_world(999);
    w.funds.contribute(&mut w.ledger, CONTRIBUTOR, 0, 999, 12).unwrap();
    w.funds.dispense(&mut w.ledger, OTHER, 0, 40).unwrap();
    // gross share (999 / 10) / 2 = 49; beneficiary 999 - 98 = 901; share 49 - 4 = 45
    assert_eq!(w.ledger.free_balance(BENEFICIARY), 901);
    assert_eq!(w.ledger.free_balance(SYS_A), 45);
    assert_eq!(w.ledger.free_balance(SYS_B), 45);
    assert_eq!(w.ledger.free_balance(pot()), 8);
}

#[test]
fn dispense_errors() {
    let mut w = voted_world(500);
    w.funds.contribute(&mut w.ledger, CONTRIBUTOR, 0, 100, 12).unwrap();
    assert_eq!(w.funds.dispense(&mut w.ledger, OTHER, 3, 40), Err(fr(Error::InvalidIndex)));
    assert_eq!(w.funds.dispense(&mut w.ledger, OTHER, 0, 40), Err(fr(Error::UnsuccessfulFund)));
    assert_eq!(w.ledger.free_balance(pot()), 110);
}

#[test]
fn dispense_changes_nothing_when_pot_cannot_cover() {
    let mut w = voted_world(100);
    w.funds.contribute(&mut w.ledger, CONTRIBUTOR, 0, 100, 12).unwrap();
    w.ledger.make_free_balance_be(pot(), 93);
    assert_eq!(
        w.funds.dispense(&mut w.ledger, OTHER, 0, 32),
        Err(DispatchError::Currency(currency::Error::InsufficientBalance))
    );
    // the pot covers the beneficiary (90) but not both voters (5 each): no payout is made
    assert_eq!(w.ledger.free_balance(BENEFICIARY), 0);
    assert_eq!(w.ledger.free_balance(SYS_A), 0);
    assert_eq!(w.ledger.free_balance(OTHER), 1000);
    assert_eq!(w.ledger.free_balance(pot()), 93);
    assert!(w.funds.funds(0).is_some());
    assert_eq!(w.funds.contribution_get(0, CONTRIBUTOR), 100);
}

#[test]
fn withdraw_refunds_contribution_after_end() {
    let mut w = voted_world(5000);
    w.funds.contribute(&mut w.ledger, CONTRIBUTOR, 0, 100, 12).unwrap();
    assert_eq!(w.funds.withdraw(&mut w.ledger, CONTRIBUTOR, 0, 31), Err(fr(Error::FundStillActive)));
    assert_eq!(w.funds.withdraw(&mut w.ledger, SYS_A, 0, 32), Err(fr(Error::NoContribution)));
    assert_eq!(w.funds.withdraw(&mut w.ledger, CONTRIBUTOR, 7, 32), Err(fr(Error::InvalidIndex)));
    assert_eq!(w.funds.withdraw(&mut w.ledger, CONTRIBUTOR, 0, 32), Ok(Event::Withdrew(CONTRIBUTOR, 0, 100, 32)));
    assert_eq!(w.ledger.free_balance(CONTRIBUTOR), 1000);
    assert_eq!(w.funds.funds(0).unwrap().raised, 0);
    assert_eq!(w.funds.contribution_get(0, CONTRIBUTOR), 0);
    assert_eq!(w.funds.withdraw(&mut w.ledger, CONTRIBUTOR, 0, 33), Err(fr(Error::NoContribution)));
}

#[test]
fn withdraw_to_reaped_account_drops_refund() {
    let mut w = voted_world(5000);
    w.funds.contribute(&mut w.ledger, OTHER, 0, 1000, 12).unwrap();
    assert!(!w.ledger.account_exists(OTHER));
    assert_eq!(w.funds.withdraw(&mut w.ledger, OTHER, 0, 32), Ok(Event::Withdrew(OTHER, 0, 1000, 32)));
    assert_eq!(w.ledger.free_balance(OTHER), 0);
    assert_eq!(w.ledger.free_balance(pot()), 10);
}

#[test]
fn dissolve_gives_reporter_deposit_and_raised() {
    let mut w = voted_world(100);
    w.funds.contribute(&mut w.ledger, CONTRIBUTOR, 0, 100, 12).unwrap();
    assert_eq!(w.funds.dissolve(&mut w.ledger, OTHER, 4, 32), Err(fr(Error::InvalidIndex)));
    assert_eq!(w.funds.dissolve(&mut w.ledger, OTHER, 0, 13), Err(fr(Error::FundNotRetired)));
    assert_eq!(w.funds.dissolve(&mut w.ledger, OTHER, 0, 31), Err(fr(Error::FundNotRetired)));
    assert_eq!(w.funds.dissolve(&mut w.ledger, OTHER, 0, 32), Ok(Event::Dissolved(0, 32, OTHER)));
    assert_eq!(w.ledger.free_balance(OTHER), 1110);
    assert_eq!(w.ledger.free_balance(pot()), 0);
    assert_eq!(w.funds.funds(0), None);
    assert_eq!(w.funds.contribution_get(0, CONTRIBUTOR), 0);
}

#[test]
fn dissolve_fails_when_pot_is_short() {
    let mut w = voted_world(100);
    w.funds.contribute(&mut w.ledger, CONTRIBUTOR, 0, 100, 12).unwrap();
    w.ledger.make_free_balance_be(pot(), 100);
    assert_eq!(
        w.funds.dissolve(&mut w.ledger, OTHER, 0, 32),
        Err(DispatchError::Currency(currency::Error::InsufficientBalance))
    );
    assert!(w.funds.funds(0).is_some());
}

#[test]
fn contribution_check_outcomes() {
    let mut w = voted_world(100);
    w.funds.contribute(&mut w.ledger, CONTRIBUTOR, 0, 100, 12).unwrap();
    assert_eq!(w.funds.contribution_check(CONTRIBUTOR, 1, 40), Err(fr(Error::InvalidIndex)));
    assert_eq!(w.funds.contribution_check(CONTRIBUTOR, 0, 31), Err(fr(Error::FundStillActive)));
    assert_eq!(w.funds.contribution_check(OTHER, 0, 32), Err(fr(Error::NoContribution)));
    assert_eq!(w.funds.contribution_check(CONTRIBUTOR, 0, 32), Ok(()));
}

#[test]
fn child_trie_read_after_write() {
    let mut w = world();
    w.funds.contribution_put(5, 1, 42);
    assert_eq!(w.funds.contribution_get(5, 1), 42);
    assert_eq!(w.funds.vote_get(5, 1), 42);
    assert_eq!(w.funds.contribution_get(5, 2), 0);
    assert_eq!(w.funds.contribution_get(6, 1), 0);
    w.funds.vote_put(5, 2);
    assert_eq!(w.funds.vote_get(5, 2), 1);
    assert_eq!(w.funds.contribution_get(5, 2), 0);
    assert_eq!(w.funds.contribution_get(5, 1), 42);
    // a vote and a contribution of one account share one record
    w.funds.vote_put(5, 1);
    assert_eq!(w.funds.vote_get(5, 1), 1);
    assert_eq!(w.funds.contribution_get(5, 1), 0);
    w.funds.contribution_kill(5, 1);
    assert_eq!(w.funds.contribution_get(5, 1), 0);
    assert_eq!(w.funds.vote_get(5, 1), 0);
    w.funds.contribution_put(5, 3, 9);
    w.funds.vote_kill(5, 3);
    assert_eq!(w.funds.vote_get(5, 3), 0);
    assert_eq!(w.funds.contribution_get(5, 3), 0);
    w.funds.contribution_put(5, 4, 8);
    w.funds.contribution_put(6, 4, 8);
    w.funds.crowdfund_kill(5);
    assert_eq!(w.funds.contribution_get(5, 4), 0);
    assert_eq!(w.funds.vote_get(5, 2), 0);
    assert_eq!(w.funds.contribution_get(6, 4), 8);
}

#[test]
fn voter_contribution_replaces_vote_mark() {
    let mut w = voted_world(500);
    assert_eq!(w.funds.vote_get(0, SYS_A), 1);
    w.ledger.make_free_balance_be(SYS_A, 100);
    assert_eq!(w.funds.contribute(&mut w.ledger, SYS_A, 0, 30, 12), Ok(Event::Contributed(SYS_A, 0, 30, 12)));
    assert_eq!(w.funds.contribution_get(0, SYS_A), 30);
    assert_eq!(w.funds.vote_get(0, SYS_A), 30);
    assert_eq!(w.funds.funds(0).unwrap().raised, 30);
}

#[test]
fn dissolve_reports_not_retired_before_summing() {
    let mut w = world();
    w.ledger.make_free_balance_be(CONTRIBUTOR, u64::MAX);
    w.funds.create(&w.accounts, &mut w.ledger, CREATOR, BENEFICIARY, u64::MAX, 20, 1).unwrap();
    w.funds.vote(&w.accounts, SYS_A, 0, 5).unwrap();
    w.funds.vote(&w.accounts, SYS_B, 0, 6).unwrap();
    w.ledger.make_free_balance_be(pot(), 0);
    w.funds.contribute(&mut w.ledger, CONTRIBUTOR, 0, u64::MAX - 5, 12).unwrap();
    assert_eq!(w.funds.dissolve(&mut w.ledger, OTHER, 0, 20), Err(fr(Error::FundNotRetired)));
    assert_eq!(w.funds.funds(0).unwrap().raised, u64::MAX - 5);
}

#[test]
fn config_is_kept() {
    let w = world();
    assert_eq!(w.funds.config(), config());
    assert_eq!(w.funds.fund_count(), 0);
}

#[test]
fn no_block_takes_two_of_vote_contribute_withdraw() {
    const SYS_C: u64 = 12;
    for now in 0..40u64 {
        let mut accounts = account::GenesisConfig { sysman_accountmap: vec![SYS_A, SYS_B, SYS_C] }.build();
        accounts.register_account(CREATOR, vec![]).unwrap();
        let mut w = World { accounts, ledger: Balances::new(), funds: Pallet::new(config()) };
        w.ledger.make_free_balance_be(CREATOR, 1000);
        w.ledger.make_free_balance_be(CONTRIBUTOR, 1000);
        w.ledger.make_free_balance_be(OTHER, 1000);
        w.funds.create(&w.accounts, &mut w.ledger, CREATOR, BENEFICIARY, 500, 20, 1).unwrap();
        w.funds.vote(&w.accounts, SYS_A, 0, 5).unwrap();
        w.funds.vote(&w.accounts, SYS_B, 0, 6).unwrap();
        w.funds.contribute(&mut w.ledger, OTHER, 0, 50, 12).unwrap();
        let voted = w.funds.vote(&w.accounts, SYS_C, 0, now).is_ok();
        let contributed = w.funds.contribute(&mut w.ledger, CONTRIBUTOR, 0, 10, now).is_ok();
        let withdrew = w.funds.withdraw(&mut w.ledger, OTHER, 0, now).is_ok();
        assert!(!(voted && contributed));
        assert!(!(voted && withdrew));
        assert!(!(contributed && withdrew));
        assert_eq!(voted, now < 11);
        assert_eq!(contributed, now > 11 && now < 31);
        assert_eq!(withdrew, now > 31);
    }
}

#[test]
fn raised_is_sum_of_contributions() {
    let mut w = voted_world(500);
    w.funds.contribute(&mut w.ledger, CONTRIBUTOR, 0, 100, 12).unwrap();
    w.funds.contribute(&mut w.ledger, OTHER, 0, 30, 13).unwrap();
    w.funds.contribute(&mut w.ledger, CONTRIBUTOR, 0, 25, 14).unwrap();
    let sum = w.funds.contribution_get(0, CONTRIBUTOR) + w.funds.contribution_get(0, OTHER);
    assert_eq!(sum, 155);
    assert_eq!(w.funds.funds(0).unwrap().raised, sum);
    w.funds.withdraw(&mut w.ledger, OTHER, 0, 32).unwrap();
    assert_eq!(w.funds.funds(0).unwrap().raised, w.funds.contribution_get(0, CONTRIBUTOR));
    assert_eq!(w.funds.funds(0).unwrap().raised, 125);
}

#[test]
fn contribution_reaching_goal_is_accepted_and_next_refused() {
    let mut w = voted_world(100);
    assert_eq!(w.funds.contribute(&mut w.ledger, CONTRIBUTOR, 0, 60, 12), Ok(Event::Contributed(CONTRIBUTOR, 0, 60, 12)));
    assert_eq!(w.funds.contribute(&mut w.ledger, OTHER, 0, 41, 12), Err(fr(Error::ContributionOverGoal)));
    assert_eq!(w.funds.contribute(&mut w.ledger, OTHER, 0, 40, 12), Ok(Event::Contributed(OTHER, 0, 40, 12)));
    assert_eq!(w.funds.funds(0).unwrap().raised, 100);
    assert_eq!(w.ledger.free_balance(OTHER), 960);
}

#[test]
fn contribute_then_withdraw_restores() {
    let mut w = voted_world(500);
    let before_fund = w.funds.funds(0).unwrap();
    let before_pot = w.ledger.free_balance(pot());
    w.funds.contribute(&mut w.ledger, CONTRIBUTOR, 0, 70, 12).unwrap();
    assert_eq!(w.ledger.free_balance(CONTRIBUTOR), 930);
    assert_eq!(w.funds.withdraw(&mut w.ledger, CONTRIBUTOR, 0, 32), Ok(Event::Withdrew(CONTRIBUTOR, 0, 70, 32)));
    assert_eq!(w.ledger.free_balance(CONTRIBUTOR), 1000);
    assert_eq!(w.ledger.free_balance(pot()), before_pot);
    assert_eq!(w.funds.funds(0).unwrap(), before_fund);
    assert_eq!(w.funds.contribution_get(0, CONTRIBUTOR), 0);
}

#[test]
fn dissolve_waits_for_retirement_period() {
    let mut w = world();
    w.funds = Pallet::new(Config { retirement_period: 5, ..config() });
    w.funds.create(&w.accounts, &mut w.ledger, CREATOR, BENEFICIARY, 50, 20, 1).unwrap();
    assert_eq!(w.funds.dissolve(&mut w.ledger, OTHER, 0, 32), Err(fr(Error::FundNotRetired)));
    assert_eq!(w.funds.dissolve(&mut w.ledger, OTHER, 0, 36), Err(fr(Error::FundNotRetired)));
    assert_eq!(w.funds.dissolve(&mut w.ledger, OTHER, 0, 37), Ok(Event::Dissolved(0, 37, OTHER)));
    assert_eq!(w.ledger.free_balance(OTHER), 1010);
}

fn owed(w: &World, count: u32) -> u64 {
    (0..count).filter_map(|i| w.funds.funds(i)).map(|f| f.deposit + f.raised).sum()
}

#[test]
fn pot_keeps_covering_live_funds() {
    let mut w = voted_world(500);
    w.funds.create(&w.accounts, &mut w.ledger, CREATOR, BENEFICIARY, 80, 5, 2).unwrap();
    assert!(w.ledger.free_balance(pot()) >= owed(&w, 2));
    w.funds.contribute(&mut w.ledger, CONTRIBUTOR, 0, 100, 12).unwrap();
    w.funds.contribute(&mut w.ledger, OTHER, 0, 40, 13).unwrap();
    assert_eq!(owed(&w, 2), 160);
    assert!(w.ledger.free_balance(pot()) >= owed(&w, 2));
    assert!(w.funds.withdraw(&mut w.ledger, OTHER, 0, 32).is_ok());
    assert!(w.ledger.free_balance(pot()) >= owed(&w, 2));
    assert!(w.funds.dissolve(&mut w.ledger, SYS_A, 1, 40).is_ok());
    assert!(w.ledger.free_balance(pot()) >= owed(&w, 2));
    assert!(w.funds.dispense(&mut w.ledger, OTHER, 0, 40).is_err());
    assert!(w.funds.withdraw(&mut w.ledger, CONTRIBUTOR, 0, 40).is_ok());
    assert!(w.ledger.free_balance(pot()) >= owed(&w, 2));
    assert!(w.funds.dissolve(&mut w.ledger, SYS_A, 0, 40).is_ok());
    assert_eq!(owed(&w, 2), 0);
    assert_eq!(w.ledger.free_balance(pot()), 0);
}
