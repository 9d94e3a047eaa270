//! The fund-raising pallet: registered accounts create funds, voters with a
//! high enough score vote for them during the voting period, and once a fund
//! has enough votes anyone may contribute until its end, up to its goal.
//! Afterwards the fund is dispensed to its beneficiary and voters, withdrawn
//! from, or, once retired, dissolved.
//!
//! Each fund keeps a child trie with one record per account: its vote mark
//! or its contribution. Every fund's currency lives in the pot account
//! `fund_account_id(index)`. A call that fails changes nothing.
use vstd::prelude::*;
use vstd::hash_map::HashMapWithView;
use frame_support::PalletId;
use frame_support::sp_runtime::traits::AccountIdConversion;
use frame_support::sp_runtime::traits::BlakeTwo256;
use crate::account;
use crate::account::Account;
use crate::currency;
use crate::currency::Balances;
use crate::dispatch::DispatchError;

verus! {

broadcast use vstd::std_specs::hash::group_hash_axioms;

/// Simple index for identifying a fund.
pub type FundIndex = u32;

/// The information kept for a fund.
#[derive(Clone, Copy, Debug, PartialEq, Eq, Default, Structural)]
pub struct FundInfo {
    /// The index of the fund.
    pub fundnum: u32,
    /// The account that created the fund.
    pub creater: u64,
    /// The account that receives the funds if the campaign is successful.
    pub beneficiary: u64,
    /// The amount of deposit placed.
    pub deposit: u64,
    /// The total amount raised.
    pub raised: u64,
    /// Block at which the fund was created.
    pub start: u64,
    /// Block after which contributions end.
    pub end: u64,
    /// The amount the fund must raise to be dispensed.
    pub goal: u64,
    /// The number of votes cast.
    pub totalvote: u64,
    /// Whether the fund has received enough votes.
    pub voteflag: bool,
}

/// The constants the runtime gives the pallet.
#[derive(Clone, Copy, Debug, PartialEq, Eq, Structural)]
pub struct Config {
    /// Deposit taken from the creator of a fund.
    pub submission_deposit: u64,
    /// The smallest accepted contribution.
    pub min_contribution: u64,
    /// Divisor of the raised amount that gives the voters' part.
    pub fee_percent: u64,
    /// Divisor of a voter's share that is kept back in the pot.
    pub percent: u64,
    /// Number of votes a fund needs before it accepts contributions.
    pub min_votenum: u64,
    /// Blocks after its end that a fund must wait before it may be dissolved.
    pub retirement_period: u64,
    /// Length of the voting period, in blocks, after creation.
    pub voting_period: u64,
}
/// Events of the fund-raising pallet.
#[derive(Clone, Copy, Debug, PartialEq, Eq, Structural)]
pub enum Event {
    /// (index, start, end)
    Created(u32, u64, u64),
    /// (voter, index, total votes, block)
    Voted(u64, u32, u64, u64),
    /// (contributor, index, contributor's balance, block)
    Contributed(u64, u32, u64, u64),
    /// (contributor, index, amount, block)
    Withdrew(u64, u32, u64, u64),
    /// (index, block)
    Retiring(u32, u64),
    /// (index, block, reporter)
    Dissolved(u32, u64, u64),
    /// (index, block, caller)
    Dispensed(u32, u64, u64),
}

/// Errors of the fund-raising pallet.
#[derive(Clone, Copy, Debug, PartialEq, Eq, Structural)]
pub enum Error {
    /// Crowdfund must end after it starts.
    EndTooEarly,
    /// Must contribute at least the minimum amount of funds.
    ContributionTooSmall,
    /// The fund index specified does not exist.
    InvalidIndex,
    /// The account does not exist.
    InvalidAccount,
    /// The contribution period has ended.
    ContributionPeriodOver,
    /// The contribution would take the raised amount past the goal.
    ContributionOverGoal,
    /// The fund is still active.
    FundStillActive,
    /// The voting period of the fund is still running.
    VoteStillActive,
    /// The account has not contributed.
    NoContribution,
    /// The fund has not completed its retirement period.
    FundNotRetired,
    /// The fund did not reach its goal.
    UnsuccessfulFund,
    /// The account already voted.
    Alreadyvoted,
    /// The fund does not have enough votes for contributions.
    CannotContribution,
    /// The voting period is over.
    CannnotVote,
    NotEnoughAmount,
    NotEnoughScore,
    NotVoterAccount,
}
/// The score an account needs to vote.
pub const VOTE_SCORE: i32 = 200;

/// The pallet id from which the pot account is derived.
pub const PALLET_ID: [u8; 8] = [0x65, 0x78, 0x2f, 0x63, 0x66, 0x75, 0x6e, 0x64];

/// The type id under which a pallet's accounts are derived (`b"modl"`).
pub open spec fn pallet_type_id() -> Seq<u8> {
    seq![0x6du8, 0x6fu8, 0x64u8, 0x6cu8]
}

/// The little-endian bytes of `x`.
pub open spec fn le_bytes_u32(x: u32) -> Seq<u8> {
    seq![
        (x % 256) as u8,
        ((x / 256) % 256) as u8,
        ((x / 65536) % 256) as u8,
        ((x / 16777216) % 256) as u8,
    ]
}

/// The unsigned number whose little-endian bytes are `b`.
pub open spec fn le_value(b: Seq<u8>) -> nat
    decreases b.len(),
{
    if b.len() == 0 {
        0
    } else {
        b[0] as nat + 256 * le_value(b.drop_first())
    }
}

/// The `u64` account decoded from `seed` padded with trailing zeroes: the
/// little-endian value of its first eight bytes.
pub open spec fn truncated_account(seed: Seq<u8>) -> u64 {
    if seed.len() >= 8 {
        le_value(seed.take(8)) as u64
    } else {
        le_value(seed) as u64
    }
}

/// The sub-account of pallet `pallet_id` for `index`: the type id, the
/// pallet id and the index, encoded, truncated to an account.
pub open spec fn pallet_sub_account(pallet_id: Seq<u8>, index: u32) -> u64 {
    truncated_account(pallet_type_id() + pallet_id + le_bytes_u32(index))
}

/// The pot account of fund `index`.
pub open spec fn fund_account(index: u32) -> u64 {
    pallet_sub_account(PALLET_ID@, index)
}

/// The bytes hashed to name the child trie of fund `index`:
/// `b"crowdfnd"` followed by the index in little-endian.
pub open spec fn child_trie_seed(index: u32) -> Seq<u8> {
    seq![0x63u8, 0x72u8, 0x6fu8, 0x77u8, 0x64u8, 0x66u8, 0x6eu8, 0x64u8] + le_bytes_u32(index)
}

/// With eight-byte account ids, the pot account does not depend on the fund:
/// the seed is truncated inside the pallet id, so every fund shares the
/// account whose bytes are `b"modlex/c"`.
pub proof fn lemma_fund_account_shared(index: u32)
    ensures
        fund_account(index) == 0x632f_7865_6c64_6f6d,
{
    let seed = pallet_type_id() + PALLET_ID@ + le_bytes_u32(index);
    let head = seed.take(8);
    assert(head =~= seq![0x6du8, 0x6fu8, 0x64u8, 0x6cu8, 0x65u8, 0x78u8, 0x2fu8, 0x63u8]);
    reveal_with_fuel(le_value, 9);
    assert(le_value(head) == 0x632f_7865_6c64_6f6d);
}

/// The BLAKE2b-256 digest of `data`.
pub uninterp spec fn blake2_256_of(data: Seq<u8>) -> Seq<u8>;

/// Calls `AccountIdConversion::into_sub_account_truncating` of the runtime
/// library on `PalletId(pallet_id)` with `index` as the sub-seed, for `u64`
/// account ids. Claimed, from the documented format (type id `b"modl"`,
/// then the encoded pallet id and sub-seed, then trailing zeroes, decoded
/// into the account type): the result is the little-endian value of the first
/// eight bytes of that seed.
#[verifier::external_body]
fn into_sub_account_truncating(pallet_id: [u8; 8], index: u32) -> (r: u64)
    ensures
        r == pallet_sub_account(pallet_id@, index),
{
    AccountIdConversion::<u64>::into_sub_account_truncating(&PalletId(pallet_id), index)
}

/// Calls `BlakeTwo256::hash` of the runtime library on `data` and returns
/// the bytes of the digest. Claimed: the result is the digest of `data` (a
/// name, not stated further) and is thirty-two bytes long.
#[verifier::external_body]
fn blake2_256(data: &[u8]) -> (r: Vec<u8>)
    ensures
        r@ == blake2_256_of(data@),
        r@.len() == 32,
{
    <BlakeTwo256 as frame_support::sp_runtime::traits::Hash>::hash(data).as_ref().to_vec()
}

/// The key under which member number `n` of fund `index` is stored.
pub open spec fn member_key(index: u32, n: u64) -> u128 {
    (index as int * 0x1_0000_0000_0000_0000 + n as int) as u128
}

/// A record in a fund's child trie. Votes and contributions share one
/// record per account: a vote writes the mark 1, a contribution its
/// balance, and removing either removes the record.
#[derive(Clone, Copy, Debug, PartialEq, Eq, Structural)]
pub enum ChildRecord {
    Vote,
    Contribution(u64),
}

/// The abstract state of the pallet.
#[verifier::ext_equal]
pub struct FundState {
    /// The runtime constants.
    pub config: Config,
    /// The live funds, by index.
    pub funds: Map<u32, FundInfo>,
    /// The number of funds ever created (the next index).
    pub count: u32,
    /// The voters of each fund, by fund and vote number.
    pub members: Map<(u32, u64), u64>,
    /// The records of the funds' child tries: one per fund and account.
    pub records: Map<(u32, u64), ChildRecord>,
}

/// The balance a record reads as: the amount of a contribution; a vote
/// mark is no balance and reads as zero.
pub open spec fn record_balance(r: ChildRecord) -> u64 {
    match r {
        ChildRecord::Vote => 0,
        ChildRecord::Contribution(b) => b,
    }
}

/// What a record reads as when looked up as a vote: a vote mark reads as
/// the recorded 1, a contribution as its amount.
pub open spec fn record_vote(r: ChildRecord) -> u64 {
    match r {
        ChildRecord::Vote => 1,
        ChildRecord::Contribution(b) => b,
    }
}

/// The vote read for `who` in fund `index` (zero if there is no record).
pub open spec fn vote_of(s: FundState, index: u32, who: u64) -> u64 {
    if s.records.contains_key((index, who)) {
        record_vote(s.records[(index, who)])
    } else {
        0
    }
}

/// The contribution read for `who` in fund `index` (zero if there is no
/// record).
pub open spec fn contribution_of(s: FundState, index: u32, who: u64) -> u64 {
    if s.records.contains_key((index, who)) {
        record_balance(s.records[(index, who)])
    } else {
        0
    }
}

/// The balances recorded for fund `index` in `m`, by account.
pub open spec fn fund_records(m: Map<(u32, u64), ChildRecord>, index: u32) -> Map<u64, u64> {
    Map::new(|w: u64| m.contains_key((index, w)), |w: u64| record_balance(m[(index, w)]))
}

/// `m` without the records of fund `index`.
pub open spec fn without_fund_records(m: Map<(u32, u64), ChildRecord>, index: u32) -> Map<
    (u32, u64),
    ChildRecord,
> {
    Map::new(|k: (u32, u64)| m.contains_key(k) && k.0 != index, |k: (u32, u64)| m[k])
}

/// The state with the record of `who` in fund `index` set to a vote mark.
pub open spec fn with_vote(s: FundState, index: u32, who: u64) -> FundState {
    FundState { records: s.records.insert((index, who), ChildRecord::Vote), ..s }
}

/// The state with the record of `who` in fund `index` set to a contribution
/// of `b`.
pub open spec fn with_contribution(s: FundState, index: u32, who: u64, b: u64) -> FundState {
    FundState { records: s.records.insert((index, who), ChildRecord::Contribution(b)), ..s }
}

/// The state with the record of `who` in fund `index` removed, vote or
/// contribution.
pub open spec fn without_record(s: FundState, index: u32, who: u64) -> FundState {
    FundState { records: s.records.remove((index, who)), ..s }
}

/// The state with the whole child trie of fund `index` removed.
pub open spec fn without_trie(s: FundState, index: u32) -> FundState {
    FundState { records: without_fund_records(s.records, index), ..s }
}

/// The state with fund `index` removed from the live funds.
pub open spec fn without_fund(s: FundState, index: u32) -> FundState {
    FundState { funds: s.funds.remove(index), ..s }
}

/// The state with fund `index` set to `f`.
pub open spec fn with_fund(s: FundState, index: u32, f: FundInfo) -> FundState {
    FundState { funds: s.funds.insert(index, f), ..s }
}

/// The state after fund `index` is closed: the fund and its child trie are
/// removed.
pub open spec fn closed(s: FundState, index: u32) -> FundState {
    without_trie(without_fund(s, index), index)
}

/// The sum of the values of the finite map `m`.
pub open spec fn map_sum<K>(m: Map<K, u64>) -> nat
    decreases m.dom().len(),
    when m.dom().finite()
{
    if m.dom().len() == 0 {
        0
    } else {
        let k = m.dom().choose();
        m[k] as nat + map_sum(m.remove(k))
    }
}

/// The sum of the contributions recorded for fund `index`.
pub open spec fn contributions_total(s: FundState, index: u32) -> nat {
    map_sum(fund_records(s.records, index))
}

/// The sum of a finite map is any one of its values plus the sum of the rest.
proof fn lemma_map_sum_remove<K>(m: Map<K, u64>, k: K)
    requires
        m.dom().finite(),
        m.contains_key(k),
    ensures
        map_sum(m) == m[k] + map_sum(m.remove(k)),
    decreases m.dom().len(),
{
    let c = m.dom().choose();
    if c != k {
        lemma_map_sum_remove(m.remove(c), k);
        lemma_map_sum_remove(m.remove(k), c);
        assert(m.remove(c).remove(k) =~= m.remove(k).remove(c));
    }
}

/// The sum after setting key `k` to `v`, against the sum before.
proof fn lemma_map_sum_set<K>(m: Map<K, u64>, k: K, v: u64)
    requires
        m.dom().finite(),
    ensures
        map_sum(m.insert(k, v)) + (if m.contains_key(k) { m[k] as nat } else { 0 }) == map_sum(m)
            + v,
{
    lemma_map_sum_remove(m.insert(k, v), k);
    assert(m.insert(k, v).remove(k) =~= m.remove(k));
    if m.contains_key(k) {
        lemma_map_sum_remove(m, k);
    } else {
        assert(m.remove(k) =~= m);
    }
}

/// The sum after removing key `k`, against the sum before.
proof fn lemma_map_sum_unset<K>(m: Map<K, u64>, k: K)
    requires
        m.dom().finite(),
    ensures
        map_sum(m.remove(k)) + (if m.contains_key(k) { m[k] as nat } else { 0 }) == map_sum(m),
{
    if m.contains_key(k) {
        lemma_map_sum_remove(m, k);
    } else {
        assert(m.remove(k) =~= m);
    }
}

/// Setting or removing one record changes the records of its fund by that
/// record only, and leaves the records of other funds as they were.
proof fn lemma_fund_records_update(
    m: Map<(u32, u64), ChildRecord>,
    index: u32,
    who: u64,
    r: ChildRecord,
    j: u32,
)
    ensures
        fund_records(m.insert((index, who), r), index) == fund_records(m, index).insert(
            who,
            record_balance(r),
        ),
        fund_records(m.remove((index, who)), index) == fund_records(m, index).remove(who),
        j != index ==> fund_records(m.insert((index, who), r), j) == fund_records(m, j),
        j != index ==> fund_records(m.remove((index, who)), j) == fund_records(m, j),
        fund_records(without_fund_records(m, index), index) == Map::<u64, u64>::empty(),
        j != index ==> fund_records(without_fund_records(m, index), j) == fund_records(m, j),
{
    assert(fund_records(m.insert((index, who), r), index) =~= fund_records(m, index).insert(
        who,
        record_balance(r),
    ));
    assert(fund_records(m.remove((index, who)), index) =~= fund_records(m, index).remove(who));
    assert(fund_records(without_fund_records(m, index), index) =~= Map::<u64, u64>::empty());
    if j != index {
        assert(fund_records(m.insert((index, who), r), j) =~= fund_records(m, j));
        assert(fund_records(m.remove((index, who)), j) =~= fund_records(m, j));
        assert(fund_records(without_fund_records(m, index), j) =~= fund_records(m, j));
    }
}


/// The ledger after paying out `payouts` in order from `from`: each payout
/// withdraws its amount from `from` and credits it to its recipient
/// (creating the account). Payment stops at the first amount that `from`
/// cannot cover; the flag says whether every payout was made.
pub open spec fn pay_all(ledger: Map<u64, u64>, from: u64, payouts: Seq<(u64, u64)>) -> (
    Map<u64, u64>,
    bool,
)
    decreases payouts.len(),
{
    if payouts.len() == 0 {
        (ledger, true)
    } else {
        let prev = pay_all(ledger, from, payouts.drop_last());
        let (to, amount) = payouts.last();
        if !prev.1 {
            prev
        } else if currency::can_withdraw(prev.0, from, amount) {
            (
                currency::after_deposit_creating(
                    currency::after_withdraw(prev.0, from, amount),
                    to,
                    amount,
                ),
                true,
            )
        } else {
            (prev.0, false)
        }
    }
}

/// Each voter's share of a dispensed fund before the kept-back part: the
/// raised amount divided by the fee divisor, split evenly over the votes.
pub open spec fn voter_share_gross(f: FundInfo, c: Config) -> u64 {
    ((f.raised / c.fee_percent) / f.totalvote) as u64
}

/// What the beneficiary of a dispensed fund receives: the raised amount less
/// the voters' gross shares.
pub open spec fn beneficiary_amount(f: FundInfo, c: Config) -> u64 {
    (f.raised - voter_share_gross(f, c) * f.totalvote) as u64
}

/// What each vote of a dispensed fund pays: the gross share less its part
/// divided by `percent`, which stays in the pot.
pub open spec fn voter_share(f: FundInfo, c: Config) -> u64 {
    (voter_share_gross(f, c) - voter_share_gross(f, c) / c.percent) as u64
}

/// The payouts of dispensing fund `index` for `caller`: the beneficiary's
/// amount, then one voter share to the voter of each vote in vote order,
/// then the deposit to the caller.
pub open spec fn dispense_payouts(s: FundState, index: u32, caller: u64) -> Seq<(u64, u64)> {
    let f = s.funds[index];
    seq![(f.beneficiary, beneficiary_amount(f, s.config))] + Seq::new(
        f.totalvote as nat,
        |k: int| (s.members[(index, k as u64)], voter_share(f, s.config)),
    ) + seq![(caller, f.deposit)]
}

/// The checks `dispense` makes before paying out.
pub open spec fn dispense_checks(s: FundState, index: u32, now: u64) -> Result<(), DispatchError> {
    if !s.funds.contains_key(index) {
        Err(DispatchError::FundRaising(Error::InvalidIndex))
    } else if !(now > s.funds[index].end) {
        Err(DispatchError::FundRaising(Error::FundStillActive))
    } else if !(s.funds[index].raised >= s.funds[index].goal) {
        Err(DispatchError::FundRaising(Error::UnsuccessfulFund))
    } else {
        Ok(())
    }
}

/// Paying out a sequence whose prefix already failed leaves the ledger where
/// the failure left it.
proof fn lemma_pay_all_failed(ledger: Map<u64, u64>, from: u64, payouts: Seq<(u64, u64)>, j: int)
    requires
        0 <= j <= payouts.len(),
        !pay_all(ledger, from, payouts.take(j)).1,
    ensures
        pay_all(ledger, from, payouts) == pay_all(ledger, from, payouts.take(j)),
    decreases payouts.len(),
{
    if j == payouts.len() {
        assert(payouts.take(j) =~= payouts);
    } else {
        assert(payouts.drop_last().take(j) =~= payouts.take(j));
        lemma_pay_all_failed(ledger, from, payouts.drop_last(), j);
    }
}

/// Paying out one more payout of a sequence extends the run by that payout.
proof fn lemma_pay_all_step(ledger: Map<u64, u64>, from: u64, payouts: Seq<(u64, u64)>, k: int)
    requires
        0 <= k < payouts.len(),
    ensures
        pay_all(ledger, from, payouts.take(k + 1)) == ({
            let prev = pay_all(ledger, from, payouts.take(k));
            let (to, amount) = payouts[k];
            if !prev.1 {
                prev
            } else if currency::can_withdraw(prev.0, from, amount) {
                (
                    currency::after_deposit_creating(
                        currency::after_withdraw(prev.0, from, amount),
                        to,
                        amount,
                    ),
                    true,
                )
            } else {
                (prev.0, false)
            }
        }),
{
    assert(payouts.take(k + 1).drop_last() =~= payouts.take(k));
    assert(payouts.take(k + 1).last() == payouts[k]);
}

/// The voters' gross shares never exceed the raised amount.
proof fn lemma_voter_shares_fit(raised: u64, fee_percent: u64, totalvote: u64)
    requires
        fee_percent > 0,
        totalvote > 0,
    ensures
        ((raised / fee_percent) / totalvote) * totalvote <= raised / fee_percent,
        raised / fee_percent <= raised,
{
    let a = raised / fee_percent;
    assert((a / totalvote) * totalvote <= a) by (nonlinear_arith)
        requires
            totalvote > 0,
            a >= 0,
    ;
    assert(raised / fee_percent <= raised) by (nonlinear_arith)
        requires
            fee_percent > 0,
    ;
}
/// The result of a call whose checks gave `outcome` and which emits `event`
/// on success.
pub open spec fn emit(outcome: Result<(), DispatchError>, event: Event) -> Result<
    Event,
    DispatchError,
> {
    match outcome {
        Ok(_) => Ok(event),
        Err(e) => Err(e),
    }
}

/// `a + b`, or the largest `u64` when the sum does not fit.
pub open spec fn saturating_add(a: u64, b: u64) -> u64 {
    if a + b > u64::MAX {
        u64::MAX
    } else {
        (a + b) as u64
    }
}

/// `a - b`, or zero when `b` exceeds `a`.
pub open spec fn saturating_sub(a: u64, b: u64) -> u64 {
    if a < b {
        0
    } else {
        (a - b) as u64
    }
}

/// The block at which a fund created at `now` with length `end` stops
/// taking contributions: after the voting period and `end` more blocks.
pub open spec fn fund_end(c: Config, end: u64, now: u64) -> u64 {
    (end + c.voting_period + now) as u64
}

/// The checks `create` makes: the creator is registered, the length is not
/// zero, and the creator can pay the deposit.
pub open spec fn create_checks(
    s: FundState,
    accounts: Map<u64, Account>,
    ledger: Map<u64, u64>,
    creater: u64,
    end: u64,
) -> Result<(), DispatchError> {
    if !accounts.contains_key(creater) {
        Err(DispatchError::FundRaising(Error::InvalidAccount))
    } else if end == 0 {
        Err(DispatchError::FundRaising(Error::EndTooEarly))
    } else if !currency::can_withdraw(ledger, creater, s.config.submission_deposit) {
        Err(DispatchError::Currency(currency::Error::InsufficientBalance))
    } else {
        Ok(())
    }
}

/// The fund that `create` stores.
pub open spec fn created_fund(
    s: FundState,
    creater: u64,
    beneficiary: u64,
    goal: u64,
    end: u64,
    now: u64,
) -> FundInfo {
    FundInfo {
        fundnum: s.count,
        creater: creater,
        beneficiary: beneficiary,
        deposit: s.config.submission_deposit,
        raised: 0,
        start: now,
        end: fund_end(s.config, end, now),
        goal: goal,
        totalvote: 0,
        voteflag: false,
    }
}
/// The checks `contribute` makes, the transfer into the pot included.
pub open spec fn contribute_checks(
    s: FundState,
    ledger: Map<u64, u64>,
    who: u64,
    index: u32,
    value: u64,
    now: u64,
) -> Result<(), DispatchError> {
    if value < s.config.min_contribution {
        Err(DispatchError::FundRaising(Error::ContributionTooSmall))
    } else if !s.funds.contains_key(index) {
        Err(DispatchError::FundRaising(Error::InvalidIndex))
    } else if s.funds[index].totalvote < s.config.min_votenum {
        Err(DispatchError::FundRaising(Error::CannotContribution))
    } else if !s.funds[index].voteflag {
        Err(DispatchError::FundRaising(Error::CannotContribution))
    } else if !(now > s.funds[index].start + s.config.voting_period) {
        Err(DispatchError::FundRaising(Error::VoteStillActive))
    } else if !(s.funds[index].end > now) {
        Err(DispatchError::FundRaising(Error::ContributionPeriodOver))
    } else if s.funds[index].raised + value > s.funds[index].goal {
        Err(DispatchError::FundRaising(Error::ContributionOverGoal))
    } else {
        match currency::transfer_outcome(ledger, who, fund_account(index), value) {
            Ok(_) => Ok(()),
            Err(e) => Err(DispatchError::Currency(e)),
        }
    }
}

/// The state after `who` contributes `value` to fund `index`: the raised
/// amount and the contributor's record both grow by `value`.
pub open spec fn contributed(s: FundState, who: u64, index: u32, value: u64) -> FundState {
    with_contribution(
        with_fund(
            s,
            index,
            FundInfo { raised: (s.funds[index].raised + value) as u64, ..s.funds[index] },
        ),
        index,
        who,
        saturating_add(contribution_of(s, index, who), value),
    )
}

/// The ledger after `who` contributes `value` to fund `index`.
pub open spec fn contribute_ledger(ledger: Map<u64, u64>, who: u64, index: u32, value: u64) -> Map<
    u64,
    u64,
> {
    currency::after_transfer(ledger, who, fund_account(index), value)
}

/// The checks `vote` makes.
pub open spec fn vote_checks(
    s: FundState,
    accounts: Map<u64, Account>,
    who: u64,
    index: u32,
    now: u64,
) -> Result<(), DispatchError> {
    if !accounts.contains_key(who) {
        Err(DispatchError::FundRaising(Error::InvalidAccount))
    } else if accounts[who].score < VOTE_SCORE {
        Err(DispatchError::FundRaising(Error::NotEnoughScore))
    } else if !s.funds.contains_key(index) {
        Err(DispatchError::FundRaising(Error::InvalidIndex))
    } else if !(s.funds[index].start + s.config.voting_period > now) {
        Err(DispatchError::FundRaising(Error::CannnotVote))
    } else if vote_of(s, index, who) != 0 {
        Err(DispatchError::FundRaising(Error::Alreadyvoted))
    } else {
        Ok(())
    }
}

/// The fund after one more vote: the count goes up and the flag is raised
/// once the count reaches the minimum.
pub open spec fn voted_fund(f: FundInfo, c: Config) -> FundInfo {
    FundInfo {
        totalvote: (f.totalvote + 1) as u64,
        voteflag: f.voteflag || f.totalvote + 1 >= c.min_votenum,
        ..f
    }
}

/// The state after `who` votes for fund `index`: `who` becomes the member
/// numbered by the old vote count, the fund counts the vote, and the vote is
/// recorded as a vote mark.
pub open spec fn voted(s: FundState, who: u64, index: u32) -> FundState {
    with_vote(
        FundState {
            funds: s.funds.insert(index, voted_fund(s.funds[index], s.config)),
            members: s.members.insert((index, s.funds[index].totalvote), who),
            ..s
        },
        index,
        who,
    )
}

/// The checks `withdraw` makes, the withdrawal from the pot included.
pub open spec fn withdraw_checks(
    s: FundState,
    ledger: Map<u64, u64>,
    who: u64,
    index: u32,
    now: u64,
) -> Result<(), DispatchError> {
    if !s.funds.contains_key(index) {
        Err(DispatchError::FundRaising(Error::InvalidIndex))
    } else if !(s.funds[index].end < now) {
        Err(DispatchError::FundRaising(Error::FundStillActive))
    } else if contribution_of(s, index, who) == 0 {
        Err(DispatchError::FundRaising(Error::NoContribution))
    } else if !currency::can_withdraw(ledger, fund_account(index), contribution_of(s, index, who)) {
        Err(DispatchError::Currency(currency::Error::InsufficientBalance))
    } else {
        Ok(())
    }
}

/// The state after `who` withdraws its contribution from fund `index`.
pub open spec fn withdrawn(s: FundState, who: u64, index: u32) -> FundState {
    without_record(
        with_fund(
            s,
            index,
            FundInfo {
                raised: saturating_sub(s.funds[index].raised, contribution_of(s, index, who)),
                ..s.funds[index]
            },
        ),
        index,
        who,
    )
}

/// The ledger after `amount` is taken from the pot of fund `index` and
/// credited to `who` if `who` still exists.
pub open spec fn withdraw_ledger(ledger: Map<u64, u64>, who: u64, index: u32, amount: u64) -> Map<
    u64,
    u64,
> {
    currency::after_deposit_into_existing(
        currency::after_withdraw(ledger, fund_account(index), amount),
        who,
        amount,
    )
}

/// The checks `dissolve` makes: the fund exists, its retirement period
/// after its end is over, and the pot holds its deposit and raised amount.
pub open spec fn dissolve_checks(s: FundState, ledger: Map<u64, u64>, index: u32, now: u64) -> Result<
    (),
    DispatchError,
> {
    if !s.funds.contains_key(index) {
        Err(DispatchError::FundRaising(Error::InvalidIndex))
    } else if now <= s.funds[index].end + s.config.retirement_period {
        Err(DispatchError::FundRaising(Error::FundNotRetired))
    } else if !currency::can_withdraw(
        ledger,
        fund_account(index),
        (s.funds[index].deposit + s.funds[index].raised) as u64,
    ) {
        Err(DispatchError::Currency(currency::Error::InsufficientBalance))
    } else {
        Ok(())
    }
}

/// The outcome of checking that `who` contributed to fund `index` and that
/// the fund has ended at block `now`.
pub open spec fn contribution_check_outcome(s: FundState, who: u64, index: u32, now: u64) -> Result<
    (),
    DispatchError,
> {
    if !s.funds.contains_key(index) {
        Err(DispatchError::FundRaising(Error::InvalidIndex))
    } else if s.funds[index].end >= now {
        Err(DispatchError::FundRaising(Error::FundStillActive))
    } else if contribution_of(s, index, who) == 0 {
        Err(DispatchError::FundRaising(Error::NoContribution))
    } else {
        Ok(())
    }
}

/// The state after `create` stores its fund.
pub open spec fn created(
    s: FundState,
    creater: u64,
    beneficiary: u64,
    goal: u64,
    end: u64,
    now: u64,
) -> FundState {
    FundState {
        funds: s.funds.insert(s.count, created_fund(s, creater, beneficiary, goal, end, now)),
        count: (s.count + 1) as u32,
        ..s
    }
}

/// The outcome of `dispense`: its checks, then whether the pot can make
/// every payout.
pub open spec fn dispense_outcome(
    s: FundState,
    ledger: Map<u64, u64>,
    caller: u64,
    index: u32,
    now: u64,
) -> Result<(), DispatchError> {
    if dispense_checks(s, index, now) is Err {
        dispense_checks(s, index, now)
    } else if !pay_all(ledger, fund_account(index), dispense_payouts(s, index, caller)).1 {
        Err(DispatchError::Currency(currency::Error::InsufficientBalance))
    } else {
        Ok(())
    }
}


/// Checks made before an account may rate the parties of a fund.
pub trait EnsureRaising {
    /// Succeeds when fund `index` has ended at block `now` and `who`
    /// contributed to it.
    fn contribution_check(&self, who: u64, index: u32, now: u64) -> Result<(), DispatchError>;
}

/// The storage of the fund-raising pallet.
pub struct Pallet {
    config: Config,
    funds: HashMapWithView<u32, FundInfo>,
    fund_count: u32,
    memberlist: HashMapWithView<u128, u64>,
    records: HashMapWithView<u32, HashMapWithView<u64, ChildRecord>>,
}

/// The records of a per-fund child-trie map, by fund and account.
pub open spec fn flat_records(m: HashMapWithView<u32, HashMapWithView<u64, ChildRecord>>) -> Map<
    (u32, u64),
    ChildRecord,
> {
    Map::new(
        |k: (u32, u64)| m@.contains_key(k.0) && m@[k.0]@.contains_key(k.1),
        |k: (u32, u64)| m@[k.0]@[k.1],
    )
}

impl View for Pallet {
    type V = FundState;

    closed spec fn view(&self) -> FundState {
        FundState {
            config: self.config,
            funds: self.funds@,
            count: self.fund_count,
            members: Map::new(
                |k: (u32, u64)| self.memberlist@.contains_key(member_key(k.0, k.1)),
                |k: (u32, u64)| self.memberlist@[member_key(k.0, k.1)],
            ),
            records: flat_records(self.records),
        }
    }
}

/// Whether the fund state `s` is well formed: every fund is stored under its
/// own index below the fund count, its voting period ends before its end, its
/// first `totalvote` members are recorded, its vote flag is raised exactly
/// when it has at least one vote and at least the minimum number, and its
/// raised amount stays within its goal and equals the sum of the
/// contributions recorded for it; records exist only for created funds.
pub open spec fn state_wf(s: FundState) -> bool {
    &&& forall|i: u32| #[trigger]
        s.funds.contains_key(i) ==> {
            let f = s.funds[i];
            &&& f.fundnum == i
            &&& i < s.count
            &&& f.start + s.config.voting_period < f.end
            &&& (forall|n: u64| n < f.totalvote ==> #[trigger] s.members.contains_key((i, n)))
            &&& f.voteflag == (f.totalvote > 0 && f.totalvote >= s.config.min_votenum)
            &&& f.raised <= f.goal
            &&& f.raised == contributions_total(s, i)
        }
    &&& s.funds.dom().finite()
    &&& forall|i: u32| #[trigger] fund_records(s.records, i).dom().finite()
    &&& forall|k: (u32, u64)| #[trigger] s.records.contains_key(k) ==> k.0 < s.count
}

/// The record of `who` in fund `index` of `m`, if any.
fn record_get(m: &HashMapWithView<u32, HashMapWithView<u64, ChildRecord>>, index: u32, who: u64) -> (r:
    Option<ChildRecord>)
    ensures
        r == (if flat_records(*m).contains_key((index, who)) {
            Some(flat_records(*m)[(index, who)])
        } else {
            None
        }),
{
    match m.get(&index) {
        Some(t) => match t.get(&who) {
            Some(v) => Some(*v),
            None => None,
        },
        None => None,
    }
}

/// Sets the record of `who` in fund `index` of `m` to `v`.
fn record_set(
    m: &mut HashMapWithView<u32, HashMapWithView<u64, ChildRecord>>,
    index: u32,
    who: u64,
    v: ChildRecord,
)
    ensures
        flat_records(*final(m)) == flat_records(*old(m)).insert((index, who), v),
{
    let mut t = match m.remove(&index) {
        Some(t) => t,
        None => HashMapWithView::new(),
    };
    t.insert(who, v);
    m.insert(index, t);
    assert(flat_records(*m) =~= flat_records(*old(m)).insert((index, who), v));
}

/// Removes the record of `who` in fund `index` of `m`.
fn record_remove(m: &mut HashMapWithView<u32, HashMapWithView<u64, ChildRecord>>, index: u32, who: u64)
    ensures
        flat_records(*final(m)) == flat_records(*old(m)).remove((index, who)),
{
    match m.remove(&index) {
        Some(t) => {
            let mut t = t;
            let _ = t.remove(&who);
            m.insert(index, t);
        },
        None => {},
    }
    assert(flat_records(*m) =~= flat_records(*old(m)).remove((index, who)));
}

/// Removes every record of fund `index` of `m`.
fn records_clear(m: &mut HashMapWithView<u32, HashMapWithView<u64, ChildRecord>>, index: u32)
    ensures
        flat_records(*final(m)) == without_fund_records(flat_records(*old(m)), index),
{
    let _ = m.remove(&index);
    assert(flat_records(*m) =~= without_fund_records(flat_records(*old(m)), index));
}

proof fn lemma_member_key_injective(i1: u32, n1: u64, i2: u32, n2: u64)
    ensures
        member_key(i1, n1) == member_key(i2, n2) <==> (i1 == i2 && n1 == n2),
{
    assert(0 <= i1 as int * 0x1_0000_0000_0000_0000 + n1 as int <= u128::MAX) by (nonlinear_arith);
    assert(0 <= i2 as int * 0x1_0000_0000_0000_0000 + n2 as int <= u128::MAX) by (nonlinear_arith);
    if i1 != i2 {
        if i1 < i2 {
            assert(i1 as int * 0x1_0000_0000_0000_0000 + 0x1_0000_0000_0000_0000 <= i2 as int
                * 0x1_0000_0000_0000_0000) by (nonlinear_arith)
                requires
                    i1 < i2,
            ;
        } else {
            assert(i2 as int * 0x1_0000_0000_0000_0000 + 0x1_0000_0000_0000_0000 <= i1 as int
                * 0x1_0000_0000_0000_0000) by (nonlinear_arith)
                requires
                    i2 < i1,
            ;
        }
    }
}

/// The storage key of member number `n` of fund `index`.
fn pack_member_key(index: u32, n: u64) -> (r: u128)
    ensures
        r == member_key(index, n),
{
    proof {
        assert(0 <= index as int * 0x1_0000_0000_0000_0000 + n as int <= u128::MAX)
            by (nonlinear_arith)
            requires
                index <= u32::MAX,
                n <= u64::MAX,
        ;
    }
    (index as u128) * 0x1_0000_0000_0000_0000u128 + (n as u128)
}
impl Pallet {
    /// Whether the storage is well formed.
    pub open spec fn wf(&self) -> bool {
        state_wf(self@)
    }

    /// The pallet with `config` and empty storage.
    pub fn new(config: Config) -> (r: Self)
        ensures
            r.wf(),
            r@.config == config,
            r@.funds == Map::<u32, FundInfo>::empty(),
            r@.count == 0,
            r@.members == Map::<(u32, u64), u64>::empty(),
            r@.records == Map::<(u32, u64), ChildRecord>::empty(),
    {
        let r = Pallet {
            config,
            funds: HashMapWithView::new(),
            fund_count: 0,
            memberlist: HashMapWithView::new(),
            records: HashMapWithView::new(),
        };
        assert(r@.members =~= Map::<(u32, u64), u64>::empty());
        assert(r@.records =~= Map::<(u32, u64), ChildRecord>::empty());
        assert forall|i: u32| #[trigger] fund_records(r@.records, i).dom().finite() by {
            assert(fund_records(r@.records, i).dom() =~= Set::<u64>::empty());
        }
        r
    }

    /// The runtime constants.
    pub fn config(&self) -> (r: Config)
        ensures
            r == self@.config,
    {
        self.config
    }

    /// The fund at `index`.
    pub fn funds(&self, index: u32) -> (r: Option<FundInfo>)
        ensures
            match r {
                Some(f) => self@.funds.contains_key(index) && f == self@.funds[index],
                None => !self@.funds.contains_key(index),
            },
    {
        match self.funds.get(&index) {
            Some(f) => Some(*f),
            None => None,
        }
    }

    /// The number of funds created so far.
    pub fn fund_count(&self) -> (r: u32)
        ensures
            r == self@.count,
    {
        self.fund_count
    }

    /// The account that cast vote number `n` of fund `index`.
    pub fn memberlist(&self, index: u32, n: u64) -> (r: Option<u64>)
        ensures
            match r {
                Some(who) => self@.members.contains_key((index, n)) && who == self@.members[(
                    index,
                    n,
                )],
                None => !self@.members.contains_key((index, n)),
            },
    {
        let key = pack_member_key(index, n);
        match self.memberlist.get(&key) {
            Some(who) => Some(*who),
            None => None,
        }
    }

    /// The voter of vote number `n` of fund `index`, which is recorded.
    fn voter(&self, index: u32, n: u64) -> (r: u64)
        requires
            self@.members.contains_key((index, n)),
        ensures
            r == self@.members[(index, n)],
    {
        self.memberlist(index, n).unwrap()
    }

    /// The account ID of the fund pot.
    pub fn fund_account_id(index: u32) -> (r: u64)
        ensures
            r == fund_account(index),
    {
        into_sub_account_truncating(PALLET_ID, index)
    }

    /// The key of the child trie that holds the records of fund `index`:
    /// the digest of `b"crowdfnd"` followed by the index in little-endian.
    pub fn id_from_index(index: u32) -> (r: Vec<u8>)
        ensures
            r@ == blake2_256_of(child_trie_seed(index)),
    {
        let mut buf: Vec<u8> = Vec::new();
        buf.push(0x63);
        buf.push(0x72);
        buf.push(0x6f);
        buf.push(0x77);
        buf.push(0x64);
        buf.push(0x66);
        buf.push(0x6e);
        buf.push(0x64);
        buf.push((index % 256) as u8);
        buf.push(((index / 256) % 256) as u8);
        buf.push(((index / 65536) % 256) as u8);
        buf.push(((index / 16777216) % 256) as u8);
        assert(buf@ =~= child_trie_seed(index));
        blake2_256(buf.as_slice())
    }
}

impl Pallet {
    /// Record a vote of `who` (the value 1) in the child trie of fund
    /// `index`, in place of any record of `who` there.
    pub fn vote_put(&mut self, index: u32, who: u64)
        ensures
            final(self)@ == with_vote(old(self)@, index, who),
    {
        record_set(&mut self.records, index, who, ChildRecord::Vote);
        assert(self@ =~= with_vote(old(self)@, index, who));
    }

    /// Lookup the vote of `who` in fund `index`: 1 for a vote, the balance
    /// of a contribution recorded in its place, zero if none.
    pub fn vote_get(&self, index: u32, who: u64) -> (r: u64)
        ensures
            r == vote_of(self@, index, who),
    {
        match record_get(&self.records, index, who) {
            Some(ChildRecord::Vote) => 1,
            Some(ChildRecord::Contribution(b)) => b,
            None => 0,
        }
    }

    /// Remove the record of `who` (vote or contribution) from the child trie
    /// of fund `index`.
    pub fn vote_kill(&mut self, index: u32, who: u64)
        ensures
            final(self)@ == without_record(old(self)@, index, who),
    {
        record_remove(&mut self.records, index, who);
        assert(self@ =~= without_record(old(self)@, index, who));
    }

    /// Record a contribution balance of `who` in the child trie of fund
    /// `index`, in place of any record of `who` there.
    pub fn contribution_put(&mut self, index: u32, who: u64, balance: u64)
        ensures
            final(self)@ == with_contribution(old(self)@, index, who, balance),
    {
        record_set(&mut self.records, index, who, ChildRecord::Contribution(balance));
        assert(self@ =~= with_contribution(old(self)@, index, who, balance));
    }

    /// Lookup the contribution of `who` in fund `index`: zero if there is
    /// no record or the record is a vote mark, which is no balance.
    pub fn contribution_get(&self, index: u32, who: u64) -> (r: u64)
        ensures
            r == contribution_of(self@, index, who),
    {
        match record_get(&self.records, index, who) {
            Some(ChildRecord::Contribution(b)) => b,
            Some(ChildRecord::Vote) => 0,
            None => 0,
        }
    }

    /// Remove the record of `who` (contribution or vote) from the child trie
    /// of fund `index`.
    pub fn contribution_kill(&mut self, index: u32, who: u64)
        ensures
            final(self)@ == without_record(old(self)@, index, who),
    {
        record_remove(&mut self.records, index, who);
        assert(self@ =~= without_record(old(self)@, index, who));
    }

    /// Remove the entire child trie of fund `index`.
    pub fn crowdfund_kill(&mut self, index: u32)
        ensures
            final(self)@ == without_trie(old(self)@, index),
    {
        records_clear(&mut self.records, index);
        assert(self@ =~= without_trie(old(self)@, index));
    }
}


impl Pallet {
    fn put_fund(&mut self, index: u32, f: FundInfo)
        ensures
            final(self)@ == with_fund(old(self)@, index, f),
    {
        self.funds.insert(index, f);
        assert(self@ =~= with_fund(old(self)@, index, f));
    }

    fn remove_fund(&mut self, index: u32)
        ensures
            final(self)@ == without_fund(old(self)@, index),
    {
        let _ = self.funds.remove(&index);
        assert(self@.funds =~= old(self)@.funds.remove(index));
        assert(self@ =~= without_fund(old(self)@, index));
    }
}


impl Pallet {
    /// Whether the pot can make every payout of dispensing fund `index` for
    /// `caller`, given the beneficiary's amount and the voter share.
    fn dispense_covered(
        &self,
        ledger: &Balances,
        caller: u64,
        index: u32,
        fund: FundInfo,
        beneficiary_amount_: u64,
        share: u64,
    ) -> (r: bool)
        requires
            self.wf(),
            ledger.wf(),
            self@.funds.contains_key(index),
            fund == self@.funds[index],
            beneficiary_amount_ == beneficiary_amount(fund, self@.config),
            share == voter_share(fund, self@.config),
        ensures
            r == pay_all(ledger@, fund_account(index), dispense_payouts(self@, index, caller)).1,
    {
        let pot = Self::fund_account_id(index);
        let ghost payouts = dispense_payouts(self@, index, caller);
        let ghost l0 = ledger@;
        let mut avail = ledger.free_balance(pot);
        assert(payouts[0] == (fund.beneficiary, beneficiary_amount_));
        assert(payouts.len() == fund.totalvote + 2);
        proof {
            assert(payouts.take(0) =~= Seq::<(u64, u64)>::empty());
            lemma_pay_all_source_step(l0, pot, payouts, 0);
        }
        if avail < beneficiary_amount_ {
            proof {
                lemma_pay_all_failed(l0, pot, payouts, 1);
            }
            return false;
        }
        if fund.beneficiary != pot {
            avail = avail - beneficiary_amount_;
        }
        let mut k: u64 = 0;
        while k != fund.totalvote
            invariant
                self.wf(),
                self@.funds.contains_key(index),
                fund == self@.funds[index],
                pot == fund_account(index),
                share == voter_share(fund, self@.config),
                payouts == dispense_payouts(self@, index, caller),
                l0 == ledger@,
                payouts.len() == fund.totalvote + 2,
                k <= fund.totalvote,
                pay_all(l0, pot, payouts.take(k + 1)).1,
                avail == currency::free_of(pay_all(l0, pot, payouts.take(k + 1)).0, pot),
            decreases fund.totalvote - k,
        {
            assert(self@.members.contains_key((index, k)));
            let member = self.voter(index, k);
            assert(payouts[k + 1] == (member, share));
            proof {
                lemma_pay_all_source_step(l0, pot, payouts, k + 1);
            }
            if avail < share {
                proof {
                    lemma_pay_all_failed(l0, pot, payouts, k + 2);
                }
                return false;
            }
            if member != pot {
                avail = avail - share;
            }
            k = k + 1;
        }
        assert(payouts[fund.totalvote + 1] == (caller, fund.deposit));
        proof {
            lemma_pay_all_source_step(l0, pot, payouts, fund.totalvote + 1);
            assert(payouts.take(fund.totalvote + 2) =~= payouts);
        }
        avail >= fund.deposit
    }

    /// Pays out a successful fund after its end: the beneficiary gets the
    /// raised amount less the voters' shares, each vote pays its voter a share,
    /// and the caller collects the deposit; then the fund and its child trie
    /// are removed. When the pot cannot cover every payout the call fails and
    /// nothing changes.
    pub fn dispense(&mut self, ledger: &mut Balances, caller: u64, index: u32, now: u64) -> (r:
        Result<Event, DispatchError>)
        requires
            old(self).wf(),
            old(ledger).wf(),
            dispense_checks(old(self)@, index, now) is Ok ==> {
                &&& old(self)@.config.fee_percent > 0
                &&& old(self)@.config.percent > 0
                &&& old(self)@.funds[index].totalvote > 0
            },
        ensures
            final(self).wf(),
            final(ledger).wf(),
            r == emit(
                dispense_outcome(old(self)@, old(ledger)@, caller, index, now),
                Event::Dispensed(index, now, caller),
            ),
            dispense_outcome(old(self)@, old(ledger)@, caller, index, now) is Err ==> {
                &&& final(self)@ == old(self)@
                &&& final(ledger)@ == old(ledger)@
            },
            dispense_outcome(old(self)@, old(ledger)@, caller, index, now) is Ok ==> {
                &&& final(self)@ == closed(old(self)@, index)
                &&& final(ledger)@ == pay_all(
                    old(ledger)@,
                    fund_account(index),
                    dispense_payouts(old(self)@, index, caller),
                ).0
            },
    {
        let fund = match self.funds(index) {
            Some(f) => f,
            None => {
                return Err(DispatchError::FundRaising(Error::InvalidIndex));
            },
        };
        if !(now > fund.end) {
            return Err(DispatchError::FundRaising(Error::FundStillActive));
        }
        if !(fund.raised >= fund.goal) {
            return Err(DispatchError::FundRaising(Error::UnsuccessfulFund));
        }
        let account = Self::fund_account_id(index);
        proof {
            lemma_voter_shares_fit(fund.raised, self.config.fee_percent, fund.totalvote);
        }
        let mut voteramount = (fund.raised / self.config.fee_percent) / fund.totalvote;
        let beneficiaryamount = fund.raised - voteramount * fund.totalvote;
        voteramount = voteramount - voteramount / self.config.percent;
        if !self.dispense_covered(ledger, caller, index, fund, beneficiaryamount, voteramount) {
            return Err(DispatchError::Currency(currency::Error::InsufficientBalance));
        }
        let ghost payouts = dispense_payouts(old(self)@, index, caller);
        let ghost l0 = old(ledger)@;
        assert(payouts[0] == (fund.beneficiary, beneficiaryamount));
        assert(payouts.len() == fund.totalvote + 2);
        proof {
            lemma_pay_all_step(l0, account, payouts, 0);
            assert(payouts.take(0) =~= Seq::<(u64, u64)>::empty());
        }
        let imbalance = match ledger.withdraw(account, beneficiaryamount) {
            Ok(v) => v,
            Err(e) => {
                proof {
                    lemma_pay_all_failed(l0, account, payouts, 1);
                }
                return Err(DispatchError::Currency(e));
            },
        };
        ledger.resolve_creating(fund.beneficiary, imbalance);
        let mut balancenum: u64 = 0;
        while balancenum != fund.totalvote
            invariant
                ledger.wf(),
                self.wf(),
                self@ == old(self)@,
                dispense_checks(old(self)@, index, now) is Ok,
                self@.funds.contains_key(index),
                fund == self@.funds[index],
                account == fund_account(index),
                voteramount == voter_share(fund, self@.config),
                payouts == dispense_payouts(old(self)@, index, caller),
                l0 == old(ledger)@,
                payouts.len() == fund.totalvote + 2,
                balancenum <= fund.totalvote,
                ledger@ == pay_all(l0, account, payouts.take(balancenum + 1)).0,
                pay_all(l0, account, payouts.take(balancenum + 1)).1,
                pay_all(l0, account, payouts).1,
            decreases fund.totalvote - balancenum,
        {
            assert(self@.members.contains_key((index, balancenum)));
            let member = self.voter(index, balancenum);
            assert(payouts[balancenum + 1] == (member, voteramount));
            proof {
                lemma_pay_all_step(l0, account, payouts, balancenum + 1);
            }
            let imbalance = match ledger.withdraw(account, voteramount) {
                Ok(v) => v,
                Err(e) => {
                    proof {
                        lemma_pay_all_failed(l0, account, payouts, balancenum + 2);
                    }
                    return Err(DispatchError::Currency(e));
                },
            };
            ledger.resolve_creating(member, imbalance);
            balancenum = balancenum + 1;
        }
        assert(payouts[fund.totalvote + 1] == (caller, fund.deposit));
        proof {
            lemma_pay_all_step(l0, account, payouts, fund.totalvote + 1);
            assert(payouts.take(fund.totalvote + 2) =~= payouts);
        }
        let imbalance = match ledger.withdraw(account, fund.deposit) {
            Ok(v) => v,
            Err(e) => {
                proof {
                    lemma_pay_all_failed(l0, account, payouts, fund.totalvote + 2);
                }
                return Err(DispatchError::Currency(e));
            },
        };
        ledger.resolve_creating(caller, imbalance);
        self.remove_fund(index);
        self.crowdfund_kill(index);
        proof {
            lemma_closed_wf(old(self)@, index);
        }
        Ok(Event::Dispensed(index, now, caller))
    }
}


impl EnsureRaising for Pallet {
    fn contribution_check(&self, who: u64, index: u32, now: u64) -> (r: Result<(), DispatchError>)
        ensures
            r == contribution_check_outcome(self@, who, index, now),
    {
        let fund = match self.funds(index) {
            Some(f) => f,
            None => {
                return Err(DispatchError::FundRaising(Error::InvalidIndex));
            },
        };
        if fund.end >= now {
            return Err(DispatchError::FundRaising(Error::FundStillActive));
        }
        let balance = self.contribution_get(index, who);
        if balance == 0 {
            return Err(DispatchError::FundRaising(Error::NoContribution));
        }
        Ok(())
    }
}


impl Pallet {
    /// The registered caller `creater` opens a fund for `beneficiary` with
    /// target `goal`, paying the submission deposit into the pot. The fund
    /// gets the next index, starts now and takes contributions until the
    /// voting period and `end` more blocks have passed.
    pub fn create(
        &mut self,
        accounts: &account::Pallet,
        ledger: &mut Balances,
        creater: u64,
        beneficiary: u64,
        goal: u64,
        end: u64,
        now: u64,
    ) -> (r: Result<Event, DispatchError>)
        requires
            old(self).wf(),
            old(ledger).wf(),
            create_checks(old(self)@, accounts.accounts(), old(ledger)@, creater, end) is Ok ==> {
                &&& end + old(self)@.config.voting_period + now <= u64::MAX
                &&& old(self)@.count < u32::MAX
            },
        ensures
            final(self).wf(),
            final(ledger).wf(),
            r == emit(
                create_checks(old(self)@, accounts.accounts(), old(ledger)@, creater, end),
                Event::Created(old(self)@.count, now, fund_end(old(self)@.config, end, now)),
            ),
            create_checks(old(self)@, accounts.accounts(), old(ledger)@, creater, end) is Err ==> {
                &&& final(self)@ == old(self)@
                &&& final(ledger)@ == old(ledger)@
            },
            create_checks(old(self)@, accounts.accounts(), old(ledger)@, creater, end) is Ok ==> {
                &&& final(self)@ == created(old(self)@, creater, beneficiary, goal, end, now)
                &&& final(ledger)@ == currency::after_deposit_creating(
                    currency::after_withdraw(
                        old(ledger)@,
                        creater,
                        old(self)@.config.submission_deposit,
                    ),
                    fund_account(old(self)@.count),
                    old(self)@.config.submission_deposit,
                )
            },
    {
        if accounts.account_storage(creater).is_none() {
            return Err(DispatchError::FundRaising(Error::InvalidAccount));
        }
        let start = now;
        if !(end > 0) {
            return Err(DispatchError::FundRaising(Error::EndTooEarly));
        }
        let deposit = self.config.submission_deposit;
        let imbalance = match ledger.withdraw(creater, deposit) {
            Ok(v) => v,
            Err(e) => {
                return Err(DispatchError::Currency(e));
            },
        };
        let stop = end + self.config.voting_period + start;
        let index = self.fund_count;
        self.fund_count = index + 1;
        ledger.resolve_creating(Self::fund_account_id(index), imbalance);
        let fund = FundInfo {
            fundnum: index,
            creater,
            beneficiary,
            deposit,
            raised: 0,
            start,
            end: stop,
            goal,
            totalvote: 0,
            voteflag: false,
        };
        self.put_fund(index, fund);
        proof {
            assert(self@ =~= created(old(self)@, creater, beneficiary, goal, end, now));
            lemma_created_wf(old(self)@, creater, beneficiary, goal, end, now);
        }
        Ok(Event::Created(index, start, stop))
    }

    /// The caller `who` puts `value` into fund `index`, which must have
    /// enough votes, be past its voting period, not yet ended, and have room
    /// for `value` below its goal; the value moves into the pot and is added
    /// to the fund and to the caller's record.
    pub fn contribute(&mut self, ledger: &mut Balances, who: u64, index: u32, value: u64, now: u64) -> (r:
        Result<Event, DispatchError>)
        requires
            old(self).wf(),
            old(ledger).wf(),
        ensures
            final(self).wf(),
            final(ledger).wf(),
            r == emit(
                contribute_checks(old(self)@, old(ledger)@, who, index, value, now),
                Event::Contributed(
                    who,
                    index,
                    saturating_add(contribution_of(old(self)@, index, who), value),
                    now,
                ),
            ),
            contribute_checks(old(self)@, old(ledger)@, who, index, value, now) is Err ==> {
                &&& final(self)@ == old(self)@
                &&& final(ledger)@ == old(ledger)@
            },
            contribute_checks(old(self)@, old(ledger)@, who, index, value, now) is Ok ==> {
                &&& final(self)@ == contributed(old(self)@, who, index, value)
                &&& final(ledger)@ == contribute_ledger(old(ledger)@, who, index, value)
            },
    {
        if value < self.config.min_contribution {
            return Err(DispatchError::FundRaising(Error::ContributionTooSmall));
        }
        let fund = match self.funds(index) {
            Some(f) => f,
            None => {
                return Err(DispatchError::FundRaising(Error::InvalidIndex));
            },
        };
        if fund.totalvote < self.config.min_votenum {
            return Err(DispatchError::FundRaising(Error::CannotContribution));
        }
        if fund.voteflag != true {
            return Err(DispatchError::FundRaising(Error::CannotContribution));
        }
        if !(now > fund.start + self.config.voting_period) {
            return Err(DispatchError::FundRaising(Error::VoteStillActive));
        }
        if !(fund.end > now) {
            return Err(DispatchError::FundRaising(Error::ContributionPeriodOver));
        }
        if value > fund.goal - fund.raised {
            return Err(DispatchError::FundRaising(Error::ContributionOverGoal));
        }
        match ledger.transfer(who, Self::fund_account_id(index), value) {
            Ok(_) => {},
            Err(e) => {
                return Err(DispatchError::Currency(e));
            },
        }
        self.put_fund(index, FundInfo { raised: fund.raised + value, ..fund });
        let balance = self.contribution_get(index, who);
        let balance = if balance > u64::MAX - value {
            u64::MAX
        } else {
            balance + value
        };
        self.contribution_put(index, who, balance);
        proof {
            lemma_contributed_wf(old(self)@, old(ledger)@, who, index, value, now);
        }
        Ok(Event::Contributed(who, index, balance, now))
    }

    /// The caller `who`, registered with at least the voting score and not
    /// yet a voter of fund `index`, votes for it during its voting period: the
    /// caller becomes the fund's next member, the vote count goes up, the vote
    /// is recorded, and the fund opens for contributions once the count
    /// reaches the minimum.
    pub fn vote(&mut self, accounts: &account::Pallet, who: u64, index: u32, now: u64) -> (r:
        Result<Event, DispatchError>)
        requires
            old(self).wf(),
            vote_checks(old(self)@, accounts.accounts(), who, index, now) is Ok
                ==> old(self)@.funds[index].totalvote < u64::MAX,
        ensures
            final(self).wf(),
            r == emit(
                vote_checks(old(self)@, accounts.accounts(), who, index, now),
                Event::Voted(who, index, (old(self)@.funds[index].totalvote + 1) as u64, now),
            ),
            vote_checks(old(self)@, accounts.accounts(), who, index, now) is Err ==> final(self)@
                == old(self)@,
            vote_checks(old(self)@, accounts.accounts(), who, index, now) is Ok ==> final(self)@
                == voted(old(self)@, who, index),
    {
        let score = match accounts.account_storage(who) {
            Some(a) => a.score,
            None => {
                return Err(DispatchError::FundRaising(Error::InvalidAccount));
            },
        };
        if score < VOTE_SCORE {
            return Err(DispatchError::FundRaising(Error::NotEnoughScore));
        }
        let fund = match self.funds(index) {
            Some(f) => f,
            None => {
                return Err(DispatchError::FundRaising(Error::InvalidIndex));
            },
        };
        if !(fund.start + self.config.voting_period > now) {
            return Err(DispatchError::FundRaising(Error::CannnotVote));
        }
        if self.vote_get(index, who) != 0 {
            return Err(DispatchError::FundRaising(Error::Alreadyvoted));
        }
        let key = pack_member_key(index, fund.totalvote);
        self.memberlist.insert(key, who);
        proof {
            assert forall|k: (u32, u64)|
                #![auto]
                self@.members.contains_key(k) == old(self)@.members.insert(
                    (index, fund.totalvote),
                    who,
                ).contains_key(k) by {
                lemma_member_key_injective(k.0, k.1, index, fund.totalvote);
            }
            assert forall|k: (u32, u64)|
                #![auto]
                self@.members.contains_key(k) ==> self@.members[k] == old(self)@.members.insert(
                    (index, fund.totalvote),
                    who,
                )[k] by {
                lemma_member_key_injective(k.0, k.1, index, fund.totalvote);
            }
            assert(self@.members =~= old(self)@.members.insert((index, fund.totalvote), who));
        }
        let totalvote = fund.totalvote + 1;
        let voteflag = if totalvote >= self.config.min_votenum && fund.voteflag == false {
            true
        } else {
            fund.voteflag
        };
        self.put_fund(index, FundInfo { totalvote, voteflag, ..fund });
        self.vote_put(index, who);
        proof {
            assert(self@ =~= voted(old(self)@, who, index));
            lemma_voted_wf(old(self)@, accounts.accounts(), who, index, now);
        }
        Ok(Event::Voted(who, index, totalvote, now))
    }

    /// After fund `index` has ended, the caller `who` takes back its
    /// recorded contribution from the pot (dropped if the caller's account no
    /// longer exists); the record is removed and the raised amount reduced.
    pub fn withdraw(&mut self, ledger: &mut Balances, who: u64, index: u32, now: u64) -> (r: Result<
        Event,
        DispatchError,
    >)
        requires
            old(self).wf(),
            old(ledger).wf(),
        ensures
            final(self).wf(),
            final(ledger).wf(),
            r == emit(
                withdraw_checks(old(self)@, old(ledger)@, who, index, now),
                Event::Withdrew(who, index, contribution_of(old(self)@, index, who), now),
            ),
            withdraw_checks(old(self)@, old(ledger)@, who, index, now) is Err ==> {
                &&& final(self)@ == old(self)@
                &&& final(ledger)@ == old(ledger)@
            },
            withdraw_checks(old(self)@, old(ledger)@, who, index, now) is Ok ==> {
                &&& final(self)@ == withdrawn(old(self)@, who, index)
                &&& final(ledger)@ == withdraw_ledger(
                    old(ledger)@,
                    who,
                    index,
                    contribution_of(old(self)@, index, who),
                )
            },
    {
        let fund = match self.funds(index) {
            Some(f) => f,
            None => {
                return Err(DispatchError::FundRaising(Error::InvalidIndex));
            },
        };
        if !(fund.end < now) {
            return Err(DispatchError::FundRaising(Error::FundStillActive));
        }
        let balance = self.contribution_get(index, who);
        if !(balance > 0) {
            return Err(DispatchError::FundRaising(Error::NoContribution));
        }
        let imbalance = match ledger.withdraw(Self::fund_account_id(index), balance) {
            Ok(v) => v,
            Err(e) => {
                return Err(DispatchError::Currency(e));
            },
        };
        let _ = ledger.resolve_into_existing(who, imbalance);
        let raised = if fund.raised < balance {
            0
        } else {
            fund.raised - balance
        };
        self.put_fund(index, FundInfo { raised, ..fund });
        self.contribution_kill(index, who);
        proof {
            lemma_withdrawn_wf(old(self)@, who, index);
        }
        Ok(Event::Withdrew(who, index, balance, now))
    }

    /// Once fund `index` has been retired (its end and the retirement period
    /// have passed), anyone may dissolve it: the caller `reporter` collects
    /// the deposit and the raised amount from the pot, and the fund and its
    /// child trie are removed.
    pub fn dissolve(&mut self, ledger: &mut Balances, reporter: u64, index: u32, now: u64) -> (r:
        Result<Event, DispatchError>)
        requires
            old(self).wf(),
            old(ledger).wf(),
            old(self)@.funds.contains_key(index) && now > old(self)@.funds[index].end
                + old(self)@.config.retirement_period ==> old(self)@.funds[index].deposit + old(
                self,
            )@.funds[index].raised <= u64::MAX,
        ensures
            final(self).wf(),
            final(ledger).wf(),
            r == emit(
                dissolve_checks(old(self)@, old(ledger)@, index, now),
                Event::Dissolved(index, now, reporter),
            ),
            dissolve_checks(old(self)@, old(ledger)@, index, now) is Err ==> {
                &&& final(self)@ == old(self)@
                &&& final(ledger)@ == old(ledger)@
            },
            dissolve_checks(old(self)@, old(ledger)@, index, now) is Ok ==> {
                let amount = (old(self)@.funds[index].deposit
                    + old(self)@.funds[index].raised) as u64;
                &&& final(self)@ == closed(old(self)@, index)
                &&& final(ledger)@ == currency::after_deposit_creating(
                    currency::after_withdraw(old(ledger)@, fund_account(index), amount),
                    reporter,
                    amount,
                )
            },
    {
        let fund = match self.funds(index) {
            Some(f) => f,
            None => {
                return Err(DispatchError::FundRaising(Error::InvalidIndex));
            },
        };
        if now <= fund.end || now - fund.end <= self.config.retirement_period {
            return Err(DispatchError::FundRaising(Error::FundNotRetired));
        }
        let account = Self::fund_account_id(index);
        let imbalance = match ledger.withdraw(account, fund.deposit + fund.raised) {
            Ok(v) => v,
            Err(e) => {
                return Err(DispatchError::Currency(e));
            },
        };
        ledger.resolve_creating(reporter, imbalance);
        self.remove_fund(index);
        self.crowdfund_kill(index);
        proof {
            lemma_closed_wf(old(self)@, index);
        }
        Ok(Event::Dissolved(index, now, reporter))
    }
}


proof fn lemma_map_sum_empty<K>()
    ensures
        map_sum(Map::<K, u64>::empty()) == 0,
{
    assert(Map::<K, u64>::empty().dom() =~= Set::<K>::empty());
}

/// `create` keeps the pallet well formed.
proof fn lemma_created_wf(s: FundState, creater: u64, beneficiary: u64, goal: u64, end: u64, now: u64)
    requires
        state_wf(s),
        end > 0,
        end + s.config.voting_period + now <= u64::MAX,
        s.count < u32::MAX,
    ensures
        state_wf(created(s, creater, beneficiary, goal, end, now)),
{
    let s2 = created(s, creater, beneficiary, goal, end, now);
    assert(fund_records(s.records, s.count) =~= Map::<u64, u64>::empty());
    lemma_map_sum_empty::<u64>();
    assert(contributions_total(s2, s.count) == 0);
}

/// `contribute` keeps the pallet well formed, and the contributor's record
/// plus the value cannot overflow.
proof fn lemma_contributed_wf(
    s: FundState,
    ledger: Map<u64, u64>,
    who: u64,
    index: u32,
    value: u64,
    now: u64,
)
    requires
        state_wf(s),
        contribute_checks(s, ledger, who, index, value, now) is Ok,
    ensures
        state_wf(contributed(s, who, index, value)),
        contribution_of(s, index, who) + value <= s.funds[index].goal,
{
    let fr = fund_records(s.records, index);
    assert(s.funds.contains_key(index));
    lemma_map_sum_unset(fr, who);
    let old_rec = contribution_of(s, index, who);
    let b = (old_rec + value) as u64;
    lemma_map_sum_set(fr, who, b);
    let s2 = contributed(s, who, index, value);
    assert forall|i: u32| fund_records(s2.records, i) == (if i == index {
        fr.insert(who, b)
    } else {
        fund_records(s.records, i)
    }) by {
        lemma_fund_records_update(s.records, index, who, ChildRecord::Contribution(b), i);
    }
    assert forall|i: u32| #[trigger] fund_records(s2.records, i).dom().finite() by {
        lemma_fund_records_update(s.records, index, who, ChildRecord::Contribution(b), i);
    }
    assert forall|i: u32| #[trigger]
        s2.funds.contains_key(i) implies s2.funds[i].raised == contributions_total(s2, i) by {
        lemma_fund_records_update(s.records, index, who, ChildRecord::Contribution(b), i);
    }
}

/// `vote` keeps the pallet well formed.
proof fn lemma_voted_wf(s: FundState, accounts: Map<u64, Account>, who: u64, index: u32, now: u64)
    requires
        state_wf(s),
        vote_checks(s, accounts, who, index, now) is Ok,
        s.funds[index].totalvote < u64::MAX,
    ensures
        state_wf(voted(s, who, index)),
{
    let s2 = voted(s, who, index);
    assert forall|i: u32| #[trigger] s2.funds.contains_key(i) implies {
        let f = s2.funds[i];
        forall|n: u64| n < f.totalvote ==> #[trigger] s2.members.contains_key((i, n))
    } by {
        if i == index {
            assert forall|n: u64| n < s2.funds[i].totalvote implies #[trigger] s2.members.contains_key(
                (i, n),
            ) by {
                if n < s.funds[i].totalvote {
                    assert(s.members.contains_key((i, n)));
                }
            }
        } else {
            assert forall|n: u64| n < s2.funds[i].totalvote implies #[trigger] s2.members.contains_key(
                (i, n),
            ) by {
                assert(s.members.contains_key((i, n)));
            }
        }
    }
    let fr = fund_records(s.records, index);
    lemma_map_sum_set(fr, who, 0);
    assert forall|i: u32| fund_records(s2.records, i) == (if i == index {
        fr.insert(who, 0)
    } else {
        fund_records(s.records, i)
    }) by {
        lemma_fund_records_update(s.records, index, who, ChildRecord::Vote, i);
    }
    assert forall|i: u32| #[trigger] fund_records(s2.records, i).dom().finite() by {
        lemma_fund_records_update(s.records, index, who, ChildRecord::Vote, i);
    }
    assert forall|i: u32| #[trigger]
        s2.funds.contains_key(i) implies s2.funds[i].raised == contributions_total(s2, i) by {
        lemma_fund_records_update(s.records, index, who, ChildRecord::Vote, i);
    }
}

/// `withdraw` keeps the pallet well formed, and the withdrawn record never
/// exceeds the raised amount.
proof fn lemma_withdrawn_wf(s: FundState, who: u64, index: u32)
    requires
        state_wf(s),
        s.funds.contains_key(index),
    ensures
        state_wf(withdrawn(s, who, index)),
        contribution_of(s, index, who) <= s.funds[index].raised,
{
    let fr = fund_records(s.records, index);
    lemma_map_sum_unset(fr, who);
    let s2 = withdrawn(s, who, index);
    assert forall|i: u32| fund_records(s2.records, i) == (if i == index {
        fr.remove(who)
    } else {
        fund_records(s.records, i)
    }) by {
        lemma_fund_records_update(s.records, index, who, ChildRecord::Vote, i);
    }
    assert forall|i: u32| #[trigger] fund_records(s2.records, i).dom().finite() by {
        lemma_fund_records_update(s.records, index, who, ChildRecord::Vote, i);
    }
    assert forall|i: u32| #[trigger]
        s2.funds.contains_key(i) implies s2.funds[i].raised == contributions_total(s2, i) by {
        lemma_fund_records_update(s.records, index, who, ChildRecord::Vote, i);
    }
}

/// Closing a fund keeps the pallet well formed.
proof fn lemma_closed_wf(s: FundState, index: u32)
    requires
        state_wf(s),
    ensures
        state_wf(closed(s, index)),
{
    let s2 = closed(s, index);
    assert forall|i: u32| #[trigger] fund_records(s2.records, i).dom().finite() by {
        lemma_fund_records_update(s.records, index, 0, ChildRecord::Vote, i);
    }
    assert forall|i: u32| #[trigger]
        s2.funds.contains_key(i) implies s2.funds[i].raised == contributions_total(s2, i) by {
        lemma_fund_records_update(s.records, index, 0, ChildRecord::Vote, i);
    }
}

/// Paying out payout `k` of a run whose first `k` payouts were made: it is
/// made exactly when the source can cover it, and then the source loses its
/// amount unless it pays itself.
proof fn lemma_pay_all_source_step(ledger: Map<u64, u64>, from: u64, payouts: Seq<(u64, u64)>, k: int)
    requires
        0 <= k < payouts.len(),
        k == 0 || pay_all(ledger, from, payouts.take(k)).1,
    ensures
        pay_all(ledger, from, payouts.take(k + 1)).1 == currency::can_withdraw(
            pay_all(ledger, from, payouts.take(k)).0,
            from,
            payouts[k].1,
        ),
        pay_all(ledger, from, payouts.take(k + 1)).1 ==> currency::free_of(
            pay_all(ledger, from, payouts.take(k + 1)).0,
            from,
        ) == if payouts[k].0 == from {
            currency::free_of(pay_all(ledger, from, payouts.take(k)).0, from)
        } else {
            (currency::free_of(pay_all(ledger, from, payouts.take(k)).0, from) - payouts[k].1) as u64
        },
        k == 0 ==> pay_all(ledger, from, payouts.take(k)).0 == ledger,
{
    if k == 0 {
        assert(payouts.take(0) =~= Seq::<(u64, u64)>::empty());
    }
    lemma_pay_all_step(ledger, from, payouts, k);
    let prev = pay_all(ledger, from, payouts.take(k));
    if currency::can_withdraw(prev.0, from, payouts[k].1) {
        lemma_pay_one_source(prev.0, from, payouts[k].0, payouts[k].1);
    }
}

/// Paying one amount out of `from` leaves `from` with that amount less, or
/// with its balance unchanged when `from` is also the recipient.
proof fn lemma_pay_one_source(m: Map<u64, u64>, from: u64, to: u64, amount: u64)
    requires
        currency::can_withdraw(m, from, amount),
    ensures
        currency::free_of(
            currency::after_deposit_creating(currency::after_withdraw(m, from, amount), to, amount),
            from,
        ) == if to == from {
            currency::free_of(m, from)
        } else {
            (currency::free_of(m, from) - amount) as u64
        },
{
}


/// Reading a contribution after writing it gives back the written balance,
/// through both lookups: the vote and the contribution of an account are one
/// record.
pub proof fn lemma_contribution_read_after_write(s: FundState, index: u32, who: u64, balance: u64)
    ensures
        contribution_of(with_contribution(s, index, who, balance), index, who) == balance,
        vote_of(with_contribution(s, index, who, balance), index, who) == balance,
{
}

/// Reading a vote after recording it gives back the recorded 1; the vote
/// mark replaces any contribution of the account and reads as no balance.
pub proof fn lemma_vote_read_after_write(s: FundState, index: u32, who: u64)
    ensures
        vote_of(with_vote(s, index, who), index, who) == 1,
        contribution_of(with_vote(s, index, who), index, who) == 0,
{
}

/// Removing the record of an account, by either kill, clears both its vote
/// and its contribution; removing a child trie clears every record in it.
pub proof fn lemma_removed_records_read_zero(s: FundState, index: u32, who: u64, other: u64)
    ensures
        contribution_of(without_record(s, index, who), index, who) == 0,
        vote_of(without_record(s, index, who), index, who) == 0,
        contribution_of(without_trie(s, index), index, other) == 0,
        vote_of(without_trie(s, index), index, other) == 0,
{
}

/// Writing or removing the record of one account in one fund leaves every
/// other record as it was.
pub proof fn lemma_records_independent(
    s: FundState,
    index: u32,
    who: u64,
    v: u64,
    index2: u32,
    who2: u64,
)
    requires
        index != index2 || who != who2,
    ensures
        without_record(s, index, who).records[(index2, who2)] == s.records[(index2, who2)],
        with_vote(s, index, who).records[(index2, who2)] == s.records[(index2, who2)],
        with_contribution(s, index, who, v).records[(index2, who2)] == s.records[(index2, who2)],
        contribution_of(with_contribution(s, index, who, v), index2, who2) == contribution_of(
            s,
            index2,
            who2,
        ),
        contribution_of(with_vote(s, index, who), index2, who2) == contribution_of(s, index2, who2),
        contribution_of(without_record(s, index, who), index2, who2) == contribution_of(
            s,
            index2,
            who2,
        ),
        vote_of(with_vote(s, index, who), index2, who2) == vote_of(s, index2, who2),
        vote_of(with_contribution(s, index, who, v), index2, who2) == vote_of(s, index2, who2),
        vote_of(without_record(s, index, who), index2, who2) == vote_of(s, index2, who2),
{
}

/// The index a new fund gets is never that of a live fund.
pub proof fn lemma_new_index_is_fresh(p: Pallet)
    requires
        p.wf(),
    ensures
        !p@.funds.contains_key(p@.count),
{
}

/// `create` stores its fund under the next index, which no live fund had:
/// every live fund is kept, the count grows by one, and every fund index
/// stays below the count.
pub proof fn lemma_create_uses_fresh_index(
    s: FundState,
    accounts: Map<u64, Account>,
    ledger: Map<u64, u64>,
    creater: u64,
    beneficiary: u64,
    goal: u64,
    end: u64,
    now: u64,
)
    requires
        state_wf(s),
        create_checks(s, accounts, ledger, creater, end) is Ok,
        end + s.config.voting_period + now <= u64::MAX,
        s.count < u32::MAX,
    ensures
        !s.funds.contains_key(s.count),
        created(s, creater, beneficiary, goal, end, now).funds.contains_key(s.count),
        created(s, creater, beneficiary, goal, end, now).funds[s.count] == created_fund(
            s,
            creater,
            beneficiary,
            goal,
            end,
            now,
        ),
        created(s, creater, beneficiary, goal, end, now).count == s.count + 1,
        forall|k: u32| #[trigger]
            s.funds.contains_key(k) ==> created(
                s,
                creater,
                beneficiary,
                goal,
                end,
                now,
            ).funds.contains_key(k) && created(s, creater, beneficiary, goal, end, now).funds[k]
                == s.funds[k],
        forall|k: u32| #[trigger]
            created(s, creater, beneficiary, goal, end, now).funds.contains_key(k) ==> k < created(
                s,
                creater,
                beneficiary,
                goal,
                end,
                now,
            ).count,
        state_wf(created(s, creater, beneficiary, goal, end, now)),
{
    lemma_created_wf(s, creater, beneficiary, goal, end, now);
}

/// No call but `create` changes the fund count, and `create` raises it by
/// one: the count never decreases, so an index is never handed out twice.
pub proof fn lemma_fund_count_never_decreases(s: FundState, who: u64, index: u32, value: u64)
    ensures
        contributed(s, who, index, value).count == s.count,
        voted(s, who, index).count == s.count,
        withdrawn(s, who, index).count == s.count,
        closed(s, index).count == s.count,
{
}

/// A vote keeps the fund's voters recorded and its flag exact: the voter
/// becomes member number `totalvote`, the count goes up by one, every member
/// below the new count is recorded, and the flag is raised exactly when the
/// count has reached the minimum.
pub proof fn lemma_vote_keeps_members_and_flag(
    s: FundState,
    accounts: Map<u64, Account>,
    who: u64,
    index: u32,
    now: u64,
)
    requires
        state_wf(s),
        vote_checks(s, accounts, who, index, now) is Ok,
        s.funds[index].totalvote < u64::MAX,
    ensures
        state_wf(voted(s, who, index)),
        voted(s, who, index).funds[index].totalvote == s.funds[index].totalvote + 1,
        voted(s, who, index).members[(index, s.funds[index].totalvote)] == who,
        forall|n: u64|
            n < voted(s, who, index).funds[index].totalvote ==> #[trigger] voted(
                s,
                who,
                index,
            ).members.contains_key((index, n)),
        voted(s, who, index).funds[index].voteflag <==> voted(s, who, index).funds[index].totalvote
            >= s.config.min_votenum,
{
    lemma_voted_wf(s, accounts, who, index, now);
    assert(voted(s, who, index).funds.contains_key(index));
}

/// A fund takes contributions only once it has at least one vote and at
/// least the minimum number of votes.
pub proof fn lemma_contribution_needs_votes(
    p: Pallet,
    ledger: Map<u64, u64>,
    who: u64,
    index: u32,
    value: u64,
    now: u64,
)
    requires
        p.wf(),
        contribute_checks(p@, ledger, who, index, value, now) is Ok,
    ensures
        p@.funds[index].totalvote > 0,
        p@.funds[index].totalvote >= p@.config.min_votenum,
{
}

/// A live fund's raised amount is the sum of the contributions recorded for
/// it, and never exceeds its goal.
pub proof fn lemma_raised_is_total_contributions(p: Pallet, index: u32)
    requires
        p.wf(),
        p@.funds.contains_key(index),
    ensures
        p@.funds[index].raised == contributions_total(p@, index),
        p@.funds[index].raised <= p@.funds[index].goal,
{
}

/// An account votes for a fund at most once: after a vote, a second vote by
/// the same account fails, with `Alreadyvoted` while the voting period runs.
pub proof fn lemma_one_vote_per_account(
    s: FundState,
    accounts: Map<u64, Account>,
    who: u64,
    index: u32,
    now: u64,
    later: u64,
)
    requires
        state_wf(s),
        vote_checks(s, accounts, who, index, now) is Ok,
    ensures
        vote_checks(voted(s, who, index), accounts, who, index, later) is Err,
        s.funds[index].start + s.config.voting_period > later ==> vote_checks(
            voted(s, who, index),
            accounts,
            who,
            index,
            later,
        ) == Err::<(), DispatchError>(DispatchError::FundRaising(Error::Alreadyvoted)),
{
}

/// No block admits two of voting for a fund, contributing to it, and
/// withdrawing from it (or dispensing it): voting closes when the voting
/// period ends, contributing opens after it and closes at the fund's end,
/// withdrawing and dispensing open after the end.
pub proof fn lemma_phases_exclusive(
    p: Pallet,
    accounts: Map<u64, Account>,
    ledger: Map<u64, u64>,
    voter: u64,
    contributor: u64,
    withdrawer: u64,
    index: u32,
    value: u64,
    now: u64,
)
    requires
        p.wf(),
    ensures
        !(vote_checks(p@, accounts, voter, index, now) is Ok && contribute_checks(
            p@,
            ledger,
            contributor,
            index,
            value,
            now,
        ) is Ok),
        !(vote_checks(p@, accounts, voter, index, now) is Ok && withdraw_checks(
            p@,
            ledger,
            withdrawer,
            index,
            now,
        ) is Ok),
        !(contribute_checks(p@, ledger, contributor, index, value, now) is Ok && withdraw_checks(
            p@,
            ledger,
            withdrawer,
            index,
            now,
        ) is Ok),
        !(vote_checks(p@, accounts, voter, index, now) is Ok && dispense_checks(p@, index, now) is Ok),
        !(contribute_checks(p@, ledger, contributor, index, value, now) is Ok && dispense_checks(
            p@,
            index,
            now,
        ) is Ok),
{
}

/// A vote never lowers a fund's flag and adds exactly one to its count.
pub proof fn lemma_vote_flag_monotone(f: FundInfo, c: Config)
    requires
        f.totalvote < u64::MAX,
    ensures
        f.voteflag ==> voted_fund(f, c).voteflag,
        voted_fund(f, c).totalvote == f.totalvote + 1,
{
}

/// A contribution withdrawn after the fund's end comes back in full: when
/// `who`, holding more than `value` and not the pot, contributes `value` to a
/// fund it had no record in, a later withdrawal succeeds and restores the
/// fund state and every balance.
pub proof fn lemma_contribute_then_withdraw_restores(
    s: FundState,
    b: Balances,
    who: u64,
    index: u32,
    value: u64,
    now: u64,
    later: u64,
)
    requires
        state_wf(s),
        b.wf(),
        contribute_checks(s, b@, who, index, value, now) is Ok,
        value > 0,
        who != fund_account(index),
        currency::free_of(b@, who) > value,
        !s.records.contains_key((index, who)),
        later > s.funds[index].end,
    ensures
        withdraw_checks(
            contributed(s, who, index, value),
            contribute_ledger(b@, who, index, value),
            who,
            index,
            later,
        ) is Ok,
        contribution_of(contributed(s, who, index, value), index, who) == value,
        withdrawn(contributed(s, who, index, value), who, index) == s,
        withdraw_ledger(contribute_ledger(b@, who, index, value), who, index, value) == b@,
{
    let s1 = contributed(s, who, index, value);
    let pot = fund_account(index);
    assert(contribution_of(s1, index, who) == value);
    currency::lemma_transfer_then_return_restores(b, who, pot, value);
    let s2 = withdrawn(s1, who, index);
    assert(s2.funds[index] == s.funds[index]);
    assert(s2.funds =~= s.funds);
    assert(s2.records =~= s.records);
    assert(s2 =~= s);
}

/// The sum of the amounts of `payouts`.
pub open spec fn payout_total(payouts: Seq<(u64, u64)>) -> int
    decreases payouts.len(),
{
    if payouts.len() == 0 {
        0
    } else {
        payout_total(payouts.drop_last()) + payouts.last().1
    }
}

proof fn lemma_payout_total_append(a: Seq<(u64, u64)>, b: Seq<(u64, u64)>)
    ensures
        payout_total(a + b) == payout_total(a) + payout_total(b),
    decreases b.len(),
{
    if b.len() == 0 {
        assert(a + b =~= a);
    } else {
        assert((a + b).drop_last() =~= a + b.drop_last());
        lemma_payout_total_append(a, b.drop_last());
    }
}

proof fn lemma_payout_total_uniform(payouts: Seq<(u64, u64)>, amount: u64)
    requires
        forall|k: int| 0 <= k < payouts.len() ==> #[trigger] payouts[k].1 == amount,
    ensures
        payout_total(payouts) == payouts.len() * amount,
    decreases payouts.len(),
{
    if payouts.len() > 0 {
        lemma_payout_total_uniform(payouts.drop_last(), amount);
        assert(payouts.len() * amount == (payouts.len() - 1) * amount + amount) by (nonlinear_arith);
    }
}

/// Dispensing a fund pays out no more than its raised amount and deposit:
/// the beneficiary's amount and the voters' gross shares make up exactly the
/// raised amount, and each voter gets at most its gross share.
pub proof fn lemma_dispense_pays_at_most_fund(s: FundState, index: u32, caller: u64)
    requires
        s.funds.contains_key(index),
        s.config.fee_percent > 0,
        s.config.percent > 0,
        s.funds[index].totalvote > 0,
    ensures
        beneficiary_amount(s.funds[index], s.config) + s.funds[index].totalvote
            * voter_share_gross(s.funds[index], s.config) == s.funds[index].raised,
        voter_share(s.funds[index], s.config) <= voter_share_gross(s.funds[index], s.config),
        payout_total(dispense_payouts(s, index, caller)) <= s.funds[index].raised
            + s.funds[index].deposit,
{
    let f = s.funds[index];
    let c = s.config;
    lemma_voter_shares_fit(f.raised, c.fee_percent, f.totalvote);
    let g = voter_share_gross(f, c);
    let v = voter_share(f, c);
    let voters = Seq::new(f.totalvote as nat, |k: int| (s.members[(index, k as u64)], v));
    lemma_payout_total_uniform(voters, v);
    let first = seq![(f.beneficiary, beneficiary_amount(f, c))];
    let last = seq![(caller, f.deposit)];
    lemma_payout_total_append(first, voters);
    lemma_payout_total_append(first + voters, last);
    assert(payout_total(Seq::<(u64, u64)>::empty()) == 0);
    assert(payout_total(first) == beneficiary_amount(f, c)) by {
        assert(first.drop_last() =~= Seq::<(u64, u64)>::empty());
    }
    assert(payout_total(last) == f.deposit) by {
        assert(last.drop_last() =~= Seq::<(u64, u64)>::empty());
    }
    assert(f.totalvote * v <= f.totalvote * g) by (nonlinear_arith)
        requires
            v <= g,
            f.totalvote > 0,
    ;
}


/// A pot that holds at least the total of a sequence of payouts to other
/// accounts makes every payout, and loses exactly that total.
pub proof fn lemma_pay_all_succeeds(ledger: Map<u64, u64>, from: u64, payouts: Seq<(u64, u64)>)
    requires
        currency::free_of(ledger, from) >= payout_total(payouts),
        forall|k: int| 0 <= k < payouts.len() ==> #[trigger] payouts[k].0 != from,
    ensures
        pay_all(ledger, from, payouts).1,
        currency::free_of(pay_all(ledger, from, payouts).0, from) == currency::free_of(ledger, from)
            - payout_total(payouts),
    decreases payouts.len(),
{
    if payouts.len() > 0 {
        let init = payouts.drop_last();
        assert forall|k: int| 0 <= k < init.len() implies #[trigger] init[k].0 != from by {
            assert(init[k] == payouts[k]);
        }
        lemma_payout_total_nonneg(init);
        lemma_pay_all_succeeds(ledger, from, init);
        assert(payouts.last() == payouts[payouts.len() - 1]);
    }
}

proof fn lemma_payout_total_nonneg(payouts: Seq<(u64, u64)>)
    ensures
        payout_total(payouts) >= 0,
    decreases payouts.len(),
{
    if payouts.len() > 0 {
        lemma_payout_total_nonneg(payouts.drop_last());
    }
}

/// The pot loses at most the total of a run of payouts, and makes every
/// payout when it holds that total (payouts to the pot itself included).
proof fn lemma_pay_all_floor(ledger: Map<u64, u64>, from: u64, payouts: Seq<(u64, u64)>)
    ensures
        currency::free_of(pay_all(ledger, from, payouts).0, from) >= currency::free_of(ledger, from)
            - payout_total(payouts),
        currency::free_of(ledger, from) >= payout_total(payouts) ==> pay_all(ledger, from, payouts).1,
    decreases payouts.len(),
{
    if payouts.len() > 0 {
        let init = payouts.drop_last();
        lemma_pay_all_floor(ledger, from, init);
        let prev = pay_all(ledger, from, init);
        let (to, amount) = payouts.last();
        if prev.1 && currency::can_withdraw(prev.0, from, amount) {
            lemma_pay_one_source(prev.0, from, to, amount);
        }
    }
}

/// Dispensing a fund succeeds whenever the pot holds its raised amount and
/// deposit, whoever the beneficiary, the voters and the caller are.
pub proof fn lemma_dispense_succeeds_when_pot_covers_fund(
    s: FundState,
    ledger: Map<u64, u64>,
    caller: u64,
    index: u32,
)
    requires
        s.funds.contains_key(index),
        s.config.fee_percent > 0,
        s.config.percent > 0,
        s.funds[index].totalvote > 0,
        currency::free_of(ledger, fund_account(index)) >= s.funds[index].raised
            + s.funds[index].deposit,
    ensures
        pay_all(ledger, fund_account(index), dispense_payouts(s, index, caller)).1,
{
    lemma_dispense_pays_at_most_fund(s, index, caller);
    lemma_pay_all_floor(ledger, fund_account(index), dispense_payouts(s, index, caller));
}

/// The sum, over the funds of `funds`, of each fund's deposit and raised
/// amount: what the pot owes the live funds.
pub open spec fn funds_owed(funds: Map<u32, FundInfo>) -> nat
    decreases funds.dom().len(),
    when funds.dom().finite()
{
    if funds.dom().len() == 0 {
        0
    } else {
        let k = funds.dom().choose();
        funds[k].deposit as nat + funds[k].raised as nat + funds_owed(funds.remove(k))
    }
}

/// The pot shared by the funds.
pub open spec fn pot_account() -> u64 {
    fund_account(0)
}

/// Whether the pot holds what it owes the live funds of `s`.
pub open spec fn pot_covers(s: FundState, ledger: Map<u64, u64>) -> bool {
    currency::free_of(ledger, pot_account()) >= funds_owed(s.funds)
}

/// What the pot owes is what it owes one fund plus what it owes the rest.
proof fn lemma_funds_owed_remove(m: Map<u32, FundInfo>, k: u32)
    requires
        m.dom().finite(),
        m.contains_key(k),
    ensures
        funds_owed(m) == m[k].deposit + m[k].raised + funds_owed(m.remove(k)),
    decreases m.dom().len(),
{
    let c = m.dom().choose();
    if c != k {
        lemma_funds_owed_remove(m.remove(c), k);
        lemma_funds_owed_remove(m.remove(k), c);
        assert(m.remove(c).remove(k) =~= m.remove(k).remove(c));
    }
}

/// What the pot owes after fund `k` is set to `f`, against before.
proof fn lemma_funds_owed_set(m: Map<u32, FundInfo>, k: u32, f: FundInfo)
    requires
        m.dom().finite(),
    ensures
        funds_owed(m.insert(k, f)) + (if m.contains_key(k) {
            m[k].deposit + m[k].raised
        } else {
            0
        }) == funds_owed(m) + f.deposit + f.raised,
{
    lemma_funds_owed_remove(m.insert(k, f), k);
    assert(m.insert(k, f).remove(k) =~= m.remove(k));
    if m.contains_key(k) {
        lemma_funds_owed_remove(m, k);
    } else {
        assert(m.remove(k) =~= m);
    }
}

/// Every fund lives in the one pot.
proof fn lemma_pot_of(index: u32)
    ensures
        fund_account(index) == pot_account(),
{
    lemma_fund_account_shared(index);
    lemma_fund_account_shared(0);
}

/// A pot that covers the live funds never lacks the balance for a
/// withdrawal, a dissolution or a dispensation: none of them fails for want
/// of funds.
pub proof fn lemma_covered_pot_pays(
    s: FundState,
    ledger: Map<u64, u64>,
    who: u64,
    caller: u64,
    index: u32,
    now: u64,
)
    requires
        state_wf(s),
        pot_covers(s, ledger),
    ensures
        withdraw_checks(s, ledger, who, index, now) != Err::<(), DispatchError>(
            DispatchError::Currency(currency::Error::InsufficientBalance),
        ),
        s.funds.contains_key(index) && s.funds[index].deposit + s.funds[index].raised <= u64::MAX
            ==> dissolve_checks(s, ledger, index, now) != Err::<(), DispatchError>(
            DispatchError::Currency(currency::Error::InsufficientBalance),
        ),
        s.config.fee_percent > 0 && s.config.percent > 0 && (s.funds.contains_key(index)
            ==> s.funds[index].totalvote > 0) ==> dispense_outcome(s, ledger, caller, index, now)
            != Err::<(), DispatchError>(
            DispatchError::Currency(currency::Error::InsufficientBalance),
        ),
{
    lemma_pot_of(index);
    if s.funds.contains_key(index) {
        lemma_funds_owed_remove(s.funds, index);
        lemma_withdrawn_wf(s, who, index);
        if s.config.fee_percent > 0 && s.config.percent > 0 && s.funds[index].totalvote > 0 {
            lemma_dispense_succeeds_when_pot_covers_fund(s, ledger, caller, index);
        }
    }
}

/// `create` keeps the pot covering the live funds, unless the creator is
/// the pot or the deposit would overflow the pot's balance.
pub proof fn lemma_create_keeps_pot_covered(
    s: FundState,
    accounts: Map<u64, Account>,
    ledger: Map<u64, u64>,
    creater: u64,
    beneficiary: u64,
    goal: u64,
    end: u64,
    now: u64,
)
    requires
        state_wf(s),
        pot_covers(s, ledger),
        create_checks(s, accounts, ledger, creater, end) is Ok,
        creater != pot_account(),
        currency::free_of(ledger, pot_account()) + s.config.submission_deposit <= u64::MAX,
    ensures
        pot_covers(
            created(s, creater, beneficiary, goal, end, now),
            currency::after_deposit_creating(
                currency::after_withdraw(ledger, creater, s.config.submission_deposit),
                fund_account(s.count),
                s.config.submission_deposit,
            ),
        ),
{
    lemma_pot_of(s.count);
    lemma_funds_owed_set(s.funds, s.count, created_fund(s, creater, beneficiary, goal, end, now));
}

/// `contribute` keeps the pot covering the live funds, unless the
/// contributor is the pot.
pub proof fn lemma_contribute_keeps_pot_covered(
    s: FundState,
    ledger: Map<u64, u64>,
    who: u64,
    index: u32,
    value: u64,
    now: u64,
)
    requires
        state_wf(s),
        pot_covers(s, ledger),
        contribute_checks(s, ledger, who, index, value, now) is Ok,
        who != pot_account(),
    ensures
        pot_covers(contributed(s, who, index, value), contribute_ledger(ledger, who, index, value)),
{
    lemma_pot_of(index);
    let f = s.funds[index];
    lemma_funds_owed_set(s.funds, index, FundInfo { raised: (f.raised + value) as u64, ..f });
}

/// `vote` keeps the pot covering the live funds.
pub proof fn lemma_vote_keeps_pot_covered(s: FundState, ledger: Map<u64, u64>, who: u64, index: u32)
    requires
        state_wf(s),
        pot_covers(s, ledger),
        s.funds.contains_key(index),
    ensures
        pot_covers(voted(s, who, index), ledger),
{
    lemma_funds_owed_set(s.funds, index, voted_fund(s.funds[index], s.config));
}

/// `withdraw` keeps the pot covering the live funds.
pub proof fn lemma_withdraw_keeps_pot_covered(
    s: FundState,
    ledger: Map<u64, u64>,
    who: u64,
    index: u32,
    now: u64,
)
    requires
        state_wf(s),
        pot_covers(s, ledger),
        withdraw_checks(s, ledger, who, index, now) is Ok,
    ensures
        pot_covers(
            withdrawn(s, who, index),
            withdraw_ledger(ledger, who, index, contribution_of(s, index, who)),
        ),
{
    lemma_pot_of(index);
    lemma_withdrawn_wf(s, who, index);
    let f = s.funds[index];
    let rec = contribution_of(s, index, who);
    lemma_funds_owed_set(
        s.funds,
        index,
        FundInfo { raised: saturating_sub(f.raised, rec), ..f },
    );
}

/// `dissolve` keeps the pot covering the live funds.
pub proof fn lemma_dissolve_keeps_pot_covered(
    s: FundState,
    ledger: Map<u64, u64>,
    reporter: u64,
    index: u32,
    now: u64,
)
    requires
        state_wf(s),
        pot_covers(s, ledger),
        dissolve_checks(s, ledger, index, now) is Ok,
        s.funds[index].deposit + s.funds[index].raised <= u64::MAX,
    ensures
        pot_covers(
            closed(s, index),
            currency::after_deposit_creating(
                currency::after_withdraw(
                    ledger,
                    fund_account(index),
                    (s.funds[index].deposit + s.funds[index].raised) as u64,
                ),
                reporter,
                (s.funds[index].deposit + s.funds[index].raised) as u64,
            ),
        ),
{
    lemma_pot_of(index);
    lemma_funds_owed_remove(s.funds, index);
}

/// `dispense` keeps the pot covering the live funds.
pub proof fn lemma_dispense_keeps_pot_covered(
    s: FundState,
    ledger: Map<u64, u64>,
    caller: u64,
    index: u32,
    now: u64,
)
    requires
        state_wf(s),
        pot_covers(s, ledger),
        dispense_outcome(s, ledger, caller, index, now) is Ok,
        s.config.fee_percent > 0,
        s.config.percent > 0,
        s.funds[index].totalvote > 0,
    ensures
        pot_covers(
            closed(s, index),
            pay_all(ledger, fund_account(index), dispense_payouts(s, index, caller)).0,
        ),
{
    lemma_pot_of(index);
    lemma_funds_owed_remove(s.funds, index);
    lemma_dispense_pays_at_most_fund(s, index, caller);
    lemma_pay_all_floor(ledger, fund_account(index), dispense_payouts(s, index, caller));
}

/// `create` refuses exactly an unregistered creator, a zero length, and a
/// creator who cannot pay the deposit; any registered account may create,
/// whatever its role, status or score. The fund it stores starts now, ends
/// after the voting period and `end` more blocks, and has raised nothing.
pub proof fn lemma_create_rules(
    s: FundState,
    accounts: Map<u64, Account>,
    ledger: Map<u64, u64>,
    creater: u64,
    beneficiary: u64,
    goal: u64,
    end: u64,
    now: u64,
)
    ensures
        (create_checks(s, accounts, ledger, creater, end) == Err::<(), DispatchError>(
            DispatchError::FundRaising(Error::InvalidAccount),
        )) <==> !accounts.contains_key(creater),
        (create_checks(s, accounts, ledger, creater, end) == Err::<(), DispatchError>(
            DispatchError::FundRaising(Error::EndTooEarly),
        )) <==> (accounts.contains_key(creater) && end == 0),
        create_checks(s, accounts, ledger, creater, end) is Ok <==> {
            &&& accounts.contains_key(creater)
            &&& end > 0
            &&& currency::free_of(ledger, creater) >= s.config.submission_deposit
        },
        end + s.config.voting_period + now <= u64::MAX ==> {
            let f = created_fund(s, creater, beneficiary, goal, end, now);
            &&& f.fundnum == s.count
            &&& f.creater == creater
            &&& f.beneficiary == beneficiary
            &&& f.deposit == s.config.submission_deposit
            &&& f.raised == 0
            &&& f.start == now
            &&& f.end == end + s.config.voting_period + now
            &&& f.goal == goal
            &&& f.totalvote == 0
            &&& !f.voteflag
            &&& fund_end(s.config, end, now) == end + s.config.voting_period + now
        },
{
}

/// `vote` refuses an unregistered caller, and refuses for want of score
/// exactly a registered caller whose score is below 200; a registered caller
/// with a score of at least 200 votes for a live fund during its voting
/// period unless it already voted.
pub proof fn lemma_vote_rules(
    s: FundState,
    accounts: Map<u64, Account>,
    who: u64,
    index: u32,
    now: u64,
)
    ensures
        (vote_checks(s, accounts, who, index, now) == Err::<(), DispatchError>(
            DispatchError::FundRaising(Error::InvalidAccount),
        )) <==> !accounts.contains_key(who),
        (vote_checks(s, accounts, who, index, now) == Err::<(), DispatchError>(
            DispatchError::FundRaising(Error::NotEnoughScore),
        )) <==> (accounts.contains_key(who) && accounts[who].score < 200),
        vote_checks(s, accounts, who, index, now) is Ok <==> {
            &&& accounts.contains_key(who)
            &&& accounts[who].score >= 200
            &&& s.funds.contains_key(index)
            &&& now < s.funds[index].start + s.config.voting_period
            &&& vote_of(s, index, who) == 0
        },
        s.funds.contains_key(index) && s.funds[index].totalvote < u64::MAX ==> {
            let s2 = voted(s, who, index);
            &&& s2.funds[index].totalvote == s.funds[index].totalvote + 1
            &&& s2.members[(index, s.funds[index].totalvote)] == who
            &&& vote_of(s2, index, who) == 1
            &&& s2.count == s.count
            &&& s2.config == s.config
        },
{
}

/// `contribute` refuses for being too small exactly a value below the
/// minimum contribution, whatever the deposit; it accepts exactly a value of
/// at least the minimum, for a live fund with enough votes, after its voting
/// period and before its end, that stays within the goal and that the
/// caller can move into the pot. It adds the value to the fund's raised
/// amount and to the caller's record, leaving every other record, fund and
/// setting as it was, and moves the value from the caller to the pot.
pub proof fn lemma_contribute_rules(
    s: FundState,
    ledger: Map<u64, u64>,
    who: u64,
    index: u32,
    value: u64,
    now: u64,
    j: u32,
    other: u64,
)
    ensures
        (contribute_checks(s, ledger, who, index, value, now) == Err::<(), DispatchError>(
            DispatchError::FundRaising(Error::ContributionTooSmall),
        )) <==> value < s.config.min_contribution,
        contribute_checks(s, ledger, who, index, value, now) is Ok <==> {
            &&& value >= s.config.min_contribution
            &&& s.funds.contains_key(index)
            &&& s.funds[index].totalvote >= s.config.min_votenum
            &&& s.funds[index].voteflag
            &&& s.funds[index].start + s.config.voting_period < now
            &&& now < s.funds[index].end
            &&& s.funds[index].raised + value <= s.funds[index].goal
            &&& (value == 0 || who == fund_account(index) || (currency::free_of(ledger, who)
                >= value && currency::free_of(ledger, fund_account(index)) + value <= u64::MAX))
        },
        contribute_checks(s, ledger, who, index, value, now) is Ok ==> {
            let s2 = contributed(s, who, index, value);
            let l2 = contribute_ledger(ledger, who, index, value);
            &&& s2.funds[index].raised == s.funds[index].raised + value
            &&& s2.funds[index].goal == s.funds[index].goal
            &&& s2.funds[index].totalvote == s.funds[index].totalvote
            &&& s2.funds[index].end == s.funds[index].end
            &&& s2.funds[index].deposit == s.funds[index].deposit
            &&& contribution_of(s2, index, who) == (if contribution_of(s, index, who) + value
                <= u64::MAX {
                contribution_of(s, index, who) + value
            } else {
                u64::MAX as int
            })
            &&& ((j != index || other != who) ==> contribution_of(s2, j, other) == contribution_of(
                s,
                j,
                other,
            ))
            &&& (j != index ==> s2.funds.contains_key(j) == s.funds.contains_key(j) && s2.funds[j]
                == s.funds[j])
            &&& s2.count == s.count
            &&& s2.members == s.members
            &&& s2.config == s.config
            &&& (who != fund_account(index) ==> {
                &&& currency::free_of(l2, who) == currency::free_of(ledger, who) - value
                &&& currency::free_of(l2, fund_account(index)) == currency::free_of(
                    ledger,
                    fund_account(index),
                ) + value
                &&& ((other != who && other != fund_account(index)) ==> currency::free_of(
                    l2,
                    other,
                ) == currency::free_of(ledger, other))
            })
        },
{
}

/// `withdraw` accepts exactly a caller with a contribution to a live fund
/// that has ended, when the pot holds that contribution; it pays the whole
/// contribution out of the pot, removes the caller's record and lowers the
/// fund's raised amount by it.
pub proof fn lemma_withdraw_rules(
    s: FundState,
    ledger: Map<u64, u64>,
    who: u64,
    index: u32,
    now: u64,
)
    requires
        state_wf(s),
    ensures
        withdraw_checks(s, ledger, who, index, now) is Ok <==> {
            &&& s.funds.contains_key(index)
            &&& s.funds[index].end < now
            &&& contribution_of(s, index, who) > 0
            &&& currency::free_of(ledger, fund_account(index)) >= contribution_of(s, index, who)
        },
        (withdraw_checks(s, ledger, who, index, now) == Err::<(), DispatchError>(
            DispatchError::FundRaising(Error::NoContribution),
        )) <==> (s.funds.contains_key(index) && s.funds[index].end < now && contribution_of(
            s,
            index,
            who,
        ) == 0),
        withdraw_checks(s, ledger, who, index, now) is Ok ==> {
            let s2 = withdrawn(s, who, index);
            let amount = contribution_of(s, index, who);
            &&& s2.funds[index].raised == s.funds[index].raised - amount
            &&& contribution_of(s2, index, who) == 0
            &&& vote_of(s2, index, who) == 0
            &&& currency::free_of(
                withdraw_ledger(ledger, who, index, amount),
                fund_account(index),
            ) == (if who == fund_account(index) && ledger.contains_key(who) && currency::free_of(
                ledger,
                who,
            ) > amount {
                currency::free_of(ledger, fund_account(index)) as int
            } else {
                currency::free_of(ledger, fund_account(index)) - amount
            })
        },
{
    if s.funds.contains_key(index) {
        lemma_withdrawn_wf(s, who, index);
    }
}

/// `dissolve` refuses as not retired exactly a live fund whose end plus the
/// retirement period has not passed, and accepts exactly a retired live fund
/// whose deposit and raised amount the pot holds.
pub proof fn lemma_dissolve_rules(s: FundState, ledger: Map<u64, u64>, index: u32, now: u64)
    requires
        s.funds.contains_key(index) ==> s.funds[index].deposit + s.funds[index].raised <= u64::MAX,
    ensures
        (dissolve_checks(s, ledger, index, now) == Err::<(), DispatchError>(
            DispatchError::FundRaising(Error::FundNotRetired),
        )) <==> (s.funds.contains_key(index) && now <= s.funds[index].end
            + s.config.retirement_period),
        dissolve_checks(s, ledger, index, now) is Ok <==> {
            &&& s.funds.contains_key(index)
            &&& now > s.funds[index].end + s.config.retirement_period
            &&& currency::free_of(ledger, fund_account(index)) >= s.funds[index].deposit
                + s.funds[index].raised
        },
{
}

/// `dispense` passes its checks exactly for a live fund that has ended and
/// reached its goal. Its payouts, in order: the beneficiary gets the raised
/// amount less the voters' gross shares, where a gross share `g` is the
/// raised amount divided by `fee_percent`, divided by the number of votes;
/// the voter of each vote, in vote order, gets `g` less `g / percent`; the
/// caller gets the deposit.
pub proof fn lemma_dispense_rules(s: FundState, index: u32, caller: u64, now: u64)
    ensures
        dispense_checks(s, index, now) is Ok <==> {
            &&& s.funds.contains_key(index)
            &&& now > s.funds[index].end
            &&& s.funds[index].raised >= s.funds[index].goal
        },
        s.funds.contains_key(index) && s.config.fee_percent > 0 && s.config.percent > 0
            && s.funds[index].totalvote > 0 ==> {
            let f = s.funds[index];
            let g = (f.raised / s.config.fee_percent) / f.totalvote;
            let p = dispense_payouts(s, index, caller);
            &&& p.len() == f.totalvote + 2
            &&& p[0].0 == f.beneficiary
            &&& p[0].1 == f.raised - g * f.totalvote
            &&& forall|k: int|
                0 <= k < f.totalvote ==> #[trigger] p[k + 1].0 == s.members[(index, k as u64)]
                    && p[k + 1].1 == g - g / s.config.percent
            &&& p[f.totalvote + 1] == (caller, f.deposit)
        },
{
    if s.funds.contains_key(index) && s.config.fee_percent > 0 && s.config.percent > 0
        && s.funds[index].totalvote > 0 {
        let f = s.funds[index];
        lemma_voter_shares_fit(f.raised, s.config.fee_percent, f.totalvote);
        let g = (f.raised / s.config.fee_percent) / f.totalvote;
        assert(g / s.config.percent <= g) by (nonlinear_arith)
            requires
                s.config.percent > 0,
                g >= 0,
        ;
    }
}

/// The check that `who` may rate the parties of fund `index` passes exactly
/// when the fund is live, has ended and `who` holds a contribution to it.
pub proof fn lemma_contribution_check_rules(s: FundState, who: u64, index: u32, now: u64)
    ensures
        contribution_check_outcome(s, who, index, now) is Ok <==> {
            &&& s.funds.contains_key(index)
            &&& s.funds[index].end < now
            &&& contribution_of(s, index, who) > 0
        },
{
}

/// Closing a fund (after a dissolution or a dispensation) removes it and
/// every record of its child trie, and leaves every other fund and record,
/// the fund count, the members and the settings as they were.
pub proof fn lemma_close_rules(s: FundState, index: u32, j: u32, w: u64)
    ensures
        !closed(s, index).funds.contains_key(index),
        contribution_of(closed(s, index), index, w) == 0,
        vote_of(closed(s, index), index, w) == 0,
        j != index ==> closed(s, index).funds.contains_key(j) == s.funds.contains_key(j)
            && closed(s, index).funds[j] == s.funds[j],
        j != index ==> contribution_of(closed(s, index), j, w) == contribution_of(s, j, w)
            && vote_of(closed(s, index), j, w) == vote_of(s, j, w),
        closed(s, index).count == s.count,
        closed(s, index).members == s.members,
        closed(s, index).config == s.config,
{
}

/// The money `create`, `withdraw` and `dissolve` move, for callers other
/// than the pot: `create` moves the deposit from the creator to the pot,
/// `withdraw` moves the contribution from the pot to the caller (dropped if
/// the caller's account no longer exists), and `dissolve` moves the deposit
/// and raised amount from the pot to the reporter.
pub proof fn lemma_call_payments(
    s: FundState,
    ledger: Map<u64, u64>,
    who: u64,
    index: u32,
    amount: u64,
)
    requires
        who != fund_account(index),
        currency::can_withdraw(ledger, fund_account(index), amount),
    ensures
        ({
            let l2 = withdraw_ledger(ledger, who, index, amount);
            &&& currency::free_of(l2, fund_account(index)) == currency::free_of(
                ledger,
                fund_account(index),
            ) - amount
            &&& (ledger.contains_key(who) && currency::free_of(ledger, who) + amount <= u64::MAX)
                ==> currency::free_of(l2, who) == currency::free_of(ledger, who) + amount
            &&& (amount > 0 && !ledger.contains_key(who)) ==> currency::free_of(l2, who) == 0
        }),
        ({
            let l2 = currency::after_deposit_creating(
                currency::after_withdraw(ledger, fund_account(index), amount),
                who,
                amount,
            );
            &&& currency::free_of(l2, fund_account(index)) == currency::free_of(
                ledger,
                fund_account(index),
            ) - amount
            &&& currency::free_of(ledger, who) + amount <= u64::MAX ==> currency::free_of(l2, who)
                == currency::free_of(ledger, who) + amount
        }),
        currency::can_withdraw(ledger, who, amount) && currency::free_of(
            ledger,
            fund_account(index),
        ) + amount <= u64::MAX ==> ({
            let l2 = currency::after_deposit_creating(
                currency::after_withdraw(ledger, who, amount),
                fund_account(index),
                amount,
            );
            &&& currency::free_of(l2, who) == currency::free_of(ledger, who) - amount
            &&& currency::free_of(l2, fund_account(index)) == currency::free_of(
                ledger,
                fund_account(index),
            ) + amount
        }),
{
}

/// A run of payouts to distinct accounts other than the source leaves
/// every account that is neither the source nor a recipient as it was.
proof fn lemma_pay_all_others(ledger: Map<u64, u64>, from: u64, payouts: Seq<(u64, u64)>, x: u64)
    requires
        x != from,
        forall|k: int| 0 <= k < payouts.len() ==> #[trigger] payouts[k].0 != x,
    ensures
        currency::free_of(pay_all(ledger, from, payouts).0, x) == currency::free_of(ledger, x),
    decreases payouts.len(),
{
    if payouts.len() > 0 {
        let init = payouts.drop_last();
        assert forall|k: int| 0 <= k < init.len() implies #[trigger] init[k].0 != x by {
            assert(init[k] == payouts[k]);
        }
        lemma_pay_all_others(ledger, from, init, x);
        assert(payouts.last() == payouts[payouts.len() - 1]);
    }
}

/// When every payout of a run to distinct accounts other than the source
/// is made, each recipient's balance rises by exactly its amount (unless
/// the credit would overflow it).
pub proof fn lemma_pay_all_credits(ledger: Map<u64, u64>, from: u64, payouts: Seq<(u64, u64)>, k: int)
    requires
        0 <= k < payouts.len(),
        pay_all(ledger, from, payouts).1,
        forall|a: int| 0 <= a < payouts.len() ==> #[trigger] payouts[a].0 != from,
        forall|a: int, b: int|
            0 <= a < b < payouts.len() ==> #[trigger] payouts[a].0 != #[trigger] payouts[b].0,
        currency::free_of(ledger, payouts[k].0) + payouts[k].1 <= u64::MAX,
    ensures
        currency::free_of(pay_all(ledger, from, payouts).0, payouts[k].0) == currency::free_of(
            ledger,
            payouts[k].0,
        ) + payouts[k].1,
    decreases payouts.len(),
{
    let n = payouts.len();
    let init = payouts.drop_last();
    let prev = pay_all(ledger, from, init);
    assert(payouts.last() == payouts[n - 1]);
    assert(prev.1);
    if k == n - 1 {
        let to = payouts[k].0;
        assert forall|a: int| 0 <= a < init.len() implies #[trigger] init[a].0 != to by {
            assert(init[a] == payouts[a]);
            assert(payouts[a].0 != payouts[n - 1].0);
        }
        lemma_pay_all_others(ledger, from, init, to);
    } else {
        assert forall|a: int| 0 <= a < init.len() implies #[trigger] init[a].0 != from by {
            assert(init[a] == payouts[a]);
        }
        assert forall|a: int, b: int| 0 <= a < b < init.len() implies #[trigger] init[a].0
            != #[trigger] init[b].0 by {
            assert(init[a] == payouts[a]);
            assert(init[b] == payouts[b]);
        }
        assert(init[k] == payouts[k]);
        lemma_pay_all_credits(ledger, from, init, k);
        assert(payouts[k].0 != payouts[n - 1].0);
    }
}

/// Which error each call's checks give, in terms of the inputs: the first
/// condition a call finds unmet, in the order the calls check them.
pub proof fn lemma_check_errors(
    s: FundState,
    accounts: Map<u64, Account>,
    ledger: Map<u64, u64>,
    who: u64,
    index: u32,
    value: u64,
    now: u64,
)
    ensures
        (vote_checks(s, accounts, who, index, now) == Err::<(), DispatchError>(
            DispatchError::FundRaising(Error::InvalidIndex),
        )) <==> (accounts.contains_key(who) && accounts[who].score >= 200 && !s.funds.contains_key(
            index,
        )),
        (vote_checks(s, accounts, who, index, now) == Err::<(), DispatchError>(
            DispatchError::FundRaising(Error::CannnotVote),
        )) <==> (accounts.contains_key(who) && accounts[who].score >= 200 && s.funds.contains_key(
            index,
        ) && now >= s.funds[index].start + s.config.voting_period),
        (vote_checks(s, accounts, who, index, now) == Err::<(), DispatchError>(
            DispatchError::FundRaising(Error::Alreadyvoted),
        )) <==> (accounts.contains_key(who) && accounts[who].score >= 200 && s.funds.contains_key(
            index,
        ) && now < s.funds[index].start + s.config.voting_period && vote_of(s, index, who) != 0),
        (contribute_checks(s, ledger, who, index, value, now) == Err::<(), DispatchError>(
            DispatchError::FundRaising(Error::InvalidIndex),
        )) <==> (value >= s.config.min_contribution && !s.funds.contains_key(index)),
        (contribute_checks(s, ledger, who, index, value, now) == Err::<(), DispatchError>(
            DispatchError::FundRaising(Error::CannotContribution),
        )) <==> (value >= s.config.min_contribution && s.funds.contains_key(index) && (
        s.funds[index].totalvote < s.config.min_votenum || !s.funds[index].voteflag)),
        (contribute_checks(s, ledger, who, index, value, now) == Err::<(), DispatchError>(
            DispatchError::FundRaising(Error::VoteStillActive),
        )) <==> (value >= s.config.min_contribution && s.funds.contains_key(index)
            && s.funds[index].totalvote >= s.config.min_votenum && s.funds[index].voteflag && now
            <= s.funds[index].start + s.config.voting_period),
        (contribute_checks(s, ledger, who, index, value, now) == Err::<(), DispatchError>(
            DispatchError::FundRaising(Error::ContributionPeriodOver),
        )) <==> (value >= s.config.min_contribution && s.funds.contains_key(index)
            && s.funds[index].totalvote >= s.config.min_votenum && s.funds[index].voteflag && now
            > s.funds[index].start + s.config.voting_period && now >= s.funds[index].end),
        (contribute_checks(s, ledger, who, index, value, now) == Err::<(), DispatchError>(
            DispatchError::FundRaising(Error::ContributionOverGoal),
        )) <==> (value >= s.config.min_contribution && s.funds.contains_key(index)
            && s.funds[index].totalvote >= s.config.min_votenum && s.funds[index].voteflag && now
            > s.funds[index].start + s.config.voting_period && now < s.funds[index].end
            && s.funds[index].raised + value > s.funds[index].goal),
        (withdraw_checks(s, ledger, who, index, now) == Err::<(), DispatchError>(
            DispatchError::FundRaising(Error::InvalidIndex),
        )) <==> !s.funds.contains_key(index),
        (withdraw_checks(s, ledger, who, index, now) == Err::<(), DispatchError>(
            DispatchError::FundRaising(Error::FundStillActive),
        )) <==> (s.funds.contains_key(index) && now <= s.funds[index].end),
        (dispense_checks(s, index, now) == Err::<(), DispatchError>(
            DispatchError::FundRaising(Error::InvalidIndex),
        )) <==> !s.funds.contains_key(index),
        (dispense_checks(s, index, now) == Err::<(), DispatchError>(
            DispatchError::FundRaising(Error::FundStillActive),
        )) <==> (s.funds.contains_key(index) && now <= s.funds[index].end),
        (dispense_checks(s, index, now) == Err::<(), DispatchError>(
            DispatchError::FundRaising(Error::UnsuccessfulFund),
        )) <==> (s.funds.contains_key(index) && now > s.funds[index].end && s.funds[index].raised
            < s.funds[index].goal),
        (dissolve_checks(s, ledger, index, now) == Err::<(), DispatchError>(
            DispatchError::FundRaising(Error::InvalidIndex),
        )) <==> !s.funds.contains_key(index),
{
}

} // verus!
