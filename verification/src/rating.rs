//! The rating pallet: after a fund has ended, its creator and a contributor
//! rate each other, moving the rated account's score by a weight chosen by
//! the rating and scaled by the rater's own score.
use vstd::prelude::*;
use crate::account;
use crate::account::Account;
use crate::dispatch::DispatchError;
use crate::fund_raising;
use crate::fund_raising::EnsureRaising;
use crate::fund_raising::FundState;

verus! {

/// Events of the rating pallet.
#[derive(Clone, Copy, Debug, PartialEq, Eq, Structural)]
pub enum Event {
    /// (account, score)
    ScoreSet(u64, i32),
    /// (account, score)
    ScoreCheck(u64, i32),
}

/// Errors of the rating pallet.
#[derive(Clone, Copy, Debug, PartialEq, Eq, Structural)]
pub enum Error {
    AlreadySet,
    NotEnoughAmount,
    InvalidAccount,
    InvalidIndex,
    InvalidScore,
    AccountNotRegistered,
    CannotEvaluate,
}

/// The genesis configuration: the initial amount.
pub struct GenesisConfig {
    pub amount_num: i32,
}

impl Default for GenesisConfig {
    fn default() -> (r: Self)
        ensures
            r.amount_num == 0,
    {
        GenesisConfig { amount_num: 0 }
    }
}

/// The storage of the rating pallet.
pub struct Pallet {
    amount: Option<i32>,
}

impl GenesisConfig {
    /// The storage at genesis: the amount is set to `amount_num`.
    pub fn build(&self) -> (r: Pallet)
        ensures
            r.amount_value() == Some(self.amount_num),
    {
        Pallet { amount: Some(self.amount_num) }
    }
}

/// The weight of the rating at position `i` of the weight table
/// `[-3, -2, -1, 1, 2, 3]`.
pub open spec fn weight_at(i: int) -> i32 {
    if i == 0 {
        -3i32
    } else if i == 1 {
        -2i32
    } else if i == 2 {
        -1i32
    } else if i == 3 {
        1
    } else if i == 4 {
        2
    } else {
        3
    }
}

/// `a / b` rounded toward zero, as integer division does.
pub open spec fn div_toward_zero(a: int, b: int) -> int {
    if a >= 0 {
        a / b
    } else {
        -((-a) / b)
    }
}

/// The score of the rated account after a rating of weight `w` by a rater
/// with score `sender`: the rated score plus the weight plus the weight times
/// the rater's score divided by one hundred, kept between zero and the
/// maximum score.
pub open spec fn rated_score(receiver: i32, sender: i32, w: i32) -> i32 {
    let calc = receiver + w + div_toward_zero(w * sender, 100);
    if calc >= account::MAX_SCORE {
        account::MAX_SCORE
    } else if calc < 0 {
        0
    } else {
        calc as i32
    }
}

/// The checks on the parties of a rating of `val` by `who` for fund
/// `index` at block `now`: both registered, `who` a contributor of the ended
/// fund, one of them its creator, and the two distinct.
pub open spec fn party_checks(
    accounts: Map<u64, Account>,
    funds: FundState,
    who: u64,
    index: u32,
    val: u64,
    now: u64,
) -> Result<(), DispatchError> {
    if !accounts.contains_key(who) {
        Err(DispatchError::Rating(Error::InvalidAccount))
    } else if !accounts.contains_key(val) {
        Err(DispatchError::Rating(Error::InvalidAccount))
    } else if fund_raising::contribution_check_outcome(funds, who, index, now) is Err {
        fund_raising::contribution_check_outcome(funds, who, index, now)
    } else if !(funds.funds[index].creater == who || funds.funds[index].creater == val) {
        Err(DispatchError::Rating(Error::CannotEvaluate))
    } else if who == val {
        Err(DispatchError::Rating(Error::CannotEvaluate))
    } else {
        Ok(())
    }
}

/// The checks `evaluation` makes: the parties, then the rating, which must
/// lie between zero and five.
pub open spec fn evaluation_checks(
    accounts: Map<u64, Account>,
    funds: FundState,
    who: u64,
    index: u32,
    val: u64,
    rate: i32,
    now: u64,
) -> Result<(), DispatchError> {
    if party_checks(accounts, funds, who, index, val, now) is Err {
        party_checks(accounts, funds, who, index, val, now)
    } else if !(0 <= rate <= 5) {
        Err(DispatchError::Rating(Error::InvalidScore))
    } else {
        Ok(())
    }
}

/// The result of a call whose checks gave `outcome` and which emits `event`
/// on success.
pub open spec fn emit(outcome: Result<(), DispatchError>, event: Event) -> Result<
    Event,
    DispatchError,
> {
    match outcome {
        Ok(_) => Ok(event),
        Err(e) => Err(e),
    }
}

/// The score `evaluation` gives `val`.
pub open spec fn evaluation_score(accounts: Map<u64, Account>, who: u64, val: u64, rate: i32) -> i32 {
    rated_score(accounts[val].score, accounts[who].score, weight_at(rate as int))
}

impl Pallet {
    /// The amount set at genesis.
    pub closed spec fn amount_value(&self) -> Option<i32> {
        self.amount
    }

    /// The amount set at genesis.
    pub fn amount(&self) -> (r: Option<i32>)
        ensures
            r == self.amount_value(),
    {
        self.amount
    }

    /// The caller `who` rates `val` with `rate` for fund `index`: both must
    /// be registered, the fund must have ended at block `now` with a
    /// contribution by `who`, one of the two must be the fund's creator (so a
    /// creator and a contributor rate each other), and they must differ. The
    /// rating `rate`, from 0 to 5, selects the weight `[-3, -2, -1, 1, 2, 3]`;
    /// the score of `val` becomes `rated_score` of its score, the caller's
    /// score and the weight.
    pub fn evaluation(
        &self,
        accounts: &mut account::Pallet,
        funds: &fund_raising::Pallet,
        who: u64,
        index: u32,
        val: u64,
        rate: i32,
        now: u64,
    ) -> (r: Result<Event, DispatchError>)
        requires
            old(accounts).wf(),
        ensures
            final(accounts).wf(),
            final(accounts).roles() == old(accounts).roles(),
            r == emit(
                evaluation_checks(old(accounts).accounts(), funds@, who, index, val, rate, now),
                Event::ScoreCheck(val, evaluation_score(old(accounts).accounts(), who, val, rate)),
            ),
            evaluation_checks(old(accounts).accounts(), funds@, who, index, val, rate, now) is Err
                ==> final(accounts).accounts() == old(accounts).accounts(),
            evaluation_checks(old(accounts).accounts(), funds@, who, index, val, rate, now) is Ok
                ==> final(accounts).accounts() == old(accounts).accounts().insert(
                val,
                Account {
                    score: evaluation_score(old(accounts).accounts(), who, val, rate),
                    ..old(accounts).accounts()[val]
                },
            ),
    {
        let sender_score = match accounts.account_storage(who) {
            Some(a) => a.score,
            None => {
                return Err(DispatchError::Rating(Error::InvalidAccount));
            },
        };
        let receiver_score = match accounts.account_storage(val) {
            Some(a) => a.score,
            None => {
                return Err(DispatchError::Rating(Error::InvalidAccount));
            },
        };
        funds.contribution_check(who, index, now)?;
        let fund = match funds.funds(index) {
            Some(f) => f,
            None => {
                return Err(DispatchError::Rating(Error::InvalidIndex));
            },
        };
        if !(fund.creater == who || fund.creater == val) {
            return Err(DispatchError::Rating(Error::CannotEvaluate));
        }
        if !(who != val) {
            return Err(DispatchError::Rating(Error::CannotEvaluate));
        }
        if !(rate >= 0 && rate <= 5) {
            return Err(DispatchError::Rating(Error::InvalidScore));
        }
        let psc: Vec<i32> = vec![-3, -2, -1, 1, 2, 3];
        let w = psc[rate as usize];
        assert(w == weight_at(rate as int));
        assert(accounts.accounts().contains_key(who) && accounts.accounts().contains_key(val));
        assert(0 <= sender_score <= account::MAX_SCORE && 0 <= receiver_score
            <= account::MAX_SCORE);
        assert(-3000 <= w * sender_score <= 3000) by (nonlinear_arith)
            requires
                -3 <= w <= 3,
                0 <= sender_score <= 1000,
        ;
        let mut calc = (receiver_score + w) + (w * sender_score) / 100;
        assert(calc == receiver_score + w + div_toward_zero(w * sender_score, 100));
        if calc >= account::MAX_SCORE {
            calc = account::MAX_SCORE;
        } else if calc < 0 {
            calc = 0;
        }
        if !accounts.set_score(val, calc) {
            return Err(DispatchError::Rating(Error::AccountNotRegistered));
        }
        Ok(Event::ScoreCheck(val, calc))
    }

    /// The registered caller `who` reads the score of the registered
    /// account `val`.
    pub fn check_score(&self, accounts: &account::Pallet, who: u64, val: u64) -> (r: Result<
        Event,
        DispatchError,
    >)
        ensures
            !accounts.is_registered(who) ==> r == Err::<Event, DispatchError>(
                DispatchError::Rating(Error::InvalidAccount),
            ),
            accounts.is_registered(who) && !accounts.is_registered(val) ==> r == Err::<
                Event,
                DispatchError,
            >(DispatchError::Rating(Error::InvalidAccount)),
            accounts.is_registered(who) && accounts.is_registered(val) ==> r == Ok::<
                Event,
                DispatchError,
            >(Event::ScoreCheck(val, accounts.accounts()[val].score)),
    {
        if !(accounts.account_storage(who).is_some() == true) {
            return Err(DispatchError::Rating(Error::InvalidAccount));
        }
        let receiver_score = match accounts.account_storage(val) {
            Some(a) => a.score,
            None => {
                return Err(DispatchError::Rating(Error::InvalidAccount));
            },
        };
        Ok(Event::ScoreCheck(val, receiver_score))
    }
}


/// A rated score always lies between zero and the maximum score.
pub proof fn lemma_rated_score_bounded(receiver: i32, sender: i32, w: i32)
    ensures
        0 <= rated_score(receiver, sender, w) <= account::MAX_SCORE,
{
}

/// A rating with a positive weight never lowers the rated score and one
/// with a negative weight never raises it.
pub proof fn lemma_rating_direction(receiver: i32, sender: i32, w: i32)
    requires
        0 <= receiver <= account::MAX_SCORE,
        0 <= sender <= account::MAX_SCORE,
        -3 <= w <= 3,
    ensures
        w > 0 ==> rated_score(receiver, sender, w) >= receiver,
        w < 0 ==> rated_score(receiver, sender, w) <= receiver,
{
    if w > 0 {
        assert(w * sender >= 0) by (nonlinear_arith)
            requires
                w > 0,
                sender >= 0,
        ;
    } else if w < 0 {
        assert(w * sender <= 0) by (nonlinear_arith)
            requires
                w < 0,
                sender >= 0,
        ;
    }
}

/// A rating is accepted exactly when rater and rated are registered and
/// distinct, the fund is live and has ended, the rater contributed to it,
/// one of the two is its creator, and the rating lies in 0..=5. A pair
/// without the creator is refused with `CannotEvaluate`.
pub proof fn lemma_evaluation_rules(
    accounts: Map<u64, Account>,
    funds: FundState,
    who: u64,
    index: u32,
    val: u64,
    rate: i32,
    now: u64,
)
    ensures
        evaluation_checks(accounts, funds, who, index, val, rate, now) is Ok <==> {
            &&& accounts.contains_key(who)
            &&& accounts.contains_key(val)
            &&& funds.funds.contains_key(index)
            &&& funds.funds[index].end < now
            &&& fund_raising::contribution_of(funds, index, who) > 0
            &&& (funds.funds[index].creater == who || funds.funds[index].creater == val)
            &&& who != val
            &&& 0 <= rate <= 5
        },
        ({
            &&& accounts.contains_key(who)
            &&& accounts.contains_key(val)
            &&& funds.funds.contains_key(index)
            &&& funds.funds[index].end < now
            &&& fund_raising::contribution_of(funds, index, who) > 0
            &&& funds.funds[index].creater != who
            &&& funds.funds[index].creater != val
        }) ==> evaluation_checks(accounts, funds, who, index, val, rate, now) == Err::<
            (),
            DispatchError,
        >(DispatchError::Rating(Error::CannotEvaluate)),
        (evaluation_checks(accounts, funds, who, index, val, rate, now) == Err::<(), DispatchError>(
            DispatchError::Rating(Error::InvalidAccount),
        )) <==> (!accounts.contains_key(who) || !accounts.contains_key(val)),
        (evaluation_checks(accounts, funds, who, index, val, rate, now) == Err::<(), DispatchError>(
            DispatchError::Rating(Error::InvalidScore),
        )) <==> ({
            &&& accounts.contains_key(who)
            &&& accounts.contains_key(val)
            &&& funds.funds.contains_key(index)
            &&& funds.funds[index].end < now
            &&& fund_raising::contribution_of(funds, index, who) > 0
            &&& (funds.funds[index].creater == who || funds.funds[index].creater == val)
            &&& who != val
            &&& !(0 <= rate <= 5)
        }),
{
}

/// The score a rating gives: with the weight `d` of the rating (−3, −2, −1,
/// 1, 2, 3 for 0 to 5) and `x` the rated score plus `d` plus `d` times the
/// rater's score divided by 100 rounded toward zero, the new score is `x`
/// kept between 0 and 1000.
pub proof fn lemma_evaluation_score_formula(
    accounts: Map<u64, Account>,
    who: u64,
    val: u64,
    rate: i32,
)
    requires
        0 <= rate <= 5,
        0 <= accounts[who].score <= 1000,
        0 <= accounts[val].score <= 1000,
    ensures
        ({
            let d: int = if rate == 0 {
                -3
            } else if rate == 1 {
                -2
            } else if rate == 2 {
                -1
            } else if rate == 3 {
                1
            } else if rate == 4 {
                2
            } else {
                3
            };
            let prod = d * accounts[who].score;
            let q: int = if prod >= 0 {
                prod / 100
            } else {
                -((-prod) / 100)
            };
            let x = accounts[val].score + d + q;
            evaluation_score(accounts, who, val, rate) == (if x >= 1000 {
                1000
            } else if x < 0 {
                0
            } else {
                x
            })
        }),
{
    let sc = accounts[who].score;
    let w = weight_at(rate as int);
    assert(-3000 <= w * sc <= 3000) by (nonlinear_arith)
        requires
            -3 <= w <= 3,
            0 <= sc <= 1000,
    ;
}

} // verus!
