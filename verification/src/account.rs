//! The account pallet: registration of accounts with a role, a status, a
//! voter-request flag, metadata and a reputation score, and the calls that
//! move accounts between roles.
use vstd::prelude::*;
use vstd::hash_map::HashMapWithView;
use crate::dispatch::DispatchError;

verus! {

broadcast use vstd::std_specs::hash::group_hash_axioms;

/// The role of an account.
#[derive(Clone, Copy, Debug, PartialEq, Eq, PartialOrd, Ord, Structural)]
pub enum Role {
    SysMan,
    Voter,
    User,
}

impl Default for Role {
    fn default() -> (r: Self)
        ensures
            r == Role::User,
    {
        Role::User
    }
}

/// The status of an account.
#[derive(Clone, Copy, Debug, PartialEq, Eq, PartialOrd, Ord, Structural)]
pub enum Status {
    Active,
    Revoked,
    Pending,
}

impl Default for Status {
    fn default() -> (r: Self)
        ensures
            r == Status::Pending,
    {
        Status::Pending
    }
}

/// Whether the account asked to become a voter.
#[derive(Clone, Copy, Debug, PartialEq, Eq, PartialOrd, Ord, Structural)]
pub enum Flag {
    On,
    Off,
}

impl Default for Flag {
    fn default() -> (r: Self)
        ensures
            r == Flag::Off,
    {
        Flag::Off
    }
}

/// A registered account.
#[derive(Clone, Debug, PartialEq, Eq)]
pub struct Account {
    pub id: u64,
    pub role: Role,
    pub status: Status,
    pub flag: Flag,
    pub metadata: Vec<u8>,
    pub score: i32,
}

/// Events of the account pallet.
#[derive(Clone, Copy, Debug, PartialEq, Eq, Structural)]
pub enum Event {
    AccountRegisted(u64),
    SysmanRegisted(u64),
    VoterRegisted(u64),
    UserRevoked(u64),
    AccountUpdated(u64),
    VoterRequest(u64),
    VoterRegistered(u64),
}

/// Errors of the account pallet.
#[derive(Clone, Copy, Debug, PartialEq, Eq, Structural)]
pub enum Error {
    /// Account is already registered.
    AlreadyRegistered,
    /// Account is not registered.
    AccountNotRegistered,
    InvalidAccount,
    NotExactRole,
    NotExactStatus,
    NotExactValid,
    NotEnoughScore,
    NotRequestVoter,
}

/// The score every new user starts with.
pub const USER_INITIAL_SCORE: i32 = 100;

/// The score of a system manager created at genesis.
pub const SYSMAN_INITIAL_SCORE: i32 = 500;

/// The score a user needs to ask to become a voter.
pub const VOTER_REQUEST_SCORE: i32 = 500;

/// The highest score an account can have.
pub const MAX_SCORE: i32 = 1000;

/// The account stored for a user who registers with `metadata`.
pub open spec fn new_user(who: u64, metadata: Vec<u8>) -> Account {
    Account {
        id: who,
        role: Role::User,
        status: Status::Active,
        flag: Flag::Off,
        metadata: metadata,
        score: USER_INITIAL_SCORE,
    }
}

/// Whether `a` is the account genesis creates for the system manager `who`.
pub open spec fn is_genesis_sysman(a: Account, who: u64) -> bool {
    &&& a.id == who
    &&& a.role == Role::SysMan
    &&& a.status == Status::Active
    &&& a.flag == Flag::Off
    &&& a.metadata@ == Seq::<u8>::empty()
    &&& a.score == SYSMAN_INITIAL_SCORE
}

/// The outcome of checking that `who` is registered with role `role`.
pub open spec fn role_check(accounts: Map<u64, Account>, who: u64, role: Role) -> Result<
    (),
    DispatchError,
> {
    if !accounts.contains_key(who) {
        Err(DispatchError::Account(Error::AccountNotRegistered))
    } else if accounts[who].role != role {
        Err(DispatchError::Account(Error::NotExactRole))
    } else {
        Ok(())
    }
}

/// The outcome of checking that `who` is registered with status `status`.
pub open spec fn status_check(accounts: Map<u64, Account>, who: u64, status: Status) -> Result<
    (),
    DispatchError,
> {
    if !accounts.contains_key(who) {
        Err(DispatchError::Account(Error::AccountNotRegistered))
    } else if accounts[who].status != status {
        Err(DispatchError::Account(Error::NotExactStatus))
    } else {
        Ok(())
    }
}

/// The outcome of checking that `who` is an active account of role `role`.
pub open spec fn active_role_check(accounts: Map<u64, Account>, who: u64, role: Role) -> Result<
    (),
    DispatchError,
> {
    if role_check(accounts, who, role) is Err {
        role_check(accounts, who, role)
    } else {
        status_check(accounts, who, Status::Active)
    }
}

/// The outcome of `voter_request` by `who`.
pub open spec fn voter_request_outcome(accounts: Map<u64, Account>, who: u64) -> Result<
    (),
    DispatchError,
> {
    if active_role_check(accounts, who, Role::User) is Err {
        active_role_check(accounts, who, Role::User)
    } else if accounts[who].score < VOTER_REQUEST_SCORE {
        Err(DispatchError::Account(Error::NotEnoughScore))
    } else {
        Ok(())
    }
}

/// The outcome of `votercheck_sysmen` by `who` for `user`.
pub open spec fn votercheck_outcome(accounts: Map<u64, Account>, who: u64, user: u64) -> Result<
    (),
    DispatchError,
> {
    if active_role_check(accounts, who, Role::SysMan) is Err {
        active_role_check(accounts, who, Role::SysMan)
    } else if !accounts.contains_key(user) {
        Err(DispatchError::Account(Error::InvalidAccount))
    } else if accounts[user].flag != Flag::On {
        Err(DispatchError::Account(Error::NotRequestVoter))
    } else {
        Ok(())
    }
}

/// The outcome of `approve_sysman` by `who` for `sys`.
pub open spec fn approve_sysman_outcome(accounts: Map<u64, Account>, who: u64, sys: u64) -> Result<
    (),
    DispatchError,
> {
    if active_role_check(accounts, who, Role::SysMan) is Err {
        active_role_check(accounts, who, Role::SysMan)
    } else if !accounts.contains_key(sys) {
        Err(DispatchError::Account(Error::AccountNotRegistered))
    } else {
        Ok(())
    }
}

/// The outcome of `revoke_user` by `who` for `val`.
pub open spec fn revoke_user_outcome(accounts: Map<u64, Account>, who: u64, val: u64) -> Result<
    (),
    DispatchError,
> {
    if status_check(accounts, who, Status::Active) is Err {
        status_check(accounts, who, Status::Active)
    } else {
        active_role_check(accounts, val, Role::User)
    }
}

/// The result of a call whose checks gave `outcome` and which emits `event`
/// on success.
pub open spec fn emit(outcome: Result<(), DispatchError>, event: Event) -> Result<
    Event,
    DispatchError,
> {
    match outcome {
        Ok(_) => Ok(event),
        Err(e) => Err(e),
    }
}

/// Checks on the role and status of registered accounts.
pub trait EnsureAccount {
    /// Succeeds when `who` is registered with role `role`.
    fn ensure_role(&self, who: u64, role: Role) -> Result<(), DispatchError>;

    /// Succeeds when `who` is registered with status `status`.
    fn ensure_status(&self, who: u64, status: Status) -> Result<(), DispatchError>;
}

/// The genesis configuration: the accounts that start as system managers.
pub struct GenesisConfig {
    pub sysman_accountmap: Vec<u64>,
}

impl Default for GenesisConfig {
    fn default() -> (r: Self)
        ensures
            r.sysman_accountmap@ == Seq::<u64>::empty(),
    {
        GenesisConfig { sysman_accountmap: Vec::new() }
    }
}

/// The storage of the account pallet.
pub struct Pallet {
    account_storage: HashMapWithView<u64, Account>,
    account_role: HashMapWithView<u64, Role>,
}

impl Pallet {
    /// The registered accounts, by id.
    pub closed spec fn accounts(&self) -> Map<u64, Account> {
        self.account_storage@
    }

    /// The role map kept beside the accounts.
    pub closed spec fn roles(&self) -> Map<u64, Role> {
        self.account_role@
    }

    /// Every account is stored under its own id with a score between zero
    /// and the maximum, and the role map has an entry for every account.
    pub open spec fn wf(&self) -> bool {
        &&& forall|k: u64| #[trigger]
            self.accounts().contains_key(k) ==> {
                &&& self.accounts()[k].id == k
                &&& 0 <= self.accounts()[k].score <= MAX_SCORE
            }
        &&& self.roles().dom() == self.accounts().dom()
    }

    /// Whether `who` is registered.
    pub open spec fn is_registered(&self, who: u64) -> bool {
        self.accounts().contains_key(who)
    }

    /// The state in which no account is registered.
    pub fn new() -> (r: Self)
        ensures
            r.wf(),
            r.accounts() == Map::<u64, Account>::empty(),
            r.roles() == Map::<u64, Role>::empty(),
    {
        Pallet { account_storage: HashMapWithView::new(), account_role: HashMapWithView::new() }
    }

    /// The account stored for `who`.
    pub fn account_storage(&self, who: u64) -> (r: Option<&Account>)
        ensures
            match r {
                Some(a) => self.accounts().contains_key(who) && *a == self.accounts()[who],
                None => !self.accounts().contains_key(who),
            },
    {
        self.account_storage.get(&who)
    }

    /// The role recorded for `who` in the role map.
    pub fn account_role(&self, who: u64) -> (r: Option<Role>)
        ensures
            match r {
                Some(role) => self.roles().contains_key(who) && role == self.roles()[who],
                None => !self.roles().contains_key(who),
            },
    {
        match self.account_role.get(&who) {
            Some(role) => Some(*role),
            None => None,
        }
    }
}


impl EnsureAccount for Pallet {
    fn ensure_role(&self, who: u64, role: Role) -> (r: Result<(), DispatchError>)
        ensures
            r == role_check(self.accounts(), who, role),
    {
        match self.account_storage.get(&who) {
            Some(account) => {
                if account.role == role {
                    Ok(())
                } else {
                    Err(DispatchError::Account(Error::NotExactRole))
                }
            },
            None => Err(DispatchError::Account(Error::AccountNotRegistered)),
        }
    }

    fn ensure_status(&self, who: u64, status: Status) -> (r: Result<(), DispatchError>)
        ensures
            r == status_check(self.accounts(), who, status),
    {
        match self.account_storage.get(&who) {
            Some(account) => {
                if account.status == status {
                    Ok(())
                } else {
                    Err(DispatchError::Account(Error::NotExactStatus))
                }
            },
            None => Err(DispatchError::Account(Error::AccountNotRegistered)),
        }
    }
}

impl GenesisConfig {
    /// The account storage at genesis: every listed account is an active
    /// system manager with the genesis score.
    pub fn build(&self) -> (r: Pallet)
        ensures
            r.wf(),
            forall|k: u64| #[trigger]
                r.accounts().contains_key(k) <==> self.sysman_accountmap@.contains(k),
            forall|k: u64| #[trigger]
                r.accounts().contains_key(k) ==> is_genesis_sysman(r.accounts()[k], k)
                    && r.roles()[k] == Role::SysMan,
    {
        let mut p = Pallet::new();
        let n = self.sysman_accountmap.len();
        let ghost list = self.sysman_accountmap@;
        for i in 0..n
            invariant
                n == list.len(),
                list == self.sysman_accountmap@,
                p.wf(),
                forall|k: u64| #[trigger]
                    p.accounts().contains_key(k) <==> exists|j: int| 0 <= j < i && list[j] == k,
                forall|k: u64| #[trigger]
                    p.accounts().contains_key(k) ==> is_genesis_sysman(p.accounts()[k], k)
                        && p.roles()[k] == Role::SysMan,
        {
            let a = self.sysman_accountmap[i];
            let account = Account {
                id: a,
                role: Role::SysMan,
                status: Status::Active,
                flag: Flag::Off,
                metadata: Vec::new(),
                score: SYSMAN_INITIAL_SCORE,
            };
            p.account_storage.insert(a, account);
            p.account_role.insert(a, Role::SysMan);
            assert(list[i as int] == a);
        }
        assert forall|k: u64| #[trigger] p.accounts().contains_key(k) <==> list.contains(k) by {
            if list.contains(k) {
                let j = choose|j: int| 0 <= j < list.len() && list[j] == k;
                assert(list[j] == k);
            }
        }
        p
    }
}

impl Pallet {
    /// Registers the caller `who` as an active user with `metadata` and the
    /// initial user score; fails if `who` is already registered.
    pub fn register_account(&mut self, who: u64, metadata: Vec<u8>) -> (r: Result<
        Event,
        DispatchError,
    >)
        requires
            old(self).wf(),
        ensures
            final(self).wf(),
            old(self).is_registered(who) ==> {
                &&& r == Err::<Event, DispatchError>(DispatchError::Account(Error::AlreadyRegistered))
                &&& final(self).accounts() == old(self).accounts()
                &&& final(self).roles() == old(self).roles()
            },
            !old(self).is_registered(who) ==> {
                &&& r == Ok::<Event, DispatchError>(Event::AccountRegisted(who))
                &&& final(self).accounts() == old(self).accounts().insert(
                    who,
                    new_user(who, metadata),
                )
                &&& final(self).roles() == old(self).roles().insert(who, Role::User)
            },
    {
        if self.account_storage.contains_key(&who) {
            return Err(DispatchError::Account(Error::AlreadyRegistered));
        }
        self.account_storage.insert(
            who,
            Account {
                id: who,
                role: Role::User,
                status: Status::Active,
                flag: Flag::Off,
                metadata,
                score: USER_INITIAL_SCORE,
            },
        );
        self.account_role.insert(who, Role::User);
        Ok(Event::AccountRegisted(who))
    }
}

impl Pallet {
    /// Takes the account of `who` out of storage.
    fn take_account(&mut self, who: u64) -> (r: Account)
        requires
            old(self).accounts().contains_key(who),
        ensures
            r == old(self).accounts()[who],
            final(self).accounts() == old(self).accounts().remove(who),
            final(self).roles() == old(self).roles(),
    {
        match self.account_storage.remove(&who) {
            Some(a) => a,
            None => {
                assert(false);
                // unreachable: the account is present
                Account {
                    id: who,
                    role: Role::User,
                    status: Status::Active,
                    flag: Flag::Off,
                    metadata: Vec::new(),
                    score: 0,
                }
            },
        }
    }

    /// The caller `who`, an active user whose score reaches the voter-request
    /// score, raises its voter-request flag.
    pub fn voter_request(&mut self, who: u64) -> (r: Result<Event, DispatchError>)
        requires
            old(self).wf(),
        ensures
            final(self).wf(),
            r == emit(voter_request_outcome(old(self).accounts(), who), Event::VoterRequest(who)),
            final(self).roles() == old(self).roles(),
            voter_request_outcome(old(self).accounts(), who) is Ok ==> final(self).accounts()
                == old(self).accounts().insert(
                who,
                Account { flag: Flag::On, ..old(self).accounts()[who] },
            ),
            voter_request_outcome(old(self).accounts(), who) is Err ==> final(self).accounts()
                == old(self).accounts(),
    {
        self.ensure_role(who, Role::User)?;
        self.ensure_status(who, Status::Active)?;
        let score = match self.account_storage.get(&who) {
            Some(a) => a.score,
            None => {
                return Err(DispatchError::Account(Error::InvalidAccount));
            },
        };
        if score < VOTER_REQUEST_SCORE {
            return Err(DispatchError::Account(Error::NotEnoughScore));
        }
        let mut account = self.take_account(who);
        account.flag = Flag::On;
        self.account_storage.insert(who, account);
        Ok(Event::VoterRequest(who))
    }

    /// The caller `who`, an active system manager, makes `user` a voter once
    /// `user` has raised its voter-request flag. The role map is left as it
    /// was.
    pub fn votercheck_sysmen(&mut self, who: u64, user: u64) -> (r: Result<Event, DispatchError>)
        requires
            old(self).wf(),
        ensures
            final(self).wf(),
            r == emit(votercheck_outcome(old(self).accounts(), who, user), Event::VoterRegistered(user)),
            final(self).roles() == old(self).roles(),
            votercheck_outcome(old(self).accounts(), who, user) is Ok ==> final(self).accounts()
                == old(self).accounts().insert(
                user,
                Account { role: Role::Voter, ..old(self).accounts()[user] },
            ),
            votercheck_outcome(old(self).accounts(), who, user) is Err ==> final(self).accounts()
                == old(self).accounts(),
    {
        self.ensure_role(who, Role::SysMan)?;
        self.ensure_status(who, Status::Active)?;
        let flag = match self.account_storage.get(&user) {
            Some(a) => a.flag,
            None => {
                return Err(DispatchError::Account(Error::InvalidAccount));
            },
        };
        if flag != Flag::On {
            return Err(DispatchError::Account(Error::NotRequestVoter));
        }
        let mut account = self.take_account(user);
        account.role = Role::Voter;
        self.account_storage.insert(user, account);
        Ok(Event::VoterRegistered(user))
    }

    /// The caller `who`, an active system manager, makes `sys` a system
    /// manager, in the account and in the role map.
    pub fn approve_sysman(&mut self, who: u64, sys: u64) -> (r: Result<Event, DispatchError>)
        requires
            old(self).wf(),
        ensures
            final(self).wf(),
            r == emit(approve_sysman_outcome(old(self).accounts(), who, sys), Event::SysmanRegisted(who)),
            approve_sysman_outcome(old(self).accounts(), who, sys) is Ok ==> final(self).accounts()
                == old(self).accounts().insert(
                sys,
                Account { role: Role::SysMan, ..old(self).accounts()[sys] },
            ) && final(self).roles() == old(self).roles().insert(sys, Role::SysMan),
            approve_sysman_outcome(old(self).accounts(), who, sys) is Err ==> final(self).accounts()
                == old(self).accounts() && final(self).roles() == old(self).roles(),
    {
        self.ensure_role(who, Role::SysMan)?;
        self.ensure_status(who, Status::Active)?;
        if !self.account_storage.contains_key(&sys) {
            return Err(DispatchError::Account(Error::AccountNotRegistered));
        }
        let mut account = self.take_account(sys);
        account.role = Role::SysMan;
        self.account_storage.insert(sys, account);
        if !self.account_role.contains_key(&sys) {
            // unreachable: the role map has an entry for every account
            return Err(DispatchError::Account(Error::AccountNotRegistered));
        }
        self.account_role.insert(sys, Role::SysMan);
        assert(self.roles().dom() =~= self.accounts().dom());
        Ok(Event::SysmanRegisted(who))
    }

    /// The caller `who`, an active account, revokes `val`, an active user.
    pub fn revoke_user(&mut self, who: u64, val: u64) -> (r: Result<Event, DispatchError>)
        requires
            old(self).wf(),
        ensures
            final(self).wf(),
            r == emit(revoke_user_outcome(old(self).accounts(), who, val), Event::UserRevoked(who)),
            final(self).roles() == old(self).roles(),
            revoke_user_outcome(old(self).accounts(), who, val) is Ok ==> final(self).accounts()
                == old(self).accounts().insert(
                val,
                Account { status: Status::Revoked, ..old(self).accounts()[val] },
            ),
            revoke_user_outcome(old(self).accounts(), who, val) is Err ==> final(self).accounts()
                == old(self).accounts(),
    {
        self.ensure_status(who, Status::Active)?;
        self.ensure_role(val, Role::User)?;
        self.ensure_status(val, Status::Active)?;
        let mut account = self.take_account(val);
        account.status = Status::Revoked;
        self.account_storage.insert(val, account);
        Ok(Event::UserRevoked(who))
    }

    /// The caller `who` replaces the metadata of its account.
    pub fn update_account(&mut self, who: u64, metadata: Vec<u8>) -> (r: Result<
        Event,
        DispatchError,
    >)
        requires
            old(self).wf(),
        ensures
            final(self).wf(),
            final(self).roles() == old(self).roles(),
            old(self).is_registered(who) ==> {
                &&& r == Ok::<Event, DispatchError>(Event::AccountUpdated(who))
                &&& final(self).accounts() == old(self).accounts().insert(
                    who,
                    Account { metadata: metadata, ..old(self).accounts()[who] },
                )
            },
            !old(self).is_registered(who) ==> {
                &&& r == Err::<Event, DispatchError>(
                    DispatchError::Account(Error::AccountNotRegistered),
                )
                &&& final(self).accounts() == old(self).accounts()
            },
    {
        if !self.account_storage.contains_key(&who) {
            return Err(DispatchError::Account(Error::AccountNotRegistered));
        }
        let mut account = self.take_account(who);
        account.metadata = metadata;
        self.account_storage.insert(who, account);
        Ok(Event::AccountUpdated(who))
    }
}

impl Pallet {
    /// Sets the score of `who`, if registered; returns whether it was.
    pub(crate) fn set_score(&mut self, who: u64, score: i32) -> (r: bool)
        requires
            old(self).wf(),
            0 <= score <= MAX_SCORE,
        ensures
            final(self).wf(),
            r == old(self).is_registered(who),
            final(self).roles() == old(self).roles(),
            r ==> final(self).accounts() == old(self).accounts().insert(
                who,
                Account { score: score, ..old(self).accounts()[who] },
            ),
            !r ==> final(self).accounts() == old(self).accounts(),
    {
        if !self.account_storage.contains_key(&who) {
            return false;
        }
        let mut account = self.take_account(who);
        account.score = score;
        self.account_storage.insert(who, account);
        true
    }
}


/// A newly registered account passes the checks for an active user.
pub proof fn lemma_registered_user_is_active_user(p: Pallet, who: u64, metadata: Vec<u8>)
    requires
        p.wf(),
        !p.is_registered(who),
    ensures
        active_role_check(p.accounts().insert(who, new_user(who, metadata)), who, Role::User)
            is Ok,
        status_check(p.accounts().insert(who, new_user(who, metadata)), who, Status::Active)
            is Ok,
{
}

/// Once a user's voter request has gone through, an active system manager's
/// check of that user goes through too.
pub proof fn lemma_voter_request_enables_check(p: Pallet, sys: u64, user: u64)
    requires
        p.wf(),
        sys != user,
        active_role_check(p.accounts(), sys, Role::SysMan) is Ok,
        voter_request_outcome(p.accounts(), user) is Ok,
    ensures
        votercheck_outcome(
            p.accounts().insert(user, Account { flag: Flag::On, ..p.accounts()[user] }),
            sys,
            user,
        ) is Ok,
{
}

/// A voter request succeeds exactly for a registered, active account of
/// role `User` whose score is at least 500; an active user below 500 is
/// refused for want of score.
pub proof fn lemma_voter_request_rules(accounts: Map<u64, Account>, who: u64)
    ensures
        voter_request_outcome(accounts, who) is Ok <==> {
            &&& accounts.contains_key(who)
            &&& accounts[who].role == Role::User
            &&& accounts[who].status == Status::Active
            &&& accounts[who].score >= 500
        },
        (voter_request_outcome(accounts, who) == Err::<(), DispatchError>(
            DispatchError::Account(Error::NotEnoughScore),
        )) <==> {
            &&& accounts.contains_key(who)
            &&& accounts[who].role == Role::User
            &&& accounts[who].status == Status::Active
            &&& accounts[who].score < 500
        },
        (voter_request_outcome(accounts, who) == Err::<(), DispatchError>(
            DispatchError::Account(Error::AccountNotRegistered),
        )) <==> !accounts.contains_key(who),
        (voter_request_outcome(accounts, who) == Err::<(), DispatchError>(
            DispatchError::Account(Error::NotExactRole),
        )) <==> (accounts.contains_key(who) && accounts[who].role != Role::User),
{
}

/// A system manager's voter check succeeds exactly when the caller is a
/// registered, active system manager and `user` is registered with its
/// voter-request flag raised.
pub proof fn lemma_votercheck_rules(accounts: Map<u64, Account>, who: u64, user: u64)
    ensures
        votercheck_outcome(accounts, who, user) is Ok <==> {
            &&& accounts.contains_key(who)
            &&& accounts[who].role == Role::SysMan
            &&& accounts[who].status == Status::Active
            &&& accounts.contains_key(user)
            &&& accounts[user].flag == Flag::On
        },
{
}

/// Approving a system manager succeeds exactly when the caller is a
/// registered, active system manager and `sys` is registered.
pub proof fn lemma_approve_sysman_rules(accounts: Map<u64, Account>, who: u64, sys: u64)
    ensures
        approve_sysman_outcome(accounts, who, sys) is Ok <==> {
            &&& accounts.contains_key(who)
            &&& accounts[who].role == Role::SysMan
            &&& accounts[who].status == Status::Active
            &&& accounts.contains_key(sys)
        },
{
}

/// Revoking succeeds exactly when the caller is a registered, active
/// account of any role and `val` is a registered, active user.
pub proof fn lemma_revoke_user_rules(accounts: Map<u64, Account>, who: u64, val: u64)
    ensures
        revoke_user_outcome(accounts, who, val) is Ok <==> {
            &&& accounts.contains_key(who)
            &&& accounts[who].status == Status::Active
            &&& accounts.contains_key(val)
            &&& accounts[val].role == Role::User
            &&& accounts[val].status == Status::Active
        },
{
}

/// A new user is an active user with no voter request and a score of 100;
/// a genesis system manager is an active system manager with a score of
/// 500.
pub proof fn lemma_initial_accounts(who: u64, metadata: Vec<u8>, a: Account)
    ensures
        new_user(who, metadata).id == who,
        new_user(who, metadata).role == Role::User,
        new_user(who, metadata).status == Status::Active,
        new_user(who, metadata).flag == Flag::Off,
        new_user(who, metadata).score == 100,
        is_genesis_sysman(a, who) ==> a.role == Role::SysMan && a.status == Status::Active
            && a.score == 500,
{
}

} // verus!
