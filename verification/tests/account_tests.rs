use pallets::account::{Account, EnsureAccount, Error, Event, Flag, GenesisConfig, Pallet, Role, Status};
use pallets::dispatch::DispatchError;

fn genesis(sysmen: &[u64]) -> Pallet {
    GenesisConfig { sysman_accountmap: sysmen.to_vec() }.build()
}

fn err(e: Error) -> DispatchError {
    DispatchError::Account(e)
}

#[test]
fn defaults() {
    assert_eq!(Role::default(), Role::User);
    assert_eq!(Status::default(), Status::Pending);
    assert_eq!(Flag::default(), Flag::Off);
    assert!(GenesisConfig::default().sysman_accountmap.is_empty());
}

#[test]
fn genesis_creates_active_system_managers() {
    let p = genesis(&[1, 2, 1]);
    let a = p.account_storage(1).unwrap();
    assert_eq!(
        *a,
        Account { id: 1, role: Role::SysMan, status: Status::Active, flag: Flag::Off, metadata: vec![], score: 500 }
    );
    assert_eq!(p.account_role(2), Some(Role::SysMan));
    assert!(p.account_storage(3).is_none());
    assert_eq!(p.account_role(3), None);
}

#[test]
fn register_account_creates_user() {
    let mut p = Pallet::new();
    assert_eq!(p.register_account(7, vec![1, 2]), Ok(Event::AccountRegisted(7)));
    let a = p.account_storage(7).unwrap();
    assert_eq!(
        *a,
        Account { id: 7, role: Role::User, status: Status::Active, flag: Flag::Off, metadata: vec![1, 2], score: 100 }
    );
    assert_eq!(p.account_role(7), Some(Role::User));
    assert_eq!(p.ensure_role(7, Role::User), Ok(()));
    assert_eq!(p.ensure_status(7, Status::Active), Ok(()));
}

#[test]
fn register_twice_fails_and_keeps_account() {
    let mut p = Pallet::new();
    p.register_account(7, vec![1]).unwrap();
    assert_eq!(p.register_account(7, vec![9]), Err(err(Error::AlreadyRegistered)));
    assert_eq!(p.account_storage(7).unwrap().metadata, vec![1]);
}

#[test]
fn ensure_checks() {
    let p = genesis(&[1]);
    assert_eq!(p.ensure_role(1, Role::SysMan), Ok(()));
    assert_eq!(p.ensure_role(1, Role::User), Err(err(Error::NotExactRole)));
    assert_eq!(p.ensure_status(1, Status::Revoked), Err(err(Error::NotExactStatus)));
    assert_eq!(p.ensure_role(2, Role::User), Err(err(Error::AccountNotRegistered)));
    assert_eq!(p.ensure_status(2, Status::Active), Err(err(Error::AccountNotRegistered)));
}

#[test]
fn voter_request_errors() {
    let mut p = genesis(&[1]);
    p.register_account(2, vec![]).unwrap();
    assert_eq!(p.voter_request(3), Err(err(Error::AccountNotRegistered)));
    assert_eq!(p.voter_request(1), Err(err(Error::NotExactRole)));
    assert_eq!(p.voter_request(2), Err(err(Error::NotEnoughScore)));
    p.revoke_user(1, 2).unwrap();
    assert_eq!(p.voter_request(2), Err(err(Error::NotExactStatus)));
    assert_eq!(p.account_storage(2).unwrap().flag, Flag::Off);
}

#[test]
fn votercheck_requires_request() {
    let mut p = genesis(&[1]);
    p.register_account(2, vec![]).unwrap();
    assert_eq!(p.votercheck_sysmen(1, 2), Err(err(Error::NotRequestVoter)));
    assert_eq!(p.votercheck_sysmen(1, 5), Err(err(Error::InvalidAccount)));
    assert_eq!(p.votercheck_sysmen(2, 1), Err(err(Error::NotExactRole)));
    assert_eq!(p.account_storage(2).unwrap().role, Role::User);
}

#[test]
fn approve_sysman_updates_both_maps() {
    let mut p = genesis(&[1]);
    p.register_account(2, vec![]).unwrap();
    assert_eq!(p.approve_sysman(2, 1), Err(err(Error::NotExactRole)));
    assert_eq!(p.approve_sysman(1, 3), Err(err(Error::AccountNotRegistered)));
    assert_eq!(p.approve_sysman(1, 2), Ok(Event::SysmanRegisted(1)));
    assert_eq!(p.account_storage(2).unwrap().role, Role::SysMan);
    assert_eq!(p.account_role(2), Some(Role::SysMan));
}

#[test]
fn revoke_user_sets_revoked() {
    let mut p = genesis(&[1]);
    p.register_account(2, vec![]).unwrap();
    p.register_account(3, vec![]).unwrap();
    assert_eq!(p.revoke_user(3, 1), Err(err(Error::NotExactRole)));
    assert_eq!(p.revoke_user(3, 2), Ok(Event::UserRevoked(3)));
    assert_eq!(p.account_storage(2).unwrap().status, Status::Revoked);
    assert_eq!(p.revoke_user(2, 3), Err(err(Error::NotExactStatus)));
    assert_eq!(p.revoke_user(3, 2), Err(err(Error::NotExactStatus)));
    assert_eq!(p.revoke_user(9, 3), Err(err(Error::AccountNotRegistered)));
}

#[test]
fn update_account_replaces_metadata() {
    let mut p = Pallet::new();
    assert_eq!(p.update_account(4, vec![1]), Err(err(Error::AccountNotRegistered)));
    p.register_account(4, vec![1]).unwrap();
    assert_eq!(p.update_account(4, vec![5, 6]), Ok(Event::AccountUpdated(4)));
    let a = p.account_storage(4).unwrap();
    assert_eq!(a.metadata, vec![5, 6]);
    assert_eq!(a.score, 100);
}
