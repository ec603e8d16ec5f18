use lockdrop::Error;
use lockdrop::Lockdrop;

const A: u128 = 1;
const B: u128 = 2;
const C: u128 = 3;

#[test]
fn lock() {
    let mut lockdrop = Lockdrop::new(A, 9999999999);
    assert_eq!(lockdrop.lock(A, 0, 30, 0), Ok(()));
}

#[test]
fn initialize_credits_the_caller() {
    let s = Lockdrop::new(A, 1000);
    assert_eq!(s.total_supply(), 1000);
    assert_eq!(s.balance_of_token(A), 1000);
    assert_eq!(s.balance_of_token(B), 0);
    assert_eq!(s.balance_of_lock(A), 0);
    assert_eq!(s.pub_get_lock_time(A), 0);
}

#[test]
fn initialize_with_zero_supply() {
    let s = Lockdrop::new(A, 0);
    assert_eq!(s.total_supply(), 0);
    assert_eq!(s.balance_of_token(A), 0);
}

#[test]
fn lock_moves_value_out_of_the_supply() {
    let mut s = Lockdrop::new(A, 1000);
    assert_eq!(s.lock(A, 100, 30, 0), Ok(()));
    assert_eq!(s.total_supply(), 900);
    assert_eq!(s.balance_of_lock(A), 100);
    assert_eq!(s.pub_get_lock_time(A), 30);
    assert_eq!(s.balance_of_token(A), 100);
    assert_eq!(s.balance_of_lock(B), 0);
}

#[test]
fn unlock_respects_the_lock_time() {
    let mut s = Lockdrop::new(A, 1000);
    assert_eq!(s.lock(A, 100, 30, 0), Ok(()));
    assert_eq!(s.prepare_unlock(A, 10), Err(Error::NotSpendLockTime));
    assert_eq!(s.unlock(A, 10, true), Err(Error::NotSpendLockTime));
    assert_eq!(s.balance_of_lock(A), 100);
    assert_eq!(s.pub_get_lock_time(A), 30);
    assert_eq!(s.prepare_unlock(A, 30), Ok(100));
    assert_eq!(s.unlock(A, 30, true), Ok(()));
    assert_eq!(s.balance_of_lock(A), 0);
}

#[test]
fn lock_beyond_the_supply_is_refused() {
    let mut s = Lockdrop::new(A, 1000);
    assert_eq!(s.lock(A, 100, 30, 0), Ok(()));
    assert_eq!(s.total_supply(), 900);
    assert_eq!(s.lock(B, 2000, 5, 0), Err(Error::NotEnoughBalance));
    assert_eq!(s.total_supply(), 900);
    assert_eq!(s.balance_of_lock(B), 0);
    assert_eq!(s.pub_get_lock_time(B), 0);
    assert_eq!(s.balance_of_token(B), 0);
}

#[test]
fn failed_transfer_leaves_the_lock_for_retry() {
    let mut s = Lockdrop::new(A, 1000);
    assert_eq!(s.lock(A, 100, 30, 0), Ok(()));
    assert_eq!(s.unlock(A, 40, false), Err(Error::SendFailed));
    assert_eq!(s.balance_of_lock(A), 100);
    assert_eq!(s.pub_get_lock_time(A), 30);
    assert_eq!(s.unlock(A, 40, true), Ok(()));
    assert_eq!(s.balance_of_lock(A), 0);
}

#[test]
fn second_unlock_finds_no_lock() {
    let mut s = Lockdrop::new(A, 1000);
    assert_eq!(s.lock(A, 100, 30, 0), Ok(()));
    assert_eq!(s.unlock(A, 30, true), Ok(()));
    assert_eq!(s.unlock(A, 30, true), Err(Error::NoValue));
    assert_eq!(s.prepare_unlock(A, 30), Err(Error::NoValue));
}

#[test]
fn unlock_without_any_lock_finds_no_lock() {
    let mut s = Lockdrop::new(A, 1000);
    assert_eq!(s.prepare_unlock(B, 100), Err(Error::NoValue));
    assert_eq!(s.unlock(B, 100, true), Err(Error::NoValue));
}

#[test]
fn the_whole_supply_can_be_locked() {
    let mut s = Lockdrop::new(A, 1000);
    assert_eq!(s.lock(A, 1000, 7, 0), Ok(()));
    assert_eq!(s.total_supply(), 0);
    assert_eq!(s.lock(C, 1, 7, 0), Err(Error::NotEnoughBalance));
}

#[test]
fn a_new_lock_overwrites_the_old_record() {
    let mut s = Lockdrop::new(A, 1000);
    assert_eq!(s.lock(A, 100, 30, 0), Ok(()));
    assert_eq!(s.lock(A, 50, 100, 10), Ok(()));
    assert_eq!(s.total_supply(), 850);
    assert_eq!(s.balance_of_lock(A), 50);
    assert_eq!(s.pub_get_lock_time(A), 110);
}

#[test]
fn a_zero_value_lock_still_gates_on_time() {
    let mut s = Lockdrop::new(A, 1000);
    assert_eq!(s.lock(A, 0, 10, 5), Ok(()));
    assert_eq!(s.total_supply(), 1000);
    assert_eq!(s.prepare_unlock(A, 14), Err(Error::NotSpendLockTime));
    assert_eq!(s.prepare_unlock(A, 15), Ok(0));
    assert_eq!(s.unlock(A, 15, true), Ok(()));
    assert_eq!(s.balance_of_lock(A), 0);
}

#[test]
fn unlock_succeeds_exactly_at_the_unlock_time() {
    let mut s = Lockdrop::new(A, 1000);
    assert_eq!(s.lock(A, 250, 60, 40), Ok(()));
    assert_eq!(s.pub_get_lock_time(A), 100);
    assert_eq!(s.prepare_unlock(A, 99), Err(Error::NotSpendLockTime));
    assert_eq!(s.prepare_unlock(A, 100), Ok(250));
    assert_eq!(s.unlock(A, 100, true), Ok(()));
}

#[test]
fn the_mirrored_balance_records_the_deposit() {
    let mut s = Lockdrop::new(A, 1000);
    assert_eq!(s.lock(A, 100, 30, 0), Ok(()));
    assert_eq!(s.unlock(A, 30, true), Ok(()));
    assert_eq!(s.balance_of_token(A), 100);
    assert_eq!(s.pub_get_lock_time(A), 30);
}
