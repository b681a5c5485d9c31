//! The airdrop vesting ledger and the privilege registry: vesting gate,
//! creator-only authorization, idempotent exemption, and the fee policy's
//! exact values.

use alephbunny_token::fee::fee_for;
use alephbunny_token::token::{AlephbunnyToken, TokenError, AIRDROP_START_TIME};

const CREATOR: u128 = 1;
const MARKETING: u128 = 2;

#[test]
fn allocation_binds_before_the_start_time() {
    let mut token = AlephbunnyToken::new(1_000_000, CREATOR, MARKETING);
    let funded = token._transfer_from_to(CREATOR, 3, 1_000, Vec::new(), AIRDROP_START_TIME);
    assert_eq!(funded, Ok(()));
    token.add_to_airdrop(CREATOR, 3, 400);
    assert_eq!(token.get_airdrop(3), 400);
    assert_eq!(token.balance_of(3), 1_400);
    // before the start: only balance minus allocation is spendable
    let too_much = token._transfer_from_to(3, 4, 1_100, Vec::new(), AIRDROP_START_TIME - 1);
    assert_eq!(too_much, Err(TokenError::InsufficientBalance));
    let allowed = token._transfer_from_to(3, 4, 1_000, Vec::new(), AIRDROP_START_TIME - 1);
    assert_eq!(allowed, Ok(()));
    assert_eq!(token.balance_of(3), 400);
}

#[test]
fn allocation_stops_binding_at_the_start_time() {
    let mut token = AlephbunnyToken::new(1_000_000, CREATOR, MARKETING);
    let funded = token._transfer_from_to(CREATOR, 3, 1_000, Vec::new(), AIRDROP_START_TIME);
    assert_eq!(funded, Ok(()));
    token.add_to_airdrop(CREATOR, 3, 400);
    // at the start instant the whole balance is spendable
    let whole = token._transfer_from_to(3, 4, 1_400, Vec::new(), AIRDROP_START_TIME);
    assert_eq!(whole, Ok(()));
    assert_eq!(token.balance_of(3), 0);
}

#[test]
fn airdrop_grant_overwrites_and_moves_funds() {
    let mut token = AlephbunnyToken::new(1_000_000, CREATOR, MARKETING);
    assert_eq!(token.get_airdrop(3), 0);
    token.add_to_airdrop(CREATOR, 3, 300);
    assert_eq!(token.get_airdrop(3), 300);
    assert_eq!(token.balance_of(3), 300);
    assert_eq!(token.balance_of(CREATOR), 999_700);
    // a second grant overwrites the allocation and moves more funds
    token.add_to_airdrop(CREATOR, 3, 100);
    assert_eq!(token.get_airdrop(3), 100);
    assert_eq!(token.balance_of(3), 400);
    assert_eq!(token.balance_of(CREATOR), 999_600);
}

#[test]
fn non_creator_calls_change_nothing() {
    let mut token = AlephbunnyToken::new(1_000_000, CREATOR, MARKETING);
    token.exclude_from_fees(3, 4);
    assert_eq!(token.get_privileged_accounts(), vec![CREATOR, MARKETING]);
    token.add_to_airdrop(3, 4, 500);
    assert_eq!(token.get_airdrop(4), 0);
    assert_eq!(token.balance_of(3), 0);
    assert_eq!(token.balance_of(4), 0);
    assert_eq!(token.balance_of(CREATOR), 1_000_000);
}

#[test]
fn excluding_twice_lists_the_account_once() {
    let mut token = AlephbunnyToken::new(1_000_000, CREATOR, MARKETING);
    token.exclude_from_fees(CREATOR, 7);
    token.exclude_from_fees(CREATOR, 7);
    let privileged = token.get_privileged_accounts();
    assert_eq!(privileged, vec![CREATOR, MARKETING, 7]);
    assert_eq!(privileged.iter().filter(|a| **a == 7).count(), 1);
}

#[test]
fn newly_exempt_accounts_pay_no_fee() {
    let mut token = AlephbunnyToken::new(1_000_000, CREATOR, MARKETING);
    let funded = token._transfer_from_to(CREATOR, 7, 10_000, Vec::new(), AIRDROP_START_TIME);
    assert_eq!(funded, Ok(()));
    token.exclude_from_fees(CREATOR, 7);
    let sent = token._transfer_from_to(7, 8, 1_000, Vec::new(), AIRDROP_START_TIME);
    assert_eq!(sent, Ok(()));
    assert_eq!(token.balance_of(8), 1_000);
    assert_eq!(token.disbursement_pool, 0);
}

#[test]
fn unconditional_primitive_exempts_anyone() {
    let mut token = AlephbunnyToken::new(1_000_000, CREATOR, MARKETING);
    token._exclude_from_fees(9);
    assert_eq!(token.get_privileged_accounts(), vec![CREATOR, MARKETING, 9]);
}

#[test]
fn creator_self_grant_moves_nothing() {
    let mut token = AlephbunnyToken::new(1_000_000, CREATOR, MARKETING);
    // a move from the creator to itself records the allocation and nets
    // zero on the balance
    token.add_to_airdrop(CREATOR, CREATOR, 500);
    assert_eq!(token.balance_of(CREATOR), 1_000_000);
    assert_eq!(token.get_airdrop(CREATOR), 500);
}

#[test]
fn fee_is_seven_percent_truncated() {
    assert_eq!(fee_for(1_000, false, false), 70);
    assert_eq!(fee_for(999, false, false), 69);
    assert_eq!(fee_for(100, false, false), 7);
    assert_eq!(fee_for(14, false, false), 0);
    assert_eq!(fee_for(0, false, false), 0);
    assert_eq!(fee_for(10_000_000_000_000_000_000_000, false, false), 700_000_000_000_000_000_000);
}

#[test]
fn fee_is_zero_for_exempt_parties() {
    assert_eq!(fee_for(1_000, true, false), 0);
    assert_eq!(fee_for(1_000, false, true), 0);
    assert_eq!(fee_for(1_000, true, true), 0);
}

#[test]
fn fee_never_overflows_even_on_the_largest_amount() {
    let fee = fee_for(u128::MAX, false, false);
    assert_eq!(fee, u128::MAX / 100 * 7 + (u128::MAX % 100) * 7 / 100);
    assert!(fee <= u128::MAX / 10);
}
