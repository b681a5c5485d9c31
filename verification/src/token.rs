//! The token itself: construction, the transfer orchestrator, the
//! privilege registry, the airdrop vesting ledger and the disbursement
//! engine, all over one state struct.

use vstd::prelude::*;

use crate::account_map::AccountMap;
use crate::account_map::map_get;

verus! {

/// Unix time, in milliseconds, at which every airdrop allocation vests.
pub const AIRDROP_START_TIME: u64 = 1681516800000;

/// Pool level at which collected fees are disbursed to the marketing wallet.
pub const DISBURSEMENT_THRESHOLD: u128 = 1_000_000_000_000;

/// Why a transfer is refused. A refused transfer changes no state.
#[derive(Clone, Copy, Debug, PartialEq, Eq, Structural)]
pub enum TokenError {
    ZeroSenderAddress,
    ZeroRecipientAddress,
    InsufficientBalance,
}

/// The listed accounts are pairwise distinct.
pub open spec fn distinct_accounts(s: Seq<u128>) -> bool {
    forall|i: int, j: int| 0 <= i < j < s.len() ==> #[trigger] s[i] != #[trigger] s[j]
}

/// A fee-on-transfer token ledger with threshold disbursement and a
/// time-gated airdrop allocation per account. Accounts are addresses
/// held as plain integers; address zero is the null address.
pub struct AlephbunnyToken {
    /// Number of units minted at construction; never changes.
    pub total_supply: u128,
    /// Raw balance of every account.
    pub balances: AccountMap,
    /// The one account allowed to call the privileged operations.
    pub creator: u128,
    /// Destination of every disbursement; fixed at construction.
    pub marketing_wallet: u128,
    /// Accounts ever marked fee-exempt, in the order they were marked.
    pub privileged_accounts: Vec<u128>,
    /// Locked airdrop allocation of every account.
    pub airdrop: AccountMap,
    /// Fees collected and not yet disbursed.
    pub disbursement_pool: u128,
    /// Instant from which allocations stop binding; fixed at construction.
    pub airdrop_start_time: u64,
}

impl AlephbunnyToken {
    /// Raw balance of `account`.
    pub open spec fn balance_of_spec(&self, account: u128) -> u128 {
        map_get(self.balances@, account)
    }

    /// Locked airdrop allocation of `account`.
    pub open spec fn airdrop_of(&self, account: u128) -> u128 {
        map_get(self.airdrop@, account)
    }

    /// Whether `account` is exempt from transfer fees.
    pub open spec fn is_exempt(&self, account: u128) -> bool {
        self.privileged_accounts@.contains(account)
    }

    /// Both tables are well formed, the privileged list holds no account
    /// twice, and creator and marketing wallet are privileged.
    pub open spec fn wf(&self) -> bool {
        &&& self.balances.wf()
        &&& self.airdrop.wf()
        &&& distinct_accounts(self.privileged_accounts@)
        &&& self.privileged_accounts@.contains(self.creator)
        &&& self.privileged_accounts@.contains(self.marketing_wallet)
    }

    /// Every minted unit is either on some balance or in the pool.
    pub open spec fn supply_ok(&self) -> bool {
        self.balances.sum() + self.disbursement_pool == self.total_supply
    }

    /// What `account` can spend at time `now`: its raw balance, less the
    /// locked allocation while the airdrop has not yet started.
    pub open spec fn spendable_of(&self, account: u128, now: u64) -> int {
        if now >= self.airdrop_start_time {
            self.balance_of_spec(account) as int
        } else if self.airdrop_of(account) > 0 {
            self.balance_of_spec(account) - self.airdrop_of(account)
        } else {
            self.balance_of_spec(account) as int
        }
    }

    /// Fee charged on a transfer of `amount` from `from` to `to`.
    pub open spec fn transfer_fee(&self, from: u128, to: u128, amount: u128) -> int {
        crate::fee::fee_spec(amount, self.is_exempt(from), self.is_exempt(to))
    }

    /// Balance table after the debit and the credit of a successful
    /// transfer, before any disbursement: the sender loses the whole
    /// amount, the recipient gains the amount less the fee.
    pub open spec fn balances_after_moves(&self, from: u128, to: u128, amount: u128) -> Map<
        u128,
        u128,
    > {
        let fee = self.transfer_fee(from, to, amount);
        let debited = self.balances@.insert(
            from,
            (self.balance_of_spec(from) - amount) as u128,
        );
        debited.insert(to, (map_get(debited, to) + amount - fee) as u128)
    }

    /// Pool after a successful transfer's fee is collected, before any
    /// disbursement.
    pub open spec fn pool_after_fee(&self, from: u128, to: u128, amount: u128) -> int {
        self.disbursement_pool + self.transfer_fee(from, to, amount)
    }

    /// Whether collecting this transfer's fee lifts the pool to the
    /// disbursement threshold.
    pub open spec fn triggers_disbursement(&self, from: u128, to: u128, amount: u128) -> bool {
        self.pool_after_fee(from, to, amount) >= DISBURSEMENT_THRESHOLD
    }

    /// Balance table after a successful transfer, disbursement included.
    pub open spec fn post_balances(&self, from: u128, to: u128, amount: u128) -> Map<u128, u128> {
        let moved = self.balances_after_moves(from, to, amount);
        if self.triggers_disbursement(from, to, amount) {
            moved.insert(
                self.marketing_wallet,
                (map_get(moved, self.marketing_wallet) + self.pool_after_fee(
                    from,
                    to,
                    amount,
                )) as u128,
            )
        } else {
            moved
        }
    }

    /// Pool after a successful transfer, disbursement included.
    pub open spec fn post_pool(&self, from: u128, to: u128, amount: u128) -> int {
        if self.triggers_disbursement(from, to, amount) {
            0
        } else {
            self.pool_after_fee(from, to, amount)
        }
    }
}

/// The privileged list after marking `account` fee-exempt: unchanged when
/// it already holds the account, else extended by it.
pub open spec fn privileged_after_exempt(s: Seq<u128>, account: u128) -> Seq<u128> {
    if s.contains(account) {
        s
    } else {
        s.push(account)
    }
}

impl AlephbunnyToken {
    /// Build the ledger: the whole supply is minted to the creator, who is
    /// fee-exempt together with the marketing wallet, the pool is empty,
    /// and the airdrop vests at the fixed start instant.
    pub fn new(total_supply: u128, creator: u128, marketing_wallet: u128) -> (r: AlephbunnyToken)
        ensures
            r.wf(),
            r.supply_ok(),
            r.total_supply == total_supply,
            r.creator == creator,
            r.marketing_wallet == marketing_wallet,
            r.balances@ == Map::<u128, u128>::empty().insert(creator, total_supply),
            r.airdrop@ == Map::<u128, u128>::empty(),
            r.disbursement_pool == 0,
            r.airdrop_start_time == AIRDROP_START_TIME,
            r.privileged_accounts@ == privileged_after_exempt(
                privileged_after_exempt(Seq::empty(), creator),
                marketing_wallet,
            ),
    {
        let mut token = AlephbunnyToken {
            total_supply,
            balances: AccountMap::new(),
            creator,
            marketing_wallet,
            privileged_accounts: Vec::new(),
            airdrop: AccountMap::new(),
            disbursement_pool: 0,
            airdrop_start_time: AIRDROP_START_TIME,
        };
        token._exclude_from_fees(creator);
        token._exclude_from_fees(marketing_wallet);
        token.balances.set(creator, total_supply);
        token
    }

    /// The privilege registry's unconditional primitive: mark `account`
    /// fee-exempt, appending it to the privileged list unless it is
    /// already there.
    pub fn _exclude_from_fees(&mut self, account: u128)
        ensures
            final(self).privileged_accounts@ == privileged_after_exempt(
                old(self).privileged_accounts@,
                account,
            ),
            final(self).is_exempt(account),
            forall|a: u128| old(self).is_exempt(a) ==> final(self).is_exempt(a),
            distinct_accounts(old(self).privileged_accounts@) ==> distinct_accounts(
                final(self).privileged_accounts@,
            ),
            final(self).balances == old(self).balances,
            final(self).airdrop == old(self).airdrop,
            final(self).total_supply == old(self).total_supply,
            final(self).creator == old(self).creator,
            final(self).marketing_wallet == old(self).marketing_wallet,
            final(self).disbursement_pool == old(self).disbursement_pool,
            final(self).airdrop_start_time == old(self).airdrop_start_time,
    {
        let included = contains_account(&self.privileged_accounts, account);
        if !included {
            self.privileged_accounts.push(account);
            proof {
                let s = old(self).privileged_accounts@;
                let t = self.privileged_accounts@;
                assert(t[s.len() as int] == account);
                assert forall|a: u128| s.contains(a) implies t.contains(a) by {
                    let i = choose|i: int| 0 <= i < s.len() && s[i] == a;
                    assert(t[i] == a);
                }
                if distinct_accounts(s) {
                    assert forall|i: int, j: int| 0 <= i < j < t.len() implies #[trigger] t[i]
                        != #[trigger] t[j] by {
                        if j < t.len() - 1 {
                            assert(t[i] == s[i]);
                            assert(t[j] == s[j]);
                        } else {
                            assert(t[i] == s[i]);
                            assert(!s.contains(account));
                        }
                    }
                }
            }
        }
    }

    /// Creator-only: mark `account` fee-exempt. A call by any other
    /// account changes nothing and reports nothing.
    pub fn exclude_from_fees(&mut self, caller: u128, account: u128)
        ensures
            caller != old(self).creator ==> *final(self) == *old(self),
            caller == old(self).creator ==> final(self).privileged_accounts@
                == privileged_after_exempt(old(self).privileged_accounts@, account),
            caller == old(self).creator ==> final(self).is_exempt(account),
            old(self).wf() ==> final(self).wf(),
            final(self).balances == old(self).balances,
            final(self).airdrop == old(self).airdrop,
            final(self).total_supply == old(self).total_supply,
            final(self).creator == old(self).creator,
            final(self).marketing_wallet == old(self).marketing_wallet,
            final(self).disbursement_pool == old(self).disbursement_pool,
            final(self).airdrop_start_time == old(self).airdrop_start_time,
    {
        if caller == self.creator {
            self._exclude_from_fees(account);
            proof {
                if old(self).wf() {
                    assert(self.is_exempt(old(self).creator));
                    assert(self.is_exempt(old(self).marketing_wallet));
                }
            }
        }
    }

    /// Creator-only: overwrite `account`'s locked allocation with `amount`
    /// and move `amount` from the caller's balance to `account`'s. A call
    /// by any other account changes nothing and reports nothing. A move is
    /// a move: when the creator grants to itself the debit and the credit
    /// cancel, its balance stays put, and the sum of all balances never
    /// changes.
    pub fn add_to_airdrop(&mut self, caller: u128, account: u128, amount: u128)
        requires
            old(self).balances.wf(),
            old(self).airdrop.wf(),
            caller == old(self).creator ==> amount <= old(self).balance_of_spec(caller),
            caller == old(self).creator && account != caller ==> old(self).balance_of_spec(account)
                + amount <= u128::MAX,
        ensures
            caller != old(self).creator ==> *final(self) == *old(self),
            caller == old(self).creator ==> final(self).airdrop@ == old(self).airdrop@.insert(
                account,
                amount,
            ),
            caller == old(self).creator ==> final(self).balances@ == ({
                let debited = old(self).balances@.insert(
                    caller,
                    (old(self).balance_of_spec(caller) - amount) as u128,
                );
                debited.insert(account, (map_get(debited, account) + amount) as u128)
            }),
            caller == old(self).creator && account == caller ==> final(self).balance_of_spec(caller)
                == old(self).balance_of_spec(caller),
            final(self).balances.sum() == old(self).balances.sum(),
            old(self).supply_ok() ==> final(self).supply_ok(),
            final(self).balances.wf(),
            final(self).airdrop.wf(),
            final(self).privileged_accounts == old(self).privileged_accounts,
            final(self).total_supply == old(self).total_supply,
            final(self).creator == old(self).creator,
            final(self).marketing_wallet == old(self).marketing_wallet,
            final(self).disbursement_pool == old(self).disbursement_pool,
            final(self).airdrop_start_time == old(self).airdrop_start_time,
    {
        if caller == self.creator {
            self.airdrop.set(account, amount);
            let sender_balance = self.balances.get(caller);
            self.balances.set(caller, sender_balance - amount);
            let balance = self.balances.get(account);
            self.balances.set(account, balance + amount);
        }
    }

    /// Locked airdrop allocation of `account`, zero when none was granted.
    pub fn get_airdrop(&self, account: u128) -> (r: u128)
        requires
            self.airdrop.wf(),
        ensures
            r == self.airdrop_of(account),
    {
        self.airdrop.get(account)
    }

    /// The fixed instant at which every allocation vests.
    pub fn get_airdrop_start_time(&self) -> (r: u64)
        ensures
            r == self.airdrop_start_time,
    {
        self.airdrop_start_time
    }

    /// Raw balance of `account`: the base-ledger read every other
    /// operation builds on.
    pub fn balance_of(&self, account: u128) -> (r: u128)
        requires
            self.balances.wf(),
        ensures
            r == self.balance_of_spec(account),
    {
        self.balances.get(account)
    }

    /// The disbursement engine: move the whole pool onto the marketing
    /// wallet's balance and clear the pool.
    pub fn disbursements(&mut self)
        requires
            old(self).balances.wf(),
            old(self).balance_of_spec(old(self).marketing_wallet) + old(self).disbursement_pool
                <= u128::MAX,
        ensures
            final(self).balances@ == old(self).balances@.insert(
                old(self).marketing_wallet,
                (old(self).balance_of_spec(old(self).marketing_wallet)
                    + old(self).disbursement_pool) as u128,
            ),
            final(self).disbursement_pool == 0,
            final(self).balances.wf(),
            final(self).balances.sum() == old(self).balances.sum() + old(self).disbursement_pool,
            final(self).airdrop == old(self).airdrop,
            final(self).privileged_accounts == old(self).privileged_accounts,
            final(self).total_supply == old(self).total_supply,
            final(self).creator == old(self).creator,
            final(self).marketing_wallet == old(self).marketing_wallet,
            final(self).airdrop_start_time == old(self).airdrop_start_time,
    {
        let sharing = self.disbursement_pool;
        let marketing_balance = self.balances.get(self.marketing_wallet);
        self.balances.set(self.marketing_wallet, sharing + marketing_balance);
        self.disbursement_pool = self.disbursement_pool - sharing;
    }

    /// The transfer orchestrator: vesting check, fee computation, balance
    /// moves, fee collection, and disbursement once the pool reaches the
    /// threshold, in one atomic step. `now` is the host clock reading for
    /// this call; `_data` is the auxiliary payload a recipient hook would
    /// see. A refused transfer changes no state; the spendable balance of
    /// the sender decides success, and success debits the sender by the
    /// whole amount.
    pub fn _transfer_from_to(
        &mut self,
        from: u128,
        to: u128,
        amount: u128,
        _data: Vec<u8>,
        now: u64,
    ) -> (r: Result<(), TokenError>)
        requires
            old(self).wf(),
            now < old(self).airdrop_start_time ==> old(self).airdrop_of(from) <= old(
                self,
            ).balance_of_spec(from),
            old(self).balance_of_spec(to) + amount <= u128::MAX,
            old(self).balance_of_spec(old(self).marketing_wallet) + old(self).disbursement_pool + 2
                * (amount as int) <= u128::MAX,
        ensures
            r == Err::<(), TokenError>(TokenError::ZeroSenderAddress) <==> from == 0,
            r == Err::<(), TokenError>(TokenError::ZeroRecipientAddress) <==> (from != 0 && to
                == 0),
            r == Err::<(), TokenError>(TokenError::InsufficientBalance) <==> (from != 0 && to != 0
                && old(self).spendable_of(from, now) < amount),
            r == Ok::<(), TokenError>(()) <==> (from != 0 && to != 0 && old(self).spendable_of(
                from,
                now,
            ) >= amount),
            r is Err ==> *final(self) == *old(self),
            r is Ok ==> final(self).balances@ == old(self).post_balances(from, to, amount),
            r is Ok ==> final(self).disbursement_pool == old(self).post_pool(from, to, amount),
            r is Ok ==> final(self).balances.sum() + final(self).disbursement_pool == old(
                self,
            ).balances.sum() + old(self).disbursement_pool,
            final(self).wf(),
            old(self).supply_ok() ==> final(self).supply_ok(),
            old(self).disbursement_pool < DISBURSEMENT_THRESHOLD ==> final(self).disbursement_pool
                < DISBURSEMENT_THRESHOLD,
            final(self).airdrop == old(self).airdrop,
            final(self).privileged_accounts == old(self).privileged_accounts,
            final(self).total_supply == old(self).total_supply,
            final(self).creator == old(self).creator,
            final(self).marketing_wallet == old(self).marketing_wallet,
            final(self).airdrop_start_time == old(self).airdrop_start_time,
    {
        if from == 0 {
            return Err(TokenError::ZeroSenderAddress);
        }
        if to == 0 {
            return Err(TokenError::ZeroRecipientAddress);
        }
        let raw_balance = self.balances.get(from);
        let airdrop_balance = self.airdrop.get(from);
        let mut from_balance = raw_balance;
        if self.airdrop_start_time <= now {
            // fully vested: the allocation does not bind
        } else {
            if airdrop_balance > 0 {
                from_balance = from_balance - airdrop_balance;
            }
        }
        if from_balance < amount {
            return Err(TokenError::InsufficientBalance);
        }
        let exclusion_from = contains_account(&self.privileged_accounts, from);
        let exclusion_to = contains_account(&self.privileged_accounts, to);
        self.balances.set(from, raw_balance - amount);
        let fee = crate::fee::fee_for(amount, exclusion_from, exclusion_to);
        let addition = amount - fee;
        let to_balance = self.balances.get(to);
        self.balances.set(to, to_balance + addition);
        self.disbursement_pool = self.disbursement_pool + fee;
        if self.disbursement_pool >= DISBURSEMENT_THRESHOLD {
            self.disbursements();
        }
        Ok(())
    }

    /// Sum of the raw balances of the listed accounts, in list order.
    pub open spec fn sum_balances(&self, accounts: Seq<u128>) -> int
        decreases accounts.len(),
    {
        if accounts.len() == 0 {
            0
        } else {
            self.sum_balances(accounts.drop_last()) + self.balance_of_spec(accounts.last())
        }
    }

    proof fn lemma_sum_balances_take_step(&self, accounts: Seq<u128>, i: int)
        requires
            0 <= i < accounts.len(),
        ensures
            self.sum_balances(accounts.take(i + 1)) == self.sum_balances(accounts.take(i))
                + self.balance_of_spec(accounts[i]),
    {
        assert(accounts.take(i + 1).drop_last() =~= accounts.take(i));
        assert(accounts.take(i + 1).last() == accounts[i]);
    }

    proof fn lemma_sum_balances_take_le(&self, accounts: Seq<u128>, i: int)
        requires
            0 <= i <= accounts.len(),
        ensures
            self.sum_balances(accounts.take(i)) <= self.sum_balances(accounts),
        decreases accounts.len() - i,
    {
        if i == accounts.len() {
            assert(accounts.take(i) =~= accounts);
        } else {
            self.lemma_sum_balances_take_step(accounts, i);
            self.lemma_sum_balances_take_le(accounts, i + 1);
        }
    }

    /// Total supply less the balances of all privileged accounts. The
    /// bound in the requires is what keeps the subtraction meaningful: a
    /// privileged account may receive balance after being marked, so the
    /// privileged sum is not bounded by the supply of itself.
    #[verifier::loop_isolation(false)]
    pub fn circulating_supply(&self) -> (r: u128)
        requires
            self.balances.wf(),
            self.sum_balances(self.privileged_accounts@) <= self.total_supply,
        ensures
            r == self.total_supply - self.sum_balances(self.privileged_accounts@),
    {
        let n = self.privileged_accounts.len();
        let mut balances_total: u128 = 0;
        for i in 0..n
            invariant
                balances_total == self.sum_balances(self.privileged_accounts@.take(i as int)),
        {
            proof {
                self.lemma_sum_balances_take_step(self.privileged_accounts@, i as int);
                self.lemma_sum_balances_take_le(self.privileged_accounts@, i + 1);
            }
            balances_total = balances_total + self.balances.get(self.privileged_accounts[i]);
        }
        proof {
            assert(self.privileged_accounts@.take(n as int) =~= self.privileged_accounts@);
        }
        self.total_supply - balances_total
    }

    /// The accounts ever marked fee-exempt, in the order they were marked.
    #[verifier::loop_isolation(false)]
    pub fn get_privileged_accounts(&self) -> (r: Vec<u128>)
        ensures
            r@ == self.privileged_accounts@,
    {
        let n = self.privileged_accounts.len();
        let mut out: Vec<u128> = Vec::new();
        for i in 0..n
            invariant
                out@ == self.privileged_accounts@.take(i as int),
        {
            out.push(self.privileged_accounts[i]);
            proof {
                assert(out@ =~= self.privileged_accounts@.take(i + 1));
            }
        }
        proof {
            assert(self.privileged_accounts@.take(n as int) =~= self.privileged_accounts@);
        }
        out
    }

    /// A successful transfer between two distinct unexempt parties, of an
    /// amount that is a whole multiple of one hundred units and whose fee
    /// does not trigger a disbursement: the recipient gains exactly
    /// ninety-three hundredths of the amount, the sender loses the whole
    /// amount, and the pool collects the difference. (On an amount that
    /// is no such multiple the recipient's gain is the amount less the
    /// truncated seven percent, which exceeds the truncated ninety-three
    /// percent.)
    pub proof fn lemma_standard_transfer_amounts(self, from: u128, to: u128, amount: u128)
        requires
            !self.is_exempt(from),
            !self.is_exempt(to),
            from != to,
            amount <= self.balance_of_spec(from),
            self.balance_of_spec(to) + amount <= u128::MAX,
            amount % 100 == 0,
            !self.triggers_disbursement(from, to, amount),
        ensures
            map_get(self.post_balances(from, to, amount), to) == self.balance_of_spec(to) + (93 * (
            amount as int)) / 100,
            map_get(self.post_balances(from, to, amount), from) == self.balance_of_spec(from)
                - amount,
            self.post_pool(from, to, amount) == self.disbursement_pool + (amount - (93 * (
            amount as int)) / 100),
    {
        let a = amount as int;
        let k = a / 100;
        vstd::arithmetic::div_mod::lemma_fundamental_div_mod(a, 100);
        assert(7 * a == 100 * (7 * k));
        vstd::arithmetic::div_mod::lemma_div_multiples_vanish(7 * k, 100);
        assert(93 * a == 100 * (93 * k));
        vstd::arithmetic::div_mod::lemma_div_multiples_vanish(93 * k, 100);
    }

    /// A successful transfer in which either party is exempt: the
    /// recipient gains the whole amount, the sender loses the whole
    /// amount, and the pool does not move.
    pub proof fn lemma_exempt_transfer_amounts(self, from: u128, to: u128, amount: u128)
        requires
            self.is_exempt(from) || self.is_exempt(to),
            from != to,
            amount <= self.balance_of_spec(from),
            self.balance_of_spec(to) + amount <= u128::MAX,
            self.disbursement_pool < DISBURSEMENT_THRESHOLD,
        ensures
            map_get(self.post_balances(from, to, amount), to) == self.balance_of_spec(to) + amount,
            map_get(self.post_balances(from, to, amount), from) == self.balance_of_spec(from)
                - amount,
            self.post_pool(from, to, amount) == self.disbursement_pool,
    {
    }

    /// The transfer whose fee lifts the pool to the threshold disburses:
    /// when neither party is the marketing wallet itself, the marketing
    /// wallet gains the whole pre-trigger pool and the pool returns to
    /// zero.
    pub proof fn lemma_disbursement_trigger(self, from: u128, to: u128, amount: u128)
        requires
            self.triggers_disbursement(from, to, amount),
            self.marketing_wallet != from,
            self.marketing_wallet != to,
            self.balance_of_spec(self.marketing_wallet) + self.pool_after_fee(from, to, amount)
                <= u128::MAX,
        ensures
            map_get(self.post_balances(from, to, amount), self.marketing_wallet)
                == self.balance_of_spec(self.marketing_wallet) + self.pool_after_fee(
                from,
                to,
                amount,
            ),
            self.post_pool(from, to, amount) == 0,
    {
    }
}

/// How many entries of `s` equal `account`.
pub open spec fn count_of(s: Seq<u128>, account: u128) -> int
    decreases s.len(),
{
    if s.len() == 0 {
        0
    } else {
        count_of(s.drop_last(), account) + if s.last() == account {
            1int
        } else {
            0int
        }
    }
}

proof fn lemma_distinct_accounts_drop_last(s: Seq<u128>)
    requires
        distinct_accounts(s),
        s.len() > 0,
    ensures
        distinct_accounts(s.drop_last()),
{
    assert forall|i: int, j: int| 0 <= i < j < s.drop_last().len() implies #[trigger] s.drop_last()[i]
        != #[trigger] s.drop_last()[j] by {
        assert(s.drop_last()[i] == s[i]);
        assert(s.drop_last()[j] == s[j]);
    }
}

proof fn lemma_count_distinct(s: Seq<u128>, account: u128)
    requires
        distinct_accounts(s),
    ensures
        count_of(s, account) == if s.contains(account) {
            1int
        } else {
            0int
        },
    decreases s.len(),
{
    if s.len() > 0 {
        lemma_distinct_accounts_drop_last(s);
        lemma_count_distinct(s.drop_last(), account);
        if s.last() == account {
            if s.drop_last().contains(account) {
                let j = choose|j: int|
                    0 <= j < s.drop_last().len() && s.drop_last()[j] == account;
                assert(s[j] == account);
                assert(s[s.len() - 1] == account);
                assert(false);
            }
        } else {
            if s.contains(account) {
                let i = choose|i: int| 0 <= i < s.len() && s[i] == account;
                assert(s.drop_last()[i] == account);
            }
            if s.drop_last().contains(account) {
                let j = choose|j: int|
                    0 <= j < s.drop_last().len() && s.drop_last()[j] == account;
                assert(s[j] == account);
            }
        }
    }
}

/// Marking an account fee-exempt is idempotent: marking it a second time
/// leaves the privileged list exactly as one marking left it, and that
/// list holds the account exactly once.
pub proof fn lemma_exclude_idempotent(s: Seq<u128>, account: u128)
    requires
        distinct_accounts(s),
    ensures
        privileged_after_exempt(privileged_after_exempt(s, account), account)
            == privileged_after_exempt(s, account),
        count_of(privileged_after_exempt(s, account), account) == 1,
{
    let t = privileged_after_exempt(s, account);
    lemma_count_distinct(s, account);
    if !s.contains(account) {
        assert(t[s.len() as int] == account);
        assert(t.contains(account));
        assert(t.drop_last() =~= s);
        assert(t.last() == account);
    }
}

/// Whether `accounts` holds `account`.
#[verifier::loop_isolation(false)]
fn contains_account(accounts: &Vec<u128>, account: u128) -> (r: bool)
    ensures
        r == accounts@.contains(account),
{
    let n = accounts.len();
    for i in 0..n
        invariant
            forall|j: int| 0 <= j < i ==> accounts@[j] != account,
    {
        if accounts[i] == account {
            return true;
        }
    }
    false
}

} // verus!
