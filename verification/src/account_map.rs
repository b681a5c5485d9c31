//! A table from account to 128-bit value, the shape that balances and
//! airdrop allocations share: an account that was never written reads as
//! zero, and a write overwrites the previous value.

use vstd::prelude::*;

verus! {

/// Value of `account` in the table `m`: absent accounts hold zero.
pub open spec fn map_get(m: Map<u128, u128>, account: u128) -> u128 {
    if m.contains_key(account) {
        m[account]
    } else {
        0
    }
}

/// The accounts of the listed entries are pairwise distinct.
pub open spec fn distinct_keys(s: Seq<(u128, u128)>) -> bool {
    forall|i: int, j: int|
        0 <= i < j < s.len() ==> (#[trigger] s[i]).0 != (#[trigger] s[j]).0
}

/// The finite map that a list of entries denotes; a later entry for the
/// same account would win.
pub open spec fn entries_map(s: Seq<(u128, u128)>) -> Map<u128, u128>
    decreases s.len(),
{
    if s.len() == 0 {
        Map::empty()
    } else {
        entries_map(s.drop_last()).insert(s.last().0, s.last().1)
    }
}

/// The sum of all values in a list of entries.
pub open spec fn entries_sum(s: Seq<(u128, u128)>) -> int
    decreases s.len(),
{
    if s.len() == 0 {
        0
    } else {
        entries_sum(s.drop_last()) + s.last().1
    }
}

proof fn lemma_distinct_keys_drop_last(s: Seq<(u128, u128)>)
    requires
        distinct_keys(s),
        s.len() > 0,
    ensures
        distinct_keys(s.drop_last()),
{
    assert forall|i: int, j: int| 0 <= i < j < s.drop_last().len() implies (#[trigger] s.drop_last()[i]).0
        != (#[trigger] s.drop_last()[j]).0 by {
        assert(s.drop_last()[i] == s[i]);
        assert(s.drop_last()[j] == s[j]);
    }
}

proof fn lemma_entries_map_domain(s: Seq<(u128, u128)>, account: u128)
    ensures
        entries_map(s).contains_key(account) <==> (exists|i: int|
            0 <= i < s.len() && (#[trigger] s[i]).0 == account),
    decreases s.len(),
{
    if s.len() > 0 {
        lemma_entries_map_domain(s.drop_last(), account);
        if s.last().0 == account {
            assert((s[s.len() - 1]).0 == account);
        } else {
            if entries_map(s).contains_key(account) {
                let i = choose|i: int|
                    0 <= i < s.drop_last().len() && (#[trigger] s.drop_last()[i]).0 == account;
                assert((s[i]).0 == account);
            }
            if exists|i: int| 0 <= i < s.len() && (#[trigger] s[i]).0 == account {
                let i = choose|i: int| 0 <= i < s.len() && (#[trigger] s[i]).0 == account;
                assert((s.drop_last()[i]).0 == account);
            }
        }
    }
}

proof fn lemma_entries_map_at(s: Seq<(u128, u128)>, i: int)
    requires
        distinct_keys(s),
        0 <= i < s.len(),
    ensures
        entries_map(s).contains_key(s[i].0),
        entries_map(s)[s[i].0] == s[i].1,
    decreases s.len(),
{
    if i < s.len() - 1 {
        lemma_distinct_keys_drop_last(s);
        lemma_entries_map_at(s.drop_last(), i);
        assert(s.drop_last()[i] == s[i]);
        assert(s.last().0 != s[i].0);
    }
}

proof fn lemma_entries_map_update(s: Seq<(u128, u128)>, i: int, account: u128, value: u128)
    requires
        distinct_keys(s),
        0 <= i < s.len(),
        s[i].0 == account,
    ensures
        entries_map(s.update(i, (account, value))) == entries_map(s).insert(account, value),
        distinct_keys(s.update(i, (account, value))),
        entries_sum(s.update(i, (account, value))) == entries_sum(s) - s[i].1 + value,
    decreases s.len(),
{
    let t = s.update(i, (account, value));
    assert forall|a: int, b: int| 0 <= a < b < t.len() implies (#[trigger] t[a]).0
        != (#[trigger] t[b]).0 by {
        assert(t[a].0 == s[a].0);
        assert(t[b].0 == s[b].0);
    }
    if i == s.len() - 1 {
        assert(t.drop_last() =~= s.drop_last());
        assert(t.last() == (account, value));
        assert(entries_map(s).insert(account, value) =~= entries_map(s.drop_last()).insert(
            account,
            value,
        ));
    } else {
        lemma_distinct_keys_drop_last(s);
        assert(t.drop_last() =~= s.drop_last().update(i, (account, value)));
        lemma_entries_map_update(s.drop_last(), i, account, value);
        assert(t.last() == s.last());
        assert(s.drop_last()[i] == s[i]);
        // the updated account differs from the last entry's account, so the
        // two map inserts commute
        assert(s.last().0 != account);
        assert(entries_map(t) =~= entries_map(s).insert(account, value));
    }
}

proof fn lemma_entries_map_push(s: Seq<(u128, u128)>, account: u128, value: u128)
    requires
        distinct_keys(s),
        forall|i: int| 0 <= i < s.len() ==> (#[trigger] s[i]).0 != account,
    ensures
        entries_map(s.push((account, value))) == entries_map(s).insert(account, value),
        distinct_keys(s.push((account, value))),
        entries_sum(s.push((account, value))) == entries_sum(s) + value,
{
    let t = s.push((account, value));
    assert(t.drop_last() =~= s);
    assert(t.last() == (account, value));
    assert forall|a: int, b: int| 0 <= a < b < t.len() implies (#[trigger] t[a]).0
        != (#[trigger] t[b]).0 by {
        if b < t.len() - 1 {
            assert(t[a].0 == s[a].0);
            assert(t[b].0 == s[b].0);
        } else {
            assert(t[a].0 == s[a].0);
        }
    }
}

/// An account-indexed table of 128-bit values, held as a vector of pairs
/// whose accounts are pairwise distinct.
pub struct AccountMap {
    entries: Vec<(u128, u128)>,
}

impl View for AccountMap {
    type V = Map<u128, u128>;

    closed spec fn view(&self) -> Map<u128, u128> {
        entries_map(self.entries@)
    }
}

impl AccountMap {
    /// The table holds each account at most once.
    pub closed spec fn wf(&self) -> bool {
        distinct_keys(self.entries@)
    }

    /// The sum of all values held in the table.
    pub closed spec fn sum(&self) -> int {
        entries_sum(self.entries@)
    }

    pub fn new() -> (r: AccountMap)
        ensures
            r@ == Map::<u128, u128>::empty(),
            r.wf(),
            r.sum() == 0,
    {
        AccountMap { entries: Vec::new() }
    }

    /// The value held for `account`, zero when none was ever set.
    #[verifier::loop_isolation(false)]
    pub fn get(&self, account: u128) -> (r: u128)
        requires
            self.wf(),
        ensures
            r == map_get(self@, account),
    {
        let n = self.entries.len();
        for i in 0..n
            invariant
                forall|j: int| 0 <= j < i ==> (#[trigger] self.entries@[j]).0 != account,
        {
            if self.entries[i].0 == account {
                proof {
                    lemma_entries_map_at(self.entries@, i as int);
                }
                return self.entries[i].1;
            }
        }
        proof {
            lemma_entries_map_domain(self.entries@, account);
        }
        0
    }

    /// Overwrite the value held for `account` with `value`.
    #[verifier::loop_isolation(false)]
    pub fn set(&mut self, account: u128, value: u128)
        requires
            old(self).wf(),
        ensures
            final(self)@ == old(self)@.insert(account, value),
            final(self).wf(),
            final(self).sum() == old(self).sum() - map_get(old(self)@, account) + value,
    {
        let n = self.entries.len();
        for i in 0..n
            invariant
                *self == *old(self),
                forall|j: int| 0 <= j < i ==> (#[trigger] self.entries@[j]).0 != account,
        {
            if self.entries[i].0 == account {
                proof {
                    lemma_entries_map_at(self.entries@, i as int);
                    lemma_entries_map_update(self.entries@, i as int, account, value);
                }
                self.entries[i] = (account, value);
                return;
            }
        }
        proof {
            lemma_entries_map_domain(self.entries@, account);
            lemma_entries_map_push(self.entries@, account, value);
        }
        self.entries.push((account, value));
    }
}

} // verus!
