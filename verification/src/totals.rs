//! Reading a table of amounts, and the sum of all its amounts.

use crate::mapping::{lists, Mapping};
use crate::types::{AccountId, Balance};
use vstd::prelude::*;

verus! {

/// The amount that `amounts` holds for `account`; no entry counts as zero.
pub open spec fn amount_of(amounts: Map<AccountId, Balance>, account: AccountId) -> Balance {
    if amounts.contains_key(account) {
        amounts[account]
    } else {
        0
    }
}

/// The sum of the amounts of all accounts in a finite table.
pub open spec fn sum_of(amounts: Map<AccountId, Balance>) -> nat
    decreases amounts.dom().len(),
    when amounts.dom().finite()
{
    if amounts.dom().len() == 0 {
        0
    } else {
        let account = amounts.dom().choose();
        amounts[account] as nat + sum_of(amounts.remove(account))
    }
}

/// The empty table sums to zero.
pub proof fn lemma_sum_of_empty()
    ensures
        sum_of(Map::<AccountId, Balance>::empty()) == 0,
{
    assert(Map::<AccountId, Balance>::empty().dom() =~= Set::empty());
}

/// The sum is the amount of any one account plus the sum over the others.
pub proof fn lemma_sum_of_remove(amounts: Map<AccountId, Balance>, account: AccountId)
    requires
        amounts.dom().finite(),
        amounts.contains_key(account),
    ensures
        sum_of(amounts) == amounts[account] + sum_of(amounts.remove(account)),
    decreases amounts.dom().len(),
{
    let first = amounts.dom().choose();
    assert(amounts.dom().len() != 0) by {
        if amounts.dom().len() == 0 {
            amounts.dom().lemma_len0_is_empty();
        }
    }
    if first != account {
        lemma_sum_of_remove(amounts.remove(first), account);
        lemma_sum_of_remove(amounts.remove(account), first);
        assert(amounts.remove(first).remove(account) =~= amounts.remove(account).remove(first));
    }
}

/// Giving one account a new amount changes the sum by the difference to its old amount.
pub proof fn lemma_sum_of_insert(
    amounts: Map<AccountId, Balance>,
    account: AccountId,
    amount: Balance,
)
    requires
        amounts.dom().finite(),
    ensures
        sum_of(amounts.insert(account, amount)) == sum_of(amounts) - amount_of(amounts, account)
            + amount,
{
    let updated = amounts.insert(account, amount);
    lemma_sum_of_remove(updated, account);
    if amounts.contains_key(account) {
        lemma_sum_of_remove(amounts, account);
        assert(updated.remove(account) =~= amounts.remove(account));
    } else {
        assert(updated.remove(account) =~= amounts);
    }
}

/// No account holds more than the sum.
pub proof fn lemma_amount_at_most_sum(amounts: Map<AccountId, Balance>, account: AccountId)
    requires
        amounts.dom().finite(),
    ensures
        amount_of(amounts, account) <= sum_of(amounts),
{
    if amounts.contains_key(account) {
        lemma_sum_of_remove(amounts, account);
    }
}

/// The sum of the amounts in a list of entries.
pub open spec fn listed_sum(entries: Seq<(AccountId, Balance)>) -> nat
    decreases entries.len(),
{
    if entries.len() == 0 {
        0
    } else {
        listed_sum(entries.drop_last()) + entries.last().1 as nat
    }
}

/// A list of the entries of a table sums to what the table sums to.
pub proof fn lemma_listed_sum(entries: Seq<(AccountId, Balance)>, amounts: Map<AccountId, Balance>)
    requires
        amounts.dom().finite(),
        lists(entries, amounts),
    ensures
        listed_sum(entries) == sum_of(amounts),
    decreases entries.len(),
{
    if entries.len() == 0 {
        assert(amounts.dom() =~= Set::empty());
    } else {
        let last = entries.len() - 1;
        let account = entries[last].0;
        let rest = amounts.remove(account);
        assert(lists(entries.drop_last(), rest)) by {
            assert forall|key: AccountId| #[trigger] rest.contains_key(key) implies exists|i: int|
                0 <= i < entries.drop_last().len() && (#[trigger] entries.drop_last()[i]).0
                    == key by {
                let i = choose|i: int| 0 <= i < entries.len() && (#[trigger] entries[i]).0 == key;
                assert(entries.drop_last()[i].0 == key);
            }
            assert forall|i: int| 0 <= i < entries.drop_last().len() implies rest.contains_key(
                #[trigger] entries.drop_last()[i].0,
            ) && rest[entries.drop_last()[i].0] == entries.drop_last()[i].1 by {
                assert(entries[i].0 != entries[last].0);
            }
        }
        lemma_listed_sum(entries.drop_last(), rest);
        lemma_sum_of_remove(amounts, account);
    }
}

/// The first entries of a list sum to no more than the whole list.
pub proof fn lemma_listed_sum_of_prefix(entries: Seq<(AccountId, Balance)>, n: int)
    requires
        0 <= n <= entries.len(),
    ensures
        listed_sum(entries.take(n)) <= listed_sum(entries),
    decreases entries.len() - n,
{
    if n == entries.len() {
        assert(entries.take(n) =~= entries);
    } else {
        lemma_listed_sum_of_prefix(entries, n + 1);
        assert(entries.take(n + 1).drop_last() =~= entries.take(n));
    }
}

/// The sum of all amounts of `table`, or `None` where it exceeds the range of `Balance`.
pub fn checked_total(table: &Mapping<Balance>) -> (total: Option<Balance>)
    ensures
        total == (if sum_of(table@) <= Balance::MAX {
            Some(sum_of(table@) as Balance)
        } else {
            None
        }),
{
    let entries = table.entries();
    proof {
        table.lemma_finite();
        lemma_listed_sum(entries@, table@);
    }
    let mut total: Balance = 0;
    let mut i: usize = 0;
    while i < entries.len()
        invariant
            i <= entries@.len(),
            table@.dom().finite(),
            total == listed_sum(entries@.take(i as int)),
            listed_sum(entries@) == sum_of(table@),
        decreases entries@.len() - i,
    {
        proof {
            assert(entries@.take(i + 1).drop_last() =~= entries@.take(i as int));
            lemma_listed_sum_of_prefix(entries@, i + 1);
        }
        total = match total.checked_add(entries[i].1) {
            Some(total) => total,
            None => {
                return None;
            },
        };
        i += 1;
    }
    proof {
        assert(entries@.take(i as int) =~= entries@);
    }
    Some(total)
}

/// Whether no amount of `table` exceeds `bound`.
pub fn all_at_most(table: &Mapping<Balance>, bound: Balance) -> (holds: bool)
    ensures
        holds <==> forall|account: AccountId| #[trigger]
            table@.contains_key(account) ==> table@[account] <= bound,
{
    let entries = table.entries();
    let mut i: usize = 0;
    while i < entries.len()
        invariant
            i <= entries@.len(),
            lists(entries@, table@),
            forall|j: int| 0 <= j < i ==> (#[trigger] entries@[j]).1 <= bound,
        decreases entries@.len() - i,
    {
        if entries[i].1 > bound {
            proof {
                assert(table@.contains_key(entries@[i as int].0));
            }
            return false;
        }
        i += 1;
    }
    proof {
        assert forall|account: AccountId| #[trigger]
            table@.contains_key(account) implies table@[account] <= bound by {
            let j = choose|j: int| 0 <= j < entries@.len() && (#[trigger] entries@[j]).0 == account;
            assert(entries@[j].1 <= bound);
        }
    }
    true
}

/// The sum of `f` over a finite set of accounts.
pub open spec fn sum_over(accounts: Set<AccountId>, f: spec_fn(AccountId) -> int) -> int
    decreases accounts.len(),
    when accounts.finite()
{
    if accounts.len() == 0 {
        0
    } else {
        let account = accounts.choose();
        f(account) + sum_over(accounts.remove(account), f)
    }
}

/// The sum is the term of any one account plus the sum over the others.
pub proof fn lemma_sum_over_remove(
    accounts: Set<AccountId>,
    f: spec_fn(AccountId) -> int,
    account: AccountId,
)
    requires
        accounts.finite(),
        accounts.contains(account),
    ensures
        sum_over(accounts, f) == f(account) + sum_over(accounts.remove(account), f),
    decreases accounts.len(),
{
    let first = accounts.choose();
    assert(accounts.len() != 0) by {
        if accounts.len() == 0 {
            accounts.lemma_len0_is_empty();
        }
    }
    if first != account {
        lemma_sum_over_remove(accounts.remove(first), f, account);
        lemma_sum_over_remove(accounts.remove(account), f, first);
        assert(accounts.remove(first).remove(account) =~= accounts.remove(account).remove(first));
    }
}

/// Where every term of `f` is at most the term of `g` plus `factor` times the term of `h`,
/// the sums compare in the same way.
pub proof fn lemma_sum_over_bound(
    accounts: Set<AccountId>,
    f: spec_fn(AccountId) -> int,
    g: spec_fn(AccountId) -> int,
    h: spec_fn(AccountId) -> int,
    factor: int,
)
    requires
        accounts.finite(),
        forall|account: AccountId| #[trigger]
            accounts.contains(account) ==> f(account) <= g(account) + factor * h(account),
    ensures
        sum_over(accounts, f) <= sum_over(accounts, g) + factor * sum_over(accounts, h),
    decreases accounts.len(),
{
    if accounts.len() != 0 {
        let account = accounts.choose();
        let rest = accounts.remove(account);
        lemma_sum_over_bound(rest, f, g, h, factor);
        assert(accounts.contains(account));
        assert(factor * (h(account) + sum_over(rest, h)) == factor * h(account) + factor
            * sum_over(rest, h)) by (nonlinear_arith);
    }
}

/// Accounts whose term is zero add nothing to the sum.
pub proof fn lemma_sum_over_more(
    fewer: Set<AccountId>,
    more: Set<AccountId>,
    f: spec_fn(AccountId) -> int,
)
    requires
        more.finite(),
        fewer.subset_of(more),
        forall|account: AccountId|
            more.contains(account) && !fewer.contains(account) ==> #[trigger] f(account) == 0,
    ensures
        sum_over(more, f) == sum_over(fewer, f),
    decreases more.len(),
{
    vstd::set_lib::lemma_len_subset(fewer, more);
    if more.len() == 0 {
        more.lemma_len0_is_empty();
        assert(fewer =~= more);
    } else {
        let account = more.choose();
        lemma_sum_over_remove(more, f, account);
        if fewer.contains(account) {
            lemma_sum_over_remove(fewer, f, account);
        } else {
            assert(fewer.remove(account) =~= fewer);
        }
        lemma_sum_over_more(fewer.remove(account), more.remove(account), f);
    }
}

/// The amounts of a table, summed over any finite set of accounts that holds all accounts of
/// the table, come to the sum of the table.
pub proof fn lemma_sum_over_amounts(
    accounts: Set<AccountId>,
    amounts: Map<AccountId, Balance>,
    f: spec_fn(AccountId) -> int,
)
    requires
        accounts.finite(),
        amounts.dom().subset_of(accounts),
        forall|account: AccountId| #[trigger] f(account) == amount_of(amounts, account),
    ensures
        sum_over(accounts, f) == sum_of(amounts),
    decreases accounts.len(),
{
    vstd::set_lib::lemma_len_subset(amounts.dom(), accounts);
    if accounts.len() == 0 {
        accounts.lemma_len0_is_empty();
        assert(amounts.dom() =~= Set::empty());
    } else {
        let account = accounts.choose();
        let rest = amounts.remove(account);
        let g = |other: AccountId| amount_of(rest, other) as int;
        lemma_sum_over_amounts(accounts.remove(account), rest, g);
        lemma_sum_over_same(accounts.remove(account), f, g);
        if amounts.contains_key(account) {
            lemma_sum_of_remove(amounts, account);
        } else {
            assert(rest =~= amounts);
        }
    }
}

/// Two functions that agree on every account of a set have the same sum over it.
pub proof fn lemma_sum_over_same(
    accounts: Set<AccountId>,
    f: spec_fn(AccountId) -> int,
    g: spec_fn(AccountId) -> int,
)
    requires
        accounts.finite(),
        forall|account: AccountId| #[trigger] accounts.contains(account) ==> f(account) == g(account),
    ensures
        sum_over(accounts, f) == sum_over(accounts, g),
    decreases accounts.len(),
{
    if accounts.len() != 0 {
        let account = accounts.choose();
        lemma_sum_over_same(accounts.remove(account), f, g);
        assert(accounts.contains(account));
    }
}

/// A sum of terms that are not negative is not negative.
pub proof fn lemma_sum_over_not_negative(accounts: Set<AccountId>, f: spec_fn(AccountId) -> int)
    requires
        accounts.finite(),
        forall|account: AccountId| #[trigger] accounts.contains(account) ==> 0 <= f(account),
    ensures
        0 <= sum_over(accounts, f),
    decreases accounts.len(),
{
    if accounts.len() != 0 {
        let account = accounts.choose();
        lemma_sum_over_not_negative(accounts.remove(account), f);
        assert(accounts.contains(account));
    }
}

} // verus!
