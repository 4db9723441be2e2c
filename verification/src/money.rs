//! Payments in the SAF token (`usaf`, six decimals).

use crate::constants::{DENOM, USAF_PER_SAF};
use crate::error::{add_overflow, OverflowError, OverflowOperation, SharedError};
use crate::text::{decimal, decimal_text, join};
use vstd::prelude::*;

verus! {

/// An amount of some denomination.
#[derive(Debug, PartialEq)]
pub struct Coin<S = String> {
    pub denom: S,
    pub amount: u128,
}

/// A coin as specifications see it.
pub type CoinView = Coin<Seq<char>>;

impl View for Coin<String> {
    type V = Coin<Seq<char>>;

    open spec fn view(&self) -> Coin<Seq<char>> {
        Coin { denom: self.denom@, amount: self.amount }
    }
}

impl Coin<String> {
    /// A copy of this coin.
    pub fn copy(&self) -> (coin: Coin)
        ensures
            coin@ == self@,
    {
        Coin { denom: self.denom.clone(), amount: self.amount }
    }
}

/// Coins as specifications see them.
pub open spec fn coins_view(coins: Seq<Coin>) -> Seq<CoinView> {
    Seq::new(coins.len(), |i: int| coins[i]@)
}

/// A coin of `amount` usaf.
pub fn usaf(amount: u128) -> (coin: Coin)
    ensures
        coin@ == (Coin { denom: DENOM@, amount }),
{
    Coin { denom: DENOM.to_owned(), amount }
}

/// What whole SAF are worth in usaf, where that fits.
pub open spec fn usaf_of(whole_saf: nat) -> Result<nat, SharedError<Seq<char>>> {
    if whole_saf * USAF_PER_SAF > u128::MAX {
        Err(SharedError::Overflow(OverflowError { operation: OverflowOperation::Mul }))
    } else {
        Ok(whole_saf * USAF_PER_SAF as nat)
    }
}

/// One SAF is a million usaf; what does not fit is refused.
pub proof fn law_saf_is_a_million_usaf(whole_saf: nat)
    ensures
        usaf_of(whole_saf) is Ok <==> whole_saf * 1_000_000 <= u128::MAX,
        usaf_of(whole_saf) matches Ok(amount) ==> amount == whole_saf * 1_000_000,
        usaf_of(whole_saf) matches Err(e) ==> e == SharedError::<Seq<char>>::Overflow(
            OverflowError { operation: OverflowOperation::Mul },
        ),
{
}

/// Converts whole SAF into usaf.
pub fn saf_to_usaf(whole_saf: u128) -> (result: Result<u128, SharedError>)
    ensures
        match usaf_of(whole_saf as nat) {
            Ok(worth) => result matches Ok(amount) && amount == worth,
            Err(e) => result matches Err(error) && error@ == e,
        },
{
    match whole_saf.checked_mul(USAF_PER_SAF) {
        Some(amount) => Ok(amount),
        None => Err(SharedError::Overflow(OverflowError { operation: OverflowOperation::Mul })),
    }
}

/// The sum of the amounts of some coins.
pub open spec fn coin_sum(coins: Seq<CoinView>) -> nat
    decreases coins.len(),
{
    if coins.len() == 0 {
        0
    } else {
        coin_sum(coins.drop_last()) + coins.last().amount as nat
    }
}

/// What coins of one denomination are worth among some coins.
pub open spec fn amount_of(coins: Seq<CoinView>, denom: Seq<char>) -> nat
    decreases coins.len(),
{
    if coins.len() == 0 {
        0
    } else {
        amount_of(coins.drop_last(), denom) + if coins.last().denom == denom {
            coins.last().amount as nat
        } else {
            0
        }
    }
}

/// Whether all coins are of one denomination.
pub open spec fn all_of(coins: Seq<CoinView>, denom: Seq<char>) -> bool {
    forall|i: int| 0 <= i < coins.len() ==> (#[trigger] coins[i]).denom == denom
}

/// What a payment of `funds` amounts to when only `denom` is accepted, or why it is
/// refused.
pub open spec fn payment(funds: Seq<CoinView>, denom: Seq<char>) -> Result<
    nat,
    SharedError<Seq<char>>,
> {
    if funds.len() == 0 {
        Err(SharedError::NoFunds { expected: denom })
    } else if !all_of(funds, denom) {
        Err(SharedError::UnexpectedFunds { expected: denom })
    } else if coin_sum(funds) > u128::MAX {
        Err(SharedError::Overflow(add_overflow()))
    } else if coin_sum(funds) == 0 {
        Err(SharedError::ZeroAmount)
    } else {
        Ok(coin_sum(funds))
    }
}

proof fn lemma_sum_grows(coins: Seq<CoinView>, n: int)
    requires
        0 <= n <= coins.len(),
    ensures
        coin_sum(coins.take(n)) <= coin_sum(coins),
    decreases coins.len() - n,
{
    if n == coins.len() {
        assert(coins.take(n) =~= coins);
    } else {
        assert(coins.take(n + 1).drop_last() =~= coins.take(n));
        lemma_sum_grows(coins, n + 1);
    }
}

/// Coins of one denomination are worth the sum of their amounts in it.
pub proof fn lemma_all_of(coins: Seq<CoinView>, denom: Seq<char>)
    requires
        all_of(coins, denom),
    ensures
        amount_of(coins, denom) == coin_sum(coins),
    decreases coins.len(),
{
    if coins.len() > 0 {
        let rest = coins.drop_last();
        assert(coins[coins.len() - 1].denom == denom);
        assert forall|i: int| 0 <= i < rest.len() implies (#[trigger] rest[i]).denom == denom by {
            assert(rest[i] == coins[i]);
        }
        lemma_all_of(rest, denom);
    }
}

/// An accepted payment consists of the one denomination alone and is worth what its
/// coins are worth in it.
pub proof fn law_payment_counts_one_denom(funds: Seq<CoinView>, denom: Seq<char>)
    ensures
        payment(funds, denom) matches Ok(total) ==> total == amount_of(funds, denom) && 0 < total
            <= u128::MAX && all_of(funds, denom),
{
    if payment(funds, denom) is Ok {
        lemma_all_of(funds, denom);
    }
}

/// A payment in the one denomination alone, worth something that fits, is accepted.
pub proof fn law_payment_in_denom_accepted(funds: Seq<CoinView>, denom: Seq<char>)
    requires
        all_of(funds, denom),
        0 < amount_of(funds, denom) <= u128::MAX,
    ensures
        payment(funds, denom) == Ok::<nat, SharedError<Seq<char>>>(amount_of(funds, denom)),
{
    lemma_all_of(funds, denom);
}

/// Adds up the coins of a payment, accepting one denomination alone.
pub fn must_pay_only(funds: &[Coin], denom: &String) -> (result: Result<u128, SharedError>)
    ensures
        match payment(coins_view(funds@), denom@) {
            Ok(total) => result matches Ok(paid) && paid == total,
            Err(e) => result matches Err(error) && error@ == e,
        },
{
    let ghost coins = coins_view(funds@);
    if funds.len() == 0 {
        return Err(SharedError::NoFunds { expected: denom.clone() });
    }
    let mut i: usize = 0;
    while i < funds.len()
        invariant
            i <= funds.len(),
            funds.len() > 0,
            coins == coins_view(funds@),
            forall|j: int| 0 <= j < i ==> (#[trigger] coins[j]).denom == denom@,
        decreases funds.len() - i,
    {
        if funds[i].denom != *denom {
            assert(coins[i as int].denom != denom@);
            return Err(SharedError::UnexpectedFunds { expected: denom.clone() });
        }
        i = i + 1;
    }
    assert(all_of(coins, denom@));
    let mut total: u128 = 0;
    let mut j: usize = 0;
    assert(coins.take(0) =~= Seq::<CoinView>::empty());
    while j < funds.len()
        invariant
            j <= funds.len(),
            funds.len() > 0,
            coins == coins_view(funds@),
            all_of(coins, denom@),
            total == coin_sum(coins.take(j as int)),
        decreases funds.len() - j,
    {
        proof {
            assert(coins.take(j + 1).drop_last() =~= coins.take(j as int));
            assert(coins.take(j + 1).last() == funds@[j as int]@);
            lemma_sum_grows(coins, j + 1);
        }
        match total.checked_add(funds[j].amount) {
            Some(sum) => {
                total = sum;
            },
            None => return Err(
                SharedError::Overflow(OverflowError { operation: OverflowOperation::Add }),
            ),
        }
        j = j + 1;
    }
    assert(coins.take(j as int) =~= coins);
    if total == 0 {
        return Err(SharedError::ZeroAmount);
    }
    Ok(total)
}

/// Adds up the coins of a payment, accepting usaf alone.
pub fn must_pay_usaf_only(funds: &[Coin]) -> (result: Result<u128, SharedError>)
    ensures
        match payment(coins_view(funds@), DENOM@) {
            Ok(total) => result matches Ok(paid) && paid == total,
            Err(e) => result matches Err(error) && error@ == e,
        },
{
    must_pay_only(funds, &DENOM.to_owned())
}

/// Why a payment that should be worth exactly `expected` is refused.
pub open spec fn exact_payment_refusal(
    funds: Seq<CoinView>,
    denom: Seq<char>,
    expected: nat,
) -> Option<SharedError<Seq<char>>> {
    match payment(funds, denom) {
        Err(e) => Some(e),
        Ok(paid) => if paid != expected {
            Some(
                SharedError::IncorrectPayment {
                    expected: decimal(expected),
                    actual: decimal(paid),
                },
            )
        } else {
            None
        },
    }
}

/// Accepts a payment of exactly `expected` in one denomination and nothing else.
pub fn assert_exact_payment(funds: &[Coin], denom: &String, expected: u128) -> (result: Result<
    (),
    SharedError,
>)
    ensures
        match exact_payment_refusal(coins_view(funds@), denom@, expected as nat) {
            Some(e) => result matches Err(error) && error@ == e,
            None => result is Ok,
        },
{
    match must_pay_only(funds, denom) {
        Err(e) => Err(e),
        Ok(paid) => if paid != expected {
            Err(
                SharedError::IncorrectPayment {
                    expected: decimal_text(expected),
                    actual: decimal_text(paid),
                },
            )
        } else {
            Ok(())
        },
    }
}

/// Accepts a payment of exactly `expected` usaf and nothing else.
pub fn assert_exact_usaf(funds: &[Coin], expected: u128) -> (result: Result<(), SharedError>)
    ensures
        match exact_payment_refusal(coins_view(funds@), DENOM@, expected as nat) {
            Some(e) => result matches Err(error) && error@ == e,
            None => result is Ok,
        },
{
    assert_exact_payment(funds, &DENOM.to_owned(), expected)
}

/// What a payment amounts to that should be worth at least `min`, or why it is refused.
pub open spec fn payment_of_at_least(
    funds: Seq<CoinView>,
    denom: Seq<char>,
    min: nat,
) -> Result<nat, SharedError<Seq<char>>> {
    match payment(funds, denom) {
        Err(e) => Err(e),
        Ok(paid) => if paid < min {
            Err(
                SharedError::IncorrectPayment {
                    expected: ">= "@ + decimal(min),
                    actual: decimal(paid),
                },
            )
        } else {
            Ok(paid)
        },
    }
}

/// A payment that is worth the minimum or more is accepted as what it is worth; a
/// smaller one is refused with both amounts, and one that is no payment at all for
/// that reason.
pub proof fn law_minimum_is_enough(funds: Seq<CoinView>, denom: Seq<char>, min: nat)
    ensures
        match payment(funds, denom) {
            Ok(paid) => payment_of_at_least(funds, denom, min) == if paid >= min {
                Ok::<nat, SharedError<Seq<char>>>(paid)
            } else {
                Err(
                    SharedError::IncorrectPayment {
                        expected: ">= "@ + decimal(min),
                        actual: decimal(paid),
                    },
                )
            },
            Err(e) => payment_of_at_least(funds, denom, min) == Err::<
                nat,
                SharedError<Seq<char>>,
            >(e),
        },
{
}

/// Accepts a payment of at least `min` usaf and nothing else, and says what was
/// paid.
pub fn assert_min_usaf(funds: &[Coin], min: u128) -> (result: Result<u128, SharedError>)
    ensures
        match payment_of_at_least(coins_view(funds@), DENOM@, min as nat) {
            Err(e) => result matches Err(error) && error@ == e,
            Ok(paid) => result matches Ok(amount) && amount == paid,
        },
{
    match must_pay_usaf_only(funds) {
        Err(e) => Err(e),
        Ok(paid) => if paid < min {
            Err(
                SharedError::IncorrectPayment {
                    expected: join(">= ", decimal_text(min).as_str()),
                    actual: decimal_text(paid),
                },
            )
        } else {
            Ok(paid)
        },
    }
}

/// What a payment in one denomination amounts to, and why it is refused otherwise: no
/// coins, a coin of another denomination, a sum that does not fit, or nothing.
pub proof fn law_payment_is_the_sum(funds: Seq<CoinView>, denom: Seq<char>)
    ensures
        ({
            let sum = funds.fold_left(0nat, |total: nat, c: CoinView| total + c.amount as nat);
            payment(funds, denom) == if funds.len() == 0 {
                Err::<nat, SharedError<Seq<char>>>(SharedError::NoFunds { expected: denom })
            } else if exists|i: int|
                0 <= i < funds.len() && (#[trigger] funds[i]).denom != denom {
                Err(SharedError::UnexpectedFunds { expected: denom })
            } else if sum > u128::MAX {
                Err(
                    SharedError::Overflow(OverflowError { operation: OverflowOperation::Add }),
                )
            } else if sum == 0 {
                Err(SharedError::ZeroAmount)
            } else {
                Ok(sum)
            }
        }),
{
    lemma_sum_by_folding(funds);
}

proof fn lemma_sum_by_folding(coins: Seq<CoinView>)
    ensures
        coin_sum(coins) == coins.fold_left(
            0nat,
            |total: nat, c: CoinView| total + c.amount as nat,
        ),
    decreases coins.len(),
{
    if coins.len() > 0 {
        lemma_sum_by_folding(coins.drop_last());
    }
}

} // verus!
