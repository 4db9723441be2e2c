//! Lottery numbers: the picks of a ticket and the winning numbers of a draw.

use crate::error::{ContractError, ErrorView};
use crate::host::Env;
use crate::text::{be_bytes, be_bytes_of, decimal, decimal_text, join, join3};
use vstd::prelude::*;
use vstd::relations::{sorted_by, total_ordering};
use vstd::seq_lib::{lemma_sorted_unique, to_multiset_build, to_multiset_insert};
use vstd::set_lib::{lemma_int_range, lemma_len_subset, set_int_range};
use vstd::string::*;
use vstd::utf8::encode_utf8;

verus! {

// --- Ascending order ---------------------------------------------------------

/// The order of numbers.
pub open spec fn at_most() -> spec_fn(u8, u8) -> bool {
    |a: u8, b: u8| a <= b
}

/// The same numbers in ascending order.
pub open spec fn ascending(numbers: Seq<u8>) -> Seq<u8> {
    numbers.sort_by(at_most())
}

proof fn lemma_ascending_unique(numbers: Seq<u8>, sorted: Seq<u8>)
    requires
        sorted_by(sorted, at_most()),
        sorted.to_multiset() == numbers.to_multiset(),
    ensures
        sorted == ascending(numbers),
{
    assert(total_ordering(at_most()));
    numbers.lemma_sort_by_ensures(at_most());
    lemma_sorted_unique(sorted, ascending(numbers), at_most());
}

/// Ordering keeps the count, the members and the absence of duplicates.
pub proof fn lemma_ascending(numbers: Seq<u8>)
    ensures
        ascending(numbers).len() == numbers.len(),
        forall|i: int, j: int|
            0 <= i < j < numbers.len() ==> ascending(numbers)[i] <= ascending(numbers)[j],
        forall|v: u8| ascending(numbers).contains(v) <==> numbers.contains(v),
        ascending(numbers).no_duplicates() <==> numbers.no_duplicates(),
{
    let sorted = ascending(numbers);
    assert(total_ordering(at_most()));
    numbers.lemma_sort_by_ensures(at_most());
    numbers.to_multiset_ensures();
    sorted.to_multiset_ensures();
    assert(numbers.to_multiset().len() == sorted.to_multiset().len());
    assert forall|i: int, j: int| 0 <= i < j < numbers.len() implies sorted[i] <= sorted[j] by {
        assert(at_most()(sorted[i], sorted[j]));
    }
    assert forall|v: u8| sorted.contains(v) <==> numbers.contains(v) by {
        assert(sorted.to_multiset().count(v) == numbers.to_multiset().count(v));
    }
    assert(sorted.to_set() =~= numbers.to_set());
    if numbers.no_duplicates() {
        numbers.unique_seq_to_set();
        sorted.lemma_no_dup_set_cardinality();
    }
    if sorted.no_duplicates() {
        sorted.unique_seq_to_set();
        numbers.lemma_no_dup_set_cardinality();
    }
}

/// The same numbers in ascending order.
pub fn ascending_copy(numbers: &[u8]) -> (sorted: Vec<u8>)
    ensures
        sorted@ == ascending(numbers@),
{
    let mut sorted: Vec<u8> = Vec::new();
    let mut i: usize = 0;
    proof {
        assert(numbers@.take(0) =~= Seq::<u8>::empty());
        assert(sorted@ =~= Seq::<u8>::empty());
    }
    while i < numbers.len()
        invariant
            i <= numbers.len(),
            sorted@.len() == i,
            sorted_by(sorted@, at_most()),
            sorted@.to_multiset() == numbers@.take(i as int).to_multiset(),
        decreases numbers.len() - i,
    {
        let v = numbers[i];
        let mut at: usize = 0;
        while at < sorted.len() && sorted[at] <= v
            invariant
                at <= sorted@.len(),
                forall|j: int| 0 <= j < at ==> sorted@[j] <= v,
            decreases sorted.len() - at,
        {
            at = at + 1;
        }
        let ghost before = sorted@;
        sorted.insert(at, v);
        proof {
            to_multiset_insert(before, at as int, v);
            to_multiset_build(numbers@.take(i as int), v);
            assert(numbers@.take(i + 1) =~= numbers@.take(i as int).push(v));
            assert forall|a: int, b: int| 0 <= a < b < sorted@.len() implies #[trigger] at_most()(
                sorted@[a],
                sorted@[b],
            ) by {
                let pa = if a < at {
                    a
                } else {
                    a - 1
                };
                let pb = if b < at {
                    b
                } else {
                    b - 1
                };
                if at < before.len() {
                    assert(v < before[at as int]);
                }
                if a != at && b != at {
                    assert(at_most()(before[pa], before[pb]));
                } else if a == at {
                    if at < pb {
                        assert(at_most()(before[at as int], before[pb]));
                    }
                }
            }
        }
        i = i + 1;
    }
    proof {
        assert(numbers@.take(i as int) =~= numbers@);
        lemma_ascending_unique(numbers@, sorted@);
    }
    sorted
}

// --- Membership --------------------------------------------------------------

/// Whether a number is among others.
pub fn has_number(numbers: &[u8], number: u8) -> (yes: bool)
    ensures
        yes == numbers@.contains(number),
{
    let mut i: usize = 0;
    while i < numbers.len()
        invariant
            i <= numbers.len(),
            forall|j: int| 0 <= j < i ==> numbers@[j] != number,
        decreases numbers.len() - i,
    {
        if numbers[i] == number {
            assert(numbers@[i as int] == number);
            return true;
        }
        i = i + 1;
    }
    false
}

/// How many of the picks are winning numbers.
pub open spec fn hits(picks: Seq<u8>, winning: Seq<u8>) -> nat
    decreases picks.len(),
{
    if picks.len() == 0 {
        0
    } else {
        hits(picks.drop_last(), winning) + if winning.contains(picks.last()) {
            1nat
        } else {
            0nat
        }
    }
}

/// The match count that a ticket records: the hits, in eight bits.
pub open spec fn matches_of(picks: Seq<u8>, winning: Seq<u8>) -> u8 {
    (hits(picks, winning) % 256) as u8
}

/// Counts the picks that are winning numbers.
pub fn count_matches(picks: &[u8], winning: &[u8]) -> (count: u8)
    ensures
        count == matches_of(picks@, winning@),
        picks@.len() < 256 ==> count == hits(picks@, winning@),
{
    let mut count: u8 = 0;
    let mut i: usize = 0;
    proof {
        lemma_hits_bounded(picks@, winning@);
    }
    while i < picks.len()
        invariant
            i <= picks.len(),
            count == hits(picks@.take(i as int), winning@) % 256,
        decreases picks.len() - i,
    {
        assert(picks@.take(i + 1).drop_last() =~= picks@.take(i as int));
        if has_number(winning, picks[i]) {
            count = if count == 255 {
                0
            } else {
                count + 1
            };
        }
        i = i + 1;
    }
    assert(picks@.take(i as int) =~= picks@);
    count
}

pub proof fn lemma_hits_bounded(picks: Seq<u8>, winning: Seq<u8>)
    ensures
        hits(picks, winning) <= picks.len(),
    decreases picks.len(),
{
    if picks.len() > 0 {
        lemma_hits_bounded(picks.drop_last(), winning);
    }
}

// --- Picks that a buyer supplies ---------------------------------------------

/// Why a number domain is refused.
pub open spec fn domain_refusal(numbers_per_ticket: u8, number_max: u8) -> Option<ErrorView> {
    if numbers_per_ticket == 0 {
        Some(ContractError::InvalidConfig { reason: "numbers_per_ticket must be > 0"@ })
    } else if number_max < numbers_per_ticket {
        Some(ContractError::InvalidConfig { reason: "number_max must be >= numbers_per_ticket"@ })
    } else {
        None
    }
}

/// Checks that tickets can carry that many distinct numbers.
pub fn validate_number_domain(numbers_per_ticket: u8, number_max: u8) -> (result: Result<
    (),
    ContractError,
>)
    ensures
        match domain_refusal(numbers_per_ticket, number_max) {
            Some(e) => result matches Err(error) && error@ == e,
            None => result is Ok,
        },
{
    if numbers_per_ticket == 0 {
        return Err(ContractError::invalid_config("numbers_per_ticket must be > 0"));
    }
    if number_max == 0 || number_max < numbers_per_ticket {
        return Err(ContractError::invalid_config("number_max must be >= numbers_per_ticket"));
    }
    Ok(())
}

/// The first number that equals its successor, from place `i` on.
pub open spec fn first_repeat(sorted: Seq<u8>, i: int) -> Option<u8>
    decreases sorted.len() - i,
{
    if i < 0 || i + 1 >= sorted.len() {
        None
    } else if sorted[i] == sorted[i + 1] {
        Some(sorted[i])
    } else {
        first_repeat(sorted, i + 1)
    }
}

/// Why the picks of a buyer are refused: of the checks in order, the first that
/// fails.
pub open spec fn picks_refusal(
    numbers: Seq<u8>,
    numbers_per_ticket: u8,
    number_max: u8,
) -> Option<ErrorView> {
    let sorted = ascending(numbers);
    let refused = |reason: Seq<char>|
        Some(
            ContractError::InvalidNumbers { expected: numbers_per_ticket, number_max, reason },
        );
    match domain_refusal(numbers_per_ticket, number_max) {
        Some(e) => Some(e),
        None => if sorted.len() != numbers_per_ticket {
            refused("count "@ + decimal(sorted.len()))
        } else if first_repeat(sorted, 0) is Some {
            refused("duplicate "@ + decimal(first_repeat(sorted, 0)->0 as nat))
        } else if sorted.first() < 1 {
            refused("value < 1"@)
        } else if sorted.last() > number_max {
            refused(
                "value "@ + decimal(sorted.last() as nat) + (" > "@ + decimal(number_max as nat)),
            )
        } else {
            None
        },
    }
}

/// Picks that a ticket can carry: the right count of distinct numbers of the
/// domain.
pub open spec fn valid_picks(picks: Seq<u8>, numbers_per_ticket: u8, number_max: u8) -> bool {
    &&& picks.len() == numbers_per_ticket
    &&& picks.no_duplicates()
    &&& forall|i: int| 0 <= i < picks.len() ==> 1 <= #[trigger] picks[i] <= number_max
}

proof fn lemma_first_repeat(sorted: Seq<u8>, i: int)
    requires
        0 <= i,
        forall|a: int, b: int| 0 <= a < b < sorted.len() ==> sorted[a] <= sorted[b],
    ensures
        first_repeat(sorted, i) is None <==> forall|a: int, b: int|
            i <= a < b < sorted.len() ==> sorted[a] < sorted[b],
    decreases sorted.len() - i,
{
    if i + 1 < sorted.len() {
        lemma_first_repeat(sorted, i + 1);
        if sorted[i] == sorted[i + 1] {
            assert(!(sorted[i] < sorted[i + 1]));
        } else {
            assert(sorted[i] < sorted[i + 1]);
            assert forall|a: int, b: int|
                i <= a < b < sorted.len() && first_repeat(sorted, i + 1) is None implies sorted[a]
                < sorted[b] by {
                if a == i && b > i + 1 {
                    assert(sorted[i + 1] < sorted[b]);
                }
            }
        }
    }
}

/// Picks are accepted exactly when they are valid: the count is right, they are
/// distinct, and they lie in the domain.
pub proof fn law_accepted_picks_are_valid(numbers: Seq<u8>, numbers_per_ticket: u8, number_max: u8)
    requires
        1 <= numbers_per_ticket <= number_max,
    ensures
        picks_refusal(numbers, numbers_per_ticket, number_max) is None <==> valid_picks(
            numbers,
            numbers_per_ticket,
            number_max,
        ),
        valid_picks(numbers, numbers_per_ticket, number_max) ==> valid_picks(
            ascending(numbers),
            numbers_per_ticket,
            number_max,
        ),
{
    let sorted = ascending(numbers);
    lemma_ascending(numbers);
    lemma_first_repeat(sorted, 0);
    if picks_refusal(numbers, numbers_per_ticket, number_max) is None {
        assert forall|i: int, j: int|
            0 <= i < sorted.len() && 0 <= j < sorted.len() && i != j implies sorted[i]
            != sorted[j] by {
            if i < j {
                assert(sorted[i] < sorted[j]);
            } else {
                assert(sorted[j] < sorted[i]);
            }
        }
        assert forall|i: int| 0 <= i < numbers.len() implies 1 <= #[trigger] numbers[i]
            <= number_max by {
            assert(numbers.contains(numbers[i]));
            assert(sorted.contains(numbers[i]));
            let k = choose|k: int| 0 <= k < sorted.len() && sorted[k] == numbers[i];
            if k > 0 {
                assert(sorted[0] <= sorted[k]);
            }
            if k < sorted.len() - 1 {
                assert(sorted[k] <= sorted[sorted.len() - 1]);
            }
        }
    }
    if valid_picks(numbers, numbers_per_ticket, number_max) {
        assert forall|i: int| 0 <= i < sorted.len() implies 1 <= #[trigger] sorted[i]
            <= number_max by {
            assert(sorted.contains(sorted[i]));
            assert(numbers.contains(sorted[i]));
            let k = choose|k: int| 0 <= k < numbers.len() && numbers[k] == sorted[i];
            assert(1 <= numbers[k] <= number_max);
        }
        assert forall|a: int, b: int| 0 <= a < b < sorted.len() implies sorted[a] < sorted[b] by {
            assert(sorted[a] != sorted[b]);
        }
    }
}

/// Checks the picks of a buyer and puts them in ascending order.
pub fn validate_ticket_numbers(
    numbers: &[u8],
    numbers_per_ticket: u8,
    number_max: u8,
) -> (result: Result<Vec<u8>, ContractError>)
    ensures
        match picks_refusal(numbers@, numbers_per_ticket, number_max) {
            Some(e) => result matches Err(error) && error@ == e,
            None => result matches Ok(picks) && picks@ == ascending(numbers@),
        },
{
    match validate_number_domain(numbers_per_ticket, number_max) {
        Ok(()) => {},
        Err(e) => return Err(e),
    }
    let sorted = ascending_copy(numbers);
    if sorted.len() != numbers_per_ticket as usize {
        let reason = join("count ", decimal_text(sorted.len() as u128).as_str());
        return Err(
            ContractError::InvalidNumbers { expected: numbers_per_ticket, number_max, reason },
        );
    }
    let mut i: usize = 0;
    while i + 1 < sorted.len()
        invariant
            sorted@ == ascending(numbers@),
            sorted@.len() == numbers_per_ticket,
            i < sorted@.len(),
            domain_refusal(numbers_per_ticket, number_max) is None,
            first_repeat(sorted@, 0) == first_repeat(sorted@, i as int),
        decreases sorted.len() - i,
    {
        if sorted[i] == sorted[i + 1] {
            let reason = join("duplicate ", decimal_text(sorted[i] as u128).as_str());
            return Err(
                ContractError::InvalidNumbers { expected: numbers_per_ticket, number_max, reason },
            );
        }
        i = i + 1;
    }
    if sorted[0] < 1 {
        return Err(
            ContractError::InvalidNumbers {
                expected: numbers_per_ticket,
                number_max,
                reason: "value < 1".to_owned(),
            },
        );
    }
    let last: u8 = sorted[sorted.len() - 1];
    if last > number_max {
        let bound = join(" > ", decimal_text(number_max as u128).as_str());
        let reason = join3("value ", decimal_text(last as u128).as_str(), bound.as_str());
        return Err(
            ContractError::InvalidNumbers { expected: numbers_per_ticket, number_max, reason },
        );
    }
    Ok(sorted)
}

// --- Numbers from a seed -----------------------------------------------------

/// Start of the byte mixer (FNV-1a).
pub const MIX_START: u64 = 0xcbf29ce484222325;

/// Multiplier of the byte mixer.
pub const MIX_FACTOR: u64 = 0x100000001b3;

/// Seed in place of zero, which the number stream could not leave.
pub const NONZERO_SEED: u64 = 0x9e3779b97f4a7c15;

/// Multiplier of the number stream (xorshift64*).
pub const STREAM_FACTOR: u64 = 0x2545F4914F6CDD1D;

/// The mixer's state after some bytes.
pub open spec fn mixed(start: u64, bytes: Seq<u8>) -> u64
    decreases bytes.len(),
{
    if bytes.len() == 0 {
        start
    } else {
        (mixed(start, bytes.drop_last()) ^ (bytes.last() as u64)).wrapping_mul(MIX_FACTOR)
    }
}

fn mix(start: u64, bytes: &[u8]) -> (state: u64)
    ensures
        state == mixed(start, bytes@),
{
    let mut state: u64 = start;
    let mut i: usize = 0;
    while i < bytes.len()
        invariant
            i <= bytes.len(),
            state == mixed(start, bytes@.take(i as int)),
        decreases bytes.len() - i,
    {
        state = (state ^ (bytes[i] as u64)).wrapping_mul(MIX_FACTOR);
        assert(bytes@.take(i + 1).drop_last() =~= bytes@.take(i as int));
        i = i + 1;
    }
    assert(bytes@.take(i as int) =~= bytes@);
    state
}

/// One step of the number stream's state.
pub open spec fn step(state: u64) -> u64 {
    let a = state ^ (state >> 12);
    let b = a ^ (a << 25);
    b ^ (b >> 27)
}

/// The number of `1..=number_max` that a state of the stream stands for.
pub open spec fn number_at(state: u64, number_max: u8) -> u8 {
    (state.wrapping_mul(STREAM_FACTOR) % (number_max as u64) + 1) as u8
}

/// The numbers taken from the stream, repetitions skipped, until there are
/// `count` of them or `tries` numbers have been looked at.
pub open spec fn streamed(
    state: u64,
    chosen: Seq<u8>,
    count: u8,
    number_max: u8,
    tries: nat,
) -> Seq<u8>
    decreases tries,
{
    if chosen.len() >= count || tries == 0 {
        chosen
    } else {
        let next = step(state);
        let v = number_at(next, number_max);
        let more = if chosen.contains(v) {
            chosen
        } else {
            chosen.push(v)
        };
        streamed(next, more, count, number_max, (tries - 1) as nat)
    }
}

/// Numbers filled up with the smallest unused ones, from `n` on.
pub open spec fn filled(chosen: Seq<u8>, count: u8, n: nat, number_max: u8) -> Seq<u8>
    decreases number_max + 1 - n,
{
    if chosen.len() >= count || n > number_max {
        chosen
    } else {
        let more = if chosen.contains(n as u8) {
            chosen
        } else {
            chosen.push(n as u8)
        };
        filled(more, count, n + 1, number_max)
    }
}

/// How many numbers of the stream are looked at.
pub open spec fn stream_tries(count: u8) -> nat {
    if count * 64 > 1024 {
        (count * 64) as nat
    } else {
        1024
    }
}

/// The distinct numbers that a seed stands for, in ascending order.
pub open spec fn picked(seed: u64, count: u8, number_max: u8) -> Seq<u8> {
    let start = if seed == 0 {
        NONZERO_SEED
    } else {
        seed
    };
    let chosen = streamed(start, Seq::empty(), count, number_max, stream_tries(count));
    ascending(filled(chosen, count, 1, number_max))
}

proof fn lemma_streamed(state: u64, chosen: Seq<u8>, count: u8, number_max: u8, tries: nat)
    requires
        number_max > 0,
        chosen.len() <= count,
        chosen.no_duplicates(),
        forall|i: int| 0 <= i < chosen.len() ==> 1 <= #[trigger] chosen[i] <= number_max,
    ensures
        ({
            let s = streamed(state, chosen, count, number_max, tries);
            &&& s.len() <= count
            &&& s.no_duplicates()
            &&& forall|i: int| 0 <= i < s.len() ==> 1 <= #[trigger] s[i] <= number_max
        }),
    decreases tries,
{
    if chosen.len() < count && tries > 0 {
        let next = step(state);
        let v = number_at(next, number_max);
        let more = if chosen.contains(v) {
            chosen
        } else {
            chosen.push(v)
        };
        lemma_streamed(next, more, count, number_max, (tries - 1) as nat);
    }
}

proof fn lemma_filled(chosen: Seq<u8>, count: u8, n: nat, number_max: u8)
    requires
        number_max > 0,
        1 <= n <= number_max + 1,
        chosen.len() <= count,
        chosen.no_duplicates(),
        forall|i: int| 0 <= i < chosen.len() ==> 1 <= #[trigger] chosen[i] <= number_max,
        forall|v: u8| 1 <= v < n ==> chosen.contains(v),
    ensures
        ({
            let s = filled(chosen, count, n, number_max);
            &&& s.len() == if count <= number_max {
                count
            } else {
                number_max
            }
            &&& s.no_duplicates()
            &&& forall|i: int| 0 <= i < s.len() ==> 1 <= #[trigger] s[i] <= number_max
        }),
    decreases number_max + 1 - n,
{
    lemma_distinct_count(chosen, number_max);
    if chosen.len() < count && n <= number_max {
        let more = if chosen.contains(n as u8) {
            chosen
        } else {
            chosen.push(n as u8)
        };
        assert forall|v: u8| 1 <= v < n + 1 implies more.contains(v) by {
            if v < n {
                assert(chosen.contains(v));
                let k = choose|k: int| 0 <= k < chosen.len() && chosen[k] == v;
                assert(more[k] == v);
            } else if !chosen.contains(n as u8) {
                assert(more[chosen.len() as int] == v);
            }
        }
        lemma_filled(more, count, n + 1, number_max);
    } else if n == number_max + 1 {
        lemma_all_numbers_count(chosen, number_max);
    }
}

proof fn lemma_distinct_count(chosen: Seq<u8>, number_max: u8)
    requires
        chosen.no_duplicates(),
        forall|i: int| 0 <= i < chosen.len() ==> 1 <= #[trigger] chosen[i] <= number_max,
    ensures
        chosen.len() <= number_max,
{
    let wide = Seq::new(chosen.len(), |i: int| chosen[i] as int);
    wide.unique_seq_to_set();
    lemma_int_range(1, number_max + 1);
    assert(wide.to_set().subset_of(set_int_range(1, number_max + 1)));
    lemma_len_subset(wide.to_set(), set_int_range(1, number_max + 1));
}

proof fn lemma_all_numbers_count(chosen: Seq<u8>, number_max: u8)
    requires
        chosen.no_duplicates(),
        forall|v: u8| 1 <= v <= number_max ==> chosen.contains(v),
    ensures
        chosen.len() >= number_max,
{
    let wide = Seq::new(chosen.len(), |i: int| chosen[i] as int);
    wide.unique_seq_to_set();
    lemma_int_range(1, number_max + 1);
    assert forall|v: int| set_int_range(1, number_max + 1).contains(v) implies wide.to_set().contains(
        v,
    ) by {
        assert(chosen.contains(v as u8));
        let k = choose|k: int| 0 <= k < chosen.len() && chosen[k] == v as u8;
        assert(wide[k] == v);
    }
    vstd::seq_lib::seq_to_set_is_finite(wide);
    lemma_len_subset(set_int_range(1, number_max + 1), wide.to_set());
}

/// Numbers from a seed are as many as asked for, distinct, of the domain and in
/// ascending order.
pub proof fn law_picked_numbers_are_valid(seed: u64, count: u8, number_max: u8)
    requires
        1 <= count <= number_max,
    ensures
        valid_picks(picked(seed, count, number_max), count, number_max),
        forall|i: int, j: int|
            0 <= i < j < count ==> picked(seed, count, number_max)[i] < picked(
                seed,
                count,
                number_max,
            )[j],
{
    let start = if seed == 0 {
        NONZERO_SEED
    } else {
        seed
    };
    let chosen = streamed(start, Seq::empty(), count, number_max, stream_tries(count));
    lemma_streamed(start, Seq::empty(), count, number_max, stream_tries(count));
    lemma_filled(chosen, count, 1, number_max);
    let all = filled(chosen, count, 1, number_max);
    lemma_ascending(all);
    let sorted = ascending(all);
    assert forall|i: int| 0 <= i < sorted.len() implies 1 <= #[trigger] sorted[i]
        <= number_max by {
        assert(sorted.contains(sorted[i]));
        assert(all.contains(sorted[i]));
        let k = choose|k: int| 0 <= k < all.len() && all[k] == sorted[i];
        assert(1 <= all[k] <= number_max);
    }
    assert forall|i: int, j: int| 0 <= i < j < count implies sorted[i] < sorted[j] by {
        assert(sorted[i] != sorted[j]);
    }
}

/// Picks `count` distinct numbers of `1..=number_max` from a seed, in ascending
/// order.
pub fn pick_distinct(seed: u64, count: u8, number_max: u8) -> (numbers: Vec<u8>)
    requires
        number_max > 0 || count == 0,
    ensures
        numbers@ == picked(seed, count, number_max),
{
    let start: u64 = if seed == 0 {
        NONZERO_SEED
    } else {
        seed
    };
    let mut state: u64 = start;
    let mut chosen: Vec<u8> = Vec::new();
    let tries: u64 = if count as u64 * 64 > 1024 {
        count as u64 * 64
    } else {
        1024
    };
    let mut tried: u64 = 0;
    let ghost whole = streamed(start, Seq::empty(), count, number_max, tries as nat);
    assert(chosen@ =~= Seq::<u8>::empty());
    while chosen.len() < count as usize && tried < tries
        invariant
            number_max > 0 || count == 0,
            tried <= tries,
            chosen@.len() <= count,
            whole == streamed(state, chosen@, count, number_max, (tries - tried) as nat),
        decreases tries - tried,
    {
        tried = tried + 1;
        state = state ^ (state >> 12);
        state = state ^ (state << 25);
        state = state ^ (state >> 27);
        let v: u8 = (state.wrapping_mul(STREAM_FACTOR) % (number_max as u64) + 1) as u8;
        if !has_number(chosen.as_slice(), v) {
            chosen.push(v);
        }
    }
    assert(chosen@ == whole);
    let mut n: u16 = 1;
    let ghost all = filled(whole, count, 1, number_max);
    while chosen.len() < count as usize && n <= number_max as u16
        invariant
            1 <= n <= number_max + 1,
            all == filled(chosen@, count, n as nat, number_max),
        decreases number_max + 1 - n,
    {
        if !has_number(chosen.as_slice(), n as u8) {
            chosen.push(n as u8);
        }
        n = n + 1;
    }
    ascending_copy(chosen.as_slice())
}

/// The winning numbers that verified randomness stands for.
pub open spec fn winning_numbers(randomness: Seq<u8>, count: u8, number_max: u8) -> Seq<u8> {
    picked(mixed(MIX_START, randomness), count, number_max)
}

/// Derives the winning numbers from verified randomness.
pub fn derive_winning_numbers(randomness: &[u8], count: u8, number_max: u8) -> (numbers: Vec<u8>)
    requires
        number_max > 0 || count == 0,
    ensures
        numbers@ == winning_numbers(randomness@, count, number_max),
{
    let seed = mix(MIX_START, randomness);
    pick_distinct(seed, count, number_max)
}

/// The numbers of a ticket whose buyer left the choice to the contract. They
/// depend on the buyer, the ticket and the block; they have no part in the draw.
pub open spec fn quick_picked(
    env: Env,
    sender: Seq<char>,
    round_id: u64,
    seq: u64,
    count: u8,
    number_max: u8,
) -> Seq<u8> {
    let a = mixed(MIX_START, encode_utf8(sender));
    let b = mixed(a, be_bytes(round_id));
    let c = mixed(b, be_bytes(seq));
    let d = mixed(c, be_bytes(env.height));
    picked(mixed(d, be_bytes(env.time_nanos)), count, number_max)
}

/// Chooses the numbers of a ticket for its buyer.
pub fn quick_pick(
    env: &Env,
    sender: &str,
    round_id: u64,
    seq: u64,
    count: u8,
    number_max: u8,
) -> (numbers: Vec<u8>)
    requires
        number_max > 0 || count == 0,
    ensures
        numbers@ == quick_picked(*env, sender@, round_id, seq, count, number_max),
{
    let a = mix(MIX_START, sender.as_bytes());
    let b = mix(a, be_bytes_of(round_id).as_slice());
    let c = mix(b, be_bytes_of(seq).as_slice());
    let d = mix(c, be_bytes_of(env.height).as_slice());
    let seed = mix(d, be_bytes_of(env.time_nanos).as_slice());
    pick_distinct(seed, count, number_max)
}

/// Why picks are refused: the first of these reasons that there is. There are too many or
/// too few; a number occurs twice, and the smallest such one is named; a number is
/// below one; or the largest is above the domain.
pub proof fn law_refused_picks_have_a_reason(
    numbers: Seq<u8>,
    numbers_per_ticket: u8,
    number_max: u8,
)
    requires
        1 <= numbers_per_ticket <= number_max,
    ensures
        picks_refusal(numbers, numbers_per_ticket, number_max) matches Some(e) ==> (e matches
            ContractError::InvalidNumbers { expected, number_max: max, reason } && expected
            == numbers_per_ticket && max == number_max && {
            if numbers.len() != numbers_per_ticket {
                reason == "count "@ + decimal(numbers.len())
            } else if !numbers.no_duplicates() {
                exists|d: u8|
                    #![trigger numbers.to_multiset().count(d)]
                    numbers.to_multiset().count(d) >= 2 && reason == "duplicate "@ + decimal(
                        d as nat,
                    ) && forall|c: u8| c < d ==> #[trigger] numbers.to_multiset().count(c) < 2
            } else if numbers.contains(0) {
                reason == "value < 1"@
            } else {
                exists|v: u8|
                    #![trigger numbers.contains(v)]
                    numbers.contains(v) && v > number_max && reason == "value "@ + decimal(
                        v as nat,
                    ) + (" > "@ + decimal(number_max as nat)) && forall|w: u8|
                        numbers.contains(w) ==> w <= v
            }
        }),
{
    let sorted = ascending(numbers);
    lemma_ascending(numbers);
    lemma_first_repeat(sorted, 0);
    assert(total_ordering(at_most()));
    numbers.lemma_sort_by_ensures(at_most());
    if sorted.len() == numbers_per_ticket {
        if first_repeat(sorted, 0) is Some {
            let d = first_repeat(sorted, 0)->0;
            lemma_repeat_counts(sorted, 0);
            assert(!sorted.no_duplicates()) by {
                if sorted.no_duplicates() {
                    assert forall|a: int, b: int| 0 <= a < b < sorted.len() implies sorted[a]
                        < sorted[b] by {
                        assert(sorted[a] != sorted[b]);
                    }
                }
            }
            assert(numbers.to_multiset().count(d) >= 2);
        } else {
            assert(sorted.no_duplicates()) by {
                assert forall|i: int, j: int|
                    0 <= i < sorted.len() && 0 <= j < sorted.len() && i != j implies sorted[i]
                    != sorted[j] by {
                    if i < j {
                        assert(sorted[i] < sorted[j]);
                    } else {
                        assert(sorted[j] < sorted[i]);
                    }
                }
            }
            if sorted.first() < 1 {
                assert(sorted.contains(sorted[0]));
                assert(numbers.contains(0));
            } else {
                assert(!numbers.contains(0)) by {
                    if numbers.contains(0) {
                        assert(sorted.contains(0));
                        let k = choose|k: int| 0 <= k < sorted.len() && sorted[k] == 0;
                        if k > 0 {
                            assert(sorted[0] <= sorted[k]);
                        }
                    }
                }
                let v = sorted.last();
                assert(sorted.contains(sorted[sorted.len() - 1]));
                assert(numbers.contains(v));
                assert forall|w: u8| numbers.contains(w) implies w <= v by {
                    assert(sorted.contains(w));
                    let k = choose|k: int| 0 <= k < sorted.len() && sorted[k] == w;
                    if k < sorted.len() - 1 {
                        assert(sorted[k] <= sorted[sorted.len() - 1]);
                    }
                }
            }
        }
    }
}

proof fn lemma_repeat_counts(sorted: Seq<u8>, i: int)
    requires
        0 <= i,
        forall|a: int, b: int| 0 <= a < b < sorted.len() ==> sorted[a] <= sorted[b],
        first_repeat(sorted, i) is Some,
        forall|a: int, b: int| 0 <= a < b <= i && b < sorted.len() ==> sorted[a] < sorted[b],
    ensures
        ({
            let d = first_repeat(sorted, i)->0;
            &&& sorted.to_multiset().count(d) >= 2
            &&& forall|c: u8| c < d ==> #[trigger] sorted.to_multiset().count(c) < 2
        }),
    decreases sorted.len() - i,
{
    let d = first_repeat(sorted, i)->0;
    if sorted[i] == sorted[i + 1] {
        lemma_two_places(sorted, i, i + 1);
        assert forall|c: u8| c < d implies #[trigger] sorted.to_multiset().count(c) < 2 by {
            if sorted.to_multiset().count(c) >= 2 {
                let (a, b) = lemma_places_of_two(sorted, c);
                if a > i {
                    assert(sorted[i] <= sorted[a]);
                }
                if b > i {
                    assert(sorted[i] <= sorted[b]);
                }
                assert(a < b <= i);
                assert(sorted[a] < sorted[b]);
            }
        }
    } else {
        assert forall|a: int, b: int|
            0 <= a < b <= i + 1 && b < sorted.len() implies sorted[a] < sorted[b] by {
            if b == i + 1 {
                assert(sorted[i] <= sorted[i + 1]);
                if a < i {
                    assert(sorted[a] < sorted[i]);
                }
            }
        }
        lemma_repeat_counts(sorted, i + 1);
    }
}

/// A number at two places is counted at least twice.
proof fn lemma_two_places(s: Seq<u8>, i: int, j: int)
    requires
        0 <= i < j < s.len(),
        s[i] == s[j],
    ensures
        s.to_multiset().count(s[i]) >= 2,
{
    let rest = s.remove(j);
    assert(rest[i] == s[i]);
    rest.to_multiset_ensures();
    assert(rest.insert(j, s[j]) =~= s);
    to_multiset_insert(rest, j, s[j]);
    assert(rest.contains(s[i]));
    assert(rest.to_multiset().count(s[i]) >= 1);
}

/// A number that is counted twice stands at two places.
proof fn lemma_places_of_two(s: Seq<u8>, c: u8) -> (places: (int, int))
    requires
        s.to_multiset().count(c) >= 2,
    ensures
        0 <= places.0 < places.1 < s.len(),
        s[places.0] == c,
        s[places.1] == c,
{
    s.to_multiset_ensures();
    assert(s.contains(c));
    let i = choose|i: int| 0 <= i < s.len() && s[i] == c;
    let rest = s.remove(i);
    assert(rest.insert(i, c) =~= s);
    to_multiset_insert(rest, i, c);
    rest.to_multiset_ensures();
    assert(rest.contains(c));
    let j = choose|j: int| 0 <= j < rest.len() && rest[j] == c;
    if j < i {
        assert(s[j] == c);
        (j, i)
    } else {
        assert(s[j + 1] == c);
        (i, j + 1)
    }
}

} // verus!
