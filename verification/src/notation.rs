//! What is written down can be read again: numbers, ids, bytes and lists.

use crate::text::{csv, decimal, hex, lex_lt, zeros};
use crate::ticket_ids::ticket_name;
use vstd::prelude::*;

verus! {

/// Whether all characters are decimal digits.
pub open spec fn all_digits(text: Seq<char>) -> bool {
    forall|i: int| 0 <= i < text.len() ==> '0' <= #[trigger] text[i] <= '9'
}

/// The number that a row of decimal digits stands for.
pub open spec fn read_digits(text: Seq<char>) -> int
    decreases text.len(),
{
    if text.len() == 0 {
        0
    } else {
        10 * read_digits(text.drop_last()) + (text.last() as int - '0' as int)
    }
}

/// A number in decimal notation consists of digits, does not start with a zero unless
/// it is one, and can be read back.
pub proof fn law_decimal_can_be_read(n: nat)
    ensures
        decimal(n).len() > 0,
        all_digits(decimal(n)),
        decimal(n)[0] == '0' <==> n == 0,
        read_digits(decimal(n)) == n,
    decreases n,
{
    let d = decimal(n);
    if n < 10 {
        assert(d.drop_last() =~= Seq::<char>::empty());
        assert(read_digits(d.drop_last()) == 0);
    } else {
        law_decimal_can_be_read(n / 10);
        assert(d.drop_last() =~= decimal(n / 10));
        assert(d[0] == decimal(n / 10)[0]);
    }
}

proof fn lemma_zeros_in_front(n: nat, text: Seq<char>)
    ensures
        read_digits(zeros(n) + text) == read_digits(text),
    decreases n + text.len(),
{
    let whole = zeros(n) + text;
    if text.len() > 0 {
        assert(whole.drop_last() =~= zeros(n) + text.drop_last());
        lemma_zeros_in_front(n, text.drop_last());
    } else if n > 0 {
        assert(whole.drop_last() =~= zeros((n - 1) as nat) + text);
        lemma_zeros_in_front((n - 1) as nat, text);
    } else {
        assert(whole =~= text);
    }
}

/// The id of a ticket consists of digits, twelve or as many more as its place needs, and
/// its place in the round can be read back.
pub proof fn law_ticket_id_tells_the_place(place: nat)
    ensures
        all_digits(ticket_name(place)),
        read_digits(ticket_name(place)) == place,
        ticket_name(place).len() >= 12,
        ticket_name(place).len() > 12 ==> ticket_name(place)[0] != '0',
{
    law_decimal_can_be_read(place);
    let d = decimal(place);
    if d.len() < 12 {
        lemma_zeros_in_front((12 - d.len()) as nat, d);
    } else if d.len() > 12 && place == 0 {
        assert(d.len() == 1);
    }
}

/// The value of a hexadecimal digit in lower case.
pub open spec fn hex_value(c: char) -> int {
    if '0' <= c && c <= '9' {
        c as int - '0' as int
    } else if 'a' <= c && c <= 'f' {
        c as int - 'a' as int + 10
    } else {
        -1
    }
}

/// Bytes in hexadecimal notation can be read back, two digits each.
pub proof fn law_hex_can_be_read(bytes: Seq<u8>, i: int)
    requires
        0 <= i < bytes.len(),
    ensures
        hex(bytes).len() == 2 * bytes.len(),
        0 <= hex_value(hex(bytes)[2 * i]) < 16,
        0 <= hex_value(hex(bytes)[2 * i + 1]) < 16,
        16 * hex_value(hex(bytes)[2 * i]) + hex_value(hex(bytes)[2 * i + 1]) == bytes[i],
    decreases bytes.len(),
{
    let rest = bytes.drop_last();
    let n = bytes.len() - 1;
    if n > 0 {
        law_hex_can_be_read(
            rest,
            if i < n {
                i
            } else {
                0
            },
        );
    } else {
        assert(rest =~= Seq::<u8>::empty());
    }
    assert(hex(rest).len() == 2 * n);
    let h = hex(bytes);
    if i < n {
        assert(h[2 * i] == hex(rest)[2 * i]);
        assert(h[2 * i + 1] == hex(rest)[2 * i + 1]);
        assert(bytes[i] == rest[i]);
    } else {
        let b = bytes[n];
        assert(h[2 * n] == crate::text::hex_char((b / 16) as nat));
        assert(h[2 * n + 1] == crate::text::hex_char((b % 16) as nat));
    }
}

/// Reads numbers that commas separate.
pub open spec fn read_list(text: Seq<char>) -> Seq<int>
    decreases text.len(),
{
    if text.len() == 0 {
        seq![0]
    } else {
        let before = read_list(text.drop_last());
        if text.last() == ',' {
            before.push(0)
        } else {
            before.drop_last().push(10 * before.last() + (text.last() as int - '0' as int))
        }
    }
}

proof fn lemma_read_list_nonempty(text: Seq<char>)
    ensures
        read_list(text).len() > 0,
    decreases text.len(),
{
    if text.len() > 0 {
        lemma_read_list_nonempty(text.drop_last());
    }
}

proof fn lemma_read_more(text: Seq<char>, digits: Seq<char>)
    requires
        all_digits(digits),
        read_list(text).last() == 0,
    ensures
        read_list(text + digits) == read_list(text).drop_last().push(read_digits(digits)),
    decreases digits.len(),
{
    lemma_read_list_nonempty(text);
    let whole = text + digits;
    if digits.len() == 0 {
        assert(whole =~= text);
        assert(read_list(text).drop_last().push(0) =~= read_list(text));
    } else {
        let rest = digits.drop_last();
        assert(all_digits(rest)) by {
            assert forall|i: int| 0 <= i < rest.len() implies '0' <= #[trigger] rest[i] <= '9' by {
                assert(rest[i] == digits[i]);
            }
        }
        lemma_read_more(text, rest);
        assert(whole.drop_last() =~= text + rest);
        let last = digits[digits.len() - 1];
        assert('0' <= last <= '9');
        assert(whole.last() == last);
        let before = read_list(text + rest);
        assert(before.drop_last() =~= read_list(text).drop_last());
        assert(read_list(whole) =~= read_list(text).drop_last().push(read_digits(digits)));
    }
}

/// A list of numbers can be read back.
pub proof fn law_list_can_be_read(numbers: Seq<u8>)
    requires
        numbers.len() > 0,
    ensures
        read_list(csv(numbers)) == Seq::new(numbers.len(), |i: int| numbers[i] as int),
    decreases numbers.len(),
{
    let goal = Seq::new(numbers.len(), |i: int| numbers[i] as int);
    let last = numbers[numbers.len() - 1] as nat;
    law_decimal_can_be_read(last);
    if numbers.len() == 1 {
        let none = Seq::<char>::empty();
        assert(read_list(none) =~= seq![0int]);
        lemma_read_more(none, decimal(last));
        assert(none + decimal(last) =~= decimal(last));
        assert(read_list(csv(numbers)) =~= goal);
    } else {
        let rest = numbers.drop_last();
        law_list_can_be_read(rest);
        let front = csv(rest) + seq![','];
        assert(front.drop_last() =~= csv(rest));
        assert(read_list(front) == read_list(csv(rest)).push(0));
        lemma_read_more(front, decimal(last));
        assert(csv(numbers) == front + decimal(last));
        assert(read_list(csv(numbers)) =~= goal);
    }
}

/// One row of bytes comes before another if it is a proper beginning of it, or if it has
/// the smaller byte at the first place where they differ.
pub proof fn law_order_goes_by_the_first_difference(a: Seq<u8>, b: Seq<u8>, k: nat)
    requires
        k <= a.len(),
        k <= b.len(),
        a.take(k as int) == b.take(k as int),
        k < a.len() && k < b.len() ==> a[k as int] != b[k as int],
        k == a.len() || k == b.len() || a[k as int] != b[k as int],
    ensures
        lex_lt(a, b) <==> (k == a.len() && k < b.len()) || (k < a.len() && k < b.len()
            && a[k as int] < b[k as int]),
    decreases k,
{
    if k > 0 {
        assert(a[0] == a.take(k as int)[0]);
        assert(b[0] == b.take(k as int)[0]);
        let c = a.drop_first();
        let d = b.drop_first();
        let j = (k - 1) as nat;
        assert(c.take(j as int) =~= d.take(j as int)) by {
            assert forall|i: int| 0 <= i < j implies (#[trigger] c.take(j as int)[i]) == d.take(
                j as int,
            )[i] by {
                assert(a[i + 1] == a.take(k as int)[i + 1]);
                assert(b[i + 1] == b.take(k as int)[i + 1]);
                assert(c.take(j as int)[i] == c[i] && c[i] == a[i + 1]);
                assert(d.take(j as int)[i] == d[i] && d[i] == b[i + 1]);
            }
        }
        law_order_goes_by_the_first_difference(c, d, j);
    }
}

} // verus!
