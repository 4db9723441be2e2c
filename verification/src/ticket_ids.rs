//! Ticket ids: the purchase sequence within a round, padded with zeros.

use crate::constants::TICKET_ID_WIDTH;
use crate::text::{
    decimal, lemma_numeral_padded, lemma_padded_injective, lex_lt, numeral, padded, padded_text,
};
use vstd::prelude::*;
use vstd::string::*;
use vstd::utf8::{encode_utf8, is_ascii_chars_encode_utf8};

verus! {

/// The id of the ticket that was bought as number `seq` of its round, counting
/// from zero.
pub open spec fn ticket_name(seq: nat) -> Seq<char> {
    padded(seq, TICKET_ID_WIDTH as nat)
}

/// The id of a ticket from its place in the purchase sequence.
pub fn ticket_id(seq: u64) -> (id: String)
    ensures
        id@ == ticket_name(seq as nat),
{
    padded_text(seq, TICKET_ID_WIDTH)
}

/// Different tickets of a round have different ids.
pub proof fn law_ticket_ids_distinct(a: nat, b: nat)
    requires
        a != b,
    ensures
        ticket_name(a) != ticket_name(b),
{
    if ticket_name(a) == ticket_name(b) {
        lemma_padded_injective(a, b, TICKET_ID_WIDTH as nat);
    }
}

/// Whether `id` names ticket `seq` of a round with `count` tickets.
pub open spec fn names_ticket(id: Seq<char>, count: nat, seq: int) -> bool {
    0 <= seq < count && ticket_name(seq as nat) == id
}

/// The ticket that `id` names in a round with `count` tickets.
pub open spec fn named_ticket(id: Seq<char>, count: nat) -> Option<int> {
    if exists|seq: int| names_ticket(id, count, seq) {
        Some(choose|seq: int| names_ticket(id, count, seq))
    } else {
        None
    }
}

pub proof fn lemma_named_ticket(id: Seq<char>, count: nat, seq: int)
    requires
        names_ticket(id, count, seq),
    ensures
        named_ticket(id, count) == Some(seq),
{
    let other = choose|s: int| names_ticket(id, count, s);
    lemma_padded_injective(seq as nat, other as nat, TICKET_ID_WIDTH as nat);
}

/// Whether all characters are decimal digits.
pub open spec fn digits(s: Seq<char>) -> bool {
    forall|i: int| 0 <= i < s.len() ==> '0' <= #[trigger] s[i] <= '9'
}

proof fn lemma_decimal_digits(n: nat)
    ensures
        digits(decimal(n)),
        decimal(n).len() > 0,
    decreases n,
{
    if n >= 10 {
        lemma_decimal_digits(n / 10);
    }
}

proof fn lemma_name_digits(seq: nat)
    ensures
        digits(ticket_name(seq)),
{
    lemma_decimal_digits(seq);
}

proof fn lemma_numeral_prefix(s: Seq<char>, i: int)
    requires
        digits(s),
        0 <= i <= s.len(),
    ensures
        0 <= numeral(s.take(i)) <= numeral(s),
    decreases s.len(),
{
    if s.len() == 0 {
        assert(s.take(i) =~= s);
    } else {
        let rest = s.drop_last();
        assert(digits(rest)) by {
            assert forall|j: int| 0 <= j < rest.len() implies '0' <= #[trigger] rest[j] <= '9' by {
                assert(rest[j] == s[j]);
            }
        }
        let last = s[s.len() - 1];
        assert('0' <= last);
        lemma_numeral_prefix(rest, 0);
        if i == s.len() {
            assert(s.take(i) =~= s);
            lemma_numeral_prefix(rest, rest.len() as int);
            assert(rest.take(rest.len() as int) =~= rest);
        } else {
            lemma_numeral_prefix(rest, i);
            assert(rest.take(i) =~= s.take(i));
        }
    }
}

/// Finds the ticket that an id names in a round with `count` tickets.
pub fn find_ticket(id: &String, count: usize) -> (place: Option<usize>)
    ensures
        match place {
            Some(seq) => seq < count && named_ticket(id@, count as nat) == Some(seq as int),
            None => named_ticket(id@, count as nat) is None,
        },
{
    let text = id.as_str();
    let len: usize = text.unicode_len();
    let mut value: u64 = 0;
    let mut i: usize = 0;
    assert(id@.take(0) =~= Seq::<char>::empty());
    while i < len
        invariant
            text@ == id@,
            len == id@.len(),
            i <= len,
            value == numeral(id@.take(i as int)),
        decreases len - i,
    {
        let c = text.get_char(i);
        proof {
            assert(id@.take(i + 1).drop_last() =~= id@.take(i as int));
            assert(id@.take(i + 1).last() == c);
        }
        let next: Option<u64> = if '0' <= c && c <= '9' {
            match value.checked_mul(10) {
                Some(shifted) => shifted.checked_add((c as u32 - 48) as u64),
                None => None,
            }
        } else {
            None
        };
        match next {
            Some(v) => {
                value = v;
            },
            None => {
                proof {
                    assert forall|seq: int| !names_ticket(id@, count as nat, seq) by {
                        if names_ticket(id@, count as nat, seq) {
                            lemma_name_digits(seq as nat);
                            assert(id@[i as int] == c);
                            lemma_numeral_padded(seq as nat, TICKET_ID_WIDTH as nat);
                            lemma_numeral_prefix(id@, i + 1);
                        }
                    }
                }
                return None;
            },
        }
        i = i + 1;
    }
    assert(id@.take(i as int) =~= id@);
    if value < count as u64 && ticket_id(value) == *id {
        proof {
            assert(names_ticket(id@, count as nat, value as int));
            lemma_named_ticket(id@, count as nat, value as int);
        }
        return Some(value as usize);
    }
    proof {
        assert forall|seq: int| !names_ticket(id@, count as nat, seq) by {
            if names_ticket(id@, count as nat, seq) {
                lemma_numeral_padded(seq as nat, TICKET_ID_WIDTH as nat);
            }
        }
    }
    None
}

/// Ten to the power of `n`.
pub open spec fn tens(n: nat) -> nat
    decreases n,
{
    if n == 0 {
        1
    } else {
        10 * tens((n - 1) as nat)
    }
}

proof fn lemma_decimal_len(n: nat, k: nat)
    requires
        n < tens(k),
        k >= 1,
    ensures
        decimal(n).len() <= k,
    decreases k,
{
    if n >= 10 {
        if k == 1 {
            assert(tens(1) == 10 * tens(0));
        } else {
            lemma_decimal_len(n / 10, (k - 1) as nat);
        }
    }
}

proof fn lemma_numeral_front(s: Seq<char>)
    requires
        digits(s),
        s.len() > 0,
    ensures
        numeral(s) == (s[0] as int - 48) * tens((s.len() - 1) as nat) + numeral(s.drop_first()),
        0 <= numeral(s.drop_first()) < tens((s.len() - 1) as nat),
    decreases s.len(),
{
    let tail = s.drop_first();
    if s.len() == 1 {
        assert(s.drop_last() =~= Seq::<char>::empty());
        assert(tail =~= Seq::<char>::empty());
        assert(numeral(s.drop_last()) == 0);
        assert(s.last() == s[0]);
        let d = s[0] as int - 48;
        let one = tens(0) as int;
        assert(d * one == d) by (nonlinear_arith)
            requires
                one == 1,
        ;
    } else {
        let rest = s.drop_last();
        assert(digits(rest)) by {
            assert forall|j: int| 0 <= j < rest.len() implies '0' <= #[trigger] rest[j] <= '9' by {
                assert(rest[j] == s[j]);
            }
        }
        lemma_numeral_front(rest);
        assert(rest.drop_first() =~= tail.drop_last());
        assert(tail.last() == s.last());
        assert('0' <= s[s.len() - 1] <= '9');
        let d = s[0] as int - 48;
        let t = tens((s.len() - 2) as nat) as int;
        assert(tens((s.len() - 1) as nat) == 10 * t);
        let r = numeral(tail.drop_last());
        assert(numeral(rest) == d * t + r);
        assert(numeral(tail) == 10 * r + (s.last() as int - 48));
        assert(numeral(s) == 10 * numeral(rest) + (s.last() as int - 48));
        assert(d * (10 * t) == 10 * (d * t)) by (nonlinear_arith);
    }
}

/// The codes of some characters.
pub open spec fn codes(s: Seq<char>) -> Seq<u8> {
    Seq::new(s.len(), |i: int| s[i] as u8)
}

proof fn lemma_numeric_order_is_lexical(s: Seq<char>, t: Seq<char>)
    requires
        digits(s),
        digits(t),
        s.len() == t.len(),
        numeral(s) < numeral(t),
    ensures
        lex_lt(codes(s), codes(t)),
    decreases s.len(),
{
    if s.len() > 0 {
        lemma_numeral_front(s);
        lemma_numeral_front(t);
        let p = tens((s.len() - 1) as nat) as int;
        let a = s[0] as int - 48;
        let b = t[0] as int - 48;
        assert('0' <= s[0] <= '9');
        assert('0' <= t[0] <= '9');
        if a > b {
            assert(a * p >= b * p + p) by (nonlinear_arith)
                requires
                    a >= b + 1,
                    p >= 0,
            ;
        } else if a == b {
            let u = s.drop_first();
            let v = t.drop_first();
            assert(digits(u)) by {
                assert forall|j: int| 0 <= j < u.len() implies '0' <= #[trigger] u[j] <= '9' by {
                    assert(u[j] == s[j + 1]);
                }
            }
            assert(digits(v)) by {
                assert forall|j: int| 0 <= j < v.len() implies '0' <= #[trigger] v[j] <= '9' by {
                    assert(v[j] == t[j + 1]);
                }
            }
            lemma_numeric_order_is_lexical(u, v);
            assert(codes(s).drop_first() =~= codes(u));
            assert(codes(t).drop_first() =~= codes(v));
        }
    }
}

/// Ids sort in the order of purchase, as long as the sequence fits the width to
/// which ids are padded.
pub proof fn law_ticket_ids_sort_in_purchase_order(a: nat, b: nat)
    requires
        a < b,
        b < tens(TICKET_ID_WIDTH as nat),
    ensures
        lex_lt(encode_utf8(ticket_name(a)), encode_utf8(ticket_name(b))),
{
    let s = ticket_name(a);
    let t = ticket_name(b);
    let w = TICKET_ID_WIDTH as nat;
    lemma_decimal_len(a, w);
    lemma_decimal_len(b, w);
    lemma_name_digits(a);
    lemma_name_digits(b);
    lemma_numeral_padded(a, w);
    lemma_numeral_padded(b, w);
    lemma_numeric_order_is_lexical(s, t);
    is_ascii_chars_encode_utf8(s);
    is_ascii_chars_encode_utf8(t);
    assert(encode_utf8(s) =~= codes(s));
    assert(encode_utf8(t) =~= codes(t));
}

} // verus!
