//! What numbers are drawn from: every ticket has a seed of its own, every piece of
//! randomness counts, and the numbers are the first ones that a seed's stream shows.

use crate::host::Env;
use crate::picks::{
    filled, lemma_ascending, mixed, number_at, picked, quick_picked, step, stream_tries, streamed,
    winning_numbers, MIX_FACTOR, MIX_START, NONZERO_SEED,
};
use crate::text::be_bytes;
use vstd::prelude::*;
use vstd::utf8::encode_utf8;

verus! {

/// The number that bytes stand for, the most significant one first.
pub open spec fn big_endian(bytes: Seq<u8>) -> nat
    decreases bytes.len(),
{
    if bytes.len() == 0 {
        0
    } else {
        256 * big_endian(bytes.drop_last()) + bytes.last() as nat
    }
}

proof fn lemma_byte_values(n: u64)
    ensures
        ((n >> 56) as u8) as nat == n / 0x100000000000000,
        ((n >> 48) as u8) as nat == (n / 0x1000000000000) % 256,
        ((n >> 40) as u8) as nat == (n / 0x10000000000) % 256,
        ((n >> 32) as u8) as nat == (n / 0x100000000) % 256,
        ((n >> 24) as u8) as nat == (n / 0x1000000) % 256,
        ((n >> 16) as u8) as nat == (n / 0x10000) % 256,
        ((n >> 8) as u8) as nat == (n / 0x100) % 256,
        (n as u8) as nat == n % 256,
{
    assert(((n >> 56) as u8) as u64 == n / 0x100000000000000) by (bit_vector);
    assert(((n >> 48) as u8) as u64 == (n / 0x1000000000000) % 256) by (bit_vector);
    assert(((n >> 40) as u8) as u64 == (n / 0x10000000000) % 256) by (bit_vector);
    assert(((n >> 32) as u8) as u64 == (n / 0x100000000) % 256) by (bit_vector);
    assert(((n >> 24) as u8) as u64 == (n / 0x1000000) % 256) by (bit_vector);
    assert(((n >> 16) as u8) as u64 == (n / 0x10000) % 256) by (bit_vector);
    assert(((n >> 8) as u8) as u64 == (n / 0x100) % 256) by (bit_vector);
    assert((n as u8) as u64 == n % 256) by (bit_vector);
}

proof fn lemma_big_endian_step(bytes: Seq<u8>, n: int)
    requires
        0 <= n < bytes.len(),
    ensures
        big_endian(bytes.take(n + 1)) == 256 * big_endian(bytes.take(n)) + bytes[n] as nat,
{
    assert(bytes.take(n + 1).drop_last() =~= bytes.take(n));
}

proof fn lemma_quotients(n: u64)
    ensures
        n == 256 * (n / 0x100) + n % 256,
        n / 0x100 == 256 * (n / 0x10000) + (n / 0x100) % 256,
        n / 0x10000 == 256 * (n / 0x1000000) + (n / 0x10000) % 256,
        n / 0x1000000 == 256 * (n / 0x100000000) + (n / 0x1000000) % 256,
        n / 0x100000000 == 256 * (n / 0x10000000000) + (n / 0x100000000) % 256,
        n / 0x10000000000 == 256 * (n / 0x1000000000000) + (n / 0x10000000000) % 256,
        n / 0x1000000000000 == 256 * (n / 0x100000000000000) + (n / 0x1000000000000) % 256,
{
    assert((n / 0x100) / 256 == n / 0x10000) by (bit_vector);
    assert((n / 0x10000) / 256 == n / 0x1000000) by (bit_vector);
    assert((n / 0x1000000) / 256 == n / 0x100000000) by (bit_vector);
    assert((n / 0x100000000) / 256 == n / 0x10000000000) by (bit_vector);
    assert((n / 0x10000000000) / 256 == n / 0x1000000000000) by (bit_vector);
    assert((n / 0x1000000000000) / 256 == n / 0x100000000000000) by (bit_vector);
}

/// A number that is written as eight bytes can be read back.
pub proof fn law_number_can_be_read_back(n: u64)
    ensures
        be_bytes(n).len() == 8,
        big_endian(be_bytes(n)) == n,
{
    let b = be_bytes(n);
    lemma_byte_values(n);
    lemma_quotients(n);
    assert(b.take(0) =~= Seq::<u8>::empty());
    assert(big_endian(b.take(0)) == 0);
    lemma_big_endian_step(b, 0);
    assert(big_endian(b.take(1)) == n / 0x100000000000000);
    lemma_big_endian_step(b, 1);
    assert(big_endian(b.take(2)) == n / 0x1000000000000);
    lemma_big_endian_step(b, 2);
    assert(big_endian(b.take(3)) == n / 0x10000000000);
    lemma_big_endian_step(b, 3);
    assert(big_endian(b.take(4)) == n / 0x100000000);
    lemma_big_endian_step(b, 4);
    assert(big_endian(b.take(5)) == n / 0x1000000);
    lemma_big_endian_step(b, 5);
    assert(big_endian(b.take(6)) == n / 0x10000);
    lemma_big_endian_step(b, 6);
    assert(big_endian(b.take(7)) == n / 0x100);
    lemma_big_endian_step(b, 7);
    assert(b.take(8) =~= b);
}

/// Mixing in two steps is mixing in one.
pub proof fn law_mixing_goes_on(start: u64, a: Seq<u8>, b: Seq<u8>)
    ensures
        mixed(mixed(start, a), b) == mixed(start, a + b),
    decreases b.len(),
{
    if b.len() == 0 {
        assert(a + b =~= a);
    } else {
        law_mixing_goes_on(start, a, b.drop_last());
        assert((a + b).drop_last() =~= a + b.drop_last());
    }
}

/// The numbers of a ticket come from a message that tells the whole ticket: its owner,
/// its round, its place in the round, and the height and the time of the block, each
/// of which can be read back. They are the numbers that a draw would take from this
/// message.
pub proof fn law_quick_pick_tells_its_ticket(
    env: Env,
    owner: Seq<char>,
    round_id: u64,
    place: u64,
    count: u8,
    number_max: u8,
) -> (message: Seq<u8>)
    ensures
        quick_picked(env, owner, round_id, place, count, number_max) == winning_numbers(
            message,
            count,
            number_max,
        ),
        ({
            let n = encode_utf8(owner).len() as int;
            &&& message.len() == n + 32
            &&& message.take(n) == encode_utf8(owner)
            &&& big_endian(message.subrange(n, n + 8)) == round_id
            &&& big_endian(message.subrange(n + 8, n + 16)) == place
            &&& big_endian(message.subrange(n + 16, n + 24)) == env.height
            &&& big_endian(message.subrange(n + 24, n + 32)) == env.time_nanos
        }),
{
    let o = encode_utf8(owner);
    let n = o.len() as int;
    let r = be_bytes(round_id);
    let p = be_bytes(place);
    let h = be_bytes(env.height);
    let t = be_bytes(env.time_nanos);
    law_mixing_goes_on(MIX_START, o, r);
    law_mixing_goes_on(MIX_START, o + r, p);
    law_mixing_goes_on(MIX_START, o + r + p, h);
    law_mixing_goes_on(MIX_START, o + r + p + h, t);
    law_number_can_be_read_back(round_id);
    law_number_can_be_read_back(place);
    law_number_can_be_read_back(env.height);
    law_number_can_be_read_back(env.time_nanos);
    let message = o + r + p + h + t;
    assert(message.take(n) =~= o);
    assert(message.subrange(n, n + 8) =~= r);
    assert(message.subrange(n + 8, n + 16) =~= p);
    assert(message.subrange(n + 16, n + 24) =~= h);
    assert(message.subrange(n + 24, n + 32) =~= t);
    message
}

// --- Different messages have different seeds ---------------------------------

/// One step of the mixer in whole numbers: the byte moves the state by less than 256,
/// and the product wraps around.
proof fn lemma_mix_step(state: u64, byte: u8) -> (moved: (int, int))
    ensures
        (state ^ (byte as u64)) == state + moved.0,
        -255 <= moved.0 <= 255,
        (state ^ (byte as u64)).wrapping_mul(MIX_FACTOR) == (state + moved.0) * 0x100000001b3
            - moved.1 * 0x10000000000000000,
{
    let b = byte as u64;
    let x = state ^ b;
    assert(x / 256 == state / 256) by (bit_vector)
        requires
            x == state ^ b,
            b < 256,
    ;
    let product = x as int * 0x100000001b3;
    (x - state, product / 0x10000000000000000)
}

/// The multiplier of the mixer loses nothing.
proof fn lemma_factor_loses_nothing(x: u64, y: u64)
    requires
        x.wrapping_mul(MIX_FACTOR) == y.wrapping_mul(MIX_FACTOR),
    ensures
        x == y,
{
    let m: int = 0x10000000000000000;
    let f: int = 0x100000001b3;
    let inverse: int = 0xce965057aff6957b;
    let z = x - y;
    let k = (x as int * f) / m - (y as int * f) / m;
    assert(z * f == k * m);
    assert(f * inverse == 1 + m * ((f * inverse - 1) / m));
    let c = (f * inverse - 1) / m;
    let q = k * inverse - c * z;
    assert(z * f * inverse == k * m * inverse);
    assert(z == m * q) by {
        assert(z * (f * inverse) == z + m * (c * z)) by (nonlinear_arith)
            requires
                f * inverse == 1 + m * c,
        ;
        assert(z * (f * inverse) == z * f * inverse) by (nonlinear_arith);
        assert(k * m * inverse == m * (k * inverse)) by (nonlinear_arith);
        assert(m * (k * inverse) - m * (c * z) == m * q) by (nonlinear_arith)
            requires
                q == k * inverse - c * z,
        ;
    }
    assert(-m < z < m);
    assert(q == 0);
}

/// A number below 2^40 that is a multiple of it is zero.
proof fn lemma_low_part_vanishes(high: int, low: int, rest: int)
    requires
        -0x10000000000 < low < 0x10000000000,
        high * 0x10000000000 + low == rest * 0x10000000000000000,
    ensures
        low == 0,
        high == rest * 0x1000000,
{
    let q = rest * 0x1000000 - high;
    assert(low == q * 0x10000000000);
    assert(q == 0);
}

/// Small numbers that both parts of the product allow are zero.
proof fn lemma_small_numbers_vanish(d: int, e: int, f: int, g: int, rest: int)
    requires
        -255 <= d <= 255,
        -510 <= e <= 510,
        -510 <= f <= 510,
        -510 <= g <= 510,
        82312875 * d + 189225 * e + 435 * f + g == 0,
        567675 * d + 870 * e + f == rest * 0x1000000,
    ensures
        d == 0 && e == 0 && f == 0 && g == 0,
{
    let j = 189225 * d + 435 * e + f;
    assert(435 * j + g == 0);
    assert(-1 <= j <= 1);
    assert(-1 <= d <= 1);
    if d == 0 {
        assert(-1 <= e <= 1);
        assert(rest == 0);
    } else if d == 1 {
        assert(-436 <= e <= -434);
        assert(0 < 567675 * d + 870 * e + f < 0x1000000);
        assert(false);
    } else {
        assert(434 <= e <= 436);
        assert(-0x1000000 < 567675 * d + 870 * e + f < 0);
        assert(false);
    }
}

/// The only small multiples of the mixer's powers that cancel out are none at all.
proof fn lemma_powers_are_independent(d: int, e: int, f: int, g: int, k: int)
    requires
        -255 <= d <= 255,
        -510 <= e <= 510,
        -510 <= f <= 510,
        -510 <= g <= 510,
        ((d * 0x100000001b3 + e) * 0x100000001b3 + f) * 0x100000001b3 + g == k
            * 0x10000000000000000,
    ensures
        d == 0 && e == 0 && f == 0 && g == 0,
{
    let high = 567675 * d + 870 * e + f;
    let low = 82312875 * d + 189225 * e + 435 * f + g;
    let rest = k - d * 0x100000000000000 - 1305 * d * 0x10000 - e * 0x10000;
    assert(high * 0x10000000000 + low == rest * 0x10000000000000000);
    lemma_low_part_vanishes(high, low, rest);
    lemma_small_numbers_vanish(d, e, f, g, rest);
}

/// Four different bytes lead the mixer to different states.
proof fn lemma_four_bytes_tell_apart(start: u64, a: Seq<u8>, b: Seq<u8>)
    requires
        a.len() == 4,
        b.len() == 4,
        mixed(start, a) == mixed(start, b),
    ensures
        a == b,
{
    lemma_mixed_four(start, a);
    lemma_mixed_four(start, b);
    let u1 = mixed(start, a.take(1));
    let v1 = mixed(start, b.take(1));
    let u2 = mixed(start, a.take(2));
    let v2 = mixed(start, b.take(2));
    let u3 = mixed(start, a.take(3));
    let v3 = mixed(start, b.take(3));
    let (x0, p0) = lemma_mix_step(start, a[0]);
    let (y0, q0) = lemma_mix_step(start, b[0]);
    let (x1, p1) = lemma_mix_step(u1, a[1]);
    let (y1, q1) = lemma_mix_step(v1, b[1]);
    let (x2, p2) = lemma_mix_step(u2, a[2]);
    let (y2, q2) = lemma_mix_step(v2, b[2]);
    let (x3, p3) = lemma_mix_step(u3, a[3]);
    let (y3, q3) = lemma_mix_step(v3, b[3]);
    lemma_factor_loses_nothing(u3 ^ (a[3] as u64), v3 ^ (b[3] as u64));
    let d = x0 - y0;
    let e = x1 - y1;
    let f = x2 - y2;
    let g = x3 - y3;
    assert(-255 <= d <= 255) by {
        lemma_same_upper_part(start, a[0], b[0]);
    }
    let m: int = 0x10000000000000000;
    let c: int = 0x100000001b3;
    let n1 = q0 - p0;
    let n2 = q1 - p1;
    let n3 = q2 - p2;
    assert(u1 - v1 == d * c + n1 * m);
    assert(u2 - v2 == (d * c + e) * c + n1 * m * c + n2 * m);
    assert(u3 - v3 == ((d * c + e) * c + f) * c + n1 * m * c * c + n2 * m * c + n3 * m);
    assert(u3 + x3 == v3 + y3);
    let k = -(n1 * c * c + n2 * c + n3);
    lemma_powers_are_independent(d, e, f, g, k);
    lemma_same_byte(start, a[0], b[0]);
    assert(u1 == v1);
    lemma_same_byte(u1, a[1], b[1]);
    assert(u2 == v2);
    lemma_same_byte(u2, a[2], b[2]);
    assert(u3 == v3);
    lemma_same_byte(u3, a[3], b[3]);
    assert(a =~= b);
}

proof fn lemma_same_upper_part(state: u64, a: u8, b: u8)
    ensures
        -255 <= (state ^ (a as u64)) - (state ^ (b as u64)) <= 255,
{
    let x = state ^ (a as u64);
    let y = state ^ (b as u64);
    assert(x / 256 == y / 256) by (bit_vector)
        requires
            x == state ^ (a as u64),
            y == state ^ (b as u64),
    ;
}

proof fn lemma_same_byte(state: u64, a: u8, b: u8)
    ensures
        (state ^ (a as u64)) == (state ^ (b as u64)) ==> a == b,
{
    assert((state ^ (a as u64)) == (state ^ (b as u64)) ==> a == b) by (bit_vector);
}

proof fn lemma_mixed_four(start: u64, a: Seq<u8>)
    requires
        a.len() == 4,
    ensures
        mixed(start, a.take(1)) == (start ^ (a[0] as u64)).wrapping_mul(MIX_FACTOR),
        mixed(start, a.take(2)) == (mixed(start, a.take(1)) ^ (a[1] as u64)).wrapping_mul(
            MIX_FACTOR,
        ),
        mixed(start, a.take(3)) == (mixed(start, a.take(2)) ^ (a[2] as u64)).wrapping_mul(
            MIX_FACTOR,
        ),
        mixed(start, a) == (mixed(start, a.take(3)) ^ (a[3] as u64)).wrapping_mul(MIX_FACTOR),
{
    assert(a.take(1).drop_last() =~= Seq::<u8>::empty());
    assert(mixed(start, a.take(1).drop_last()) == start);
    assert(a.take(2).drop_last() =~= a.take(1));
    assert(a.take(3).drop_last() =~= a.take(2));
    assert(a.drop_last() =~= a.take(3));
}

/// The same bytes keep different states of the mixer different.
proof fn lemma_mixing_keeps_apart(x: u64, y: u64, bytes: Seq<u8>)
    requires
        mixed(x, bytes) == mixed(y, bytes),
    ensures
        x == y,
    decreases bytes.len(),
{
    if bytes.len() > 0 {
        let u = mixed(x, bytes.drop_last());
        let v = mixed(y, bytes.drop_last());
        let b = bytes.last() as u64;
        lemma_factor_loses_nothing(u ^ b, v ^ b);
        assert((u ^ b) == (v ^ b) ==> u == v) by (bit_vector);
        lemma_mixing_keeps_apart(x, y, bytes.drop_last());
    }
}

/// Bytes that differ in up to four places in a row lead the mixer to different states.
pub proof fn law_mixer_tells_apart(
    start: u64,
    before: Seq<u8>,
    a: Seq<u8>,
    b: Seq<u8>,
    after: Seq<u8>,
)
    requires
        a.len() == 4,
        b.len() == 4,
        a != b,
    ensures
        mixed(start, before + a + after) != mixed(start, before + b + after),
{
    let s = mixed(start, before);
    law_mixing_goes_on(start, before, a);
    law_mixing_goes_on(start, before, b);
    law_mixing_goes_on(start, before + a, after);
    law_mixing_goes_on(start, before + b, after);
    if mixed(start, before + a + after) == mixed(start, before + b + after) {
        lemma_mixing_keeps_apart(mixed(s, a), mixed(s, b), after);
        lemma_four_bytes_tell_apart(s, a, b);
    }
}

proof fn lemma_numbers_tell_apart(start: u64, a: u64, b: u64)
    requires
        a != b,
        a / 0x100000000 == b / 0x100000000,
    ensures
        mixed(start, be_bytes(a)) != mixed(start, be_bytes(b)),
{
    let x = be_bytes(a);
    let y = be_bytes(b);
    lemma_byte_values(a);
    lemma_byte_values(b);
    let upper = x.take(4);
    assert(upper =~= y.take(4)) by {
        assert(a / 0x1000000000000 == a / 0x100000000 / 0x10000);
        assert(b / 0x1000000000000 == b / 0x100000000 / 0x10000);
        assert(a / 0x10000000000 == a / 0x100000000 / 0x100);
        assert(b / 0x10000000000 == b / 0x100000000 / 0x100);
        assert(a / 0x100000000000000 == a / 0x100000000 / 0x1000000);
        assert(b / 0x100000000000000 == b / 0x100000000 / 0x1000000);
    }
    let none = Seq::<u8>::empty();
    assert(x =~= upper + x.skip(4) + none);
    assert(y =~= upper + y.skip(4) + none);
    if x.skip(4) == y.skip(4) {
        assert(x =~= y);
        law_number_can_be_read_back(a);
        law_number_can_be_read_back(b);
    }
    law_mixer_tells_apart(start, upper, x.skip(4), y.skip(4), none);
}

/// Every ticket has a seed of its own. Of two tickets that are picked for the same owner
/// in the same round and block, at different places of the round below 2^32, the
/// numbers come from different seeds.
pub proof fn law_tickets_have_their_own_seeds(
    env: Env,
    owner: Seq<char>,
    round_id: u64,
    a: u64,
    b: u64,
    count: u8,
    number_max: u8,
) -> (seeds: (u64, u64))
    requires
        a != b,
        a < 0x100000000,
        b < 0x100000000,
    ensures
        quick_picked(env, owner, round_id, a, count, number_max) == picked(
            seeds.0,
            count,
            number_max,
        ),
        quick_picked(env, owner, round_id, b, count, number_max) == picked(
            seeds.1,
            count,
            number_max,
        ),
        seeds.0 != seeds.1,
{
    let s = mixed(mixed(MIX_START, encode_utf8(owner)), be_bytes(round_id));
    lemma_numbers_tell_apart(s, a, b);
    let h = be_bytes(env.height);
    let t = be_bytes(env.time_nanos);
    let x = mixed(mixed(mixed(s, be_bytes(a)), h), t);
    let y = mixed(mixed(mixed(s, be_bytes(b)), h), t);
    if x == y {
        let u = mixed(s, be_bytes(a));
        let v = mixed(s, be_bytes(b));
        lemma_mixing_keeps_apart(mixed(u, h), mixed(v, h), t);
        lemma_mixing_keeps_apart(u, v, h);
    }
    (x, y)
}

/// So have tickets that differ in one other number alone, be it their round, the height
/// or the time of their block, and in the lower half of it.
pub proof fn law_rounds_and_blocks_change_the_seed(
    a: Env,
    b: Env,
    owner: Seq<char>,
    r: u64,
    q: u64,
    place: u64,
    count: u8,
    number_max: u8,
) -> (seeds: (u64, u64))
    requires
        r / 0x100000000 == q / 0x100000000,
        a.height / 0x100000000 == b.height / 0x100000000,
        a.time_nanos / 0x100000000 == b.time_nanos / 0x100000000,
        ({
            ||| r != q && a == b
            ||| r == q && a.height != b.height && a.time_nanos == b.time_nanos
            ||| r == q && a.height == b.height && a.time_nanos != b.time_nanos
        }),
    ensures
        quick_picked(a, owner, r, place, count, number_max) == picked(seeds.0, count, number_max),
        quick_picked(b, owner, q, place, count, number_max) == picked(seeds.1, count, number_max),
        seeds.0 != seeds.1,
{
    let s = mixed(MIX_START, encode_utf8(owner));
    let p = be_bytes(place);
    let u = mixed(s, be_bytes(r));
    let v = mixed(s, be_bytes(q));
    let c = mixed(u, p);
    let d = mixed(v, p);
    let e = mixed(c, be_bytes(a.height));
    let f = mixed(d, be_bytes(b.height));
    let g = mixed(e, be_bytes(a.time_nanos));
    let h = mixed(f, be_bytes(b.time_nanos));
    if r != q {
        lemma_numbers_tell_apart(s, r, q);
        if c == d {
            lemma_mixing_keeps_apart(u, v, p);
        }
        if e == f {
            lemma_mixing_keeps_apart(c, d, be_bytes(a.height));
        }
    } else if a.height != b.height {
        lemma_numbers_tell_apart(c, a.height, b.height);
    } else {
        lemma_numbers_tell_apart(e, a.time_nanos, b.time_nanos);
    }
    if a.time_nanos == b.time_nanos && g == h {
        lemma_mixing_keeps_apart(e, f, be_bytes(a.time_nanos));
    }
    (g, h)
}

/// Every byte of the randomness counts: the winning numbers of two pieces of randomness
/// that differ in up to four places in a row come from different seeds.
pub proof fn law_randomness_decides_the_seed(
    before: Seq<u8>,
    a: Seq<u8>,
    b: Seq<u8>,
    after: Seq<u8>,
    count: u8,
    number_max: u8,
) -> (seeds: (u64, u64))
    requires
        a.len() == 4,
        b.len() == 4,
        a != b,
    ensures
        winning_numbers(before + a + after, count, number_max) == picked(
            seeds.0,
            count,
            number_max,
        ),
        winning_numbers(before + b + after, count, number_max) == picked(
            seeds.1,
            count,
            number_max,
        ),
        seeds.0 != seeds.1,
{
    law_mixer_tells_apart(MIX_START, before, a, b, after);
    (mixed(MIX_START, before + a + after), mixed(MIX_START, before + b + after))
}

// --- The numbers of a seed ---------------------------------------------------

/// The `n`-th state of the xorshift generator that starts with a seed.
pub open spec fn stream_at(seed: u64, n: nat) -> u64
    decreases n,
{
    if n == 0 {
        seed
    } else {
        let x = stream_at(seed, (n - 1) as nat);
        let y = x ^ (x >> 12);
        let z = y ^ (y << 25);
        z ^ (z >> 27)
    }
}

/// The number of the domain `1..=number_max` that the `n`-th state shows.
pub open spec fn shown_at(seed: u64, n: nat, number_max: u8) -> u8 {
    (stream_at(seed, n).wrapping_mul(0x2545f4914f6cdd1d) % (number_max as u64) + 1) as u8
}

/// Whether a number is shown after state `from` and up to state `to`.
pub open spec fn is_shown(seed: u64, from: nat, to: nat, number_max: u8, v: u8) -> bool {
    exists|n: nat| from < n <= to && #[trigger] shown_at(seed, n, number_max) == v
}

proof fn lemma_streamed_shown(
    seed: u64,
    k: nat,
    chosen: Seq<u8>,
    count: u8,
    number_max: u8,
    tries: nat,
) -> (t: nat)
    requires
        number_max > 0,
        chosen.len() <= count,
    ensures
        k <= t <= k + tries,
        ({
            let r = streamed(stream_at(seed, k), chosen, count, number_max, tries);
            &&& t == k ==> r == chosen
            &&& r.len() <= count
            &&& r.len() < count ==> t == k + tries
            &&& forall|v: u8|
                r.contains(v) <==> chosen.contains(v) || is_shown(seed, k, t, number_max, v)
            &&& r.len() == count && t > k ==> {
                let last = shown_at(seed, t, number_max);
                !chosen.contains(last) && !is_shown(seed, k, (t - 1) as nat, number_max, last)
            }
        }),
    decreases tries,
{
    let state = stream_at(seed, k);
    let r = streamed(state, chosen, count, number_max, tries);
    if chosen.len() >= count || tries == 0 {
        k
    } else {
        let next = step(state);
        let v0 = number_at(next, number_max);
        assert(next == stream_at(seed, k + 1));
        assert(v0 == shown_at(seed, k + 1, number_max));
        let more = if chosen.contains(v0) {
            chosen
        } else {
            chosen.push(v0)
        };
        assert(forall|v: u8| more.contains(v) <==> chosen.contains(v) || v == v0) by {
            assert forall|v: u8| more.contains(v) <==> chosen.contains(v) || v == v0 by {
                if !chosen.contains(v0) {
                    assert(more[chosen.len() as int] == v0);
                    if chosen.contains(v) {
                        let i = choose|i: int| 0 <= i < chosen.len() && chosen[i] == v;
                        assert(more[i] == v);
                    }
                }
            }
        }
        let t = lemma_streamed_shown(seed, k + 1, more, count, number_max, (tries - 1) as nat);
        assert forall|v: u8, to: nat|
            to >= k + 1 implies (is_shown(seed, k, to, number_max, v) <==> v == v0 || is_shown(
            seed,
            k + 1,
            to,
            number_max,
            v,
        )) by {
            if is_shown(seed, k, to, number_max, v) {
                let n = choose|n: nat|
                    k < n <= to && #[trigger] shown_at(seed, n, number_max) == v;
                if n != k + 1 {
                    assert(k + 1 < n <= to && shown_at(seed, n, number_max) == v);
                }
            }
            if v == v0 {
                assert(k < k + 1 <= to && shown_at(seed, k + 1, number_max) == v);
            }
        }
        assert(r == streamed(next, more, count, number_max, (tries - 1) as nat));
        t
    }
}

proof fn lemma_filled_up(chosen: Seq<u8>, count: u8, n: nat, number_max: u8)
    requires
        n >= 1,
    ensures
        ({
            let r = filled(chosen, count, n, number_max);
            &&& chosen.len() >= count ==> r == chosen
            &&& forall|v: u8| chosen.contains(v) ==> r.contains(v)
            &&& forall|v: u8|
                r.contains(v) && !chosen.contains(v) ==> n <= v && forall|w: u8|
                    n <= w <= v ==> r.contains(w)
        }),
    decreases number_max + 1 - n,
{
    let r = filled(chosen, count, n, number_max);
    if chosen.len() < count && n <= number_max {
        let more = if chosen.contains(n as u8) {
            chosen
        } else {
            chosen.push(n as u8)
        };
        lemma_filled_up(more, count, n + 1, number_max);
        assert forall|v: u8| chosen.contains(v) implies more.contains(v) by {
            let i = choose|i: int| 0 <= i < chosen.len() && chosen[i] == v;
            assert(more[i] == v);
        }
        assert(more.contains(n as u8)) by {
            if !chosen.contains(n as u8) {
                assert(more[chosen.len() as int] == n as u8);
            }
        }
        assert forall|v: u8| r.contains(v) && !chosen.contains(v) implies n <= v && forall|w: u8|
            n <= w <= v ==> r.contains(w) by {
            assert(r.contains(n as u8));
            if !more.contains(v) {
                assert forall|w: u8| n <= w <= v implies r.contains(w) by {
                    if w != n {
                        assert(n + 1 <= w);
                    }
                }
            } else {
                let i = choose|i: int| 0 <= i < more.len() && more[i] == v;
                assert(v == n);
            }
        }
    }
}

/// The numbers of a seed are the first ones that its stream shows: all that are shown
/// up to some state, the last of which is new unless the stream has been given up.
/// Only then other numbers come in, the smallest ones that are left.
pub proof fn law_numbers_are_the_first_shown(seed: u64, count: u8, number_max: u8) -> (t: nat)
    requires
        1 <= count <= number_max,
    ensures
        ({
            let start = if seed == 0 {
                0x9e3779b97f4a7c15
            } else {
                seed
            };
            let limit: nat = if count >= 16 {
                (64 * count) as nat
            } else {
                1024
            };
            let numbers = picked(seed, count, number_max);
            &&& t <= limit
            &&& forall|v: u8| is_shown(start, 0, t, number_max, v) ==> numbers.contains(v)
            &&& forall|v: u8|
                numbers.contains(v) && !is_shown(start, 0, t, number_max, v) ==> t == limit && (
                forall|w: u8| 1 <= w <= v ==> numbers.contains(w))
            &&& t < limit ==> t > 0 && !is_shown(
                start,
                0,
                (t - 1) as nat,
                number_max,
                shown_at(start, t, number_max),
            )
        }),
{
    let start = if seed == 0 {
        NONZERO_SEED
    } else {
        seed
    };
    let none = Seq::<u8>::empty();
    let tries = stream_tries(count);
    let t = lemma_streamed_shown(start, 0, none, count, number_max, tries);
    let chosen = streamed(start, none, count, number_max, tries);
    lemma_filled_up(chosen, count, 1, number_max);
    let all = filled(chosen, count, 1, number_max);
    lemma_ascending(all);
    let numbers = picked(seed, count, number_max);
    assert(stream_at(start, 0) == start);
    assert(forall|v: u8| numbers.contains(v) <==> all.contains(v));
    assert(forall|v: u8| chosen.contains(v) <==> is_shown(start, 0, t, number_max, v));
    assert(chosen.len() < count ==> t == tries);
    assert forall|v: u8|
        numbers.contains(v) && !is_shown(start, 0, t, number_max, v) implies t == tries && (
    forall|w: u8| 1 <= w <= v ==> numbers.contains(w)) by {
        assert(all.contains(v) && !chosen.contains(v));
    }
    t
}

} // verus!
