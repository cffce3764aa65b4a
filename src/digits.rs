//! Unsigned integers written in a radix, read the way `from_str_radix` reads them.
use vstd::prelude::*;

verus! {

/// The value of one ASCII digit: `0`-`9`, then letters of either case from 10 on;
/// any other byte gets 36, which no radix accepts.
pub open spec fn digit_value(c: u8) -> nat {
    if 48 <= c <= 57 {
        (c - 48) as nat
    } else if 97 <= c <= 122 {
        (c - 87) as nat
    } else if 65 <= c <= 90 {
        (c - 55) as nat
    } else {
        36
    }
}

pub open spec fn all_digits(d: Seq<u8>, radix: nat) -> bool {
    forall|i: int| 0 <= i < d.len() ==> #[trigger] digit_value(d[i]) < radix
}

/// The number that a sequence of digits denotes, most significant first.
pub open spec fn digits_value(d: Seq<u8>, radix: nat) -> nat
    decreases d.len(),
{
    if d.len() == 0 {
        0
    } else {
        digits_value(d.drop_last(), radix) * radix + digit_value(d.last())
    }
}

/// A single leading `+` is allowed before the digits.
pub open spec fn unsigned_digits(b: Seq<u8>) -> Seq<u8> {
    if b.len() > 0 && b[0] == 43 {
        b.drop_first()
    } else {
        b
    }
}

/// The value of `b` read in `radix`, if it is one or more digits (after an optional
/// `+`) and the value is below `bound`.
pub open spec fn parse_unsigned_spec(b: Seq<u8>, radix: nat, bound: nat) -> Option<nat> {
    let d = unsigned_digits(b);
    if d.len() > 0 && all_digits(d, radix) && digits_value(d, radix) < bound {
        Some(digits_value(d, radix))
    } else {
        None
    }
}

pub open spec fn opt_nat(o: Option<u64>) -> Option<nat> {
    match o {
        Some(v) => Some(v as nat),
        None => None,
    }
}

proof fn lemma_prefix_value_le(d: Seq<u8>, k: int, radix: nat)
    requires
        0 <= k <= d.len(),
        radix >= 1,
    ensures
        digits_value(d.subrange(0, k), radix) <= digits_value(d, radix),
    decreases d.len(),
{
    if k < d.len() {
        lemma_prefix_value_le(d.drop_last(), k, radix);
        assert(d.drop_last().subrange(0, k) =~= d.subrange(0, k));
        let v = digits_value(d.drop_last(), radix);
        assert(v * radix >= v) by (nonlinear_arith)
            requires
                radix >= 1,
        ;
    } else {
        assert(d.subrange(0, k) =~= d);
    }
}

fn digit_of(c: u8) -> (r: u64)
    ensures
        r == digit_value(c),
{
    if 48 <= c && c <= 57 {
        (c - 48) as u64
    } else if 97 <= c && c <= 122 {
        (c - 87) as u64
    } else if 65 <= c && c <= 90 {
        (c - 55) as u64
    } else {
        36
    }
}

/// Reads an unsigned integer in `radix`; `None` where `from_str_radix` would fail.
pub fn parse_unsigned(b: &[u8], radix: u64, bound: u64) -> (r: Option<u64>)
    requires
        2 <= radix <= 36,
        1 <= bound <= 0x1_0000_0000,
    ensures
        opt_nat(r) == parse_unsigned_spec(b@, radix as nat, bound as nat),
{
    let start: usize = if b.len() > 0 && b[0] == 43 {
        1
    } else {
        0
    };
    let ghost d = unsigned_digits(b@);
    assert(d =~= b@.subrange(start as int, b@.len() as int));
    if start == b.len() {
        return None;
    }
    let mut acc: u64 = 0;
    let mut i: usize = start;
    while i < b.len()
        invariant
            start <= i <= b.len(),
            d == b@.subrange(start as int, b@.len() as int),
            d == unsigned_digits(b@),
            all_digits(b@.subrange(start as int, i as int), radix as nat),
            acc == digits_value(b@.subrange(start as int, i as int), radix as nat),
            acc < bound,
            2 <= radix <= 36,
            1 <= bound <= 0x1_0000_0000,
        decreases b.len() - i,
    {
        let ghost pre = b@.subrange(start as int, i as int);
        let ghost next_pre = b@.subrange(start as int, i + 1);
        assert(next_pre.drop_last() =~= pre);
        assert(d.subrange(0, i + 1 - start) =~= next_pre);
        let v = digit_of(b[i]);
        if v >= radix {
            assert(d[i - start] == b@[i as int]);
            assert(digit_value(d[i - start]) >= radix);
            return None;
        }
        assert(acc * radix <= 0xffff_ffff * 36) by (nonlinear_arith)
            requires
                acc < 0x1_0000_0000,
                radix <= 36,
        ;
        let next = acc * radix + v;
        assert(digits_value(next_pre, radix as nat) == next);
        if next >= bound {
            proof {
                if all_digits(d, radix as nat) {
                    lemma_prefix_value_le(d, i + 1 - start, radix as nat);
                }
            }
            return None;
        }
        acc = next;
        i = i + 1;
        assert(all_digits(next_pre, radix as nat)) by {
            assert forall|j: int| 0 <= j < next_pre.len() implies #[trigger] digit_value(
                next_pre[j],
            ) < radix by {
                if j < pre.len() {
                    assert(next_pre[j] == pre[j]);
                }
            }
        }
    }
    assert(b@.subrange(start as int, i as int) =~= d);
    Some(acc)
}

} // verus!
