//! Address tokens of the socket tables (`HEXADDR:HEXPORT`) and the text of IP addresses.
use vstd::prelude::*;
use crate::digits::{
    all_digits, digit_value, digits_value, parse_unsigned, parse_unsigned_spec, unsigned_digits,
};

verus! {

pub open spec fn digit_chars() -> Seq<char> {
    seq!['0', '1', '2', '3', '4', '5', '6', '7', '8', '9', 'a', 'b', 'c', 'd', 'e', 'f']
}

/// `n` written in decimal, without leading zeros.
pub open spec fn dec_text(n: nat) -> Seq<char>
    decreases n,
{
    if n < 10 {
        seq![digit_chars()[n as int]]
    } else {
        dec_text(n / 10).push(digit_chars()[(n % 10) as int])
    }
}

/// `n` written in lowercase hexadecimal, without leading zeros.
pub open spec fn hex_text(n: nat) -> Seq<char>
    decreases n,
{
    if n < 16 {
        seq![digit_chars()[n as int]]
    } else {
        hex_text(n / 16).push(digit_chars()[(n % 16) as int])
    }
}

pub open spec fn radix_text(n: nat, radix: nat) -> Seq<char> {
    if radix == 16 {
        hex_text(n)
    } else {
        dec_text(n)
    }
}

/// Dotted decimal text of four octets.
pub open spec fn ipv4_text(a: nat, b: nat, c: nat, d: nat) -> Seq<char> {
    dec_text(a) + seq!['.'] + dec_text(b) + seq!['.'] + dec_text(c) + seq!['.'] + dec_text(d)
}

/// The eight 16-bit groups of sixteen octets in network order.
pub open spec fn segments(b: Seq<u8>) -> Seq<nat> {
    Seq::new(8, |k: int| (b[2 * k] as nat) * 256 + (b[2 * k + 1] as nat))
}

/// How many zero groups follow one another from position `i` on.
pub open spec fn zero_run(s: Seq<nat>, i: int) -> nat
    decreases s.len() - i,
{
    if 0 <= i < s.len() && s[i] == 0 {
        1 + zero_run(s, i + 1)
    } else {
        0
    }
}

/// The first of the positions below `n` at which the zero run is longest.
pub open spec fn longest_run_start(s: Seq<nat>, n: int) -> int
    decreases n,
{
    if n <= 1 {
        0
    } else {
        let b = longest_run_start(s, n - 1);
        if zero_run(s, n - 1) > zero_run(s, b) {
            n - 1
        } else {
            b
        }
    }
}

/// Groups in lowercase hexadecimal, separated by colons.
pub open spec fn hex_groups(s: Seq<nat>) -> Seq<char>
    decreases s.len(),
{
    if s.len() == 0 {
        seq![]
    } else if s.len() == 1 {
        hex_text(s[0])
    } else {
        hex_groups(s.drop_last()) + seq![':'] + hex_text(s.last())
    }
}

/// An IPv4 address embedded as `::ffff:a.b.c.d`.
pub open spec fn is_ipv4_mapped(s: Seq<nat>) -> bool {
    s[0] == 0 && s[1] == 0 && s[2] == 0 && s[3] == 0 && s[4] == 0 && s[5] == 0xffff
}

/// Canonical text of an IPv6 address given as sixteen octets: an IPv4-mapped address
/// ends in dotted decimal; otherwise the first longest run of two or more zero groups
/// is written `::`.
pub open spec fn ipv6_text(b: Seq<u8>) -> Seq<char> {
    let s = segments(b);
    if is_ipv4_mapped(s) {
        seq![':', ':', 'f', 'f', 'f', 'f', ':'] + ipv4_text(
            b[12] as nat,
            b[13] as nat,
            b[14] as nat,
            b[15] as nat,
        )
    } else {
        let st = longest_run_start(s, 8);
        let len = zero_run(s, st);
        if len > 1 {
            hex_groups(s.subrange(0, st)) + seq![':', ':'] + hex_groups(s.subrange(st + len, 8))
        } else {
            hex_groups(s)
        }
    }
}

pub open spec fn nat_seq(v: Seq<u64>) -> Seq<nat> {
    v.map_values(|x: u64| x as nat)
}

proof fn lemma_zero_run_bound(s: Seq<nat>, i: int)
    requires
        0 <= i <= s.len(),
    ensures
        zero_run(s, i) <= s.len() - i,
    decreases s.len() - i,
{
    if i < s.len() {
        lemma_zero_run_bound(s, i + 1);
    }
}

proof fn lemma_longest_run_start_range(s: Seq<nat>, n: int)
    requires
        n >= 1,
    ensures
        0 <= longest_run_start(s, n) < n,
    decreases n,
{
    if n > 1 {
        lemma_longest_run_start_range(s, n - 1);
    }
}

fn run_at(segs: &Vec<u64>, i: usize) -> (r: u64)
    requires
        i <= segs.len() <= 8,
    ensures
        r == zero_run(nat_seq(segs@), i as int),
{
    let ghost s = nat_seq(segs@);
    let mut j: usize = i;
    while j < segs.len() && segs[j] == 0
        invariant
            i <= j <= segs.len() <= 8,
            s == nat_seq(segs@),
            zero_run(s, i as int) == (j - i) + zero_run(s, j as int),
        decreases segs.len() - j,
    {
        j = j + 1;
    }
    (j - i) as u64
}

fn push_groups(out: &mut Vec<char>, segs: &Vec<u64>, lo: usize, hi: usize)
    requires
        lo <= hi <= segs.len(),
    ensures
        final(out)@ == old(out)@ + hex_groups(nat_seq(segs@).subrange(lo as int, hi as int)),
{
    let ghost start = out@;
    let ghost s = nat_seq(segs@);
    let mut k: usize = lo;
    assert(s.subrange(lo as int, lo as int) =~= Seq::<nat>::empty());
    assert(start + seq![] =~= start);
    while k < hi
        invariant
            lo <= k <= hi <= segs.len(),
            s == nat_seq(segs@),
            out@ == start + hex_groups(s.subrange(lo as int, k as int)),
        decreases hi - k,
    {
        let ghost before = out@;
        assert(s.subrange(lo as int, k + 1).drop_last() =~= s.subrange(lo as int, k as int));
        if k > lo {
            out.push(':');
        }
        push_radix(out, segs[k], 16);
        k = k + 1;
        proof {
            let sub = s.subrange(lo as int, k as int);
            if k - 1 == lo {
                assert(sub.drop_last() =~= Seq::<nat>::empty());
                assert(out@ =~= start + hex_groups(sub));
            } else {
                assert(out@ =~= start + hex_groups(sub));
            }
        }
    }
}

fn push_ipv6(out: &mut Vec<char>, b: &Vec<u8>)
    requires
        b.len() == 16,
    ensures
        final(out)@ == old(out)@ + ipv6_text(b@),
{
    let ghost start = out@;
    let ghost s = segments(b@);
    let mut segs: Vec<u64> = Vec::new();
    let mut k: usize = 0;
    while k < 8
        invariant
            k <= 8,
            b.len() == 16,
            s == segments(b@),
            segs.len() == k,
            forall|j: int| 0 <= j < k ==> #[trigger] segs@[j] as nat == s[j],
        decreases 8 - k,
    {
        segs.push(b[2 * k] as u64 * 256 + b[2 * k + 1] as u64);
        k = k + 1;
    }
    assert(nat_seq(segs@) =~= s);
    if segs[0] == 0 && segs[1] == 0 && segs[2] == 0 && segs[3] == 0 && segs[4] == 0 && segs[5]
        == 0xffff {
        out.push(':');
        out.push(':');
        out.push('f');
        out.push('f');
        out.push('f');
        out.push('f');
        out.push(':');
        push_ipv4(out, b[12] as u64, b[13] as u64, b[14] as u64, b[15] as u64);
        assert(out@ =~= start + ipv6_text(b@));
    } else {
        let mut best: usize = 0;
        let mut i: usize = 1;
        while i < 8
            invariant
                1 <= i <= 8,
                segs.len() == 8,
                nat_seq(segs@) == s,
                best as int == longest_run_start(s, i as int),
            decreases 8 - i,
        {
            proof {
                lemma_longest_run_start_range(s, i as int);
            }
            if run_at(&segs, i) > run_at(&segs, best) {
                best = i;
            }
            i = i + 1;
        }
        proof {
            lemma_longest_run_start_range(s, 8);
            lemma_zero_run_bound(s, best as int);
        }
        let len = run_at(&segs, best);
        if len > 1 {
            push_groups(out, &segs, 0, best);
            out.push(':');
            out.push(':');
            push_groups(out, &segs, best + len as usize, 8);
            assert(out@ =~= start + ipv6_text(b@));
        } else {
            push_groups(out, &segs, 0, 8);
            assert(s.subrange(0, 8) =~= s);
            assert(out@ =~= start + ipv6_text(b@));
        }
    }
}

pub open spec fn or_zero(o: Option<nat>) -> nat {
    match o {
        Some(v) => v,
        None => 0,
    }
}

pub open spec fn colon_count(t: Seq<u8>) -> nat
    decreases t.len(),
{
    if t.len() == 0 {
        0
    } else {
        colon_count(t.drop_last()) + if t.last() == 58 {
            1nat
        } else {
            0nat
        }
    }
}

/// Position of the last colon, or -1 where there is none.
pub open spec fn last_colon(t: Seq<u8>) -> int
    decreases t.len(),
{
    if t.len() == 0 {
        -1
    } else if t.last() == 58 {
        t.len() - 1
    } else {
        last_colon(t.drop_last())
    }
}

/// Sixteen octets, each read from a pair of hex digits; an unreadable pair gives 0.
pub open spec fn pair_octets(a: Seq<u8>) -> Seq<u8> {
    Seq::new(16, |i: int| or_zero(parse_unsigned_spec(a.subrange(2 * i, 2 * i + 2), 16, 256)) as u8)
}

/// The text of a hex address field: eight digits are a little-endian IPv4 word,
/// thirty-two digits are an IPv6 address in network order, anything else is
/// `0.0.0.0`.
pub open spec fn address_text(a: Seq<u8>) -> Seq<char> {
    if a.len() == 8 {
        let v = or_zero(parse_unsigned_spec(a, 16, 0x1_0000_0000));
        ipv4_text(v % 256, (v / 256) % 256, (v / 65536) % 256, v / 16777216)
    } else if a.len() == 32 {
        ipv6_text(pair_octets(a))
    } else {
        ipv4_text(0, 0, 0, 0)
    }
}

/// What an `address:port` token decodes to; a token without exactly one colon gives
/// `0.0.0.0` and port 0, an unreadable port gives 0.
pub open spec fn endpoint_spec(t: Seq<u8>) -> (Seq<char>, nat) {
    if colon_count(t) != 1 {
        (ipv4_text(0, 0, 0, 0), 0)
    } else {
        let k = last_colon(t);
        (
            address_text(t.subrange(0, k)),
            or_zero(parse_unsigned_spec(t.subrange(k + 1, t.len() as int), 16, 0x10000)),
        )
    }
}

proof fn lemma_last_colon_range(t: Seq<u8>)
    ensures
        -1 <= last_colon(t) < t.len(),
        colon_count(t) > 0 ==> last_colon(t) >= 0,
    decreases t.len(),
{
    if t.len() > 0 {
        lemma_last_colon_range(t.drop_last());
    }
}

fn or_zero_exec(o: Option<u64>) -> (r: u64)
    ensures
        r as nat == or_zero(crate::digits::opt_nat(o)),
{
    match o {
        Some(v) => v,
        None => 0,
    }
}

fn address_chars(a: &[u8]) -> (r: Vec<char>)
    ensures
        r@ == address_text(a@),
{
    let mut out: Vec<char> = Vec::new();
    if a.len() == 8 {
        let v = or_zero_exec(parse_unsigned(a, 16, 0x1_0000_0000));
        push_ipv4(&mut out, v % 256, (v / 256) % 256, (v / 65536) % 256, v / 16777216);
    } else if a.len() == 32 {
        let mut octets: Vec<u8> = Vec::new();
        let mut i: usize = 0;
        while i < 16
            invariant
                i <= 16,
                a.len() == 32,
                octets.len() == i,
                forall|j: int| 0 <= j < i ==> #[trigger] octets@[j] == pair_octets(a@)[j],
            decreases 16 - i,
        {
            let pair = parse_unsigned(&a[2 * i..2 * i + 2], 16, 256);
            octets.push(or_zero_exec(pair) as u8);
            i = i + 1;
        }
        assert(octets@ =~= pair_octets(a@));
        push_ipv6(&mut out, &octets);
    } else {
        push_ipv4(&mut out, 0, 0, 0, 0);
    }
    assert(out@ =~= address_text(a@));
    out
}

/// Decodes an `address:port` token of a socket table.
pub fn decode_endpoint(t: &[u8]) -> (r: (Vec<char>, u16))
    ensures
        r.0@ == endpoint_spec(t@).0,
        r.1 as nat == endpoint_spec(t@).1,
{
    let mut count: usize = 0;
    let mut last: usize = 0;
    let mut i: usize = 0;
    while i < t.len()
        invariant
            i <= t.len(),
            count as nat == colon_count(t@.subrange(0, i as int)),
            count <= i,
            count > 0 ==> last as int == last_colon(t@.subrange(0, i as int)),
        decreases t.len() - i,
    {
        assert(t@.subrange(0, i + 1).drop_last() =~= t@.subrange(0, i as int));
        if t[i] == 58 {
            count = count + 1;
            last = i;
        }
        i = i + 1;
    }
    assert(t@.subrange(0, i as int) =~= t@);
    if count != 1 {
        let mut out: Vec<char> = Vec::new();
        push_ipv4(&mut out, 0, 0, 0, 0);
        assert(out@ =~= ipv4_text(0, 0, 0, 0));
        return (out, 0);
    }
    proof {
        lemma_last_colon_range(t@);
    }
    let text = address_chars(&t[0..last]);
    let port = or_zero_exec(parse_unsigned(&t[last + 1..t.len()], 16, 0x10000));
    (text, port as u16)
}

fn digit_char(n: u64) -> (r: char)
    requires
        n < 16,
    ensures
        r == digit_chars()[n as int],
{
    match n {
        0 => '0',
        1 => '1',
        2 => '2',
        3 => '3',
        4 => '4',
        5 => '5',
        6 => '6',
        7 => '7',
        8 => '8',
        9 => '9',
        10 => 'a',
        11 => 'b',
        12 => 'c',
        13 => 'd',
        14 => 'e',
        _ => 'f',
    }
}

fn push_radix(out: &mut Vec<char>, n: u64, radix: u64)
    requires
        radix == 10 || radix == 16,
    ensures
        final(out)@ == old(out)@ + radix_text(n as nat, radix as nat),
    decreases n,
{
    if n < radix {
        out.push(digit_char(n));
    } else {
        push_radix(out, n / radix, radix);
        out.push(digit_char(n % radix));
    }
}

fn push_ipv4(out: &mut Vec<char>, a: u64, b: u64, c: u64, d: u64)
    ensures
        final(out)@ == old(out)@ + ipv4_text(a as nat, b as nat, c as nat, d as nat),
{
    let ghost start = out@;
    push_radix(out, a, 10);
    out.push('.');
    push_radix(out, b, 10);
    out.push('.');
    push_radix(out, c, 10);
    out.push('.');
    push_radix(out, d, 10);
    assert(out@ =~= start + ipv4_text(a as nat, b as nat, c as nat, d as nat));
}

/// The byte of an uppercase hex digit.
pub open spec fn hex_digit_byte(n: nat) -> u8 {
    if n < 10 {
        (48 + n) as u8
    } else {
        (55 + n) as u8
    }
}

/// `n` as exactly `width` uppercase hex digits, most significant first.
pub open spec fn hex_bytes(n: nat, width: nat) -> Seq<u8>
    decreases width,
{
    if width == 0 {
        Seq::empty()
    } else {
        hex_bytes(n / 16, (width - 1) as nat).push(hex_digit_byte(n % 16))
    }
}

pub open spec fn hex_span(width: nat) -> nat
    decreases width,
{
    if width == 0 {
        1
    } else {
        16 * hex_span((width - 1) as nat)
    }
}

/// The 32-bit word whose little-endian bytes are the four octets.
pub open spec fn le_word(a: u8, b: u8, c: u8, d: u8) -> nat {
    a as nat + 256 * (b as nat) + 65536 * (c as nat) + 16777216 * (d as nat)
}

proof fn lemma_hex_bytes(n: nat, width: nat)
    requires
        n < hex_span(width),
    ensures
        hex_bytes(n, width).len() == width,
        all_digits(hex_bytes(n, width), 16),
        digits_value(hex_bytes(n, width), 16) == n,
        forall|i: int| 0 <= i < width ==> #[trigger] hex_bytes(n, width)[i] != 58u8,
        width > 0 ==> hex_bytes(n, width)[0] != 43u8,
    decreases width,
{
    if width > 0 {
        let w1 = (width - 1) as nat;
        assert(n / 16 < hex_span(w1)) by (nonlinear_arith)
            requires
                n < 16 * hex_span(w1),
        ;
        lemma_hex_bytes(n / 16, w1);
        let h = hex_bytes(n, width);
        let p = hex_bytes(n / 16, w1);
        assert(h.drop_last() =~= p);
        assert(digit_value(hex_digit_byte(n % 16)) == n % 16);
        assert(all_digits(h, 16)) by {
            assert forall|i: int| 0 <= i < h.len() implies #[trigger] digit_value(h[i]) < 16 by {
                if i < p.len() {
                    assert(h[i] == p[i]);
                }
            }
        }
        assert(h[0] != 43u8) by {
            if w1 > 0 {
                assert(h[0] == p[0]);
            }
        }
    } else {
        assert(n == 0);
    }
}

proof fn lemma_colon_split(x: Seq<u8>, y: Seq<u8>)
    requires
        forall|i: int| 0 <= i < x.len() ==> x[i] != 58u8,
        forall|i: int| 0 <= i < y.len() ==> y[i] != 58u8,
    ensures
        colon_count(x + seq![58u8] + y) == 1,
        last_colon(x + seq![58u8] + y) == x.len(),
    decreases y.len(),
{
    let t = x + seq![58u8] + y;
    if y.len() == 0 {
        assert(t.drop_last() =~= x);
        lemma_no_colon(x);
    } else {
        lemma_colon_split(x, y.drop_last());
        assert(t.drop_last() =~= x + seq![58u8] + y.drop_last());
    }
}

proof fn lemma_no_colon(x: Seq<u8>)
    requires
        forall|i: int| 0 <= i < x.len() ==> x[i] != 58u8,
    ensures
        colon_count(x) == 0,
    decreases x.len(),
{
    if x.len() > 0 {
        lemma_no_colon(x.drop_last());
    }
}

/// Writing an IPv4 address as the eight hex digits of its little-endian word, and a
/// port as four hex digits, then decoding the token, gives back the dotted decimal
/// text and the port.
pub proof fn lemma_ipv4_round_trip(a: u8, b: u8, c: u8, d: u8, port: u16)
    ensures
        endpoint_spec(hex_bytes(le_word(a, b, c, d), 8) + seq![58u8] + hex_bytes(port as nat, 4))
            == (ipv4_text(a as nat, b as nat, c as nat, d as nat), port as nat),
{
    let v = le_word(a, b, c, d);
    let x = hex_bytes(v, 8);
    let y = hex_bytes(port as nat, 4);
    reveal_with_fuel(hex_span, 9);
    assert(hex_span(4) == 65536);
    assert(hex_span(8) == 0x1_0000_0000);
    lemma_hex_bytes(v, 8);
    lemma_hex_bytes(port as nat, 4);
    lemma_colon_split(x, y);
    let t = x + seq![58u8] + y;
    assert(t.subrange(0, 8) =~= x);
    assert(t.subrange(9, t.len() as int) =~= y);
    assert(unsigned_digits(x) == x);
    assert(unsigned_digits(y) == y);
    let (a1, b1, c1, d1) = (a as nat, b as nat, c as nat, d as nat);
    assert(v % 256 == a1 && (v / 256) % 256 == b1 && (v / 65536) % 256 == c1 && v / 16777216
        == d1) by (nonlinear_arith)
        requires
            v == a1 + 256 * b1 + 65536 * c1 + 16777216 * d1,
            a1 < 256,
            b1 < 256,
            c1 < 256,
            d1 < 256,
    ;
}

} // verus!
