//! Big-endian byte packing for the gossip wire format.
use vstd::prelude::*;

verus! {

/// 256 raised to `n`: the number of values `n` bytes can carry.
pub open spec fn pow256(n: nat) -> int
    decreases n,
{
    if n == 0 {
        1
    } else {
        256 * pow256((n - 1) as nat)
    }
}

pub proof fn lemma_pow256_pos(n: nat)
    ensures
        pow256(n) >= 1,
    decreases n,
{
    if n > 0 {
        lemma_pow256_pos((n - 1) as nat);
    }
}

pub proof fn lemma_pow256_mono(a: nat, b: nat)
    requires
        a <= b,
    ensures
        pow256(a) <= pow256(b),
    decreases b,
{
    if a < b {
        lemma_pow256_mono(a, (b - 1) as nat);
        lemma_pow256_pos((b - 1) as nat);
    }
}

/// The value of sixteen bytes always fits a u128.
pub proof fn lemma_pow256_16()
    ensures
        pow256(16) == 0x100000000000000000000000000000000,
{
    reveal_with_fuel(pow256, 17);
}

/// `x` written big-endian in `n` bytes.
pub open spec fn be_bytes(x: int, n: nat) -> Seq<u8>
    decreases n,
{
    if n == 0 {
        Seq::empty()
    } else {
        be_bytes(x / 256, (n - 1) as nat).push((x % 256) as u8)
    }
}

pub proof fn lemma_be_bytes_len(x: int, n: nat)
    ensures
        be_bytes(x, n).len() == n,
    decreases n,
{
    if n > 0 {
        lemma_be_bytes_len(x / 256, (n - 1) as nat);
    }
}

/// The number a big-endian byte string denotes.
pub open spec fn be_val(s: Seq<u8>) -> int
    decreases s.len(),
{
    if s.len() == 0 {
        0
    } else {
        be_val(s.drop_last()) * 256 + s.last()
    }
}

pub proof fn lemma_be_val_bound(s: Seq<u8>)
    ensures
        0 <= be_val(s) < pow256(s.len()),
    decreases s.len(),
{
    if s.len() > 0 {
        lemma_be_val_bound(s.drop_last());
    }
}

/// Dividing by 256 strips the last byte's worth of value.
proof fn lemma_div_bound(x: int, p: int)
    requires
        0 <= x,
        x < 256 * p,
        1 <= p,
    ensures
        x / 256 < p,
{
    if x / 256 >= p {
        assert(x >= 256 * (x / 256)) by {
            vstd::arithmetic::div_mod::lemma_fundamental_div_mod(x, 256);
        }
        assert(256 * (x / 256) >= 256 * p) by (nonlinear_arith)
            requires
                x / 256 >= p,
        ;
    }
}

/// Reading back the big-endian bytes of `x` yields `x`.
pub proof fn lemma_be_round_trip(x: int, n: nat)
    requires
        0 <= x < pow256(n),
    ensures
        be_val(be_bytes(x, n)) == x,
    decreases n,
{
    if n > 0 {
        lemma_pow256_pos((n - 1) as nat);
        lemma_div_bound(x, pow256((n - 1) as nat));
        lemma_be_round_trip(x / 256, (n - 1) as nat);
        lemma_be_bytes_len(x / 256, (n - 1) as nat);
        let s = be_bytes(x, n);
        assert(s.drop_last() =~= be_bytes(x / 256, (n - 1) as nat));
        assert(s.last() == (x % 256) as u8);
        vstd::arithmetic::div_mod::lemma_fundamental_div_mod(x, 256);
    }
}

/// Append `x` to `out` as `n` big-endian bytes.
pub fn push_be(out: &mut Vec<u8>, x: u128, n: usize)
    requires
        n <= 16,
        (x as int) < pow256(n as nat),
    ensures
        final(out)@ == old(out)@ + be_bytes(x as int, n as nat),
    decreases n,
{
    if n == 0 {
        proof {
            assert(old(out)@ + be_bytes(x as int, 0) =~= old(out)@);
        }
        return;
    }
    proof {
        lemma_pow256_pos((n - 1) as nat);
        lemma_div_bound(x as int, pow256((n - 1) as nat));
    }
    push_be(out, x / 256, n - 1);
    out.push((x % 256) as u8);
    proof {
        assert(final(out)@ =~= old(out)@ + be_bytes(x as int, n as nat));
    }
}

/// Read `n` big-endian bytes of `s` starting at `start`.
pub fn read_be(s: &Vec<u8>, start: usize, n: usize) -> (r: u128)
    requires
        n <= 16,
        start + n <= s@.len(),
    ensures
        r as int == be_val(s@.subrange(start as int, (start + n) as int)),
{
    let slen = s.len();
    let mut acc: u128 = 0;
    let mut i: usize = 0;
    proof {
        assert(s@.subrange(start as int, start as int) =~= Seq::empty());
    }
    while i < n
        invariant
            i <= n,
            n <= 16,
            slen == s@.len(),
            start + n <= slen,
            acc as int == be_val(s@.subrange(start as int, (start + i) as int)),
        decreases n - i,
    {
        proof {
            lemma_be_val_bound(s@.subrange(start as int, (start + i) as int));
            lemma_pow256_mono((i + 1) as nat, 16);
            lemma_pow256_16();
            assert((acc as int) * 256 + 255 < pow256((i + 1) as nat)) by {
                assert(pow256((i + 1) as nat) == 256 * pow256(i as nat));
                assert((acc as int) < pow256(i as nat));
                assert((acc as int) * 256 <= (pow256(i as nat) - 1) * 256) by (nonlinear_arith)
                    requires
                        (acc as int) <= pow256(i as nat) - 1,
                ;
            }
        }
        let b = s[start + i];
        acc = acc * 256 + (b as u128);
        proof {
            let pre = s@.subrange(start as int, (start + i) as int);
            let cur = s@.subrange(start as int, (start + i + 1) as int);
            assert(cur.drop_last() =~= pre);
            assert(cur.last() == s@[(start + i) as int]);
        }
        i += 1;
    }
    acc
}

/// Append a byte range of `s` to `out`.
pub fn push_range(out: &mut Vec<u8>, s: &Vec<u8>, start: usize, end: usize)
    requires
        start <= end,
        end <= s@.len(),
    ensures
        final(out)@ == old(out)@ + s@.subrange(start as int, end as int),
{
    let slen = s.len();
    let mut i: usize = start;
    proof {
        assert(old(out)@ + s@.subrange(start as int, start as int) =~= old(out)@);
    }
    while i < end
        invariant
            start <= i <= end,
            slen == s@.len(),
            end <= slen,
            out@ == old(out)@ + s@.subrange(start as int, i as int),
        decreases end - i,
    {
        out.push(s[i]);
        proof {
            assert(old(out)@ + s@.subrange(start as int, (i + 1) as int) =~= (old(out)@
                + s@.subrange(start as int, i as int)).push(s@[i as int]));
        }
        i += 1;
    }
}

/// Copy a byte range of `s` out as a fresh vector.
pub fn copy_range(s: &Vec<u8>, start: usize, end: usize) -> (r: Vec<u8>)
    requires
        start <= end,
        end <= s@.len(),
    ensures
        r@ == s@.subrange(start as int, end as int),
{
    let mut r: Vec<u8> = Vec::new();
    push_range(&mut r, s, start, end);
    proof {
        assert(Seq::<u8>::empty() + s@.subrange(start as int, end as int) =~= s@.subrange(
            start as int,
            end as int,
        ));
    }
    r
}

} // verus!
