//! Native-endian byte encodings of integers.
use vstd::prelude::*;

use crate::thread::{le_value, pow256};

verus! {

/// The `n` bytes of `v` (taken modulo `256^n`), least significant first when
/// `little`, most significant first otherwise.
pub open spec fn int_bytes(v: nat, n: nat, little: bool) -> Seq<u8> {
    let le = Seq::new(n, |i: int| ((v / pow256(i as nat)) % 256) as u8);
    if little {
        le
    } else {
        le.reverse()
    }
}

/// `u16::from_ne_bytes`: reads two bytes in the machine's byte order, which is either
/// little-endian or big-endian; which one is left open here.
#[verifier::external_body]
fn u16_from_ne_bytes(b: [u8; 2]) -> (r: u16)
    ensures
        r == b@[0] + 256 * b@[1] || r == 256 * b@[0] + b@[1],
{
    u16::from_ne_bytes(b)
}

/// Whether this machine stores integers least significant byte first.
pub fn native_little_endian() -> bool {
    u16_from_ne_bytes([1u8, 0u8]) == 1
}

proof fn lemma_pow256_pos(n: nat)
    ensures
        pow256(n) >= 1,
    decreases n,
{
    if n > 0 {
        lemma_pow256_pos((n - 1) as nat);
    }
}

/// The `n` bytes of `v` (modulo `256^n`) in the given byte order.
pub fn int_to_bytes(v: u64, n: usize, little: bool) -> (r: Vec<u8>)
    requires
        n <= 8,
    ensures
        r@ == int_bytes(v as nat, n as nat, little),
{
    let mut le: Vec<u8> = Vec::new();
    let mut x: u64 = v;
    let mut i: usize = 0;
    assert(pow256(0) == 1);
    while i < n
        invariant
            i <= n <= 8,
            le@.len() == i,
            x as nat == v as nat / pow256(i as nat),
            forall|j: int| 0 <= j < i ==> #[trigger] le@[j] == ((v as nat / pow256(j as nat)) % 256) as u8,
        decreases n - i,
    {
        le.push((x % 256) as u8);
        proof {
            lemma_pow256_pos(i as nat);
            assert(pow256((i + 1) as nat) == 256 * pow256(i as nat));
            vstd::arithmetic::div_mod::lemma_div_denominator(v as int, pow256(i as nat) as int, 256);
            assert((v as nat / pow256(i as nat)) / 256 == v as nat / (pow256(i as nat) * 256));
            assert(pow256(i as nat) * 256 == 256 * pow256(i as nat)) by (nonlinear_arith);
        }
        x = x / 256;
        i += 1;
    }
    let ghost les = Seq::new(n as nat, |j: int| ((v as nat / pow256(j as nat)) % 256) as u8);
    assert(le@ =~= les);
    if little {
        le
    } else {
        let mut be: Vec<u8> = Vec::new();
        let mut k: usize = n;
        while k > 0
            invariant
                k <= n,
                le@ == les,
                les.len() == n,
                be@ == les.subrange(k as int, n as int).reverse(),
            decreases k,
        {
            k -= 1;
            be.push(le[k]);
            proof {
                assert(be@ =~= les.subrange(k as int, n as int).reverse());
            }
        }
        assert(les.subrange(0, n as int) =~= les);
        be
    }
}

/// The number that bytes `s` stand for: least significant first when `little`, most
/// significant first otherwise.
pub open spec fn bytes_value(s: Seq<u8>, little: bool) -> nat {
    if little {
        le_value(s)
    } else {
        le_value(s.reverse())
    }
}

proof fn lemma_le_int_bytes_value(v: nat, n: nat)
    ensures
        le_value(int_bytes(v, n, true)) == v % pow256(n),
    decreases n,
{
    let s = int_bytes(v, n, true);
    if n == 0 {
        assert(s.len() == 0);
    } else {
        lemma_le_int_bytes_value(v / 256, (n - 1) as nat);
        lemma_pow256_pos((n - 1) as nat);
        assert(s.drop_first() =~= int_bytes(v / 256, (n - 1) as nat, true)) by {
            assert forall|i: int| 0 <= i < n - 1 implies #[trigger] s.drop_first()[i] == int_bytes(
                v / 256,
                (n - 1) as nat,
                true,
            )[i] by {
                lemma_pow256_pos(i as nat);
                assert(pow256((i + 1) as nat) == 256 * pow256(i as nat));
                vstd::arithmetic::div_mod::lemma_div_denominator(v as int, 256, pow256(i as nat) as int);
            }
        }
        assert(s[0] == v % 256) by {
            assert(pow256(0) == 1);
            assert(v / pow256(0) == v);
            assert(v % 256 < 256);
        }
        vstd::arithmetic::div_mod::lemma_mod_breakdown(v as int, 256, pow256((n - 1) as nat) as int);
    }
}

/// Reading back the bytes of `v` gives `v`, modulo `256^n`.
pub proof fn lemma_int_bytes_value(v: nat, n: nat, little: bool)
    ensures
        bytes_value(int_bytes(v, n, little), little) == v % pow256(n),
{
    lemma_le_int_bytes_value(v, n);
    if !little {
        let le = int_bytes(v, n, true);
        assert(le.reverse().reverse() =~= le);
    }
}

/// The number that `n` bytes of `b` from `start` stand for, in the given byte order.
pub fn bytes_to_int(b: &[u8], start: usize, n: usize, little: bool) -> (r: u64)
    requires
        n <= 8,
        start + n <= b@.len(),
    ensures
        r == bytes_value(b@.subrange(start as int, start + n), little),
{
    let ghost sub = b@.subrange(start as int, start + n);
    let ghost le: Seq<u8> = if little { sub } else { sub.reverse() };
    let len = b.len();
    let mut acc: u64 = 0;
    let mut i: usize = n;
    proof {
        assert(le.subrange(n as int, n as int).len() == 0);
    }
    while i > 0
        invariant
            n <= 8,
            start + n <= b@.len(),
            len == b@.len(),
            sub == b@.subrange(start as int, start + n),
            le == (if little { sub } else { sub.reverse() }),
            le.len() == n,
            i <= n,
            acc as nat == le_value(le.subrange(i as int, n as int)),
        decreases i,
    {
        i -= 1;
        let byte = if little {
            b[start + i]
        } else {
            b[start + (n - 1 - i)]
        };
        proof {
            assert(byte == le[i as int]);
            assert(le.subrange(i as int, n as int).drop_first() =~= le.subrange(i + 1, n as int));
            crate::thread::lemma_le_value_bound(le.subrange(i as int, n as int));
            crate::thread::lemma_pow256_mono((n - i) as nat, 8);
            assert(pow256(8) == 0x1_0000_0000_0000_0000) by {
                reveal_with_fuel(pow256, 9);
            }
        }
        acc = byte as u64 + 256 * acc;
    }
    proof {
        assert(le.subrange(0, n as int) =~= le);
    }
    acc
}

/// The powers of 256 that fixed-width integers span.
pub proof fn lemma_pow256_widths()
    ensures
        pow256(1) == 0x100,
        pow256(2) == 0x1_0000,
        pow256(4) == 0x1_0000_0000,
        pow256(8) == 0x1_0000_0000_0000_0000,
{
    reveal_with_fuel(pow256, 9);
}

} // verus!
