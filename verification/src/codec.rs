//! The modulation codec: a fully reduced data value (integers and `cons` /
//! `nil` trees) is encoded as a bit-string, and decoded back.
//!
//! An integer is encoded as two sign bits (`01` nonnegative, `10` negative),
//! a unary nibble count terminated by a zero, and the magnitude in four bits
//! per nibble, most significant bit first. `nil` is `00`; a pair is `11`
//! followed by the encodings of its two fields.

use vstd::prelude::*;
use crate::term::{cons_cell, is_data, InterpError, Prim, Term};

verus! {

/// Two to the power `k`.
pub open spec fn pow2(k: nat) -> nat
    decreases k,
{
    if k == 0 {
        1
    } else {
        2 * pow2((k - 1) as nat)
    }
}

/// Sixteen to the power `k`.
pub open spec fn pow16(k: nat) -> nat
    decreases k,
{
    if k == 0 {
        1
    } else {
        16 * pow16((k - 1) as nat)
    }
}

/// How many base-16 digits the magnitude `m` occupies (zero for zero).
pub open spec fn nibbles(m: nat) -> nat
    decreases m,
{
    if m == 0 {
        0
    } else {
        1 + nibbles(m / 16)
    }
}

/// The magnitude `m` written in `k` bits, most significant first.
pub open spec fn bits_of(m: nat, k: nat) -> Seq<bool>
    decreases k,
{
    if k == 0 {
        Seq::empty()
    } else {
        bits_of(m / 2, (k - 1) as nat).push(m % 2 == 1)
    }
}

/// Absolute value.
pub open spec fn int_abs(n: int) -> nat {
    if n >= 0 {
        n as nat
    } else {
        (-n) as nat
    }
}

/// The encoding of the integer `n`.
pub open spec fn num_bits(n: int) -> Seq<bool> {
    let sign: Seq<bool> = if n >= 0 {
        seq![false, true]
    } else {
        seq![true, false]
    };
    let m = int_abs(n);
    let t = nibbles(m);
    sign + Seq::new(t, |i: int| true) + seq![false] + bits_of(m, 4 * t)
}

/// The encoding of a data value (meaningful when `is_data` holds).
pub open spec fn mod_bits(d: Term) -> Seq<bool>
    decreases d,
{
    match d {
        Term::Num(n) => num_bits(n as int),
        Term::Op(_) => seq![false, false],
        Term::Ap(l, tl) => match *l {
            Term::Ap(_, hd) => seq![true, true] + mod_bits(*hd) + mod_bits(*tl),
            _ => Seq::empty(),
        },
        _ => Seq::empty(),
    }
}

/// Index of the first `false` at or after `i`, if any.
pub open spec fn scan_ones(s: Seq<bool>, i: int) -> Option<int>
    decreases s.len() - i,
{
    if i < 0 || i >= s.len() {
        None
    } else if !s[i] {
        Some(i)
    } else {
        scan_ones(s, i + 1)
    }
}

/// The value of the `k` bits starting at `i`, most significant first.
pub open spec fn read_bits(s: Seq<bool>, i: int, k: nat) -> nat
    decreases k,
{
    if k == 0 {
        0
    } else {
        2 * read_bits(s, i, (k - 1) as nat) + (if s[i + k - 1] {
            1nat
        } else {
            0nat
        })
    }
}

/// Decodes the integer whose sign was already read; `i` points past the two
/// sign bits. A nibble count above sixteen cannot arise from a 64-bit value
/// and is rejected.
pub open spec fn demod_num_spec(s: Seq<bool>, i: int, pos: bool) -> Option<(Term, int)> {
    match scan_ones(s, i) {
        None => None,
        Some(z) => {
            let t = z - i;
            if t > 16 || z + 1 + 4 * t > s.len() {
                None
            } else {
                let m = read_bits(s, z + 1, (4 * t) as nat);
                if pos {
                    if m <= i64::MAX as nat {
                        Some((Term::Num(m as i64), z + 1 + 4 * t))
                    } else {
                        None
                    }
                } else {
                    if m <= 0x8000_0000_0000_0000 as nat {
                        Some((Term::Num((-(m as int)) as i64), z + 1 + 4 * t))
                    } else {
                        None
                    }
                }
            }
        },
    }
}

/// Decodes one data value starting at bit `i`; returns it with the index of
/// the first unread bit. `None` is a malformed bit-string (or, for an
/// adversarially deep input, an exhausted budget).
pub open spec fn demod_spec(s: Seq<bool>, i: int, fuel: nat) -> Option<(Term, int)>
    decreases fuel,
{
    if fuel == 0 {
        None
    } else if i < 0 || i + 2 > s.len() {
        None
    } else {
        let t0 = s[i];
        let t1 = s[i + 1];
        if !t0 && !t1 {
            Some((Term::Op(Prim::Nil), i + 2))
        } else if t0 && t1 {
            match demod_spec(s, i + 2, (fuel - 1) as nat) {
                None => None,
                Some((hd, j)) => match demod_spec(s, j, (fuel - 1) as nat) {
                    None => None,
                    Some((tl, k)) => Some((cons_cell(hd, tl), k)),
                },
            }
        } else {
            demod_num_spec(s, i + 2, t1)
        }
    }
}

/// Decoding budget that surely suffices for the encoding of `d`: one unit
/// per pair nesting level.
pub open spec fn data_fuel(d: Term) -> nat
    decreases d,
{
    match d {
        Term::Ap(l, tl) => match *l {
            Term::Ap(_, hd) => 1 + if data_fuel(*hd) >= data_fuel(*tl) {
                data_fuel(*hd)
            } else {
                data_fuel(*tl)
            },
            _ => 1,
        },
        _ => 1,
    }
}

/// Appends `k` bits of `m`, most significant first.
fn push_bits(v: &mut Vec<bool>, m: u64, k: u32)
    ensures
        final(v)@ == old(v)@ + bits_of(m as nat, k as nat),
    decreases k,
{
    if k == 0 {
        proof {
            assert(v@ =~= v@ + bits_of(m as nat, 0));
        }
    } else {
        push_bits(v, m / 2, k - 1);
        v.push(m % 2 == 1);
        proof {
            assert(v@ =~= old(v)@ + bits_of(m as nat, k as nat));
        }
    }
}

/// Appends `t` one-bits.
fn push_ones(v: &mut Vec<bool>, t: u32)
    ensures
        final(v)@ == old(v)@ + Seq::new(t as nat, |i: int| true),
    decreases t,
{
    if t == 0 {
        proof {
            assert(v@ =~= v@ + Seq::new(0, |i: int| true));
        }
    } else {
        v.push(true);
        push_ones(v, t - 1);
        proof {
            assert(v@ =~= old(v)@ + Seq::new(t as nat, |i: int| true));
        }
    }
}

/// The nibble count fits in sixteen for any 64-bit magnitude.
proof fn lemma_nibbles_bound(m: nat, k: nat)
    requires
        m < pow16(k),
    ensures
        nibbles(m) <= k,
    decreases k,
{
    if k == 0 {
    } else if m == 0 {
    } else {
        assert(m / 16 < pow16((k - 1) as nat)) by {
            assert(pow16(k) == 16 * pow16((k - 1) as nat));
            assert(m < 16 * pow16((k - 1) as nat));
        };
        lemma_nibbles_bound(m / 16, (k - 1) as nat);
    }
}

/// Concrete value of `pow16(16)`.
proof fn lemma_pow16_16()
    ensures
        pow16(16) == 0x1_0000_0000_0000_0000,
{
    reveal_with_fuel(pow16, 17);
}

/// Counts the nibbles of `m`.
fn nibble_count(m: u64) -> (t: u32)
    ensures
        t as nat == nibbles(m as nat),
        t <= 16,
{
    proof {
        lemma_pow16_16();
        lemma_nibbles_bound(m as nat, 16);
    }
    let mut mm = m;
    let mut t: u32 = 0;
    while mm > 0
        invariant
            nibbles(m as nat) == t + nibbles(mm as nat),
            t <= nibbles(m as nat),
            nibbles(m as nat) <= 16,
        decreases mm,
    {
        mm = mm / 16;
        t = t + 1;
    }
    t
}

/// Encodes a data value as its bit-string.
pub fn modulate_data(d: &Term) -> (bits: Vec<bool>)
    requires
        is_data(*d),
    ensures
        bits@ == mod_bits(*d),
    decreases *d,
{
    match d {
        Term::Num(n) => {
            let mut v: Vec<bool> = Vec::new();
            let m: u64;
            if *n >= 0 {
                v.push(false);
                v.push(true);
                m = *n as u64;
            } else {
                v.push(true);
                v.push(false);
                m = if *n == i64::MIN {
                    0x8000_0000_0000_0000u64
                } else {
                    (-*n) as u64
                };
            }
            proof {
                assert(m as nat == int_abs(*n as int));
            }
            let t = nibble_count(m);
            push_ones(&mut v, t);
            v.push(false);
            push_bits(&mut v, m, 4 * t);
            proof {
                assert(v@ =~= mod_bits(*d));
            }
            v
        },
        Term::Op(_) => {
            let mut v: Vec<bool> = Vec::new();
            v.push(false);
            v.push(false);
            proof {
                assert(v@ =~= mod_bits(*d));
            }
            v
        },
        Term::Ap(l, tl) => match &**l {
            Term::Ap(_, hd) => {
                let mut v: Vec<bool> = Vec::new();
                v.push(true);
                v.push(true);
                let mut hv = modulate_data(&**hd);
                let mut tv = modulate_data(&**tl);
                v.append(&mut hv);
                v.append(&mut tv);
                proof {
                    assert(v@ =~= mod_bits(*d));
                }
                v
            },
            _ => {
                proof {
                    assert(false);
                }
                Vec::new()
            },
        },
        _ => {
            proof {
                assert(false);
            }
            Vec::new()
        },
    }
}

/// `read_bits` of `k` bits is below two to the `k`.
proof fn lemma_read_bits_bound(s: Seq<bool>, i: int, k: nat)
    ensures
        read_bits(s, i, k) < pow2(k),
    decreases k,
{
    if k == 0 {
    } else {
        lemma_read_bits_bound(s, i, (k - 1) as nat);
    }
}

/// `pow2` does not decrease and is concrete at 63 and 64.
proof fn lemma_pow2_64()
    ensures
        pow2(63) == 0x8000_0000_0000_0000,
        pow2(64) == 0x1_0000_0000_0000_0000,
{
    reveal_with_fuel(pow2, 65);
}

/// `pow2` is monotone.
proof fn lemma_pow2_mono(a: nat, b: nat)
    requires
        a <= b,
    ensures
        pow2(a) <= pow2(b),
    decreases b,
{
    if a < b {
        lemma_pow2_mono(a, (b - 1) as nat);
        assert(pow2(b) == 2 * pow2((b - 1) as nat));
        assert(pow2((b - 1) as nat) >= 1) by {
            lemma_pow2_pos((b - 1) as nat);
        };
    }
}

/// `pow2` is positive.
proof fn lemma_pow2_pos(k: nat)
    ensures
        pow2(k) >= 1,
    decreases k,
{
    if k > 0 {
        lemma_pow2_pos((k - 1) as nat);
    }
}

/// Reads the value of `k` bits starting at `i`, most significant first.
fn read_val(s: &Vec<bool>, i: usize, k: u32) -> (m: u64)
    requires
        i + k <= s@.len(),
        i + k <= usize::MAX,
        k <= 64,
    ensures
        m as nat == read_bits(s@, i as int, k as nat),
    decreases k,
{
    if k == 0 {
        0
    } else {
        let hi = read_val(s, i, k - 1);
        proof {
            lemma_read_bits_bound(s@, i as int, (k - 1) as nat);
            lemma_pow2_mono((k - 1) as nat, 63);
            lemma_pow2_64();
        }
        let b: u64 = if s[i + ((k - 1) as usize)] {
            1
        } else {
            0
        };
        hi * 2 + b
    }
}

/// Finds the first zero bit at or after `i`.
fn scan_zero(s: &Vec<bool>, i: usize) -> (r: Option<usize>)
    ensures
        match scan_ones(s@, i as int) {
            Some(z) => r matches Some(u) && u as int == z && i <= u && (u as int) < s@.len(),
            None => r is None,
        },
{
    let mut j = i;
    loop
        invariant
            i <= j,
            scan_ones(s@, i as int) == scan_ones(s@, j as int),
        decreases s@.len() - j,
    {
        if j >= s.len() {
            return None;
        }
        if !s[j] {
            return Some(j);
        }
        j = j + 1;
    }
}

/// Decodes one data value starting at bit `i`, exactly as `demod_spec`
/// prescribes; returns the value and the index of the first unread bit.
pub fn demodulate(s: &Vec<bool>, i: usize, fuel: u64) -> (res: Result<(Term, usize), InterpError>)
    ensures
        match demod_spec(s@, i as int, fuel as nat) {
            Some(p) => res matches Ok(q) && q.0 == p.0 && q.1 as int == p.1,
            None => res == Err::<(Term, usize), InterpError>(InterpError::Codec),
        },
    decreases fuel,
{
    if fuel == 0 {
        return Err(InterpError::Codec);
    }
    if i >= s.len() || i + 1 >= s.len() {
        return Err(InterpError::Codec);
    }
    let t0 = s[i];
    let t1 = s[i + 1];
    if !t0 && !t1 {
        Ok((Term::Op(Prim::Nil), i + 2))
    } else if t0 && t1 {
        match demodulate(s, i + 2, fuel - 1) {
            Ok((hd, j)) => match demodulate(s, j, fuel - 1) {
                Ok((tl, k)) => Ok((
                    Term::Ap(
                        Box::new(Term::Ap(Box::new(Term::Op(Prim::Cons)), Box::new(hd))),
                        Box::new(tl),
                    ),
                    k,
                )),
                Err(e) => Err(e),
            },
            Err(e) => Err(e),
        }
    } else {
        match scan_zero(s, i + 2) {
            None => Err(InterpError::Codec),
            Some(z) => {
                let tn = z - (i + 2);
                if tn > 16 {
                    return Err(InterpError::Codec);
                }
                let t: u32 = tn as u32;
                if 4 * (t as usize) > s.len() - (z + 1) {
                    return Err(InterpError::Codec);
                }
                let m = read_val(s, z + 1, 4 * t);
                if t1 {
                    if m <= 0x7fff_ffff_ffff_ffffu64 {
                        Ok((Term::Num(m as i64), z + 1 + 4 * (t as usize)))
                    } else {
                        Err(InterpError::Codec)
                    }
                } else {
                    if m <= 0x8000_0000_0000_0000u64 {
                        let n: i64 = if m == 0x8000_0000_0000_0000u64 {
                            i64::MIN
                        } else {
                            -(m as i64)
                        };
                        Ok((Term::Num(n), z + 1 + 4 * (t as usize)))
                    } else {
                        Err(InterpError::Codec)
                    }
                }
            },
        }
    }
}

/// `bits_of` produces exactly `k` bits.
proof fn lemma_bits_of_len(m: nat, k: nat)
    ensures
        bits_of(m, k).len() == k,
    decreases k,
{
    if k > 0 {
        lemma_bits_of_len(m / 2, (k - 1) as nat);
    }
}

/// `pow16` is `pow2` of four times the exponent.
proof fn lemma_pow16_pow2(k: nat)
    ensures
        pow16(k) == pow2(4 * k),
    decreases k,
{
    if k > 0 {
        lemma_pow16_pow2((k - 1) as nat);
        assert(pow2(4 * k) == 2 * pow2((4 * k - 1) as nat));
        assert(pow2((4 * k - 1) as nat) == 2 * pow2((4 * k - 2) as nat));
        assert(pow2((4 * k - 2) as nat) == 2 * pow2((4 * k - 3) as nat));
        assert(pow2((4 * k - 3) as nat) == 2 * pow2((4 * k - 4) as nat));
        assert(4 * k - 4 == 4 * ((k - 1) as nat));
    }
}

/// A magnitude fits in four bits per nibble of its nibble count.
proof fn lemma_nibbles_covers(m: nat)
    ensures
        m < pow16(nibbles(m)),
    decreases m,
{
    if m > 0 {
        lemma_nibbles_covers(m / 16);
        assert(pow16(nibbles(m)) == 16 * pow16(nibbles(m / 16)));
    }
}

/// Bits written by `bits_of` read back as the value they came from.
proof fn lemma_read_bits_of(s: Seq<bool>, i: int, m: nat, k: nat)
    requires
        0 <= i,
        i + k <= s.len(),
        s.subrange(i, i + k) == bits_of(m, k),
        m < pow2(k),
    ensures
        read_bits(s, i, k) == m,
    decreases k,
{
    lemma_bits_of_len(m, k);
    if k == 0 {
    } else {
        lemma_bits_of_len(m / 2, (k - 1) as nat);
        assert(s.subrange(i, i + k - 1) =~= bits_of((m / 2) as nat, (k - 1) as nat)) by {
            assert forall|j: int| 0 <= j < k - 1 implies #[trigger] (s.subrange(i, i + k - 1)[j])
                == bits_of((m / 2) as nat, (k - 1) as nat)[j] by {
                assert(s.subrange(i, i + k)[j] == bits_of(m, k)[j]);
            }
        };
        lemma_read_bits_of(s, i, (m / 2) as nat, (k - 1) as nat);
        assert(s[i + k - 1] == bits_of(m, k)[k - 1]) by {
            assert(s.subrange(i, i + k)[k - 1] == bits_of(m, k)[k - 1]);
        };
        assert(bits_of(m, k)[k - 1] == (m % 2 == 1));
    }
}

/// A run of ones ending in a zero is found by `scan_ones`.
proof fn lemma_scan_ones_run(s: Seq<bool>, i: int, z: int)
    requires
        0 <= i <= z < s.len(),
        forall|j: int| i <= j < z ==> s[j],
        !s[z],
    ensures
        scan_ones(s, i) == Some(z),
    decreases z - i,
{
    if i < z {
        lemma_scan_ones_run(s, i + 1, z);
    }
}

/// One bit of an embedded bit-string, read through the subrange equality.
proof fn lemma_sub_index(s: Seq<bool>, i: int, b: Seq<bool>, u: int)
    requires
        0 <= i,
        i + b.len() <= s.len(),
        s.subrange(i, i + b.len()) == b,
        0 <= u < b.len(),
    ensures
        s[i + u] == b[u],
{
    assert(s.subrange(i, i + b.len() as int)[u] == b[u]);
}

/// The encoding of an integer decodes back to that integer.
proof fn lemma_num_decode(s: Seq<bool>, i: int, n: i64)
    requires
        0 <= i,
        i + num_bits(n as int).len() <= s.len(),
        s.subrange(i, i + num_bits(n as int).len()) == num_bits(n as int),
    ensures
        num_bits(n as int).len() >= 3,
        s[i] == (n < 0),
        s[i + 1] == (n >= 0),
        demod_num_spec(s, i + 2, n >= 0) == Some::<(Term, int)>(
            (Term::Num(n), i + num_bits(n as int).len()),
        ),
{
    let m = int_abs(n as int);
    let t = nibbles(m);
    lemma_bits_of_len(m, 4 * t);
    let nb = num_bits(n as int);
    let len = nb.len() as int;
    assert(len == 3 + 5 * t);
    // sign bits
    lemma_sub_index(s, i, nb, 0);
    lemma_sub_index(s, i, nb, 1);
    assert(s[i] == (n < 0));
    assert(s[i + 1] == (n >= 0));
    // the unary nibble count and its terminating zero
    assert forall|j: int| i + 2 <= j < i + 2 + t implies s[j] by {
        lemma_sub_index(s, i, nb, j - i);
        assert(nb[j - i]);
    }
    lemma_sub_index(s, i, nb, 2 + t as int);
    assert(!s[i + (2 + t as int)]);
    lemma_scan_ones_run(s, i + 2, i + 2 + t);
    // the nibble count is at most sixteen
    lemma_pow16_16();
    lemma_nibbles_covers(m);
    assert(m < 0x1_0000_0000_0000_0000) by {
        assert(int_abs(n as int) <= 0x8000_0000_0000_0000);
    };
    lemma_nibbles_bound(m, 16);
    // the magnitude bits read back as the magnitude
    let z = i + 2 + t;
    assert(s.subrange(z + 1, z + 1 + 4 * t) =~= bits_of(m, 4 * t)) by {
        assert forall|j: int| 0 <= j < 4 * t implies #[trigger] (s.subrange(z + 1, z + 1 + 4 * t)[j])
            == bits_of(m, 4 * t)[j] by {
            lemma_sub_index(s, i, nb, 3 + t as int + j);
            assert(nb[3 + t + j] == bits_of(m, 4 * t)[j]);
        }
    };
    lemma_pow16_pow2(t);
    lemma_read_bits_of(s, z + 1, m, 4 * t);
    assert(read_bits(s, z + 1, (4 * t) as nat) == m);
    if n >= 0 {
        assert(m <= i64::MAX as nat);
        assert(Term::Num(m as i64) == Term::Num(n));
    } else {
        assert(m <= 0x8000_0000_0000_0000 as nat);
        assert(Term::Num((-(m as int)) as i64) == Term::Num(n));
    }
}

/// Decoding is the inverse of encoding: the bit-string of a data value,
/// wherever it stands inside a larger bit-string, decodes to that value and
/// consumes exactly its own bits.
pub proof fn lemma_mod_demod(d: Term, s: Seq<bool>, i: int, fuel: nat)
    requires
        is_data(d),
        fuel >= data_fuel(d),
        0 <= i,
        i + mod_bits(d).len() <= s.len(),
        s.subrange(i, i + mod_bits(d).len()) == mod_bits(d),
    ensures
        demod_spec(s, i, fuel) == Some::<(Term, int)>((d, i + mod_bits(d).len())),
    decreases d,
{
    let len = mod_bits(d).len() as int;
    match d {
        Term::Num(n) => {
            lemma_num_decode(s, i, n);
        },
        Term::Op(_) => {
            lemma_sub_index(s, i, mod_bits(d), 0);
            lemma_sub_index(s, i, mod_bits(d), 1);
            assert(!s[i + 0] && !s[i + 1]);
        },
        Term::Ap(l, tl) => match *l {
            Term::Ap(_, hd) => {
                let hb = mod_bits(*hd);
                let tb = mod_bits(*tl);
                lemma_sub_index(s, i, mod_bits(d), 0);
                lemma_sub_index(s, i, mod_bits(d), 1);
                assert(s[i + 0] && s[i + 1]);
                assert(s.subrange(i + 2, i + 2 + hb.len()) =~= hb) by {
                    assert forall|j: int| 0 <= j < hb.len() implies #[trigger] (s.subrange(
                        i + 2,
                        i + 2 + hb.len(),
                    )[j]) == hb[j] by {
                        lemma_sub_index(s, i, mod_bits(d), 2 + j);
                        assert(mod_bits(d)[2 + j] == hb[j]);
                    }
                };
                lemma_mod_demod(*hd, s, i + 2, (fuel - 1) as nat);
                let j = i + 2 + hb.len();
                assert(s.subrange(j, j + tb.len()) =~= tb) by {
                    assert forall|u: int| 0 <= u < tb.len() implies #[trigger] (s.subrange(
                        j,
                        j + tb.len(),
                    )[u]) == tb[u] by {
                        lemma_sub_index(s, i, mod_bits(d), 2 + hb.len() as int + u);
                        assert(mod_bits(d)[2 + hb.len() + u] == tb[u]);
                    }
                };
                lemma_mod_demod(*tl, s, j, (fuel - 1) as nat);
                assert(cons_cell(*hd, *tl) == d);
            },
            _ => {
                assert(false);
            },
        },
        _ => {
            assert(false);
        },
    }
}

/// Round trip: decoding the encoding of any data value gives it back whole.
/// In particular, for any 64-bit integer `n`, the encoding of `Num n`
/// decodes to `Num n`.
pub proof fn lemma_decode_encode(d: Term, fuel: nat)
    requires
        is_data(d),
        fuel >= data_fuel(d),
    ensures
        demod_spec(mod_bits(d), 0, fuel) == Some::<(Term, int)>((d, mod_bits(d).len() as int)),
{
    assert(mod_bits(d).subrange(0, mod_bits(d).len() as int) =~= mod_bits(d));
    lemma_mod_demod(d, mod_bits(d), 0, fuel);
}

/// Round trip for integers: `decode(encode(Num n)) = Num n`.
pub proof fn lemma_num_round_trip(n: i64, fuel: nat)
    requires
        fuel >= 1,
    ensures
        demod_spec(num_bits(n as int), 0, fuel) == Some::<(Term, int)>(
            (Term::Num(n), num_bits(n as int).len() as int),
        ),
{
    lemma_decode_encode(Term::Num(n), fuel);
}

/// Re-encoding what a bit-string of a data value decodes to gives the same
/// bit-string: `encode(decode(encode(v))) = encode(v)`.
pub proof fn lemma_encode_decode_encode(d: Term, fuel: nat)
    requires
        is_data(d),
        fuel >= data_fuel(d),
    ensures
        demod_spec(mod_bits(d), 0, fuel) matches Some(p) && mod_bits(p.0) == mod_bits(d),
{
    lemma_decode_encode(d, fuel);
}

} // verus!
