//! Bit-vector utilities: conversion between unsigned integers and ordered
//! bit sequences (most-significant bit first), element-wise XOR and AND with
//! length checking, and left rotation of a bit queue.
//!
//! The specification model is `Seq<u8>` where every element is `0` or `1`:
//! [`bits_value`] reads such a sequence as an integer and [`int_bits`] writes
//! one, and the two are proved inverse to each other.
use std::collections::VecDeque;
use vstd::arithmetic::div_mod::{lemma_fundamental_div_mod, lemma_fundamental_div_mod_converse};
use vstd::arithmetic::power2::{lemma2_to64, lemma2_to64_rest, lemma_pow2_strictly_increases, lemma_pow2_unfold, pow2};
use vstd::prelude::*;
use vstd::string::StrSliceExecFns;
use vstd::string::StringExecFns;

verus! {

/// A single binary digit, held in a byte whose value is 0 or 1.
pub type Bit = u8;

/// The error kinds of the cipher: combining sequences of unequal length,
/// and asking the key schedule for a round outside 1..=16.
#[derive(Clone, Copy, Debug, PartialEq, Eq, Structural)]
pub enum DESError {
    LengthMismatch,
    InvalidRound,
}

/// Every element of the sequence is a binary digit.
pub open spec fn is_bit_seq(s: Seq<u8>) -> bool {
    forall|i: int| 0 <= i < s.len() ==> #[trigger] s[i] <= 1
}

/// The unsigned integer a bit sequence denotes, most-significant bit first.
pub open spec fn bits_value(s: Seq<u8>) -> nat
    decreases s.len(),
{
    if s.len() == 0 {
        0
    } else {
        (2 * bits_value(s.drop_last()) + s.last()) as nat
    }
}

/// The `w`-bit sequence denoting `v` (modulo `2^w`), most-significant bit first.
pub open spec fn int_bits(v: nat, w: nat) -> Seq<u8>
    decreases w,
{
    if w == 0 {
        Seq::empty()
    } else {
        int_bits(v / 2, (w - 1) as nat).push((v % 2) as u8)
    }
}

pub proof fn lemma_int_bits_len(v: nat, w: nat)
    ensures
        int_bits(v, w).len() == w,
    decreases w,
{
    if w > 0 {
        lemma_int_bits_len(v / 2, (w - 1) as nat);
    }
}

pub proof fn lemma_int_bits_valid(v: nat, w: nat)
    ensures
        is_bit_seq(int_bits(v, w)),
    decreases w,
{
    if w > 0 {
        lemma_int_bits_valid(v / 2, (w - 1) as nat);
    }
}

/// Appending a bit doubles the value and adds the bit.
pub proof fn lemma_bits_value_push(s: Seq<u8>, b: u8)
    ensures
        bits_value(s.push(b)) == 2 * bits_value(s) + b,
{
    assert(s.push(b).drop_last() =~= s);
    assert(s.push(b).last() == b);
}

/// A sequence of `n` bits denotes a value below `2^n`.
pub proof fn lemma_bits_value_bound(s: Seq<u8>)
    requires
        is_bit_seq(s),
    ensures
        bits_value(s) < pow2(s.len()),
    decreases s.len(),
{
    if s.len() == 0 {
        lemma2_to64();
    } else {
        assert(is_bit_seq(s.drop_last()));
        lemma_bits_value_bound(s.drop_last());
        lemma_pow2_unfold(s.len());
    }
}

/// Writing an integer as `w` bits and reading it back returns the integer,
/// for every value representable in `w` bits.
pub proof fn lemma_int_bits_value(v: nat, w: nat)
    requires
        v < pow2(w),
    ensures
        bits_value(int_bits(v, w)) == v,
    decreases w,
{
    if w == 0 {
        lemma2_to64();
    } else {
        lemma_pow2_unfold(w);
        lemma_fundamental_div_mod(v as int, 2);
        lemma_int_bits_value(v / 2, (w - 1) as nat);
        lemma_bits_value_push(int_bits(v / 2, (w - 1) as nat), (v % 2) as u8);
    }
}

/// Reading a bit sequence as an integer and writing it back at the same
/// width returns the sequence.
pub proof fn lemma_bits_value_int(s: Seq<u8>)
    requires
        is_bit_seq(s),
    ensures
        int_bits(bits_value(s), s.len()) == s,
    decreases s.len(),
{
    if s.len() == 0 {
        assert(int_bits(bits_value(s), 0) =~= s);
    } else {
        let dl = s.drop_last();
        let b = s.last();
        assert(is_bit_seq(dl));
        lemma_bits_value_int(dl);
        let v = bits_value(s);
        assert(v == 2 * bits_value(dl) + b);
        lemma_fundamental_div_mod_converse(v as int, 2, bits_value(dl) as int, b as int);
        assert(int_bits(v, s.len()) == int_bits(v / 2, (s.len() - 1) as nat).push((v % 2) as u8));
        assert(int_bits(v, s.len()) =~= s);
    }
}

/// The bits named by the '0' and '1' characters of a string, in order;
/// all other characters are skipped.
pub open spec fn explode_spec(s: Seq<char>) -> Seq<u8>
    decreases s.len(),
{
    if s.len() == 0 {
        Seq::empty()
    } else {
        explode_spec(s.drop_last()) + (if s.last() == '0' {
            seq![0u8]
        } else if s.last() == '1' {
            seq![1u8]
        } else {
            Seq::<u8>::empty()
        })
    }
}

/// Reads a string of '0' and '1' characters into a bit vector, ignoring
/// every other character (such as the spaces used to group digits).
pub fn explode_bitstring(str: &str) -> (r: Vec<Bit>)
    ensures
        r@ == explode_spec(str@),
        is_bit_seq(r@),
        r@.len() <= str@.len(),
{
    let mut bits: Vec<Bit> = Vec::new();
    let n = str.unicode_len();
    for i in 0..n
        invariant
            n == str@.len(),
            bits@ == explode_spec(str@.subrange(0, i as int)),
            is_bit_seq(bits@),
            bits@.len() <= i,
    {
        let ch = str.get_char(i);
        let ghost prefix = str@.subrange(0, i as int);
        if ch == '0' {
            bits.push(0);
        } else if ch == '1' {
            bits.push(1);
        }
        proof {
            let longer = str@.subrange(0, i + 1);
            assert(longer.drop_last() =~= prefix);
            assert(longer.last() == ch);
            if ch == '0' {
                assert(bits@ =~= explode_spec(prefix) + seq![0u8]);
            } else if ch == '1' {
                assert(bits@ =~= explode_spec(prefix) + seq![1u8]);
            } else {
                assert(bits@ =~= explode_spec(prefix) + Seq::<u8>::empty());
            }
        }
    }
    proof {
        assert(str@.subrange(0, str@.len() as int) =~= str@);
    }
    bits
}

/// The character that prints a bit.
pub open spec fn bit_char(b: u8) -> char {
    if b == 1 {
        '1'
    } else {
        '0'
    }
}

/// The characters printing each bit of a sequence, in order.
pub open spec fn bit_chars(s: Seq<u8>) -> Seq<char> {
    Seq::new(s.len(), |i: int| bit_char(s[i]))
}

/// The printed form of a bit sequence: its digits, with a space after
/// every group of eight.
pub open spec fn grouped_bit_chars(s: Seq<u8>) -> Seq<char>
    decreases s.len(),
{
    if s.len() <= 8 {
        bit_chars(s)
    } else {
        bit_chars(s.take(8)) + seq![' '] + grouped_bit_chars(s.skip(8))
    }
}

/// Renders a bit sequence as text, eight digits to a group.
pub trait StringBit {
    /// The bit sequence that is printed.
    spec fn fmt_source(&self) -> Seq<u8>;

    fn bits(&self) -> (r: String)
        ensures
            r@ == grouped_bit_chars(self.fmt_source()),
    ;
}

/// Reads a bit sequence as an unsigned integer, most-significant bit first.
pub trait ToInteger {
    /// The bit sequence that is read.
    spec fn int_source(&self) -> Seq<u8>;

    fn to_u8(&self) -> (r: u8)
        requires
            is_bit_seq(self.int_source()),
            self.int_source().len() <= 8,
        ensures
            r == bits_value(self.int_source()),
    ;

    fn to_u64(&self) -> (r: u64)
        requires
            is_bit_seq(self.int_source()),
            self.int_source().len() <= 64,
        ensures
            r == bits_value(self.int_source()),
    ;
}

/// Writes an unsigned integer as its full-width bit vector,
/// most-significant bit first.
pub trait ToBitVec {
    /// The value being written.
    spec fn int_value(&self) -> nat;

    /// The width of the produced vector.
    spec fn bit_width(&self) -> nat;

    fn to_bit_vec(&self) -> (r: Vec<Bit>)
        ensures
            r@ == int_bits(self.int_value(), self.bit_width()),
            r@.len() == self.bit_width(),
            is_bit_seq(r@),
            bits_value(r@) == self.int_value(),
    ;
}

/// One left rotation step: the first element leaves the front, and either
/// it (wrap-around) or a zero bit joins the back.
pub open spec fn rot_once(s: Seq<u8>, wrap: bool) -> Seq<u8> {
    if s.len() == 0 {
        s
    } else {
        s.subrange(1, s.len() as int).push(
            if wrap {
                s[0]
            } else {
                0u8
            },
        )
    }
}

/// `n` left rotation steps in sequence.
pub open spec fn shifted(s: Seq<u8>, n: nat, wrap: bool) -> Seq<u8>
    decreases n,
{
    if n == 0 {
        s
    } else {
        rot_once(shifted(s, (n - 1) as nat, wrap), wrap)
    }
}

/// Rotation keeps the length, and keeps every element a bit.
pub proof fn lemma_shifted_wf(s: Seq<u8>, n: nat, wrap: bool)
    requires
        is_bit_seq(s),
    ensures
        shifted(s, n, wrap).len() == s.len(),
        is_bit_seq(shifted(s, n, wrap)),
    decreases n,
{
    if n > 0 {
        lemma_shifted_wf(s, (n - 1) as nat, wrap);
    }
}

/// Removes `rhs` bits from the front; with `wrap_around` they rejoin the
/// back in order (a rotation), without it zero bits take their place.
pub trait ShiftLeft {
    /// The bit sequence being rotated.
    spec fn shift_source(&self) -> Seq<u8>;

    fn shift_left(&mut self, rhs: u32, wrap_around: bool)
        requires
            old(self).shift_source().len() > 0 || rhs == 0,
        ensures
            final(self).shift_source() == shifted(old(self).shift_source(), rhs as nat, wrap_around),
    ;
}

/// The exclusive or of two bits.
pub open spec fn bit_xor(a: u8, b: u8) -> u8 {
    if a == b {
        0
    } else {
        1
    }
}

/// The conjunction of two bits.
pub open spec fn bit_and(a: u8, b: u8) -> u8 {
    if a == 1 && b == 1 {
        1
    } else {
        0
    }
}

/// Element-wise exclusive or of two equal-length bit sequences.
pub open spec fn xor_bits(a: Seq<u8>, b: Seq<u8>) -> Seq<u8> {
    Seq::new(a.len(), |i: int| bit_xor(a[i], b[i]))
}

/// Element-wise conjunction of two equal-length bit sequences.
pub open spec fn and_bits(a: Seq<u8>, b: Seq<u8>) -> Seq<u8> {
    Seq::new(a.len(), |i: int| bit_and(a[i], b[i]))
}

/// XOR by a fixed sequence is an involution: mixing `y` into `x` twice
/// returns `y`.
pub proof fn lemma_xor_cancel(x: Seq<u8>, y: Seq<u8>)
    requires
        x.len() == y.len(),
        is_bit_seq(x),
        is_bit_seq(y),
    ensures
        xor_bits(x, xor_bits(x, y)) =~= y,
{
    assert forall|i: int| 0 <= i < y.len() implies xor_bits(x, xor_bits(x, y))[i] == y[i] by {
        assert(x[i] <= 1 && y[i] <= 1);
    }
}

/// Element-wise operations over bit vectors, which fail with
/// [`DESError::LengthMismatch`] when the operands' lengths differ.
pub trait Bitwise {
    /// The left operand's bit sequence.
    spec fn operand(&self) -> Seq<u8>;

    fn xor(&self, rhs: &Vec<Bit>) -> (r: Result<Vec<Bit>, DESError>)
        requires
            is_bit_seq(self.operand()),
            is_bit_seq(rhs@),
        ensures
            match r {
                Ok(v) => self.operand().len() == rhs@.len() && v@ == xor_bits(self.operand(), rhs@),
                Err(e) => e == DESError::LengthMismatch && self.operand().len() != rhs@.len(),
            },
    ;

    fn and(&self, rhs: &Vec<Bit>) -> (r: Result<Vec<Bit>, DESError>)
        requires
            is_bit_seq(self.operand()),
            is_bit_seq(rhs@),
        ensures
            match r {
                Ok(v) => self.operand().len() == rhs@.len() && v@ == and_bits(self.operand(), rhs@),
                Err(e) => e == DESError::LengthMismatch && self.operand().len() != rhs@.len(),
            },
    ;
}

impl StringBit for Vec<Bit> {
    open spec fn fmt_source(&self) -> Seq<u8> {
        self@
    }

    fn bits(&self) -> (r: String) {
        proof {
            assert(self@.skip(0) =~= self@);
        }
        grouped_string(self, 0)
    }
}

impl StringBit for VecDeque<Bit> {
    open spec fn fmt_source(&self) -> Seq<u8> {
        self@
    }

    fn bits(&self) -> (r: String) {
        let v = deque_to_vec(self);
        v.bits()
    }
}

/// The printed form of the bits of `v` from position `start` on.
fn grouped_string(v: &Vec<Bit>, start: usize) -> (r: String)
    requires
        start <= v@.len(),
    ensures
        r@ == grouped_bit_chars(v@.skip(start as int)),
    decreases v@.len() - start,
{
    proof {
        reveal_strlit("0");
        reveal_strlit("1");
        reveal_strlit(" ");
    }
    let len = v.len();
    let ghost tail = v@.skip(start as int);
    let mut out = String::new();
    let chunk_end = if len - start <= 8 {
        len
    } else {
        start + 8
    };
    for j in start..chunk_end
        invariant
            start <= j <= chunk_end <= v@.len(),
            chunk_end <= start + 8,
            tail == v@.skip(start as int),
            out@ == bit_chars(v@.subrange(start as int, j as int)),
    {
        let ghost before = out@;
        if v[j] == 1 {
            out.append("1");
        } else {
            out.append("0");
        }
        proof {
            reveal_strlit("0");
            reveal_strlit("1");
            assert(out@ =~= before.push(bit_char(v@[j as int])));
            assert(out@ =~= bit_chars(v@.subrange(start as int, j + 1)));
        }
    }
    if len - start <= 8 {
        proof {
            assert(v@.subrange(start as int, len as int) =~= tail);
            assert(out@ =~= bit_chars(tail));
        }
        out
    } else {
        out.append(" ");
        let rest = grouped_string(v, start + 8);
        out.append(rest.as_str());
        proof {
            reveal_strlit(" ");
            assert(v@.subrange(start as int, start + 8) =~= tail.take(8));
            assert(v@.skip(start + 8) =~= tail.skip(8));
            assert(out@ =~= bit_chars(tail.take(8)) + seq![' '] + grouped_bit_chars(tail.skip(8)));
        }
        out
    }
}

/// Copies a bit queue into a vector, front to back.
pub(crate) fn deque_to_vec(d: &VecDeque<Bit>) -> (r: Vec<Bit>)
    ensures
        r@ == d@,
{
    let mut out: Vec<Bit> = Vec::new();
    let n = d.len();
    for i in 0..n
        invariant
            n == d@.len(),
            out@ == d@.subrange(0, i as int),
    {
        out.push(d[i]);
        proof {
            assert(out@ =~= d@.subrange(0, i + 1));
        }
    }
    proof {
        assert(d@.subrange(0, d@.len() as int) =~= d@);
    }
    out
}

/// Copies a bit vector into a queue, front to back.
pub(crate) fn vec_to_deque(v: &Vec<Bit>) -> (r: VecDeque<Bit>)
    ensures
        r@ == v@,
{
    let mut out: VecDeque<Bit> = VecDeque::new();
    let n = v.len();
    for i in 0..n
        invariant
            n == v@.len(),
            out@ == v@.subrange(0, i as int),
    {
        out.push_back(v[i]);
        proof {
            assert(out@ =~= v@.subrange(0, i + 1));
        }
    }
    proof {
        assert(v@.subrange(0, v@.len() as int) =~= v@);
    }
    out
}

impl ToInteger for Vec<Bit> {
    open spec fn int_source(&self) -> Seq<u8> {
        self@
    }

    fn to_u8(&self) -> (r: u8) {
        let mut n: u8 = 0;
        let len = self.len();
        proof {
            lemma2_to64();
        }
        for i in 0..len
            invariant
                len == self@.len() <= 8,
                is_bit_seq(self@),
                n == bits_value(self@.subrange(0, i as int)),
                n < pow2(i as nat),
        {
            let ghost prefix = self@.subrange(0, i as int);
            proof {
                lemma2_to64();
                if (i as nat) < 7 {
                    lemma_pow2_strictly_increases(i as nat, 7);
                }
                let longer = self@.subrange(0, i + 1);
                assert(longer.drop_last() =~= prefix);
                assert(longer.last() == self@[i as int]);
                lemma_pow2_unfold((i + 1) as nat);
            }
            n = n * 2 + self[i];
        }
        proof {
            assert(self@.subrange(0, self@.len() as int) =~= self@);
        }
        n
    }

    fn to_u64(&self) -> (r: u64) {
        let mut n: u64 = 0;
        let len = self.len();
        proof {
            lemma2_to64();
        }
        for i in 0..len
            invariant
                len == self@.len() <= 64,
                is_bit_seq(self@),
                n == bits_value(self@.subrange(0, i as int)),
                n < pow2(i as nat),
        {
            let ghost prefix = self@.subrange(0, i as int);
            proof {
                lemma2_to64();
                lemma2_to64_rest();
                if (i as nat) < 63 {
                    lemma_pow2_strictly_increases(i as nat, 63);
                }
                let longer = self@.subrange(0, i + 1);
                assert(longer.drop_last() =~= prefix);
                assert(longer.last() == self@[i as int]);
                lemma_pow2_unfold((i + 1) as nat);
            }
            n = n * 2 + (self[i] as u64);
        }
        proof {
            assert(self@.subrange(0, self@.len() as int) =~= self@);
        }
        n
    }
}

impl ToBitVec for u8 {
    open spec fn int_value(&self) -> nat {
        *self as nat
    }

    open spec fn bit_width(&self) -> nat {
        8
    }

    fn to_bit_vec(&self) -> (r: Vec<Bit>) {
        let v = *self;
        let mut bits: Vec<Bit> = Vec::new();
        for i in 0..8usize
            invariant
                bits@ == int_bits((v >> ((8 - i) as u8)) as nat, i as nat),
                bits@.len() == i,
        {
            let s1: u8 = (7 - i) as u8;
            let bit: u8 = (v >> s1) & 1;
            bits.push(bit);
            proof {
                let s2: u8 = (8 - i) as u8;
                assert(v >> s1 == 2 * (v >> s2) + ((v >> s1) & 1) && ((v >> s1) & 1) <= 1)
                    by (bit_vector)
                    requires
                        s1 < 8,
                        s2 == s1 + 1,
                ;
                lemma_fundamental_div_mod_converse(
                    (v >> s1) as int,
                    2,
                    (v >> s2) as int,
                    ((v >> s1) & 1) as int,
                );
                lemma_int_bits_len((v >> s1) as nat, (i + 1) as nat);
            }
        }
        proof {
            assert(v >> 0u8 == v) by (bit_vector);
            lemma_int_bits_valid(v as nat, 8);
            lemma2_to64();
            lemma_int_bits_value(v as nat, 8);
        }
        bits
    }
}

impl ToBitVec for u64 {
    open spec fn int_value(&self) -> nat {
        *self as nat
    }

    open spec fn bit_width(&self) -> nat {
        64
    }

    fn to_bit_vec(&self) -> (r: Vec<Bit>) {
        let v = *self;
        let mut bits: Vec<Bit> = Vec::new();
        for i in 0..64usize
            invariant
                bits@ == int_bits((v >> ((64 - i) as u64)) as nat, i as nat),
                bits@.len() == i,
        {
            let s1: u64 = (63 - i) as u64;
            let bit: u8 = ((v >> s1) & 1) as u8;
            bits.push(bit);
            proof {
                let s2: u64 = (64 - i) as u64;
                assert(v >> s1 == 2 * (v >> s2) + ((v >> s1) & 1) && ((v >> s1) & 1) <= 1)
                    by (bit_vector)
                    requires
                        s1 < 64,
                        s2 == s1 + 1,
                ;
                lemma_fundamental_div_mod_converse(
                    (v >> s1) as int,
                    2,
                    (v >> s2) as int,
                    ((v >> s1) & 1) as int,
                );
                lemma_int_bits_len((v >> s1) as nat, (i + 1) as nat);
            }
        }
        proof {
            assert(v >> 0u64 == v) by (bit_vector);
            lemma_int_bits_valid(v as nat, 64);
            lemma2_to64();
            lemma2_to64_rest();
            lemma_int_bits_value(v as nat, 64);
        }
        bits
    }
}

impl ShiftLeft for VecDeque<Bit> {
    open spec fn shift_source(&self) -> Seq<u8> {
        self@
    }

    fn shift_left(&mut self, rhs: u32, wrap_around: bool) {
        let ghost start = self@;
        for k in 0..rhs
            invariant
                self@ == shifted(start, k as nat, wrap_around),
                self@.len() == start.len(),
                start.len() > 0 || rhs == 0,
        {
            let ghost before = self@;
            let bit = match self.pop_front() {
                Some(b) => b,
                None => {
                    proof {
                        assert(false);
                    }
                    0
                },
            };
            if wrap_around {
                self.push_back(bit);
            } else {
                self.push_back(0);
            }
            proof {
                assert(self@ =~= rot_once(before, wrap_around));
            }
        }
    }
}

impl Bitwise for Vec<Bit> {
    open spec fn operand(&self) -> Seq<u8> {
        self@
    }

    fn xor(&self, rhs: &Vec<Bit>) -> (r: Result<Vec<Bit>, DESError>) {
        if self.len() != rhs.len() {
            return Err(DESError::LengthMismatch);
        }
        let mut out: Vec<Bit> = Vec::new();
        let len = self.len();
        for i in 0..len
            invariant
                len == self@.len() == rhs@.len(),
                is_bit_seq(self@),
                is_bit_seq(rhs@),
                out@.len() == i,
                forall|j: int| 0 <= j < i ==> out@[j] == bit_xor(self@[j], rhs@[j]),
        {
            let a = self[i];
            let b = rhs[i];
            let sum: u8 = a + b;
            out.push(sum & 1);
            proof {
                assert((sum & 1) == (if a == b {
                    0u8
                } else {
                    1u8
                })) by (bit_vector)
                    requires
                        sum == a + b,
                        a <= 1,
                        b <= 1,
                ;
            }
        }
        proof {
            assert(out@ =~= xor_bits(self@, rhs@));
        }
        Ok(out)
    }

    fn and(&self, rhs: &Vec<Bit>) -> (r: Result<Vec<Bit>, DESError>) {
        if self.len() != rhs.len() {
            return Err(DESError::LengthMismatch);
        }
        let mut out: Vec<Bit> = Vec::new();
        let len = self.len();
        for i in 0..len
            invariant
                len == self@.len() == rhs@.len(),
                is_bit_seq(self@),
                is_bit_seq(rhs@),
                out@.len() == i,
                forall|j: int| 0 <= j < i ==> out@[j] == bit_and(self@[j], rhs@[j]),
        {
            let a = self[i];
            let b = rhs[i];
            out.push(a & b);
            proof {
                assert((a & b) == (if a == 1 && b == 1 {
                    1u8
                } else {
                    0u8
                })) by (bit_vector)
                    requires
                        a <= 1,
                        b <= 1,
                ;
            }
        }
        proof {
            assert(out@ =~= and_bits(self@, rhs@));
        }
        Ok(out)
    }
}

} // verus!
