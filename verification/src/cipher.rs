//! The DES engine: key schedule derivation, the Feistel round function and
//! the 16-round block transform, each tied to a specification-level model.
//!
//! The model mirrors the pipeline one step at a time: [`apply_table_spec`]
//! for table-driven permutations, [`subkey_spec`] for the per-round key,
//! [`feistel_spec`] for the round function and [`rounds_spec`] for the round
//! iteration. [`lemma_des_round_trip`] proves that deciphering undoes
//! enciphering for every block and key.
use crate::bit::{
    bits_value, int_bits, is_bit_seq, lemma_bits_value_bound,
    lemma_bits_value_int, lemma_int_bits_len, lemma_int_bits_valid, lemma_int_bits_value,
    lemma_xor_cancel, shifted, xor_bits, Bit, Bitwise, DESError, ToBitVec, ToInteger,
};
use crate::bit::{deque_to_vec, lemma_shifted_wf, vec_to_deque, ShiftLeft};
use crate::tables::{
    lemma_final_inverts_initial, lemma_tables_in_range, table_in_range, FINAL_PERMUTATION_TABLE,
    INITIAL_PERMUTATION_TABLE, KEY_SHIFT, P_TABLE, PC1, PC2, RE_EXPANSION_TABLE, SBOX_TABLE,
};
use vstd::arithmetic::power2::{lemma2_to64, lemma2_to64_rest};
use vstd::prelude::*;

verus! {

/// The result of sending each table entry, a 1-based index, through `s`:
/// output bit `i` is input bit `t[i] - 1`.
pub open spec fn apply_table_spec(t: Seq<u8>, s: Seq<u8>) -> Seq<u8> {
    Seq::new(t.len(), |i: int| s[t[i] - 1])
}

pub proof fn lemma_apply_table_wf(t: Seq<u8>, s: Seq<u8>)
    requires
        table_in_range(t, s.len() as int),
        is_bit_seq(s),
    ensures
        apply_table_spec(t, s).len() == t.len(),
        is_bit_seq(apply_table_spec(t, s)),
{
    assert forall|i: int| 0 <= i < t.len() implies apply_table_spec(t, s)[i] <= 1 by {
        assert(1 <= t[i] <= s.len());
    }
}

pub proof fn lemma_xor_bits_wf(a: Seq<u8>, b: Seq<u8>)
    ensures
        xor_bits(a, b).len() == a.len(),
        is_bit_seq(xor_bits(a, b)),
{
    assert forall|i: int| 0 <= i < a.len() implies xor_bits(a, b)[i] <= 1 by {}
}

/// The initial permutation of a 64-bit sequence is again 64 valid bits.
proof fn lemma_ip_wf(s: Seq<u8>)
    requires
        s.len() == 64,
        is_bit_seq(s),
    ensures
        apply_table_spec(INITIAL_PERMUTATION_TABLE@, s).len() == 64,
        is_bit_seq(apply_table_spec(INITIAL_PERMUTATION_TABLE@, s)),
{
    lemma_tables_in_range();
    lemma_apply_table_wf(INITIAL_PERMUTATION_TABLE@, s);
}

/// The final permutation of a 64-bit sequence is again 64 valid bits.
proof fn lemma_fp_wf(s: Seq<u8>)
    requires
        s.len() == 64,
        is_bit_seq(s),
    ensures
        apply_table_spec(FINAL_PERMUTATION_TABLE@, s).len() == 64,
        is_bit_seq(apply_table_spec(FINAL_PERMUTATION_TABLE@, s)),
{
    lemma_tables_in_range();
    lemma_apply_table_wf(FINAL_PERMUTATION_TABLE@, s);
}

/// Applies a permutation table to a bit vector.
fn permute<const N: usize>(table: &[u8; N], input: &Vec<Bit>) -> (r: Vec<Bit>)
    requires
        table_in_range(table@, input@.len() as int),
    ensures
        r@ == apply_table_spec(table@, input@),
{
    let mut out: Vec<Bit> = Vec::new();
    for i in 0..N
        invariant
            table_in_range(table@, input@.len() as int),
            out@.len() == i,
            forall|j: int| 0 <= j < i ==> out@[j] == input@[#[trigger] table@[j] - 1],
    {
        let idx = table[i];
        out.push(input[(idx - 1) as usize]);
    }
    proof {
        assert(out@ =~= apply_table_spec(table@, input@));
    }
    out
}

/// Copies the bits of `v` between positions `start` and `end`.
fn sub_vec(v: &Vec<Bit>, start: usize, end: usize) -> (r: Vec<Bit>)
    requires
        start <= end <= v@.len(),
    ensures
        r@ == v@.subrange(start as int, end as int),
{
    let mut out: Vec<Bit> = Vec::new();
    for i in start..end
        invariant
            start <= i <= end <= v@.len(),
            out@ == v@.subrange(start as int, i as int),
    {
        out.push(v[i]);
        proof {
            assert(out@ =~= v@.subrange(start as int, i + 1));
        }
    }
    out
}

/// The 64 bits of a block or key, most-significant bit first.
pub fn get_bits(number: u64) -> (r: Vec<Bit>)
    ensures
        r@ == int_bits(number as nat, 64),
        r@.len() == 64,
        is_bit_seq(r@),
        bits_value(r@) == number,
{
    number.to_bit_vec()
}

/// The 56 key bits selected by PC-1, in table order.
pub open spec fn pc1_selected(key: u64) -> Seq<u8> {
    apply_table_spec(PC1@, int_bits(key as nat, 64))
}

/// The first 28-bit key half, after the rotations of rounds 1..=r.
pub open spec fn c_half(key: u64, r: int) -> Seq<u8>
    decreases r,
{
    if r <= 0 {
        pc1_selected(key).subrange(0, 28)
    } else {
        shifted(c_half(key, r - 1), KEY_SHIFT@[r - 1] as nat, true)
    }
}

/// The second 28-bit key half, after the rotations of rounds 1..=r.
pub open spec fn d_half(key: u64, r: int) -> Seq<u8>
    decreases r,
{
    if r <= 0 {
        pc1_selected(key).subrange(28, 56)
    } else {
        shifted(d_half(key, r - 1), KEY_SHIFT@[r - 1] as nat, true)
    }
}

/// The 48-bit subkey of round `r`: PC-2 applied to the rotated halves.
#[verifier::opaque]
pub open spec fn subkey_spec(key: u64, r: int) -> Seq<u8> {
    apply_table_spec(PC2@, c_half(key, r) + d_half(key, r))
}

pub proof fn lemma_halves_wf(key: u64, r: int)
    ensures
        c_half(key, r).len() == 28,
        d_half(key, r).len() == 28,
        is_bit_seq(c_half(key, r)),
        is_bit_seq(d_half(key, r)),
    decreases (if r <= 0 {
        0int
    } else {
        r
    }),
{
    if r <= 0 {
        lemma_tables_in_range();
        lemma_int_bits_len(key as nat, 64);
        lemma_int_bits_valid(key as nat, 64);
        lemma_apply_table_wf(PC1@, int_bits(key as nat, 64));
        assert(is_bit_seq(pc1_selected(key).subrange(0, 28)));
        assert(is_bit_seq(pc1_selected(key).subrange(28, 56)));
    } else {
        lemma_halves_wf(key, r - 1);
        lemma_shifted_wf(c_half(key, r - 1), KEY_SHIFT@[r - 1] as nat, true);
        lemma_shifted_wf(d_half(key, r - 1), KEY_SHIFT@[r - 1] as nat, true);
    }
}

pub proof fn lemma_subkey_wf(key: u64, r: int)
    ensures
        subkey_spec(key, r).len() == 48,
        is_bit_seq(subkey_spec(key, r)),
{
    reveal(subkey_spec);
    lemma_halves_wf(key, r);
    lemma_tables_in_range();
    let concat = c_half(key, r) + d_half(key, r);
    assert(is_bit_seq(concat));
    lemma_apply_table_wf(PC2@, concat);
}

/// The row a 6-bit group selects in its S-box: its outer two bits.
pub open spec fn sbox_row(s: Seq<u8>, i: int) -> int {
    2 * s[6 * i] + s[6 * i + 5]
}

/// The column a 6-bit group selects in its S-box: its middle four bits.
pub open spec fn sbox_col(s: Seq<u8>, i: int) -> int {
    8 * s[6 * i + 1] + 4 * s[6 * i + 2] + 2 * s[6 * i + 3] + s[6 * i + 4]
}

/// The 4-bit value group `i` of the 48-bit sequence selects in S-box `i`.
pub open spec fn sbox_val(s: Seq<u8>, i: int) -> u8 {
    SBOX_TABLE@[i]@[sbox_row(s, i)]@[sbox_col(s, i)]
}

/// The four output bits of group `i`.
pub open spec fn sbox_group_out(s: Seq<u8>, i: int) -> Seq<u8> {
    int_bits(sbox_val(s, i) as nat, 4)
}

/// The concatenated outputs of the first `k` S-box groups.
pub open spec fn sbox_groups(s: Seq<u8>, k: int) -> Seq<u8>
    decreases k,
{
    if k <= 0 {
        Seq::empty()
    } else {
        sbox_groups(s, k - 1) + sbox_group_out(s, k - 1)
    }
}

pub proof fn lemma_sbox_groups_wf(s: Seq<u8>, k: int)
    requires
        k >= 0,
    ensures
        sbox_groups(s, k).len() == 4 * k,
        is_bit_seq(sbox_groups(s, k)),
    decreases k,
{
    if k > 0 {
        lemma_sbox_groups_wf(s, k - 1);
        lemma_int_bits_len(sbox_val(s, k - 1) as nat, 4);
        lemma_int_bits_valid(sbox_val(s, k - 1) as nat, 4);
        assert(is_bit_seq(sbox_groups(s, k - 1) + sbox_group_out(s, k - 1)));
    }
}

/// The Feistel round function: expansion by E, key mixing, S-box
/// substitution and the round permutation P.
#[verifier::opaque]
pub open spec fn feistel_spec(r: Seq<u8>, sk: Seq<u8>) -> Seq<u8> {
    apply_table_spec(
        P_TABLE@,
        sbox_groups(xor_bits(apply_table_spec(RE_EXPANSION_TABLE@, r), sk), 8),
    )
}

pub proof fn lemma_feistel_wf(r: Seq<u8>, sk: Seq<u8>)
    requires
        r.len() == 32,
        sk.len() == 48,
        is_bit_seq(r),
        is_bit_seq(sk),
    ensures
        feistel_spec(r, sk).len() == 32,
        is_bit_seq(feistel_spec(r, sk)),
{
    reveal(feistel_spec);
    lemma_tables_in_range();
    lemma_apply_table_wf(RE_EXPANSION_TABLE@, r);
    let mixed = xor_bits(apply_table_spec(RE_EXPANSION_TABLE@, r), sk);
    lemma_xor_bits_wf(apply_table_spec(RE_EXPANSION_TABLE@, r), sk);
    lemma_sbox_groups_wf(mixed, 8);
    lemma_apply_table_wf(P_TABLE@, sbox_groups(mixed, 8));
}

/// Expands the 32-bit right half by table E and mixes in the subkey.
/// Fails with [`DESError::LengthMismatch`] when either input has the
/// wrong width.
fn bit_expansion(re: &Vec<Bit>, subkey: &Vec<Bit>) -> (r: Result<Vec<Bit>, DESError>)
    requires
        is_bit_seq(re@),
        is_bit_seq(subkey@),
    ensures
        match r {
            Ok(v) => re@.len() == 32 && subkey@.len() == 48 && v@ == xor_bits(
                apply_table_spec(RE_EXPANSION_TABLE@, re@),
                subkey@,
            ) && v@.len() == 48 && is_bit_seq(v@),
            Err(e) => e == DESError::LengthMismatch && !(re@.len() == 32 && subkey@.len() == 48),
        },
{
    if re.len() != 32 || subkey.len() != 48 {
        return Err(DESError::LengthMismatch);
    }
    proof {
        lemma_tables_in_range();
    }
    let expanded_re = permute(&RE_EXPANSION_TABLE, re);
    proof {
        lemma_apply_table_wf(RE_EXPANSION_TABLE@, re@);
        lemma_xor_bits_wf(expanded_re@, subkey@);
    }
    expanded_re.xor(subkey)
}

/// Substitutes the 48-bit mixed sequence through the eight S-boxes and
/// applies the round permutation P, shrinking it to 32 bits. Fails with
/// [`DESError::LengthMismatch`] when the input has the wrong width.
fn permute_re(input: &Vec<Bit>) -> (r: Result<Vec<Bit>, DESError>)
    requires
        is_bit_seq(input@),
    ensures
        match r {
            Ok(v) => input@.len() == 48 && v@ == apply_table_spec(
                P_TABLE@,
                sbox_groups(input@, 8),
            ) && v@.len() == 32 && is_bit_seq(v@),
            Err(e) => e == DESError::LengthMismatch && input@.len() != 48,
        },
{
    if input.len() != 48 {
        return Err(DESError::LengthMismatch);
    }
    let mut sboxed: Vec<Bit> = Vec::new();
    for i in 0..8usize
        invariant
            input@.len() == 48,
            is_bit_seq(input@),
            sboxed@ == sbox_groups(input@, i as int),
            sboxed@.len() == 4 * i,
            is_bit_seq(sboxed@),
    {
        let start = 6 * i;
        let b0 = input[start];
        let b1 = input[start + 1];
        let b2 = input[start + 2];
        let b3 = input[start + 3];
        let b4 = input[start + 4];
        let b5 = input[start + 5];
        let row = 2 * b0 + b5;
        let col = 8 * b1 + 4 * b2 + 2 * b3 + b4;
        proof {
            assert(row as int == sbox_row(input@, i as int));
            assert(col as int == sbox_col(input@, i as int));
        }
        let val = SBOX_TABLE[i][row as usize][col as usize];
        let ghost before = sboxed@;
        sboxed.push((val >> 3) & 1);
        sboxed.push((val >> 2) & 1);
        sboxed.push((val >> 1) & 1);
        sboxed.push(val & 1);
        proof {
            assert(val == sbox_val(input@, i as int));
            lemma_int_bits_4(val);
            assert(sboxed@ =~= before + int_bits(val as nat, 4));
            assert(sboxed@ =~= sbox_groups(input@, i + 1));
            lemma_sbox_groups_wf(input@, i + 1);
        }
    }
    proof {
        lemma_tables_in_range();
    }
    let permuted = permute(&P_TABLE, &sboxed);
    proof {
        lemma_apply_table_wf(P_TABLE@, sboxed@);
    }
    Ok(permuted)
}

/// The four bits of a value below 16, most-significant first, written
/// with shifts as the substitution step computes them.
proof fn lemma_int_bits_4(v: u8)
    ensures
        int_bits(v as nat, 4) =~= seq![(v >> 3) & 1, (v >> 2) & 1, (v >> 1) & 1, v & 1],
{
    let n = v as nat;
    assert((v >> 3) & 1 == v / 2 / 2 / 2 % 2 && (v >> 2) & 1 == v / 2 / 2 % 2 && (v >> 1) & 1 == v
        / 2 % 2 && v & 1 == v % 2) by (bit_vector);
    reveal_with_fuel(int_bits, 5);
    assert(int_bits(n, 4) =~= seq![
        ((n / 2 / 2 / 2) % 2) as u8,
        ((n / 2 / 2) % 2) as u8,
        ((n / 2) % 2) as u8,
        (n % 2) as u8,
    ]);
}

/// Whether the engine enciphers or deciphers; deciphering only reverses
/// the order in which the round subkeys are applied.
#[derive(Clone, Copy, Debug, PartialEq, Eq, Structural)]
pub enum DESMode {
    Cipher,
    Decipher,
}

/// The subkey index used in loop round `i`: ascending when enciphering,
/// descending when deciphering.
pub open spec fn round_num(mode: DESMode, i: int) -> int {
    if mode == DESMode::Decipher {
        17 - i
    } else {
        i
    }
}

/// The pair (left, right) after `i` Feistel rounds from the permuted
/// halves `l0` and `r0`.
pub open spec fn rounds_spec(l0: Seq<u8>, r0: Seq<u8>, key: u64, mode: DESMode, i: int) -> (
    Seq<u8>,
    Seq<u8>,
)
    decreases i,
{
    if i <= 0 {
        (l0, r0)
    } else {
        let prev = rounds_spec(l0, r0, key, mode, i - 1);
        (
            prev.1,
            xor_bits(feistel_spec(prev.1, subkey_spec(key, round_num(mode, i))), prev.0),
        )
    }
}

pub proof fn lemma_rounds_wf(l0: Seq<u8>, r0: Seq<u8>, key: u64, mode: DESMode, i: int)
    requires
        l0.len() == 32,
        r0.len() == 32,
        is_bit_seq(l0),
        is_bit_seq(r0),
        i >= 0,
    ensures
        rounds_spec(l0, r0, key, mode, i).0.len() == 32,
        rounds_spec(l0, r0, key, mode, i).1.len() == 32,
        is_bit_seq(rounds_spec(l0, r0, key, mode, i).0),
        is_bit_seq(rounds_spec(l0, r0, key, mode, i).1),
    decreases i,
{
    if i > 0 {
        lemma_rounds_wf(l0, r0, key, mode, i - 1);
        let prev = rounds_spec(l0, r0, key, mode, i - 1);
        lemma_subkey_wf(key, round_num(mode, i));
        lemma_feistel_wf(prev.1, subkey_spec(key, round_num(mode, i)));
        lemma_xor_bits_wf(feistel_spec(prev.1, subkey_spec(key, round_num(mode, i))), prev.0);
    }
}

/// The whole transform: initial permutation, 16 rounds, the closing
/// half-swap, and the final permutation, read back as an integer.
pub open spec fn process_spec(input: u64, key: u64, mode: DESMode) -> u64 {
    let permuted = apply_table_spec(INITIAL_PERMUTATION_TABLE@, int_bits(input as nat, 64));
    let fin = rounds_spec(permuted.subrange(0, 32), permuted.subrange(32, 64), key, mode, 16);
    bits_value(apply_table_spec(FINAL_PERMUTATION_TABLE@, fin.1 + fin.0)) as u64
}

/// Derives the 48-bit subkey of round `it_number` (1-based) from the key:
/// PC-1 selection, cumulative rotation of the two 28-bit halves, and PC-2
/// compression. Fails with [`DESError::InvalidRound`] if and only if the
/// round lies outside 1..=16.
pub fn make_subkey(key: u64, it_number: usize) -> (r: Result<Vec<Bit>, DESError>)
    ensures
        match r {
            Ok(v) => 1 <= it_number <= 16 && v@ == subkey_spec(key, it_number as int)
                && v@.len() == 48 && is_bit_seq(v@),
            Err(e) => e == DESError::InvalidRound && (it_number == 0 || it_number > 16),
        },
{
    if it_number == 0 || it_number > 16 {
        return Err(DESError::InvalidRound);
    }
    let key_bits = get_bits(key);
    proof {
        lemma_tables_in_range();
    }
    let encoded_pc1 = permute(&PC1, &key_bits);
    proof {
        lemma_apply_table_wf(PC1@, key_bits@);
    }
    let c_start = sub_vec(&encoded_pc1, 0, 28);
    let d_start = sub_vec(&encoded_pc1, 28, 56);
    let mut c = vec_to_deque(&c_start);
    let mut d = vec_to_deque(&d_start);
    for i in 0..it_number
        invariant
            it_number <= 16,
            c@ == c_half(key, i as int),
            d@ == d_half(key, i as int),
            c@.len() == 28,
            d@.len() == 28,
    {
        proof {
            lemma_halves_wf(key, i + 1);
        }
        let amount = KEY_SHIFT[i];
        c.shift_left(amount as u32, true);
        d.shift_left(amount as u32, true);
        proof {
            assert(c@ == c_half(key, i + 1));
            assert(d@ == d_half(key, i + 1));
        }
    }
    let mut concat = deque_to_vec(&c);
    let mut d_out = deque_to_vec(&d);
    concat.append(&mut d_out);
    proof {
        lemma_halves_wf(key, it_number as int);
        assert(is_bit_seq(concat@));
    }
    let subkey = permute(&PC2, &concat);
    proof {
        reveal(subkey_spec);
        lemma_apply_table_wf(PC2@, concat@);
    }
    Ok(subkey)
}

/// Transforms one 64-bit block under the 64-bit key, enciphering or
/// deciphering as `mode` says. The result is exactly [`process_spec`]
/// of the inputs, so equal inputs always give equal outputs.
pub fn process(input: u64, key: u64, mode: DESMode) -> (r: u64)
    ensures
        r == process_spec(input, key, mode),
{
    let input_bits = get_bits(input);
    proof {
        lemma_tables_in_range();
    }
    let input_permuted = permute(&INITIAL_PERMUTATION_TABLE, &input_bits);
    proof {
        lemma_apply_table_wf(INITIAL_PERMUTATION_TABLE@, input_bits@);
    }
    let mut left = sub_vec(&input_permuted, 0, 32);
    let mut right = sub_vec(&input_permuted, 32, 64);
    let ghost l0 = left@;
    let ghost r0 = right@;
    for i in 1..17usize
        invariant
            l0 == apply_table_spec(
                INITIAL_PERMUTATION_TABLE@,
                int_bits(input as nat, 64),
            ).subrange(0, 32),
            r0 == apply_table_spec(
                INITIAL_PERMUTATION_TABLE@,
                int_bits(input as nat, 64),
            ).subrange(32, 64),
            l0.len() == 32,
            r0.len() == 32,
            is_bit_seq(l0),
            is_bit_seq(r0),
            (left@, right@) == rounds_spec(l0, r0, key, mode, i - 1),
            left@.len() == 32,
            right@.len() == 32,
            is_bit_seq(left@),
            is_bit_seq(right@),
    {
        let round_no: usize = if mode == DESMode::Decipher {
            17 - i
        } else {
            i
        };
        let subkey = match make_subkey(key, round_no) {
            Ok(s) => s,
            Err(_) => {
                proof {
                    assert(false);
                }
                Vec::new()
            },
        };
        let re_expanded = match bit_expansion(&right, &subkey) {
            Ok(v) => v,
            Err(_) => {
                proof {
                    assert(false);
                }
                Vec::new()
            },
        };
        let f_output = match permute_re(&re_expanded) {
            Ok(v) => v,
            Err(_) => {
                proof {
                    assert(false);
                }
                Vec::new()
            },
        };
        let next_re = match f_output.xor(&left) {
            Ok(v) => v,
            Err(_) => {
                proof {
                    assert(false);
                }
                Vec::new()
            },
        };
        proof {
            reveal(feistel_spec);
            assert(round_no as int == round_num(mode, i as int));
            assert(f_output@ == feistel_spec(right@, subkey_spec(key, round_num(mode, i as int))));
            assert(rounds_spec(l0, r0, key, mode, i as int) == (
                right@,
                xor_bits(f_output@, left@),
            ));
            lemma_rounds_wf(l0, r0, key, mode, i as int);
        }
        left = right;
        right = next_re;
    }
    let mut concated = right;
    concated.append(&mut left);
    proof {
        let fin = rounds_spec(l0, r0, key, mode, 16);
        assert(concated@ == fin.1 + fin.0);
        assert(is_bit_seq(concated@));
    }
    let final_reshuffle = permute(&FINAL_PERMUTATION_TABLE, &concated);
    proof {
        lemma_apply_table_wf(FINAL_PERMUTATION_TABLE@, concated@);
        lemma_bits_value_bound(final_reshuffle@);
        lemma2_to64();
        lemma2_to64_rest();
    }
    let result = final_reshuffle.to_u64();
    result
}

/// A permutation followed by its inverse, in either order, returns every
/// 64-bit sequence unchanged.
proof fn lemma_permutation_identity(s: Seq<u8>)
    requires
        s.len() == 64,
    ensures
        apply_table_spec(FINAL_PERMUTATION_TABLE@, apply_table_spec(INITIAL_PERMUTATION_TABLE@, s))
            == s,
        apply_table_spec(INITIAL_PERMUTATION_TABLE@, apply_table_spec(FINAL_PERMUTATION_TABLE@, s))
            == s,
{
    lemma_tables_in_range();
    lemma_final_inverts_initial();
    let ip = INITIAL_PERMUTATION_TABLE@;
    let fp = FINAL_PERMUTATION_TABLE@;
    assert forall|j: int| 0 <= j < 64 implies apply_table_spec(fp, apply_table_spec(ip, s))[j]
        == s[j] by {
        assert(apply_table_spec(ip, s)[fp[j] - 1] == s[ip[fp[j] - 1] - 1]);
    }
    assert(apply_table_spec(fp, apply_table_spec(ip, s)) =~= s);
    assert forall|j: int| 0 <= j < 64 implies apply_table_spec(ip, apply_table_spec(fp, s))[j]
        == s[j] by {
        assert(apply_table_spec(fp, s)[ip[j] - 1] == s[fp[ip[j] - 1] - 1]);
    }
    assert(apply_table_spec(ip, apply_table_spec(fp, s)) =~= s);
}

/// Running the rounds with the subkeys reversed unwinds them: after `i`
/// deciphering rounds from the swapped final enciphering state, the state
/// is the swapped enciphering state of round `16 - i`.
#[verifier::rlimit(100)]
proof fn lemma_rounds_invert(l0: Seq<u8>, r0: Seq<u8>, key: u64, i: int)
    requires
        l0.len() == 32,
        r0.len() == 32,
        is_bit_seq(l0),
        is_bit_seq(r0),
        0 <= i <= 16,
    ensures
        rounds_spec(
            rounds_spec(l0, r0, key, DESMode::Cipher, 16).1,
            rounds_spec(l0, r0, key, DESMode::Cipher, 16).0,
            key,
            DESMode::Decipher,
            i,
        ) == (
            rounds_spec(l0, r0, key, DESMode::Cipher, 16 - i).1,
            rounds_spec(l0, r0, key, DESMode::Cipher, 16 - i).0,
        ),
    decreases i,
{
    let e16 = rounds_spec(l0, r0, key, DESMode::Cipher, 16);
    if i > 0 {
        lemma_rounds_invert(l0, r0, key, i - 1);
        let back = rounds_spec(l0, r0, key, DESMode::Cipher, 17 - i);
        let fore = rounds_spec(l0, r0, key, DESMode::Cipher, 16 - i);
        lemma_rounds_wf(l0, r0, key, DESMode::Cipher, 16 - i);
        lemma_rounds_wf(l0, r0, key, DESMode::Cipher, 17 - i);
        // The enciphering step from 16 - i to 17 - i, and the deciphering
        // step at i, mix with the same subkey.
        assert(round_num(DESMode::Cipher, 17 - i) == 17 - i);
        assert(round_num(DESMode::Decipher, i) == 17 - i);
        let sk = subkey_spec(key, 17 - i);
        lemma_subkey_wf(key, 17 - i);
        assert(back == (fore.1, xor_bits(feistel_spec(fore.1, sk), fore.0)));
        let dec = rounds_spec(e16.1, e16.0, key, DESMode::Decipher, i);
        assert(dec == (
            back.0,
            xor_bits(feistel_spec(back.0, sk), back.1),
        ));
        assert(back.0 == fore.1);
        lemma_feistel_wf(fore.1, sk);
        lemma_xor_cancel(feistel_spec(fore.1, sk), fore.0);
        assert(dec.1 == fore.0);
    }
}

/// Deciphering undoes enciphering: for every 64-bit block and key, the
/// block comes back unchanged.
#[verifier::rlimit(100)]
pub proof fn lemma_des_round_trip(block: u64, key: u64)
    ensures
        process_spec(process_spec(block, key, DESMode::Cipher), key, DESMode::Decipher) == block,
{
    let ib = int_bits(block as nat, 64);
    lemma_int_bits_len(block as nat, 64);
    lemma_int_bits_valid(block as nat, 64);
    let p = apply_table_spec(INITIAL_PERMUTATION_TABLE@, ib);
    lemma_ip_wf(ib);
    let l0 = p.subrange(0, 32);
    let r0 = p.subrange(32, 64);
    let e16 = rounds_spec(l0, r0, key, DESMode::Cipher, 16);
    lemma_rounds_wf(l0, r0, key, DESMode::Cipher, 16);
    let joined = e16.1 + e16.0;
    assert(is_bit_seq(joined));
    let out = apply_table_spec(FINAL_PERMUTATION_TABLE@, joined);
    lemma_fp_wf(joined);
    let c = process_spec(block, key, DESMode::Cipher);
    lemma_bits_value_bound(out);
    lemma2_to64();
    lemma2_to64_rest();
    assert(c as nat == bits_value(out));
    lemma_bits_value_int(out);
    assert(int_bits(c as nat, 64) == out);
    // Deciphering starts from the enciphered block's bits.
    lemma_permutation_identity(joined);
    let p2 = apply_table_spec(INITIAL_PERMUTATION_TABLE@, out);
    assert(p2 == joined);
    assert(p2.subrange(0, 32) =~= e16.1);
    assert(p2.subrange(32, 64) =~= e16.0);
    lemma_rounds_invert(l0, r0, key, 16);
    let fin = rounds_spec(e16.1, e16.0, key, DESMode::Decipher, 16);
    assert(fin == (r0, l0));
    assert(fin.1 + fin.0 =~= p);
    lemma_permutation_identity(ib);
    assert(apply_table_spec(FINAL_PERMUTATION_TABLE@, p) == ib);
    lemma_int_bits_value(block as nat, 64);
    assert(process_spec(c, key, DESMode::Decipher) == bits_value(ib) as u64);
}

} // verus!
