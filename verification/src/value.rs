//! Tagged runtime values and their canonical printed form.
//!
//! A value is a boolean, a number, the nil value (`Empty`), or a reference to
//! a heap object, held as an index into the allocator's object table.
//! Numbers are 64-bit signed integers.

use vstd::prelude::*;
use crate::gc::GC;
use crate::obj::print_obj;
use crate::scanner::{all_digits, is_digit, is_number_lexeme};

verus! {

/// A tagged runtime value. `Obj` holds the index of a heap object owned by
/// the allocation facade; the object outlives every value that refers to it.
#[derive(Copy, Clone, Debug, PartialEq, Eq, Structural)]
pub enum Value {
    Bool(bool),
    Number(i64),
    Obj(usize),
    Empty,
}

/// Every `Obj` reference in the value points at an allocated heap object.
pub open spec fn value_wf(v: Value, heap_size: nat) -> bool {
    match v {
        Value::Obj(i) => i < heap_size,
        _ => true,
    }
}

/// The decimal digits of a non-negative integer, most significant first.
pub open spec fn dec_digits(n: nat) -> Seq<u8>
    decreases n,
{
    if n < 10 {
        seq![(48 + n) as u8]
    } else {
        dec_digits(n / 10).push((48 + n % 10) as u8)
    }
}

/// The canonical decimal rendering of an integer: a minus sign for negative
/// values, then the digits without leading zeroes.
pub open spec fn dec_rep(n: int) -> Seq<u8> {
    if n < 0 {
        seq![45u8] + dec_digits((-n) as nat)
    } else {
        dec_digits(n as nat)
    }
}

/// How a value prints: booleans as `true`/`false`, numbers in decimal, nil
/// as nothing, and strings quoted.
pub open spec fn rendered(v: Value, heap: Seq<Seq<u8>>) -> Seq<u8> {
    match v {
        Value::Bool(b) => if b {
            seq![116u8, 114, 117, 101]
        } else {
            seq![102u8, 97, 108, 115, 101]
        },
        Value::Number(n) => dec_rep(n as int),
        Value::Empty => Seq::empty(),
        Value::Obj(i) => seq![34u8] + heap[i as int] + seq![34u8],
    }
}

/// Appends the decimal digits of `mag` to `out`, most significant first.
fn push_digits(mag: u64, out: &mut Vec<u8>)
    ensures
        final(out)@ == old(out)@ + dec_digits(mag as nat),
    decreases mag,
{
    if mag < 10 {
        out.push(48 + mag as u8);
        assert(out@ =~= old(out)@ + dec_digits(mag as nat));
    } else {
        push_digits(mag / 10, out);
        out.push(48 + (mag % 10) as u8);
        assert(out@ =~= old(out)@ + dec_digits(mag as nat));
    }
}

/// The bytes a value prints as.
pub fn print_value(gc: &GC, value: Value) -> (r: Vec<u8>)
    requires
        value_wf(value, gc.strings().len()),
    ensures
        r@ == rendered(value, gc.strings()),
{
    match value {
        Value::Bool(b) => {
            let mut out: Vec<u8> = Vec::new();
            if b {
                out.push(116);
                out.push(114);
                out.push(117);
                out.push(101);
                assert(out@ =~= rendered(value, gc.strings()));
            } else {
                out.push(102);
                out.push(97);
                out.push(108);
                out.push(115);
                out.push(101);
                assert(out@ =~= rendered(value, gc.strings()));
            }
            out
        }
        Value::Number(n) => {
            let mut out: Vec<u8> = Vec::new();
            let mag: u64 = if n >= 0 {
                n as u64
            } else if n == i64::MIN {
                9223372036854775808u64
            } else {
                (-n) as u64
            };
            if n < 0 {
                out.push(45);
            }
            push_digits(mag, &mut out);
            assert(out@ =~= rendered(value, gc.strings()));
            out
        }
        Value::Empty => {
            let out: Vec<u8> = Vec::new();
            assert(out@ =~= rendered(value, gc.strings()));
            out
        }
        Value::Obj(i) => {
            let r = print_obj(gc.get(i));
            r
        }
    }
}

/// The integer denoted by a sequence of decimal digits.
pub open spec fn dec_val(s: Seq<u8>) -> int
    decreases s.len(),
{
    if s.len() == 0 {
        0
    } else {
        dec_val(s.drop_last()) * 10 + (s.last() - 48)
    }
}

/// The length of the longest digit prefix of a sequence.
pub open spec fn digits_prefix_len(s: Seq<u8>) -> int
    decreases s.len(),
{
    if s.len() == 0 || !is_digit(s[0]) {
        0
    } else {
        1 + digits_prefix_len(s.drop_first())
    }
}

/// The numeric value of a number lexeme: its integer part read in decimal,
/// saturated at the largest representable number.
pub open spec fn literal_value(s: Seq<u8>) -> int {
    let v = dec_val(s.subrange(0, digits_prefix_len(s)));
    if v > i64::MAX {
        i64::MAX as int
    } else {
        v
    }
}

/// A digit sequence denotes a non-negative value.
proof fn lemma_dec_val_nonneg(s: Seq<u8>)
    requires
        all_digits(s),
    ensures
        dec_val(s) >= 0,
    decreases s.len(),
{
    if s.len() > 0 {
        assert(all_digits(s.drop_last()));
        lemma_dec_val_nonneg(s.drop_last());
    }
}

/// Reading more digits never shrinks the value.
proof fn lemma_dec_val_mono(s: Seq<u8>, k: int)
    requires
        all_digits(s),
        0 <= k <= s.len(),
    ensures
        dec_val(s.subrange(0, k)) <= dec_val(s),
    decreases s.len(),
{
    if k == s.len() {
        assert(s.subrange(0, k) =~= s);
    } else {
        assert(all_digits(s.drop_last()));
        assert(s.subrange(0, k) =~= s.drop_last().subrange(0, k));
        lemma_dec_val_mono(s.drop_last(), k);
        lemma_dec_val_nonneg(s.drop_last());
    }
}

/// A sequence whose first `k` bytes are digits and whose byte `k`, if any,
/// is not, has a digit prefix of exactly `k`.
proof fn lemma_digits_prefix(s: Seq<u8>, k: int)
    requires
        0 <= k <= s.len(),
        forall|j: int| 0 <= j < k ==> is_digit(#[trigger] s[j]),
        k == s.len() || !is_digit(s[k]),
    ensures
        digits_prefix_len(s) == k,
    decreases k,
{
    if k == 0 {
    } else {
        assert(is_digit(s[0]));
        assert forall|j: int| 0 <= j < k - 1 implies is_digit(#[trigger] s.drop_first()[j]) by {
            assert(s.drop_first()[j] == s[j + 1]);
        }
        if k < s.len() {
            assert(s.drop_first()[k - 1] == s[k as int]);
        }
        lemma_digits_prefix(s.drop_first(), k - 1);
    }
}

/// Reads the integer part of a number lexeme, saturating at `i64::MAX`.
pub fn parse_literal(source: &Vec<u8>, from: usize, to: usize) -> (r: i64)
    requires
        from <= to <= source@.len(),
        is_number_lexeme(source@.subrange(from as int, to as int)),
    ensures
        r == literal_value(source@.subrange(from as int, to as int)),
{
    let ghost lex = source@.subrange(from as int, to as int);
    let mut i: usize = from;
    let mut acc: i64 = 0;
    proof {
        assert(lex.subrange(0, 0) =~= Seq::<u8>::empty());
    }
    while i < to && 48 <= source[i] && source[i] <= 57
        invariant
            from <= i <= to <= source@.len(),
            lex == source@.subrange(from as int, to as int),
            forall|j: int| 0 <= j < i - from ==> is_digit(#[trigger] lex[j]),
            acc >= 0,
            acc == dec_val(lex.subrange(0, i - from)),
        decreases to - i,
    {
        let d = source[i] - 48;
        let ghost n = i - from;
        proof {
            assert(lex[n as int] == source@[i as int]);
            assert(lex.subrange(0, n + 1).drop_last() =~= lex.subrange(0, n as int));
            assert(lex.subrange(0, n + 1).last() == lex[n as int]);
        }
        if acc > (i64::MAX - d as i64) / 10 {
            proof {
                assert(forall|j: int| 0 <= j < n + 1 ==> is_digit(#[trigger] lex[j]));
                lemma_digits_prefix_lower(lex, n + 1);
                lemma_digits_prefix_digits(lex);
                let dpl = digits_prefix_len(lex);
                let full = lex.subrange(0, dpl);
                assert(acc * 10 + d > i64::MAX) by (nonlinear_arith)
                    requires
                        acc > (i64::MAX - d as i64) / 10,
                        0 <= d <= 9,
                        acc >= 0,
                ;
                assert(dec_val(lex.subrange(0, n + 1)) > i64::MAX);
                assert(full.subrange(0, n + 1) =~= lex.subrange(0, n + 1));
                lemma_dec_val_mono(full, n + 1);
            }
            return i64::MAX;
        }
        acc = acc * 10 + d as i64;
        i = i + 1;
    }
    proof {
        lemma_digits_prefix(lex, i - from);
    }
    acc
}

/// A digit prefix of at least `k` bytes means the prefix length is at
/// least `k`.
proof fn lemma_digits_prefix_lower(s: Seq<u8>, k: int)
    requires
        0 <= k <= s.len(),
        forall|j: int| 0 <= j < k ==> is_digit(#[trigger] s[j]),
    ensures
        digits_prefix_len(s) >= k,
    decreases k,
{
    if k > 0 {
        assert(is_digit(s[0]));
        assert forall|j: int| 0 <= j < k - 1 implies is_digit(#[trigger] s.drop_first()[j]) by {
            assert(s.drop_first()[j] == s[j + 1]);
        }
        lemma_digits_prefix_lower(s.drop_first(), k - 1);
    } else {
        lemma_digits_prefix_digits(s);
    }
}

/// The digit prefix consists of digits.
proof fn lemma_digits_prefix_digits(s: Seq<u8>)
    ensures
        0 <= digits_prefix_len(s) <= s.len(),
        all_digits(s.subrange(0, digits_prefix_len(s))),
    decreases s.len(),
{
    if s.len() == 0 || !is_digit(s[0]) {
        assert(s.subrange(0, 0) =~= Seq::<u8>::empty());
    } else {
        lemma_digits_prefix_digits(s.drop_first());
        let d = digits_prefix_len(s);
        assert(s.subrange(0, d).drop_first() =~= s.drop_first().subrange(0, d - 1));
        assert(forall|j: int| 0 <= j < d ==> is_digit(#[trigger] s.subrange(0, d)[j])) by {
            assert forall|j: int| 0 <= j < d implies is_digit(#[trigger] s.subrange(0, d)[j]) by {
                if j == 0 {
                } else {
                    assert(s.subrange(0, d)[j] == s.drop_first().subrange(0, d - 1)[j - 1]);
                }
            }
        }
    }
}

/// A number literal in canonical form: decimal digits with no leading zero
/// (a single zero stands alone), denoting a representable number.
pub open spec fn canonical_literal(s: Seq<u8>) -> bool {
    &&& s.len() > 0
    &&& all_digits(s)
    &&& (s.len() > 1 ==> s[0] != 48)
    &&& dec_val(s) <= i64::MAX
}

/// A digit sequence is worth at least its leading digit.
proof fn lemma_dec_val_first_lower(s: Seq<u8>)
    requires
        all_digits(s),
        s.len() >= 1,
    ensures
        dec_val(s) >= s[0] - 48,
    decreases s.len(),
{
    if s.len() == 1 {
    } else {
        assert(all_digits(s.drop_last()));
        assert(is_digit(s[s.len() - 1]));
        lemma_dec_val_first_lower(s.drop_last());
        lemma_dec_val_nonneg(s.drop_last());
        assert(dec_val(s) == dec_val(s.drop_last()) * 10 + (s.last() - 48));
    }
}

/// Printing inverts reading: a canonical literal's digits come back
/// unchanged from its value.
proof fn lemma_dec_digits_round_trip(s: Seq<u8>)
    requires
        s.len() > 0,
        all_digits(s),
        s.len() > 1 ==> s[0] != 48,
    ensures
        dec_val(s) >= 0,
        dec_digits(dec_val(s) as nat) == s,
    decreases s.len(),
{
    reveal_with_fuel(dec_val, 3);
    reveal_with_fuel(dec_digits, 3);
    lemma_dec_val_nonneg(s);
    if s.len() == 1 {
        assert(is_digit(s[0]));
        assert(s.drop_last() =~= Seq::<u8>::empty());
        assert(dec_val(s) == s[0] - 48);
        assert(dec_digits(dec_val(s) as nat) =~= s);
    } else {
        let dl = s.drop_last();
        assert(all_digits(dl));
        let w = dec_val(dl);
        let d = s.last() - 48;
        lemma_dec_val_nonneg(dl);
        lemma_dec_val_first_lower(dl);
        assert(dl[0] == s[0]);
        assert(is_digit(s[0]));
        assert(is_digit(s[s.len() - 1]));
        assert(w >= 1);
        let v = dec_val(s);
        assert(v == w * 10 + d);
        assert(v >= 10) by (nonlinear_arith)
            requires
                v == w * 10 + d,
                w >= 1,
                d >= 0,
        ;
        vstd::arithmetic::div_mod::lemma_fundamental_div_mod_converse(v, 10, w, d as int);
        lemma_dec_digits_round_trip(dl);
        assert(dec_digits(v as nat) == dec_digits((v as nat) / 10).push(
            (48 + (v as nat) % 10) as u8,
        ));
        assert((v as nat) / 10 == w as nat);
        assert((v as nat) % 10 == d as int);
        assert(dec_digits(v as nat) =~= s);
    }
}

/// Round trip of canonical number literals: reading the digits and printing
/// the value reproduces the literal exactly.
pub proof fn lemma_literal_round_trip(s: Seq<u8>)
    requires
        canonical_literal(s),
    ensures
        0 <= literal_value(s) <= i64::MAX,
        dec_rep(literal_value(s)) == s,
{
    lemma_digits_prefix(s, s.len() as int);
    assert(s.subrange(0, s.len() as int) =~= s);
    lemma_dec_val_nonneg(s);
    assert(literal_value(s) == dec_val(s));
    lemma_dec_digits_round_trip(s);
}

} // verus!
