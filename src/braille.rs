//! Braille glyph encoding: dot offsets to a code point in U+2800..=U+28FF and back.
use vstd::prelude::*;
use vstd::utf8::is_scalar;

use crate::error::CoreError;

verus! {

/// The code point of the blank braille pattern; a glyph is this base plus its dot mask.
pub const BRAILLE_BASE: u32 = 0x2800;

/// `2^d`.
pub open spec fn pow2(d: nat) -> nat
    decreases d,
{
    if d == 0 {
        1
    } else {
        2 * pow2((d - 1) as nat)
    }
}

/// The bitmask that a list of dot offsets adds up to: the sum of `2^offset`.
pub open spec fn dot_sum(dots: Seq<u8>) -> nat
    decreases dots.len(),
{
    if dots.len() == 0 {
        0
    } else {
        dot_sum(dots.drop_last()) + pow2(dots.last() as nat)
    }
}

/// The dot offsets that a braille glyph shows: bit `k` of its mask is set.
pub open spec fn glyph_dots(c: char) -> Set<u8> {
    Set::new(|k: u8| k < 8 && has_bit(((c as u32) - BRAILLE_BASE) as u32, k))
}

/// Bit `k` of `m` is set.
pub open spec fn has_bit(m: u32, k: u8) -> bool {
    (m >> (k as u32)) & 1u32 == 1u32
}

/// A list of dot offsets that names each dot of a cell at most once.
pub open spec fn valid_dots(dots: Seq<u8>) -> bool {
    &&& dots.no_duplicates()
    &&& forall|i: int| 0 <= i < dots.len() ==> #[trigger] dots[i] <= 7
}

proof fn lemma_pow2_monotone(a: nat, b: nat)
    requires
        a <= b,
    ensures
        pow2(a) <= pow2(b),
    decreases b,
{
    if a < b {
        lemma_pow2_monotone(a, (b - 1) as nat);
    }
}

proof fn lemma_pow2_positive(a: nat)
    ensures
        pow2(a) >= 1,
    decreases a,
{
    if a > 0 {
        lemma_pow2_positive((a - 1) as nat);
    }
}

proof fn lemma_pow2_small()
    ensures
        pow2(6) == 64,
        pow2(7) == 128,
        pow2(8) == 256,
{
    reveal_with_fuel(pow2, 9);
}

/// The sum over a prefix never exceeds the sum over the whole list.
proof fn lemma_dot_sum_prefix(dots: Seq<u8>, i: int)
    requires
        0 <= i <= dots.len(),
    ensures
        dot_sum(dots.subrange(0, i)) <= dot_sum(dots),
    decreases dots.len(),
{
    if i < dots.len() {
        assert(dots.drop_last().subrange(0, i) =~= dots.subrange(0, i));
        lemma_dot_sum_prefix(dots.drop_last(), i);
    } else {
        assert(dots.subrange(0, i) =~= dots);
    }
}

/// `2^d` for an offset of a braille cell.
fn dot_weight(d: u8) -> (w: u32)
    requires
        d <= 7,
    ensures
        w == pow2(d as nat),
        w <= 128,
{
    let mut w: u32 = 1;
    let mut k: u8 = 0;
    while k < d
        invariant
            k <= d <= 7,
            w == pow2(k as nat),
        decreases d - k,
    {
        proof {
            lemma_pow2_monotone(k as nat, 6);
            lemma_pow2_small();
        }
        w = w * 2;
        k = k + 1;
    }
    proof {
        lemma_pow2_monotone(k as nat, 7);
        lemma_pow2_small();
    }
    w
}

/// Relies on `char::from_u32`: it returns `Some` exactly for Unicode scalar
/// values, holding the char whose code point is the argument.
#[verifier::external_body]
fn char_from_code(v: u32) -> (r: Option<char>)
    ensures
        r is Some <==> is_scalar(v),
        r is Some ==> r->Some_0 as u32 == v,
{
    char::from_u32(v)
}

/// Packs dot offsets (`0..=7`) into one braille glyph: the code point is
/// `0x2800` plus the sum of `2^offset`. A sum above 255 (an offset above 7, or
/// too many repeated offsets) is refused.
pub fn to_braille(dots: &[u8]) -> (r: Result<char, CoreError>)
    ensures
        dot_sum(dots@) <= 255 <==> r is Ok,
        r is Ok ==> r->Ok_0 as u32 == BRAILLE_BASE + dot_sum(dots@),
        r is Err ==> r == Err::<char, CoreError>(CoreError::FailedToConvertToBraille),
{
    let mut acc: u32 = 0;
    let mut i: usize = 0;
    while i < dots.len()
        invariant
            0 <= i <= dots@.len(),
            acc == dot_sum(dots@.subrange(0, i as int)),
            acc <= 255,
        decreases dots@.len() - i,
    {
        let d = dots[i];
        proof {
            assert(dots@.subrange(0, i as int + 1).drop_last() =~= dots@.subrange(0, i as int));
            lemma_dot_sum_prefix(dots@, i as int + 1);
        }
        if d > 7 {
            proof {
                lemma_pow2_monotone(8, d as nat);
                lemma_pow2_small();
            }
            return Err(CoreError::FailedToConvertToBraille);
        }
        let w = dot_weight(d);
        acc = acc + w;
        if acc > 255 {
            return Err(CoreError::FailedToConvertToBraille);
        }
        i = i + 1;
    }
    proof {
        assert(dots@.subrange(0, i as int) =~= dots@);
    }
    let code = BRAILLE_BASE + acc;
    match char_from_code(code) {
        Some(c) => Ok(c),
        None => Err(CoreError::FailedToConvertToBraille),
    }
}

proof fn lemma_pow2_shift(d: u8)
    requires
        d < 8,
    ensures
        pow2(d as nat) == (1u32 << (d as u32)),
{
    reveal_with_fuel(pow2, 8);
    let e = d as u32;
    assert(e < 8 ==> (1u32 << e) == if e == 0 {
        1u32
    } else if e == 1 {
        2u32
    } else if e == 2 {
        4u32
    } else if e == 3 {
        8u32
    } else if e == 4 {
        16u32
    } else if e == 5 {
        32u32
    } else if e == 6 {
        64u32
    } else {
        128u32
    }) by (bit_vector);
}

/// Setting a clear bit `d` of a mask below 256 by addition keeps it below 256
/// and changes bit `d` alone.
proof fn lemma_add_clear_bit(m: u32, d: u8)
    requires
        m <= 255,
        d < 8,
        !has_bit(m, d),
    ensures
        m + (1u32 << (d as u32)) <= 255,
        forall|k: u8|
            k < 8 ==> (#[trigger] has_bit((m + (1u32 << (d as u32))) as u32, k) <==> (has_bit(m, k)
                || k == d)),
{
    let e = d as u32;
    assert(m <= 255 && e < 8 && (m >> e) & 1u32 != 1u32 ==> m + (1u32 << e) <= 255)
        by (bit_vector);
    assert forall|k: u8| k < 8 implies #[trigger] has_bit((m + (1u32 << e)) as u32, k) <==> (
    has_bit(m, k) || k == d) by {
        let f = k as u32;
        assert(m <= 255 && e < 8 && f < 8 && (m >> e) & 1u32 != 1u32 ==> (((((m + (1u32 << e))
            as u32) >> f) & 1u32 == 1u32) <==> ((m >> f) & 1u32 == 1u32 || f == e)))
            by (bit_vector);
    }
}

/// For offsets that are distinct and at most 7 the sum of `2^offset` is a
/// bitmask whose set bits are exactly those offsets.
pub proof fn lemma_dot_sum_bits(dots: Seq<u8>)
    requires
        valid_dots(dots),
    ensures
        dot_sum(dots) <= 255,
        forall|k: u8| k < 8 ==> (#[trigger] has_bit(dot_sum(dots) as u32, k) <==> dots.contains(k)),
    decreases dots.len(),
{
    if dots.len() == 0 {
        assert forall|k: u8| k < 8 implies !#[trigger] has_bit(dot_sum(dots) as u32, k) by {
            let f = k as u32;
            assert((0u32 >> f) & 1u32 == 0u32) by (bit_vector);
        }
    } else {
        let rest = dots.drop_last();
        let d = dots.last();
        assert forall|i: int| 0 <= i < rest.len() implies #[trigger] rest[i] <= 7 by {
            assert(rest[i] == dots[i]);
        }
        assert(rest.no_duplicates()) by {
            assert forall|i: int, j: int| 0 <= i < rest.len() && 0 <= j < rest.len() && i != j
                implies rest[i] != rest[j] by {
                assert(rest[i] == dots[i] && rest[j] == dots[j]);
            }
        }
        lemma_dot_sum_bits(rest);
        let m = dot_sum(rest) as u32;
        assert(!rest.contains(d)) by {
            if rest.contains(d) {
                let i = choose|i: int| 0 <= i < rest.len() && rest[i] == d;
                assert(dots[i] == dots[dots.len() - 1]);
            }
        }
        assert(d <= 7) by {
            assert(dots[dots.len() - 1] <= 7);
        }
        lemma_pow2_shift(d);
        lemma_add_clear_bit(m, d);
        assert forall|k: u8| k < 8 implies (#[trigger] has_bit(dot_sum(dots) as u32, k)
            <==> dots.contains(k)) by {
            if dots.contains(k) && k != d {
                let i = choose|i: int| 0 <= i < dots.len() && dots[i] == k;
                assert(rest[i] == k);
            }
            if rest.contains(k) {
                let i = choose|i: int| 0 <= i < rest.len() && rest[i] == k;
                assert(dots[i] == k);
            }
            assert(dots[dots.len() - 1] == d);
        }
    }
}

/// One offset above 7 makes the mask exceed 255.
proof fn lemma_dot_sum_at_least(dots: Seq<u8>, i: int)
    requires
        0 <= i < dots.len(),
    ensures
        dot_sum(dots) >= pow2(dots[i] as nat),
    decreases dots.len(),
{
    lemma_pow2_positive(dots.last() as nat);
    if i < dots.len() - 1 {
        assert(dots.drop_last()[i] == dots[i]);
        lemma_dot_sum_at_least(dots.drop_last(), i);
    }
}

/// A list that holds an offset above 7 adds up to more than 255, so
/// `to_braille` refuses it.
pub proof fn lemma_offset_above_seven_refused(dots: Seq<u8>, i: int)
    requires
        0 <= i < dots.len(),
        dots[i] > 7,
    ensures
        dot_sum(dots) > 255,
{
    lemma_dot_sum_at_least(dots, i);
    lemma_pow2_monotone(8, dots[i] as nat);
    lemma_pow2_small();
}

/// Encoding is a bijection between sets of dots and glyphs: any duplicate-free
/// list of offsets `0..=7` encodes (its mask is at most 255), and the dots read
/// back from its glyph are exactly the listed ones; two lists that give the
/// same glyph name the same dots.
pub proof fn lemma_braille_round_trip(dots: Seq<u8>, other: Seq<u8>, c: char)
    requires
        valid_dots(dots),
        valid_dots(other),
        c as u32 == BRAILLE_BASE + dot_sum(dots),
    ensures
        dot_sum(dots) <= 255,
        glyph_dots(c) == dots.to_set(),
        dot_sum(other) == dot_sum(dots) ==> other.to_set() == dots.to_set(),
{
    lemma_dot_sum_bits(dots);
    lemma_dot_sum_bits(other);
    assert(glyph_dots(c) =~= dots.to_set());
    if dot_sum(other) == dot_sum(dots) {
        assert(other.to_set() =~= dots.to_set());
    }
}

/// Reads the dots of a braille glyph back: the offsets of the set bits of its
/// mask, in increasing order. `None` for a char outside `U+2800..=U+28FF`.
pub fn braille_dots(c: char) -> (r: Option<Vec<u8>>)
    ensures
        r is Some <==> BRAILLE_BASE <= c as u32 <= BRAILLE_BASE + 255,
        r is Some ==> valid_dots(r->Some_0@) && r->Some_0@.to_set() == glyph_dots(c),
        r is Some ==> forall|i: int, j: int|
            0 <= i < j < r->Some_0@.len() ==> r->Some_0@[i] < r->Some_0@[j],
{
    let code = c as u32;
    if code < BRAILLE_BASE || code > BRAILLE_BASE + 255 {
        return None;
    }
    let m = code - BRAILLE_BASE;
    let mut dots: Vec<u8> = Vec::new();
    let mut k: u8 = 0;
    while k < 8
        invariant
            k <= 8,
            m == (c as u32) - BRAILLE_BASE,
            dots@.no_duplicates(),
            forall|i: int| 0 <= i < dots@.len() ==> #[trigger] dots@[i] < k,
            forall|i: int, j: int| 0 <= i < j < dots@.len() ==> dots@[i] < dots@[j],
            forall|j: u8| #[trigger] dots@.contains(j) <==> (j < k && has_bit(m, j)),
        decreases 8 - k,
    {
        let ghost prev = dots@;
        let bit = (m >> (k as u32)) & 1u32;
        if bit == 1 {
            dots.push(k);
        }
        proof {
            assert forall|j: u8| #[trigger] dots@.contains(j) <==> (j < k + 1 && has_bit(m, j)) by {
                assert(prev.contains(j) <==> (j < k && has_bit(m, j)));
                if dots@.contains(j) {
                    let i = choose|i: int| 0 <= i < dots@.len() && dots@[i] == j;
                    if i < prev.len() {
                        assert(prev[i] == j);
                    }
                }
                if j < k && has_bit(m, j) {
                    let i = choose|i: int| 0 <= i < prev.len() && prev[i] == j;
                    assert(dots@[i] == j);
                }
                if j == k && has_bit(m, j) {
                    assert(dots@[dots@.len() - 1] == j);
                }
            }
        }
        k = k + 1;
    }
    proof {
        assert(dots@.to_set() =~= glyph_dots(c));
    }
    Some(dots)
}

} // verus!
