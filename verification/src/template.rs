//! Templates of the adaptive mixer: 97 numbers.
//!
//! - the version,
//! - per slot: steepness, deviation, maximum, minimum, original level, formula,
//! - the weights of the Dark mood per slot, then its balancer mask per slot,
//! - the same for Neutral,
//! - the same for Bright.
use vstd::prelude::*;

use crate::adaptive::one;
use crate::adaptive::two;
use crate::adaptive::zero;
use crate::adaptive::AdaptiveMixer;
use crate::adaptive::MixerView;
use crate::adaptive::SlotParams;
use crate::adaptive::TWO_BITS;
use crate::number::Real32;
use crate::number::ONE_BITS;
use crate::number::ZERO_BITS;
use crate::seqs::first_index;
use crate::seqs::is_first;
use crate::seqs::lemma_first_index;
use crate::seqs::lemma_first_index_found;
use crate::text::all_digits;
use crate::text::begins_with;
use crate::text::decimal;
use crate::text::decimal_text;
use crate::text::ends;
use crate::text::ends_with;
use crate::text::is_word;
use crate::text::join;
use crate::text::lemma_words_append;
use crate::text::lemma_words_one;
use crate::text::starts;
use crate::text::words;
use crate::text::words_from;

verus! {

/// How many numbers a template has.
pub const NUM_VALUES: usize = 97;

/// The formula that a number chooses: the nearest of 1 to 9, halves rounded
/// up, and the first where it is not a number.
pub open spec fn formula_of(x: Real32) -> u8 {
    if x.nan() {
        1
    } else if x.below(Real32 { bits: 0x3fc0_0000 }) {
        1
    } else if x.below(Real32 { bits: 0x4020_0000 }) {
        2
    } else if x.below(Real32 { bits: 0x4060_0000 }) {
        3
    } else if x.below(Real32 { bits: 0x4090_0000 }) {
        4
    } else if x.below(Real32 { bits: 0x40b0_0000 }) {
        5
    } else if x.below(Real32 { bits: 0x40d0_0000 }) {
        6
    } else if x.below(Real32 { bits: 0x40f0_0000 }) {
        7
    } else if x.below(Real32 { bits: 0x4108_0000 }) {
        8
    } else {
        9
    }
}

fn read_formula(x: Real32) -> (r: u8)
    ensures
        r == formula_of(x),
{
    if x.is_nan() {
        1
    } else if x.lt(Real32 { bits: 0x3fc0_0000 }) {
        1
    } else if x.lt(Real32 { bits: 0x4020_0000 }) {
        2
    } else if x.lt(Real32 { bits: 0x4060_0000 }) {
        3
    } else if x.lt(Real32 { bits: 0x4090_0000 }) {
        4
    } else if x.lt(Real32 { bits: 0x40b0_0000 }) {
        5
    } else if x.lt(Real32 { bits: 0x40d0_0000 }) {
        6
    } else if x.lt(Real32 { bits: 0x40f0_0000 }) {
        7
    } else if x.lt(Real32 { bits: 0x4108_0000 }) {
        8
    } else {
        9
    }
}

/// The slot that the six numbers from `off` on describe, each held in its
/// bounds.
pub open spec fn slot_of(v: Seq<Real32>, off: int) -> SlotParams {
    SlotParams {
        steepness: v[off].clamped(zero(), one()),
        deviation: v[off + 1].clamped(zero(), one()),
        maximum: v[off + 2].clamped(zero(), two()),
        minimum: v[off + 3].clamped(zero(), one()),
        original_level: v[off + 4].clamped(zero(), one()),
        formula: formula_of(v[off + 5]),
    }
}

/// The mask row that the eight numbers from `off` on describe.
pub open spec fn row_of(v: Seq<Real32>, off: int) -> Seq<Real32> {
    Seq::new(8, |s: int| v[off + s].clamped(zero(), one()))
}

/// The mixer with its slots and masks as the numbers say.
pub open spec fn loaded(m: MixerView, v: Seq<Real32>) -> MixerView {
    MixerView {
        slot_params: Seq::new(8, |s: int| slot_of(v, 1 + s * 6)),
        mood_weight: Seq::new(3, |k: int| row_of(v, 49 + k * 16)),
        balancer_mask: Seq::new(3, |k: int| row_of(v, 57 + k * 16)),
        ..m
    }
}

fn read_slot(v: &Vec<Real32>, off: usize) -> (r: SlotParams)
    requires
        off + 6 <= v@.len(),
    ensures
        r == slot_of(v@, off as int),
{
    assert(off + 6 <= v.len());
    let zero = Real32 { bits: ZERO_BITS };
    let one = Real32 { bits: ONE_BITS };
    let two = Real32 { bits: TWO_BITS };
    SlotParams {
        steepness: v[off].clamp(zero, one),
        deviation: v[off + 1].clamp(zero, one),
        maximum: v[off + 2].clamp(zero, two),
        minimum: v[off + 3].clamp(zero, one),
        original_level: v[off + 4].clamp(zero, one),
        formula: read_formula(v[off + 5]),
    }
}

fn read_row(v: &Vec<Real32>, off: usize) -> (r: [Real32; 8])
    requires
        off + 8 <= v@.len(),
    ensures
        r@ == row_of(v@, off as int),
{
    assert(off + 8 <= v.len());
    let zero = Real32 { bits: ZERO_BITS };
    let one = Real32 { bits: ONE_BITS };
    let r = [
        v[off].clamp(zero, one),
        v[off + 1].clamp(zero, one),
        v[off + 2].clamp(zero, one),
        v[off + 3].clamp(zero, one),
        v[off + 4].clamp(zero, one),
        v[off + 5].clamp(zero, one),
        v[off + 6].clamp(zero, one),
        v[off + 7].clamp(zero, one),
    ];
    assert(r@ =~= row_of(v@, off as int));
    r
}

/// What is said of a template with `n` numbers.
pub open spec fn count_error(n: nat) -> Seq<char> {
    "expected 97 floats (version + 8×6 params + 6×8 masks), got "@ + decimal_text(n)
}

/// Take the slots and masks of the mixer from the numbers of a template.
/// Nothing changes where they are not 97. The version is not looked at.
pub fn apply_values(values: &Vec<Real32>, mixer: &mut AdaptiveMixer) -> (r: Result<(), String>)
    ensures
        match r {
            Ok(()) => values@.len() == 97 && final(mixer)@ == loaded(old(mixer)@, values@),
            Err(e) => values@.len() != 97 && final(mixer)@ == old(mixer)@ && e@ == count_error(
                values@.len(),
            ),
        },
{
    if values.len() != NUM_VALUES {
        return Err(
            join(
                "expected 97 floats (version + 8×6 params + 6×8 masks), got ",
                decimal(values.len() as u128).as_str(),
            ),
        );
    }
    let ghost o = mixer@;
    mixer.slot_params = [
        read_slot(values, 1),
        read_slot(values, 7),
        read_slot(values, 13),
        read_slot(values, 19),
        read_slot(values, 25),
        read_slot(values, 31),
        read_slot(values, 37),
        read_slot(values, 43),
    ];
    mixer.mood_weight = [read_row(values, 49), read_row(values, 65), read_row(values, 81)];
    mixer.balancer_mask = [read_row(values, 57), read_row(values, 73), read_row(values, 89)];
    proof {
        let w = loaded(o, values@);
        assert(mixer@.slot_params =~= w.slot_params);
        assert(mixer@.mood_weight =~= w.mood_weight);
        assert(mixer@.balancer_mask =~= w.balancer_mask);
        assert(mixer@ =~= w);
    }
    Ok(())
}

/// The bits of a small whole number: the exponent, and the bits behind the
/// leading one.
pub open spec fn whole_bits(n: u8) -> int {
    if n == 0 {
        0
    } else if n < 2 {
        0x3f000000 + n * 0x800000
    } else if n < 4 {
        0x3f800000 + n * 0x400000
    } else if n < 8 {
        0x40000000 + n * 0x200000
    } else if n < 16 {
        0x40800000 + n * 0x100000
    } else if n < 32 {
        0x41000000 + n * 0x80000
    } else if n < 64 {
        0x41800000 + n * 0x40000
    } else if n < 128 {
        0x42000000 + n * 0x20000
    } else {
        0x42800000 + n * 0x10000
    }
}

/// A small whole number.
pub open spec fn whole_number(n: u8) -> Real32 {
    Real32 { bits: whole_bits(n) as u32 }
}

fn small(n: u8) -> (r: Real32)
    ensures
        r == whole_number(n),
{
    let n: u32 = n as u32;
    let bits: u32 = if n == 0 {
        0
    } else if n < 2 {
        0x3f000000 + n * 0x800000
    } else if n < 4 {
        0x3f800000 + n * 0x400000
    } else if n < 8 {
        0x40000000 + n * 0x200000
    } else if n < 16 {
        0x40800000 + n * 0x100000
    } else if n < 32 {
        0x41000000 + n * 0x80000
    } else if n < 64 {
        0x41800000 + n * 0x40000
    } else if n < 128 {
        0x42000000 + n * 0x20000
    } else {
        0x42800000 + n * 0x10000
    };
    Real32 { bits }
}

/// The six numbers of a slot.
pub open spec fn slot_values(p: SlotParams) -> Seq<Real32> {
    seq![
        p.steepness,
        p.deviation,
        p.maximum,
        p.minimum,
        p.original_level,
        whole_number(p.formula),
    ]
}

/// The numbers of the first `n` slots.
pub open spec fn slots_values(s: Seq<SlotParams>, n: nat) -> Seq<Real32>
    decreases n,
{
    if n == 0 {
        Seq::empty()
    } else {
        slots_values(s, (n - 1) as nat) + slot_values(s[n - 1])
    }
}

/// The numbers of the first `n` moods: the weights, then the mask.
pub open spec fn masks_values(m: MixerView, n: nat) -> Seq<Real32>
    decreases n,
{
    if n == 0 {
        Seq::empty()
    } else {
        masks_values(m, (n - 1) as nat) + m.mood_weight[n - 1] + m.balancer_mask[n - 1]
    }
}

/// The numbers of the mixer's template, version 0.
pub open spec fn template_values(m: MixerView) -> Seq<Real32> {
    seq![zero()] + slots_values(m.slot_params, 8) + masks_values(m, 3)
}

fn put_row(out: &mut Vec<Real32>, row: &[Real32; 8])
    ensures
        final(out)@ == old(out)@ + row@,
{
    let ghost o = out@;
    let mut i: usize = 0;
    while i < 8
        invariant
            0 <= i <= 8,
            row@.len() == 8,
            out@ =~= o + row@.take(i as int),
        decreases 8 - i,
    {
        out.push(row[i]);
        i += 1;
    }
    assert(row@.take(8) =~= row@);
}

/// The 97 numbers of the mixer's template, in order.
pub fn values(mixer: &AdaptiveMixer) -> (r: Vec<Real32>)
    ensures
        r@ == template_values(mixer@),
{
    let mut out: Vec<Real32> = Vec::new();
    out.push(Real32 { bits: ZERO_BITS });
    let ghost first = seq![zero()];
    let mut s: usize = 0;
    while s < 8
        invariant
            0 <= s <= 8,
            first == seq![zero()],
            out@ =~= first + slots_values(mixer@.slot_params, s as nat),
        decreases 8 - s,
    {
        let p = mixer.slot_params[s];
        let ghost before = out@;
        out.push(p.steepness);
        out.push(p.deviation);
        out.push(p.maximum);
        out.push(p.minimum);
        out.push(p.original_level);
        out.push(small(p.formula));
        assert(out@ =~= before + slot_values(p));
        s += 1;
    }
    let ghost upto = out@;
    let mut k: usize = 0;
    while k < 3
        invariant
            0 <= k <= 3,
            out@ =~= upto + masks_values(mixer@, k as nat),
        decreases 3 - k,
    {
        put_row(&mut out, &mixer.mood_weight[k]);
        put_row(&mut out, &mixer.balancer_mask[k]);
        assert(mixer@.mood_weight[k as int] == mixer.mood_weight@[k as int]@);
        assert(mixer@.balancer_mask[k as int] == mixer.balancer_mask@[k as int]@);
        k += 1;
    }
    out
}

/// The text of a value with three digits after the point, as `{:.3}` writes
/// it.
pub uninterp spec fn fixed_text(x: Real32) -> Seq<char>;

/// The 32-bit value that `str::parse` reads from a text, or the text of its
/// error.
pub uninterp spec fn real_of(text: Seq<char>) -> Result<Real32, Seq<char>>;

/// The text reads as `x`. Of a text that reads as not a number, the bits are
/// not told.
pub open spec fn reads(text: Seq<char>, x: Real32) -> bool {
    real_of(text) matches Ok(y) && (x == y || (x.nan() && y.nan()))
}

/// The text reads as a value that differs from `x` by less than a thousandth,
/// is not negative, and is at most 1 where `x` is, and at most 2.
pub open spec fn reads_near(text: Seq<char>, x: Real32) -> bool {
    real_of(text) matches Ok(y) && zero().at_most(y) && y.at_most(two()) && (x.at_most(one())
        ==> y.at_most(one())) && y.near(x)
}

/// `format!("{:.3}")` of a 32-bit floating-point value: some text without
/// white space, which `str::parse` takes. A small whole number reads back as
/// itself, a value from 0 to 2, given to three digits behind the point, as one
/// that is near it.
#[verifier::external_body]
fn show_real(x: Real32) -> (r: String)
    ensures
        r@ == fixed_text(x),
        is_word(r@),
        real_of(r@) is Ok,
        (exists|n: u8| x == #[trigger] whole_number(n)) ==> reads(r@, x),
        zero().at_most(x) && x.at_most(two()) ==> reads_near(r@, x),
{
    format!("{:.3}", <byteorder::BigEndian as byteorder::ByteOrder>::read_f32(&x.bits.to_be_bytes()))
}

/// `str::parse` into a 32-bit floating-point value, with the text of its
/// error. Digits alone are always taken. The bits of what is not a number may
/// differ between machines.
#[verifier::external_body]
fn read_real(s: &str) -> (r: Result<Real32, String>)
    ensures
        match r {
            Ok(x) => reads(s@, x),
            Err(e) => real_of(s@) == Err::<Real32, Seq<char>>(e@),
        },
        all_digits(s@) ==> r is Ok,
{
    let mut out = [0u8; 4];
    match s.parse() {
        Ok(x) => {
            <byteorder::BigEndian as byteorder::ByteOrder>::write_f32(&mut out, x);
            Ok(Real32 { bits: u32::from_be_bytes(out) })
        },
        Err(e) => Err(ToString::to_string(&e)),
    }
}

/// A text that reads as no value.
pub open spec fn unreadable() -> spec_fn(Seq<char>) -> bool {
    |w: Seq<char>| real_of(w) is Err
}

/// What is said of the first word that reads as no value.
pub open spec fn word_error(w: Seq<char>) -> Seq<char> {
    "parse `"@ + w + "`: "@ + real_of(w)->Err_0
}

/// The values are what the words read as.
pub open spec fn all_read(words: Seq<Seq<char>>, v: Seq<Real32>) -> bool {
    v.len() == words.len() && forall|i: int| 0 <= i < v.len() ==> reads(words[i], #[trigger] v[i])
}

/// What is wrong with a template of these words: the first that reads as no
/// value, or else their count.
pub open spec fn template_error(words: Seq<Seq<char>>) -> Option<Seq<char>> {
    match first_index(words, unreadable()) {
        Some(i) => Some(word_error(words[i])),
        None => if words.len() != 97 {
            Some(count_error(words.len()))
        } else {
            None
        },
    }
}

/// The words are those of a template that is taken: 97 that are digits alone or
/// read as values.
pub open spec fn acceptable(words: Seq<Seq<char>>) -> bool {
    &&& words.len() == 97
    &&& forall|i: int|
        0 <= i < 97 ==> all_digits(#[trigger] words[i]) || real_of(words[i]) is Ok
}

/// Take the slots and masks of the mixer from the text of a template: 97
/// numbers parted by white space. Nothing changes where something is wrong
/// with it.
pub fn parse_into(text: &str, mixer: &mut AdaptiveMixer) -> (r: Result<(), String>)
    ensures
        match r {
            Ok(()) => template_error(words_from(text@, 0)) is None && exists|v: Seq<Real32>|
                all_read(words_from(text@, 0), v) && final(mixer)@ == #[trigger] loaded(
                    old(mixer)@,
                    v,
                ),
            Err(e) => template_error(words_from(text@, 0)) == Some(e@) && final(mixer)@ == old(
                mixer,
            )@,
        },
        acceptable(words_from(text@, 0)) ==> r is Ok,
{
    let parts = words(text);
    let ghost ws = words_from(text@, 0);
    let mut v: Vec<Real32> = Vec::new();
    let mut i: usize = 0;
    while i < parts.len()
        invariant
            0 <= i <= parts@.len(),
            ws == words_from(text@, 0),
            parts@.map_values(|w: String| w@) == ws,
            all_read(ws.take(i as int), v@),
            forall|k: int| 0 <= k < i ==> !unreadable()(#[trigger] ws[k]),
            mixer@ == old(mixer)@,
        decreases parts@.len() - i,
    {
        assert(ws[i as int] == parts@[i as int]@);
        match read_real(parts[i].as_str()) {
            Ok(x) => {
                let ghost before = v@;
                v.push(x);
                assert forall|k: int| 0 <= k < v@.len() implies reads(
                    ws.take(i + 1)[k],
                    #[trigger] v@[k],
                ) by {
                    if k < i {
                        assert(reads(ws.take(i as int)[k], before[k]));
                    }
                }
            },
            Err(e) => {
                proof {
                    assert(is_first(ws, unreadable(), i as int));
                    lemma_first_index(ws, unreadable(), i as int);
                }
                let mut why = join("parse `", parts[i].as_str());
                why.append("`: ");
                why.append(e.as_str());
                return Err(why);
            },
        }
        i += 1;
    }
    proof {
        assert(ws.take(i as int) =~= ws);
        lemma_first_index_found(ws, unreadable());
    }
    apply_values(&v, mixer)
}

/// The words of the mixer's template: the version, then the values.
pub open spec fn template_words(m: MixerView) -> Seq<Seq<char>> {
    seq!["0"@] + template_values(m).skip(1).map_values(|x: Real32| fixed_text(x))
}

/// The words with a space between each two.
pub open spec fn spaced(words: Seq<Seq<char>>) -> Seq<char>
    decreases words.len(),
{
    if words.len() == 0 {
        Seq::empty()
    } else if words.len() == 1 {
        words[0]
    } else {
        spaced(words.drop_last()).push(' ') + words.last()
    }
}

/// Behind the version, each word of a value from 0 to 2 reads as one near it.
pub open spec fn words_near(words: Seq<Seq<char>>, v: Seq<Real32>) -> bool {
    &&& words.len() == v.len()
    &&& forall|k: int|
        1 <= k < v.len() && zero().at_most(v[k]) && v[k].at_most(two()) ==> reads_near(
            #[trigger] words[k],
            v[k],
        )
}

/// The text of the mixer's template. Its words are the version and 96 values,
/// all of which read as values; the formulas as they are, the others to less
/// than a thousandth where they are in their bounds.
pub fn format(mixer: &AdaptiveMixer) -> (r: String)
    ensures
        r@ == spaced(template_words(mixer@)),
        words_from(r@, 0) == template_words(mixer@),
        acceptable(template_words(mixer@)),
        forall|s: int|
            0 <= s < 8 ==> reads(
                template_words(mixer@)[6 + s * 6],
                whole_number((#[trigger] mixer@.slot_params[s]).formula),
            ),
        words_near(template_words(mixer@), template_values(mixer@)),
{
    let v = values(mixer);
    let ghost m = mixer@;
    let ghost ws = template_words(m);
    proof {
        lemma_values_len(m);
    }
    let mut out = "0".to_owned();
    proof {
        reveal_strlit("0");
        assert(all_digits(ws[0]));
        assert(is_word("0"@));
        lemma_words_one("0"@);
        assert(ws.take(1) =~= seq!["0"@]);
    }
    let mut i: usize = 1;
    while i < v.len()
        invariant
            1 <= i <= v@.len(),
            v@ == template_values(m),
            v@.len() == 97,
            ws == template_words(m),
            out@ == spaced(ws.take(i as int)),
            words_from(out@, 0) == ws.take(i as int),
            forall|k: int| 1 <= k < i ==> real_of(#[trigger] ws[k]) is Ok,
            forall|k: int|
                1 <= k < i && (exists|n: u8| v@[k] == #[trigger] whole_number(n)) ==> reads(
                    #[trigger] ws[k],
                    v@[k],
                ),
            forall|k: int|
                1 <= k < i && zero().at_most(v@[k]) && v@[k].at_most(two()) ==> reads_near(
                    #[trigger] ws[k],
                    v@[k],
                ),
        decreases v@.len() - i,
    {
        let w = show_real(v[i]);
        let ghost before = out@;
        out.push(' ');
        out.append(w.as_str());
        proof {
            assert(v@.skip(1)[i - 1] == v@[i as int]);
            assert(ws[i as int] == w@);
            assert(ws.take(i + 1).drop_last() =~= ws.take(i as int));
            assert(ws.take(i + 1).last() == w@);
            lemma_words_append(before, w@, 0);
            assert(ws.take(i + 1) =~= ws.take(i as int).push(w@));
        }
        i += 1;
    }
    proof {
        assert(ws.take(i as int) =~= ws);
        assert forall|s: int| 0 <= s < 8 implies reads(
            ws[6 + s * 6],
            whole_number((#[trigger] m.slot_params[s]).formula),
        ) by {
            lemma_formula_place(m, s);
            assert(v@[6 + s * 6] == whole_number(m.slot_params[s].formula));
            assert(reads(ws[6 + s * 6], v@[6 + s * 6]));
        }
    }
    out
}

/// The name is that of a template that is shown.
pub open spec fn shown_as_template(name: Seq<char>) -> bool {
    ends_with(name, ".txt"@) && !begins_with(name, "."@)
}

/// The name is that of a template that is shown: it ends in ".txt" and does
/// not begin with a dot.
pub fn is_template_name(name: &str) -> (r: bool)
    ensures
        r == shown_as_template(name@),
{
    ends(name, ".txt") && !starts(name, ".")
}

/// The file of a template.
pub open spec fn template_path(name: Seq<char>) -> Seq<char> {
    if ends_with(name, ".txt"@) {
        name
    } else {
        name + ".txt"@
    }
}

/// The file of a template: its name, with ".txt" at the end.
pub fn template_file(name: &str) -> (r: String)
    ensures
        r@ == template_path(name@),
{
    if ends(name, ".txt") {
        name.to_owned()
    } else {
        join(name, ".txt")
    }
}

/// The slot's numbers are in their bounds and its formula is one of the nine.
pub open spec fn slot_in_bounds(p: SlotParams) -> bool {
    &&& zero().at_most(p.steepness) && p.steepness.at_most(one())
    &&& zero().at_most(p.deviation) && p.deviation.at_most(one())
    &&& zero().at_most(p.maximum) && p.maximum.at_most(two())
    &&& zero().at_most(p.minimum) && p.minimum.at_most(one())
    &&& zero().at_most(p.original_level) && p.original_level.at_most(one())
    &&& 1 <= p.formula <= 9
}

/// The mixer has eight slots and three mask rows of eight, all in bounds.
pub open spec fn in_bounds(m: MixerView) -> bool {
    &&& m.slot_params.len() == 8
    &&& m.mood_weight.len() == 3
    &&& m.balancer_mask.len() == 3
    &&& forall|s: int| 0 <= s < 8 ==> slot_in_bounds(#[trigger] m.slot_params[s])
    &&& forall|k: int|
        0 <= k < 3 ==> row_in_bounds(#[trigger] m.mood_weight[k]) && row_in_bounds(
            m.balancer_mask[k],
        )
}

pub open spec fn row_in_bounds(r: Seq<Real32>) -> bool {
    r.len() == 8 && forall|s: int|
        0 <= s < 8 ==> zero().at_most(#[trigger] r[s]) && r[s].at_most(one())
}

pub proof fn lemma_formula_back(f: u8)
    requires
        1 <= f <= 9,
    ensures
        formula_of(whole_number(f)) == f,
{
}

proof fn lemma_slots_values(s: Seq<SlotParams>, n: nat, i: int)
    requires
        0 <= i < n,
    ensures
        slots_values(s, n).len() == 6 * n,
        slots_values(s, n).subrange(6 * i, 6 * i + 6) == slot_values(s[i]),
    decreases n,
{
    if i == n - 1 {
        lemma_slots_len(s, (n - 1) as nat);
        assert(slots_values(s, n).subrange(6 * i, 6 * i + 6) =~= slot_values(s[i]));
    } else {
        lemma_slots_values(s, (n - 1) as nat, i);
        let t = slots_values(s, (n - 1) as nat);
        assert(slots_values(s, n).subrange(6 * i, 6 * i + 6) =~= t.subrange(6 * i, 6 * i + 6));
    }
}

proof fn lemma_values_len(m: MixerView)
    requires
        m.slot_params.len() == 8,
        m.mood_weight.len() == 3,
        m.balancer_mask.len() == 3,
        forall|k: int|
            0 <= k < 3 ==> (#[trigger] m.mood_weight[k]).len() == 8 && m.balancer_mask[k].len()
                == 8,
    ensures
        template_values(m).len() == 97,
{
    lemma_slots_len(m.slot_params, 8);
    reveal_with_fuel(masks_values, 4);
    assert(m.mood_weight[0].len() == 8 && m.mood_weight[1].len() == 8 && m.mood_weight[2].len()
        == 8);
}

proof fn lemma_formula_place(m: MixerView, s: int)
    requires
        0 <= s < 8,
        m.slot_params.len() == 8,
    ensures
        template_values(m).len() > 6 + s * 6,
        template_values(m)[6 + s * 6] == whole_number(m.slot_params[s].formula),
{
    lemma_slots_values(m.slot_params, 8, s);
    let a = slots_values(m.slot_params, 8);
    let part = a.subrange(6 * s, 6 * s + 6);
    assert(part[5] == a[6 * s + 5]);
    assert(slot_values(m.slot_params[s])[5] == whole_number(m.slot_params[s].formula));
}

proof fn lemma_slots_len(s: Seq<SlotParams>, n: nat)
    ensures
        slots_values(s, n).len() == 6 * n,
    decreases n,
{
    if n > 0 {
        lemma_slots_len(s, (n - 1) as nat);
    }
}

/// Reading the numbers that a mixer was written as gives back its slots and
/// masks, where they are in bounds.
pub proof fn template_reads_back(m: MixerView, other: MixerView)
    requires
        in_bounds(m),
    ensures
        template_values(m).len() == 97,
        loaded(other, template_values(m)) == (MixerView {
            slot_params: m.slot_params,
            mood_weight: m.mood_weight,
            balancer_mask: m.balancer_mask,
            ..other
        }),
{
    let v = template_values(m);
    lemma_values_place(m);
    let w = loaded(other, v);
    assert forall|s: int| 0 <= s < 8 implies w.slot_params[s] == #[trigger] m.slot_params[s] by {
        let p = m.slot_params[s];
        assert(slot_stands(v, 1 + s * 6, p));
        assert(slot_in_bounds(p));
        lemma_formula_back(p.formula);
    }
    assert(w.slot_params =~= m.slot_params);
    assert forall|k: int| 0 <= k < 3 implies w.mood_weight[k] == #[trigger] m.mood_weight[k]
        && w.balancer_mask[k] == m.balancer_mask[k] by {
        assert(row_in_bounds(m.mood_weight[k]) && row_in_bounds(m.balancer_mask[k]));
        assert(row_stands(v, 49 + k * 16, m.mood_weight[k]));
        assert(w.mood_weight[k] =~= m.mood_weight[k]);
        assert(w.balancer_mask[k] =~= m.balancer_mask[k]);
    }
    assert(w.mood_weight =~= m.mood_weight);
    assert(w.balancer_mask =~= m.balancer_mask) by {
        assert forall|k: int| 0 <= k < 3 implies w.balancer_mask[k] == m.balancer_mask[k] by {
            assert(w.mood_weight[k] == m.mood_weight[k]);
        }
    }
}

/// The numbers of a slot stand from `off` on.
pub open spec fn slot_stands(v: Seq<Real32>, off: int, p: SlotParams) -> bool {
    &&& v[off] == p.steepness
    &&& v[off + 1] == p.deviation
    &&& v[off + 2] == p.maximum
    &&& v[off + 3] == p.minimum
    &&& v[off + 4] == p.original_level
    &&& v[off + 5] == whole_number(p.formula)
}

/// The numbers of a mask row stand from `off` on.
pub open spec fn row_stands(v: Seq<Real32>, off: int, r: Seq<Real32>) -> bool {
    forall|s: int| 0 <= s < 8 ==> v[off + s] == #[trigger] r[s]
}

/// Where the numbers of a mixer stand in its template.
pub proof fn lemma_values_place(m: MixerView)
    requires
        in_bounds(m),
    ensures
        template_values(m).len() == 97,
        forall|s: int|
            0 <= s < 8 ==> slot_stands(
                template_values(m),
                1 + s * 6,
                #[trigger] m.slot_params[s],
            ),
        forall|k: int|
            0 <= k < 3 ==> row_stands(
                template_values(m),
                49 + k * 16,
                #[trigger] m.mood_weight[k],
            ) && row_stands(template_values(m), 57 + k * 16, m.balancer_mask[k]),
{
    let v = template_values(m);
    let a = slots_values(m.slot_params, 8);
    lemma_slots_len(m.slot_params, 8);
    assert(row_in_bounds(m.mood_weight[0]) && row_in_bounds(m.mood_weight[1]) && row_in_bounds(
        m.mood_weight[2],
    ));
    lemma_values_len(m);
    reveal_with_fuel(masks_values, 4);
    let b = masks_values(m, 3);
    assert(b =~= m.mood_weight[0] + m.balancer_mask[0] + m.mood_weight[1] + m.balancer_mask[1]
        + m.mood_weight[2] + m.balancer_mask[2]);
    assert forall|s: int| 0 <= s < 8 implies slot_stands(
        v,
        1 + s * 6,
        #[trigger] m.slot_params[s],
    ) by {
        lemma_slots_values(m.slot_params, 8, s);
        let p = m.slot_params[s];
        let part = a.subrange(6 * s, 6 * s + 6);
        assert(part == slot_values(p));
        assert forall|j: int| 0 <= j < 6 implies v[1 + s * 6 + j] == #[trigger] slot_values(p)[j] by {
            assert(part[j] == a[6 * s + j]);
        }
        assert(v[1 + s * 6] == slot_values(p)[0]);
        assert(v[1 + s * 6 + 1] == slot_values(p)[1]);
        assert(v[1 + s * 6 + 2] == slot_values(p)[2]);
        assert(v[1 + s * 6 + 3] == slot_values(p)[3]);
        assert(v[1 + s * 6 + 4] == slot_values(p)[4]);
        assert(v[1 + s * 6 + 5] == slot_values(p)[5]);
    }
    assert forall|k: int| 0 <= k < 3 implies row_stands(
        v,
        49 + k * 16,
        #[trigger] m.mood_weight[k],
    ) && row_stands(v, 57 + k * 16, m.balancer_mask[k]) by {
        assert(row_in_bounds(m.mood_weight[k]));
        assert forall|s: int| 0 <= s < 8 implies v[49 + k * 16 + s]
            == #[trigger] m.mood_weight[k][s] by {
            assert(v[49 + k * 16 + s] == b[k * 16 + s]);
        }
        assert forall|s: int| 0 <= s < 8 implies v[57 + k * 16 + s]
            == #[trigger] m.balancer_mask[k][s] by {
            assert(v[57 + k * 16 + s] == b[8 + k * 16 + s]);
        }
    }
}

/// The slots are those of `q` to less than a thousandth, with its formula.
pub open spec fn slot_near(p: SlotParams, q: SlotParams) -> bool {
    &&& p.steepness.near(q.steepness)
    &&& p.deviation.near(q.deviation)
    &&& p.maximum.near(q.maximum)
    &&& p.minimum.near(q.minimum)
    &&& p.original_level.near(q.original_level)
    &&& p.formula == q.formula
}

pub open spec fn row_near(a: Seq<Real32>, b: Seq<Real32>) -> bool {
    a.len() == b.len() && forall|s: int|
        0 <= s < b.len() ==> (#[trigger] a[s]).near(b[s])
}

/// Writing a mixer whose values are in bounds as a template and reading that
/// gives back its slots and masks to less than a thousandth, and its formulas
/// as they were.
pub proof fn written_values_come_back(
    words: Seq<Seq<char>>,
    m: MixerView,
    v: Seq<Real32>,
    other: MixerView,
)
    requires
        in_bounds(m),
        acceptable(words),
        words_near(words, template_values(m)),
        forall|s: int|
            0 <= s < 8 ==> reads(
                words[6 + s * 6],
                whole_number((#[trigger] m.slot_params[s]).formula),
            ),
        all_read(words, v),
    ensures
        forall|s: int|
            0 <= s < 8 ==> slot_near(
                #[trigger] loaded(other, v).slot_params[s],
                m.slot_params[s],
            ),
        forall|k: int|
            0 <= k < 3 ==> row_near(
                #[trigger] loaded(other, v).mood_weight[k],
                m.mood_weight[k],
            ),
        forall|k: int|
            0 <= k < 3 ==> row_near(
                #[trigger] loaded(other, v).balancer_mask[k],
                m.balancer_mask[k],
            ),
{
    let t = template_values(m);
    let w = loaded(other, v);
    lemma_values_place(m);
    assert forall|s: int| 0 <= s < 8 implies slot_near(
        #[trigger] w.slot_params[s],
        m.slot_params[s],
    ) by {
        let p = m.slot_params[s];
        let off = 1 + s * 6;
        assert(slot_in_bounds(p));
        assert(slot_stands(t, off, p));
        lemma_near_at(words, t, v, off);
        lemma_near_at(words, t, v, off + 1);
        lemma_near_at(words, t, v, off + 2);
        lemma_near_at(words, t, v, off + 3);
        lemma_near_at(words, t, v, off + 4);
        written_formulas_come_back(words, m, v, other, s);
    }
    assert forall|k: int| 0 <= k < 3 implies row_near(
        #[trigger] w.mood_weight[k],
        m.mood_weight[k],
    ) by {
        assert(row_in_bounds(m.mood_weight[k]));
        assert forall|s: int| 0 <= s < 8 implies (#[trigger] w.mood_weight[k][s]).near(
            m.mood_weight[k][s],
        ) by {
            assert(zero().at_most(m.mood_weight[k][s]));
            lemma_near_at(words, t, v, 49 + k * 16 + s);
        }
    }
    assert forall|k: int| 0 <= k < 3 implies row_near(
        #[trigger] w.balancer_mask[k],
        m.balancer_mask[k],
    ) by {
        assert(row_in_bounds(m.mood_weight[k]));
        assert forall|s: int| 0 <= s < 8 implies (#[trigger] w.balancer_mask[k][s]).near(
            m.balancer_mask[k][s],
        ) by {
            assert(zero().at_most(m.balancer_mask[k][s]));
            lemma_near_at(words, t, v, 57 + k * 16 + s);
        }
    }
}

/// What the word of a value from 0 to 2 reads as.
proof fn lemma_near_at(words: Seq<Seq<char>>, t: Seq<Real32>, v: Seq<Real32>, k: int)
    requires
        words_near(words, t),
        all_read(words, v),
        1 <= k < t.len(),
        zero().at_most(t[k]),
        t[k].at_most(two()),
    ensures
        v[k].near(t[k]),
        v[k].clamped(zero(), two()) == v[k],
        t[k].at_most(one()) ==> v[k].clamped(zero(), one()) == v[k],
{
    assert(reads_near(words[k], t[k]));
    assert(reads(words[k], v[k]));
}

/// Whatever values the words read as that a mixer was written with, its
/// formulas come back as they were, where they are of the nine.
pub proof fn written_formulas_come_back(
    words: Seq<Seq<char>>,
    m: MixerView,
    v: Seq<Real32>,
    other: MixerView,
    s: int,
)
    requires
        acceptable(words),
        forall|s: int|
            0 <= s < 8 ==> reads(
                words[6 + s * 6],
                whole_number((#[trigger] m.slot_params[s]).formula),
            ),
        all_read(words, v),
        0 <= s < 8,
        1 <= m.slot_params[s].formula <= 9,
    ensures
        loaded(other, v).slot_params[s].formula == m.slot_params[s].formula,
{
    let f = m.slot_params[s].formula;
    lemma_formula_back(f);
    assert(reads(words[6 + s * 6], whole_number(f)));
    assert(reads(words[6 + s * 6], v[6 + s * 6]));
    assert(!whole_number(f).nan());
}

} // verus!
