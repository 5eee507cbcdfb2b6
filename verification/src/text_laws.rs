//! What trimming, splitting and numbering do to texts, and which names come of
//! it.
use vstd::prelude::*;

use crate::export::file_char;
use crate::export::is_stem;
use crate::export::sanitized;
use crate::export::source_name;
use crate::export::stem_count;
use crate::export::stem_name;
use crate::export::Stem;
use crate::playback::longest;
use crate::seqs::flat;
use crate::text::all_digits;
use crate::text::begins_with;
use crate::text::blank;
use crate::text::decimal_text;
use crate::text::digits_value;
use crate::text::ends_with;
use crate::text::is_digit;
use crate::text::is_word;
use crate::text::lemma_decimal_reads;
use crate::text::number_text;
use crate::text::numbered_text;
use crate::text::padded;
use crate::text::trimmed;
use crate::text::white_space;
use crate::text::word_end;
use crate::text::words_from;

verus! {

/// White space is what Unicode says it is: tab, line feed, vertical tab, form
/// feed, carriage return, space, next line, the separators of lines and
/// paragraphs, and the spaces of all widths that are not joiners.
pub proof fn white_space_is_that_of_unicode(c: char)
    ensures
        ({
            let n = c as u32;
            white_space(c) <==> {
                ||| n == 0x9 || n == 0xa || n == 0xb || n == 0xc || n == 0xd
                ||| n == 0x20 || n == 0x85 || n == 0xa0
                ||| n == 0x1680 || n == 0x202f || n == 0x205f || n == 0x3000
                ||| n == 0x2028 || n == 0x2029
                ||| 0x2000 <= n < 0x200b
            }
        }),
{
}

/// `s` is `t` with white space `from` characters long before it and the rest
/// behind it.
pub open spec fn stands_in(t: Seq<char>, s: Seq<char>, from: int) -> bool {
    &&& 0 <= from
    &&& from + t.len() <= s.len()
    &&& t == s.subrange(from, from + t.len())
    &&& blank(s.take(from))
    &&& blank(s.skip(from + t.len()))
}

/// A trimmed text is the text without white space at its ends: what is cut off
/// is white space, and what is left begins and ends with none.
pub proof fn trimming_cuts_white_space(s: Seq<char>)
    ensures
        exists|from: int| stands_in(trimmed(s), s, from),
        trimmed(s).len() > 0 ==> !white_space(trimmed(s)[0]) && !white_space(trimmed(s).last()),
        trimmed(s).len() == 0 <==> blank(s),
        trimmed(trimmed(s)) == trimmed(s),
    decreases s.len(),
{
    let t = trimmed(s);
    if s.len() == 0 {
        assert(t =~= s.subrange(0, 0));
        assert(stands_in(t, s, 0));
    } else if white_space(s[0]) {
        trimming_cuts_white_space(s.skip(1));
        let from = choose|from: int| stands_in(t, s.skip(1), from);
        lemma_cut_in_front(t, s, from);
    } else if white_space(s.last()) {
        trimming_cuts_white_space(s.drop_last());
        let from = choose|from: int| stands_in(t, s.drop_last(), from);
        lemma_cut_behind(t, s, from);
    } else {
        assert(t =~= s.subrange(0, s.len() as int));
        assert(stands_in(t, s, 0));
    }
}

proof fn lemma_cut_in_front(t: Seq<char>, s: Seq<char>, from: int)
    requires
        s.len() > 0,
        white_space(s[0]),
        stands_in(t, s.skip(1), from),
    ensures
        stands_in(t, s, from + 1),
        blank(s) <==> blank(s.skip(1)),
{
    let u = s.skip(1);
    assert(t =~= s.subrange(from + 1, from + 1 + t.len()));
    let front = s.take(from + 1);
    assert forall|i: int| 0 <= i < front.len() implies white_space(#[trigger] front[i]) by {
        if i > 0 {
            assert(white_space(u.take(from)[i - 1]));
        }
    }
    assert(s.skip(from + 1 + t.len()) =~= u.skip(from + t.len()));
    if blank(u) {
        assert forall|i: int| 0 <= i < s.len() implies white_space(#[trigger] s[i]) by {
            if i > 0 {
                assert(white_space(u[i - 1]));
            }
        }
    }
    if blank(s) {
        assert forall|i: int| 0 <= i < u.len() implies white_space(#[trigger] u[i]) by {
            assert(white_space(s[i + 1]));
        }
    }
}

proof fn lemma_cut_behind(t: Seq<char>, s: Seq<char>, from: int)
    requires
        s.len() > 0,
        !white_space(s[0]),
        white_space(s.last()),
        stands_in(t, s.drop_last(), from),
    ensures
        stands_in(t, s, from),
        !blank(s),
        !blank(s.drop_last()),
{
    let u = s.drop_last();
    assert(t =~= s.subrange(from, from + t.len()));
    assert(s.take(from) =~= u.take(from));
    let rest = s.skip(from + t.len());
    assert forall|i: int| 0 <= i < rest.len() implies white_space(#[trigger] rest[i]) by {
        if i < rest.len() - 1 {
            assert(white_space(u.skip(from + t.len())[i]));
        }
    }
    assert(u[0] == s[0]);
}

/// A number that is padded is written in that many digits at least, none of
/// them lost, and reads as the number. Two numbers are never padded alike.
pub proof fn padding_keeps_the_number(n: nat, m: nat, width: nat)
    ensures
        all_digits(padded(n, width)),
        digits_value(padded(n, width)) == n,
        padded(n, width).len() >= width,
        ends_with(padded(n, width), decimal_text(n)),
        decimal_text(n).len() >= width ==> padded(n, width) == decimal_text(n),
        n != m ==> padded(n, width) != padded(m, width),
{
    lemma_padded(n, width);
    lemma_padded(m, width);
}

proof fn lemma_padded(n: nat, width: nat)
    ensures
        all_digits(padded(n, width)),
        digits_value(padded(n, width)) == n,
        padded(n, width).len() >= width,
        ends_with(padded(n, width), decimal_text(n)),
{
    let d = decimal_text(n);
    let p = padded(n, width);
    lemma_decimal_reads(n);
    let k: nat = if d.len() < width {
        (width - d.len()) as nat
    } else {
        0
    };
    let zeros = Seq::new(k, |i: int| '0');
    assert(p =~= zeros + d);
    assert(p.subrange(p.len() - d.len(), p.len() as int) =~= d);
    lemma_zeros(k, d);
    assert forall|i: int| 0 <= i < p.len() implies is_digit(#[trigger] p[i]) by {
        if i >= k {
            assert(p[i] == d[i - k]);
        }
    }
}

proof fn lemma_zeros(k: nat, d: Seq<char>)
    ensures
        digits_value(Seq::new(k, |i: int| '0') + d) == digits_value(d),
    decreases k + d.len(),
{
    let z = Seq::new(k, |i: int| '0');
    let p = z + d;
    if d.len() > 0 {
        lemma_zeros(k, d.drop_last());
        assert(p.drop_last() =~= z + d.drop_last());
    } else if k > 0 {
        let e = (k - 1) as nat;
        lemma_zeros(e, d);
        assert(p.drop_last() =~= Seq::new(e, |i: int| '0') + d);
    } else {
        assert(p =~= d);
    }
}

/// Numbers are written without a zero in front, and two numbers never alike.
pub proof fn numbers_are_written_once(n: nat, m: nat)
    ensures
        decimal_text(n).len() > 0,
        n > 0 ==> decimal_text(n)[0] != '0',
        n != m ==> decimal_text(n) != decimal_text(m),
        number_text(decimal_text(n), n as int) == Some(n as int),
    decreases n,
{
    lemma_decimal_reads(n);
    lemma_decimal_reads(m);
    assert(is_digit(decimal_text(n)[0]));
    if n >= 10 {
        numbers_are_written_once(n / 10, m);
    }
}

/// Things of one name are told apart by their numbers, which are written behind
/// the name and a space.
pub proof fn numbered_names_differ(name: Seq<char>, n: nat, m: nat)
    ensures
        begins_with(numbered_text(name, n), name),
        numbered_text(name, n)[name.len() as int] == ' ',
        numbered_text(name, n).skip(name.len() + 1int) == decimal_text(n),
        n != m ==> numbered_text(name, n) != numbered_text(name, m),
{
    let s = numbered_text(name, n);
    assert(s.subrange(0, name.len() as int) =~= name);
    assert(s.skip(name.len() + 1int) =~= decimal_text(n));
    assert(numbered_text(name, m).skip(name.len() + 1int) =~= decimal_text(m));
    numbers_are_written_once(n, m);
}

/// Words hold no white space and are not empty.
pub proof fn words_are_words(s: Seq<char>, i: int, k: int)
    requires
        0 <= i,
        0 <= k < words_from(s, i).len(),
    ensures
        is_word(words_from(s, i)[k]),
    decreases s.len() - i,
{
    if i < s.len() {
        if white_space(s[i]) {
            words_are_words(s, i + 1, k);
        } else {
            let e = word_end(s, i);
            lemma_word_is_solid(s, i);
            let w = s.subrange(i, e);
            assert forall|j: int| 0 <= j < w.len() implies !white_space(#[trigger] w[j]) by {
                assert(!white_space(s[i + j]));
            }
            if k > 0 {
                words_are_words(s, e, k - 1);
            }
        }
    }
}

proof fn lemma_word_is_solid(s: Seq<char>, i: int)
    requires
        0 <= i <= s.len(),
    ensures
        i <= word_end(s, i) <= s.len(),
        i < s.len() && !white_space(s[i]) ==> i < word_end(s, i),
        forall|j: int| i <= j < word_end(s, i) ==> !white_space(#[trigger] s[j]),
    decreases s.len() - i,
{
    if i < s.len() && !white_space(s[i]) {
        lemma_word_is_solid(s, i + 1);
    }
}

/// Every character that is not white space is in a word: the words together are
/// the text without its white space.
pub proof fn words_hold_all_but_white_space(s: Seq<char>, i: int)
    requires
        0 <= i <= s.len(),
    ensures
        flat(words_from(s, i), |w: Seq<char>| w) == s.skip(i).filter(
            |c: char| !white_space(c),
        ),
    decreases s.len() - i,
{
    let f = |c: char| !white_space(c);
    let id = |w: Seq<char>| w;
    let rest = s.skip(i);
    if i == s.len() {
        reveal(Seq::filter);
        assert(words_from(s, i) =~= Seq::empty());
        assert(rest =~= Seq::empty());
        assert(flat(words_from(s, i), id) =~= Seq::empty());
    } else if white_space(s[i]) {
        words_hold_all_but_white_space(s, i + 1);
        assert(rest =~= seq![s[i]] + s.skip(i + 1));
        Seq::filter_distributes_over_add(seq![s[i]], s.skip(i + 1), f);
        lemma_filter_one(s[i], f);
        assert(rest.filter(f) =~= s.skip(i + 1).filter(f));
    } else {
        let e = word_end(s, i);
        lemma_word_is_solid(s, i);
        words_hold_all_but_white_space(s, e);
        let w = s.subrange(i, e);
        assert(rest =~= w + s.skip(e));
        Seq::filter_distributes_over_add(w, s.skip(e), f);
        lemma_filter_all_kept(w, f);
        lemma_flat_front(w, words_from(s, e));
        assert(words_from(s, i) =~= seq![w] + words_from(s, e));
    }
}

proof fn lemma_filter_one(c: char, f: spec_fn(char) -> bool)
    ensures
        seq![c].filter(f) =~= if f(c) {
            seq![c]
        } else {
            Seq::empty()
        },
{
    reveal(Seq::filter);
    assert(seq![c].drop_last() =~= Seq::empty());
    assert(seq![c].drop_last().filter(f) =~= Seq::empty());
}

proof fn lemma_filter_all_kept(w: Seq<char>, f: spec_fn(char) -> bool)
    requires
        forall|j: int| 0 <= j < w.len() ==> f(#[trigger] w[j]),
    ensures
        w.filter(f) == w,
    decreases w.len(),
{
    reveal(Seq::filter);
    if w.len() > 0 {
        lemma_filter_all_kept(w.drop_last(), f);
        assert(f(w[w.len() - 1]));
        assert(w.drop_last().push(w.last()) =~= w);
    } else {
        assert(w.filter(f) =~= w);
    }
}

proof fn lemma_flat_front(w: Seq<char>, t: Seq<Seq<char>>)
    ensures
        flat(seq![w] + t, |w: Seq<char>| w) == w + flat(
            t,
            |w: Seq<char>| w,
        ),
    decreases t.len(),
{
    let id = |w: Seq<char>| w;
    let all = seq![w] + t;
    if t.len() > 0 {
        lemma_flat_front(w, t.drop_last());
        assert(all.drop_last() =~= seq![w] + t.drop_last());
        assert(flat(all, id) =~= w + flat(t, id));
    } else {
        assert(all.drop_last() =~= Seq::empty());
        assert(flat(all.drop_last(), id) =~= Seq::empty());
        assert(flat(all, id) =~= w + flat(t, id));
    }
}

// Names of files.

/// A name keeps every character that may stand in a file name, and has an
/// underscore for each other. The separators of paths may not.
pub proof fn file_names_keep_what_is_fit(s: Seq<char>, i: int)
    requires
        0 <= i < s.len(),
    ensures
        file_char(s[i]) ==> sanitized(s)[i] == s[i],
        !file_char(s[i]) ==> sanitized(s)[i] == '_',
        sanitized(s)[i] != '/' && sanitized(s)[i] != '\\' && sanitized(s)[i] != ':'
            && sanitized(s)[i] != '\0' && sanitized(s)[i] != '*' && sanitized(s)[i] != '?',
        '0' <= s[i] <= '9' || 'a' <= s[i] <= 'z' || 'A' <= s[i] <= 'Z' ==> sanitized(s)[i] == s[i],
{
}

/// Recorded sources have names of their own, told apart by their numbers,
/// counted from one.
pub proof fn source_names_differ(a: nat, b: nat)
    ensures
        a != b ==> source_name(a) != source_name(b),
        begins_with(source_name(a), "source-"@),
        digits_value(source_name(a).skip(7)) == a + 1,
        source_name(a).len() >= 9,
{
    reveal_strlit("source-");
    padding_keeps_the_number(a + 1, b + 1, 2);
    let s = source_name(a);
    assert(s.subrange(0, 7) =~= "source-"@);
    assert(s.skip(7) =~= padded(a + 1, 2));
    assert(source_name(b).skip(7) =~= padded(b + 1, 2));
}

/// A stem is called by the name that its source was given, without the white
/// space around it, or by its number where that leaves nothing.
pub proof fn stems_are_called_by_their_names(names: Seq<String>, src: int)
    requires
        0 <= src,
    ensures
        src >= names.len() ==> stem_name(names, src) == source_name(src as nat),
        src < names.len() && blank(names[src]@) ==> stem_name(names, src) == source_name(
            src as nat,
        ),
        src < names.len() && !blank(names[src]@) ==> stem_name(names, src) == sanitized(
            trimmed(names[src]@),
        ),
{
    if src < names.len() {
        trimming_cuts_white_space(names[src]@);
    }
}

/// There is a stem for each source that has a buffer, and none for another.
pub proof fn stems_pair_sources_with_buffers(sources: nat, buffers: nat, i: nat)
    ensures
        i < stem_count(sources, buffers) <==> i < sources && i < buffers,
{
}

/// A stem holds the buffer of its source, in a file with the ending of sound.
pub proof fn stems_go_to_sound_files(
    s: Stem,
    i: int,
    sources: Seq<usize>,
    names: Seq<String>,
)
    requires
        is_stem(s, i, sources, names),
    ensures
        s.buffer == i,
        s.source == sources[i],
        ends_with(s.file@, ".wav"@),
        s.file@.take(s.file@.len() - 4) == stem_name(names, s.source as int),
{
    reveal_strlit(".wav");
    let f = s.file@;
    assert(f.subrange(f.len() - 4, f.len() as int) =~= ".wav"@);
    assert(f.take(f.len() - 4) =~= stem_name(names, s.source as int));
}

/// A take is as long as the longest of its sources, two samples to a frame.
pub proof fn takes_are_as_long_as_their_longest(lens: Seq<usize>, i: int)
    ensures
        0 <= i < lens.len() ==> lens[i] as int / 2 <= longest(lens),
        lens.len() == 0 ==> longest(lens) == 0,
        lens.len() > 0 ==> exists|k: int|
            0 <= k < lens.len() && longest(lens) == #[trigger] lens[k] as int / 2,
    decreases lens.len(),
{
    if lens.len() > 0 {
        let t = lens.drop_last();
        takes_are_as_long_as_their_longest(t, i);
        let last = lens.len() - 1;
        if longest(lens) == lens[last] as int / 2 {
        } else {
            if t.len() > 0 {
                let k = choose|k: int|
                    0 <= k < t.len() && longest(t) == #[trigger] t[k] as int / 2;
                assert(lens[k] == t[k]);
            }
        }
    }
}

} // verus!
