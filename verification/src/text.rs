//! Text: decimal numbers, white space, and what the library needs of `String`.
use vstd::prelude::*;

verus! {

/// `String::push`: the character stands at the end of what was there.
pub assume_specification[ String::push ](s: &mut String, c: char)
    ensures
        final(s)@ == old(s)@.push(c),
;

/// The character of a decimal digit.
pub open spec fn digit_char(d: int) -> char {
    if d == 0 {
        '0'
    } else if d == 1 {
        '1'
    } else if d == 2 {
        '2'
    } else if d == 3 {
        '3'
    } else if d == 4 {
        '4'
    } else if d == 5 {
        '5'
    } else if d == 6 {
        '6'
    } else if d == 7 {
        '7'
    } else if d == 8 {
        '8'
    } else {
        '9'
    }
}

/// A number written in base ten, without leading zeros.
pub open spec fn decimal_text(n: nat) -> Seq<char>
    decreases n,
{
    if n < 10 {
        seq![digit_char(n as int)]
    } else {
        decimal_text(n / 10).push(digit_char((n % 10) as int))
    }
}

fn digit(d: u8) -> (c: char)
    requires
        d < 10,
    ensures
        c == digit_char(d as int),
{
    if d == 0 {
        '0'
    } else if d == 1 {
        '1'
    } else if d == 2 {
        '2'
    } else if d == 3 {
        '3'
    } else if d == 4 {
        '4'
    } else if d == 5 {
        '5'
    } else if d == 6 {
        '6'
    } else if d == 7 {
        '7'
    } else if d == 8 {
        '8'
    } else {
        '9'
    }
}

/// `n` in base ten.
pub fn decimal(n: u128) -> (r: String)
    ensures
        r@ == decimal_text(n as nat),
    decreases n,
{
    if n < 10 {
        let mut s = String::new();
        s.push(digit(n as u8));
        s
    } else {
        let mut s = decimal(n / 10);
        s.push(digit((n % 10) as u8));
        s
    }
}

/// Whether two texts are the same.
pub fn same(a: &str, b: &str) -> (r: bool)
    ensures
        r == (a@ == b@),
{
    a.to_owned() == b.to_owned()
}

/// `a` followed by `b`.
pub fn join(a: &str, b: &str) -> (r: String)
    ensures
        r@ == a@ + b@,
{
    let mut s = a.to_owned();
    s.append(b);
    s
}

/// `name`, a space, and `n` in base ten.
pub open spec fn numbered_text(name: Seq<char>, n: nat) -> Seq<char> {
    name.push(' ') + decimal_text(n)
}

/// The name of the `n`-th of several like things: "Page 2".
pub fn numbered(name: &str, n: u128) -> (r: String)
    ensures
        r@ == numbered_text(name@, n as nat),
{
    let mut s = name.to_owned();
    s.push(' ');
    s.append(decimal(n).as_str());
    s
}

/// `n` in base ten with zeros in front up to `width` digits.
pub open spec fn padded(n: nat, width: nat) -> Seq<char> {
    let d = decimal_text(n);
    if d.len() < width {
        Seq::new((width - d.len()) as nat, |i: int| '0') + d
    } else {
        d
    }
}

/// `n` in base ten, with zeros in front up to `width` digits.
pub fn pad(n: u128, width: usize) -> (r: String)
    ensures
        r@ == padded(n as nat, width as nat),
{
    let d = decimal(n);
    let len: usize = d.as_str().unicode_len();
    let mut out = String::new();
    let mut i: usize = len;
    while i < width
        invariant
            len == d@.len(),
            i >= len,
            len <= width ==> i <= width,
            len > width ==> i == len,
            out@ =~= Seq::new((i - len) as nat, |k: int| '0'),
        decreases width - i,
    {
        out.push('0');
        i += 1;
    }
    out.append(d.as_str());
    assert(out@ =~= padded(n as nat, width as nat));
    out
}

/// The characters with Unicode's White_Space property.
pub open spec fn white_space(c: char) -> bool {
    ||| '\u{9}' <= c <= '\u{d}'
    ||| c == ' '
    ||| c == '\u{85}'
    ||| c == '\u{a0}'
    ||| c == '\u{1680}'
    ||| '\u{2000}' <= c <= '\u{200a}'
    ||| c == '\u{2028}'
    ||| c == '\u{2029}'
    ||| c == '\u{202f}'
    ||| c == '\u{205f}'
    ||| c == '\u{3000}'
}

/// Whether `c` is white space.
pub fn is_white_space(c: char) -> (r: bool)
    ensures
        r == white_space(c),
{
    let n: u32 = c as u32;
    (9 <= n && n <= 13) || n == 32 || n == 0x85 || n == 0xa0 || n == 0x1680 || (0x2000 <= n && n
        <= 0x200a) || n == 0x2028 || n == 0x2029 || n == 0x202f || n == 0x205f || n == 0x3000
}

/// There is nothing but white space in `s`.
pub open spec fn blank(s: Seq<char>) -> bool {
    forall|i: int| 0 <= i < s.len() ==> white_space(#[trigger] s[i])
}

/// Whether `s` holds nothing but white space.
pub fn is_blank(s: &str) -> (r: bool)
    ensures
        r == blank(s@),
{
    for c in it: s.chars()
        invariant
            it.seq() == s@,
            forall|i: int| 0 <= i < it.index() ==> white_space(#[trigger] s@[i]),
    {
        if !is_white_space(c) {
            assert(!white_space(s@[it.index()]));
            return false;
        }
    }
    true
}

/// The text of `s` from its first to its last character that is not white
/// space.
pub open spec fn trimmed(s: Seq<char>) -> Seq<char>
    decreases s.len(),
{
    if s.len() == 0 {
        s
    } else if white_space(s[0]) {
        trimmed(s.skip(1))
    } else if white_space(s.last()) {
        trimmed(s.drop_last())
    } else {
        s
    }
}

/// The characters of `s`.
pub fn chars_of(s: &str) -> (r: Vec<char>)
    ensures
        r@ == s@,
{
    let mut out: Vec<char> = Vec::new();
    for c in it: s.chars()
        invariant
            it.seq() == s@,
            out@ == s@.take(it.index() as int),
    {
        out.push(c);
        assert(out@ =~= s@.take(it.index() + 1));
    }
    assert(s@.take(s@.len() as int) =~= s@);
    out
}

/// The text made of the characters `v[from..to]`.
pub fn text_of(v: &Vec<char>, from: usize, to: usize) -> (r: String)
    requires
        from <= to <= v@.len(),
    ensures
        r@ == v@.subrange(from as int, to as int),
{
    let mut s = String::new();
    let mut i: usize = from;
    while i < to
        invariant
            from <= i <= to <= v@.len(),
            s@ == v@.subrange(from as int, i as int),
        decreases to - i,
    {
        s.push(v[i]);
        i += 1;
        assert(s@ =~= v@.subrange(from as int, i as int));
    }
    assert(s@ =~= v@.subrange(from as int, to as int));
    s
}

/// `s` without the white space at both ends.
pub fn trim(s: &str) -> (r: String)
    ensures
        r@ == trimmed(s@),
{
    let v = chars_of(s);
    let mut from: usize = 0;
    let mut to: usize = v.len();
    assert(v@.subrange(0, to as int) =~= v@);
    while from < to && is_white_space(v[from])
        invariant
            from <= to == v@.len(),
            trimmed(v@) == trimmed(v@.subrange(from as int, to as int)),
        decreases to - from,
    {
        let ghost cur = v@.subrange(from as int, to as int);
        assert(cur[0] == v@[from as int]);
        assert(cur.skip(1) =~= v@.subrange(from + 1, to as int));
        from += 1;
    }
    while from < to && is_white_space(v[to - 1])
        invariant
            from <= to <= v@.len(),
            from < to ==> !white_space(v@[from as int]),
            trimmed(v@) == trimmed(v@.subrange(from as int, to as int)),
        decreases to - from,
    {
        let ghost cur = v@.subrange(from as int, to as int);
        assert(cur[0] == v@[from as int]);
        assert(cur.last() == v@[to - 1]);
        assert(cur.drop_last() =~= v@.subrange(from as int, to - 1));
        to -= 1;
    }
    let ghost cur = v@.subrange(from as int, to as int);
    proof {
        if from < to {
            assert(cur[0] == v@[from as int]);
            assert(cur.last() == v@[to - 1]);
        }
    }
    text_of(&v, from, to)
}

/// The words of `s` from `i` on: the longest runs without white space.
pub open spec fn words_from(s: Seq<char>, i: int) -> Seq<Seq<char>>
    decreases s.len() - i,
{
    if i < 0 || i >= s.len() {
        Seq::empty()
    } else if white_space(s[i]) {
        words_from(s, i + 1)
    } else {
        let e = word_end(s, i);
        if e <= i || e > s.len() {
            Seq::empty()
        } else {
            seq![s.subrange(i, e)] + words_from(s, e)
        }
    }
}

/// Where the run without white space that `i` stands in ends.
pub open spec fn word_end(s: Seq<char>, i: int) -> int
    decreases s.len() - i,
{
    if i < 0 || i >= s.len() || white_space(s[i]) {
        i
    } else {
        word_end(s, i + 1)
    }
}

proof fn lemma_word_end(s: Seq<char>, i: int)
    requires
        0 <= i <= s.len(),
    ensures
        i <= word_end(s, i) <= s.len(),
        i < s.len() && !white_space(s[i]) ==> i < word_end(s, i),
    decreases s.len() - i,
{
    if i < s.len() && !white_space(s[i]) {
        lemma_word_end(s, i + 1);
    }
}

/// The words of a text, parted by white space.
pub fn words(s: &str) -> (r: Vec<String>)
    ensures
        r@.map_values(|w: String| w@) == words_from(s@, 0),
{
    let v = chars_of(s);
    let ghost all = words_from(v@, 0);
    let mut out: Vec<String> = Vec::new();
    let mut i: usize = 0;
    assert(out@.map_values(|w: String| w@) + words_from(v@, 0) =~= all);
    while i < v.len()
        invariant
            0 <= i <= v@.len(),
            out@.map_values(|w: String| w@) + words_from(v@, i as int) =~= all,
        decreases v@.len() - i,
    {
        if is_white_space(v[i]) {
            i += 1;
        } else {
            let start: usize = i;
            proof {
                lemma_word_end(v@, start as int);
            }
            while i < v.len() && !is_white_space(v[i])
                invariant
                    start <= i <= v@.len(),
                    word_end(v@, start as int) == word_end(v@, i as int),
                decreases v@.len() - i,
            {
                i += 1;
            }
            let w = text_of(&v, start, i);
            let ghost before = out@;
            let ghost wv = w@;
            out.push(w);
            assert(out@.map_values(|w: String| w@) =~= before.map_values(|w: String| w@).push(wv));
            assert(words_from(v@, start as int) =~= seq![wv] + words_from(v@, i as int));
        }
    }
    assert(out@.map_values(|w: String| w@) =~= all);
    out
}

/// There is no white space in it, and something else is.
pub open spec fn is_word(w: Seq<char>) -> bool {
    w.len() > 0 && forall|i: int| 0 <= i < w.len() ==> !white_space(#[trigger] w[i])
}

proof fn lemma_word_end_same(s: Seq<char>, t: Seq<char>, i: int)
    requires
        0 <= i <= s.len(),
        s.len() < t.len(),
        t.take(s.len() as int) == s,
        white_space(t[s.len() as int]),
    ensures
        word_end(t, i) == word_end(s, i),
    decreases s.len() - i,
{
    if i < s.len() {
        assert(s[i] == t.take(s.len() as int)[i]);
        if !white_space(s[i]) {
            lemma_word_end_same(s, t, i + 1);
        }
    }
}

proof fn lemma_word_to_end(s: Seq<char>, i: int)
    requires
        0 <= i <= s.len(),
        forall|k: int| i <= k < s.len() ==> !white_space(#[trigger] s[k]),
    ensures
        word_end(s, i) == s.len(),
    decreases s.len() - i,
{
    if i < s.len() {
        lemma_word_to_end(s, i + 1);
    }
}

/// A word after a space is one word more.
pub proof fn lemma_words_append(s: Seq<char>, w: Seq<char>, i: int)
    requires
        0 <= i <= s.len(),
        is_word(w),
    ensures
        words_from(s.push(' ') + w, i) == words_from(s, i).push(w),
    decreases s.len() - i,
{
    let t = s.push(' ') + w;
    assert(t.take(s.len() as int) =~= s);
    if i == s.len() {
        assert(t[i] == ' ');
        assert(t[i + 1] == w[0]);
        assert forall|k: int| i + 1 <= k < t.len() implies !white_space(#[trigger] t[k]) by {
            assert(t[k] == w[k - i - 1]);
        }
        lemma_word_to_end(t, i + 1);
        assert(t.subrange(i + 1, t.len() as int) =~= w);
        assert(words_from(t, t.len() as int) =~= Seq::empty());
        assert(words_from(t, i + 1) =~= seq![w]);
        assert(words_from(s, i) =~= Seq::empty());
        assert(words_from(t, i) =~= Seq::empty().push(w));
    } else {
        assert(t[i] == s[i]);
        if white_space(s[i]) {
            lemma_words_append(s, w, i + 1);
        } else {
            lemma_word_end(s, i);
            lemma_word_end_same(s, t, i);
            let e = word_end(s, i);
            lemma_words_append(s, w, e);
            assert(t.subrange(i, e) =~= s.subrange(i, e));
            assert(words_from(t, i) =~= words_from(s, i).push(w));
        }
    }
}

/// A text that is a word is the one word of it.
pub proof fn lemma_words_one(w: Seq<char>)
    requires
        is_word(w),
    ensures
        words_from(w, 0) == seq![w],
{
    lemma_word_to_end(w, 0);
    assert(!white_space(w[0]));
    assert(w.subrange(0, w.len() as int) =~= w);
    assert(words_from(w, w.len() as int) =~= Seq::empty());
    assert(words_from(w, 0) =~= seq![w]);
}

/// `s` begins with `p`.
pub open spec fn begins_with(s: Seq<char>, p: Seq<char>) -> bool {
    p.len() <= s.len() && s.subrange(0, p.len() as int) == p
}

/// `s` ends with `p`.
pub open spec fn ends_with(s: Seq<char>, p: Seq<char>) -> bool {
    p.len() <= s.len() && s.subrange(s.len() - p.len(), s.len() as int) == p
}

/// Whether `v[i..]` begins with `p`.
pub fn has_at(v: &Vec<char>, i: usize, p: &Vec<char>) -> (r: bool)
    requires
        i <= v@.len(),
    ensures
        r == begins_with(v@.subrange(i as int, v@.len() as int), p@),
{
    let ghost rest = v@.subrange(i as int, v@.len() as int);
    if v.len() - i < p.len() {
        return false;
    }
    let mut k: usize = 0;
    while k < p.len()
        invariant
            i <= v@.len(),
            0 <= k <= p@.len() <= v@.len() - i,
            rest == v@.subrange(i as int, v@.len() as int),
            forall|j: int| 0 <= j < k ==> #[trigger] rest[j] == p@[j],
        decreases p@.len() - k,
    {
        assert(i + k < v.len());
        if v[i + k] != p[k] {
            assert(rest.subrange(0, p@.len() as int)[k as int] != p@[k as int]);
            return false;
        }
        assert(rest[k as int] == p@[k as int]);
        k += 1;
    }
    assert(rest.subrange(0, p@.len() as int) =~= p@);
    true
}

/// Whether `s` begins with `p`.
pub fn starts(s: &str, p: &str) -> (r: bool)
    ensures
        r == begins_with(s@, p@),
{
    let v = chars_of(s);
    let w = chars_of(p);
    assert(v@.subrange(0, v@.len() as int) =~= v@);
    has_at(&v, 0, &w)
}

/// Whether `s` ends with `p`.
pub fn ends(s: &str, p: &str) -> (r: bool)
    ensures
        r == ends_with(s@, p@),
{
    let v = chars_of(s);
    let w = chars_of(p);
    if v.len() < w.len() {
        return false;
    }
    let at: usize = v.len() - w.len();
    let r = has_at(&v, at, &w);
    proof {
        let tail = v@.subrange(at as int, v@.len() as int);
        assert(tail.subrange(0, w@.len() as int) =~= tail);
    }
    r
}

/// The value of a decimal digit.
pub open spec fn digit_value(c: char) -> int {
    c as int - 48
}

pub open spec fn is_digit(c: char) -> bool {
    48 <= c as int <= 57
}

/// The number that digits write.
pub open spec fn digits_value(s: Seq<char>) -> int
    decreases s.len(),
{
    if s.len() == 0 {
        0
    } else {
        digits_value(s.drop_last()) * 10 + digit_value(s.last())
    }
}

/// Only digits, and at least one.
pub open spec fn all_digits(s: Seq<char>) -> bool {
    s.len() > 0 && forall|i: int| 0 <= i < s.len() ==> is_digit(#[trigger] s[i])
}

/// The text without a leading plus sign.
pub open spec fn without_plus(s: Seq<char>) -> Seq<char> {
    if s.len() > 0 && s[0] == '+' {
        s.skip(1)
    } else {
        s
    }
}

/// The number at most `max` that a text writes: digits, after a plus sign or
/// not.
pub open spec fn number_text(s: Seq<char>, max: int) -> Option<int> {
    let d = without_plus(s);
    if all_digits(d) && digits_value(d) <= max {
        Some(digits_value(d))
    } else {
        None
    }
}

proof fn lemma_digits_grow(s: Seq<char>, i: int)
    requires
        0 <= i <= s.len(),
        forall|k: int| 0 <= k < s.len() ==> is_digit(#[trigger] s[k]),
    ensures
        0 <= digits_value(s.take(i)) <= digits_value(s),
    decreases s.len() - i, i,
{
    if i == s.len() {
        assert(s.take(i) =~= s);
        if i > 0 {
            assert(is_digit(s[i - 1]));
            let t = s.drop_last();
            assert forall|k: int| 0 <= k < t.len() implies is_digit(#[trigger] t[k]) by {
                assert(is_digit(s[k]));
            }
            lemma_digits_nonneg(t);
        }
    } else {
        lemma_digits_grow(s, i + 1);
        assert(s.take(i + 1).drop_last() =~= s.take(i));
        assert(is_digit(s[i]));
        let t = s.take(i);
        assert forall|k: int| 0 <= k < t.len() implies is_digit(#[trigger] t[k]) by {
            assert(is_digit(s[k]));
        }
        lemma_digits_nonneg(t);
    }
}

pub proof fn lemma_digits_nonneg(s: Seq<char>)
    requires
        forall|k: int| 0 <= k < s.len() ==> is_digit(#[trigger] s[k]),
    ensures
        digits_value(s) >= 0,
    decreases s.len(),
{
    if s.len() > 0 {
        let t = s.drop_last();
        assert forall|k: int| 0 <= k < t.len() implies is_digit(#[trigger] t[k]) by {
            assert(is_digit(s[k]));
        }
        lemma_digits_nonneg(t);
        assert(is_digit(s[s.len() - 1]));
    }
}

/// A number's decimal text is digits that write the number.
pub proof fn lemma_decimal_reads(n: nat)
    ensures
        all_digits(decimal_text(n)),
        digits_value(decimal_text(n)) == n,
    decreases n,
{
    let d = decimal_text(n);
    if n < 10 {
        assert(d.drop_last() =~= Seq::empty());
        assert(digits_value(d.drop_last()) == 0);
    } else {
        lemma_decimal_reads(n / 10);
        let t = decimal_text(n / 10);
        assert(d.drop_last() =~= t);
        assert forall|i: int| 0 <= i < d.len() implies is_digit(#[trigger] d[i]) by {
            if i < t.len() {
                assert(is_digit(t[i]));
            }
        }
    }
}

/// The value of a decimal digit; `None` for any other character.
fn digit_of(c: char) -> (r: Option<u64>)
    ensures
        r is Some <==> is_digit(c),
        r matches Some(n) ==> n == digit_value(c) && n <= 9,
{
    let n: u32 = c as u32;
    if n < 48 || n > 57 {
        None
    } else {
        Some((n - 48) as u64)
    }
}

/// The number at most `max` that the characters from `from` on write.
pub fn read_number(v: &Vec<char>, from: usize, max: u64) -> (r: Option<u64>)
    requires
        from <= v@.len(),
    ensures
        match r {
            Some(n) => number_text(v@.subrange(from as int, v@.len() as int), max as int) == Some(
                n as int,
            ),
            None => number_text(v@.subrange(from as int, v@.len() as int), max as int) is None,
        },
{
    let ghost s = v@.subrange(from as int, v@.len() as int);
    let start: usize = if from < v.len() && v[from] == '+' {
        from + 1
    } else {
        from
    };
    let ghost d = v@.subrange(start as int, v@.len() as int);
    proof {
        if from < v.len() {
            assert(s[0] == v@[from as int]);
        }
        assert(without_plus(s) =~= d);
    }
    if start == v.len() {
        return None;
    }
    let mut n: u128 = 0;
    let mut i: usize = start;
    assert(d.take(0) =~= Seq::empty());
    while i < v.len()
        invariant
            start <= i <= v@.len(),
            d == v@.subrange(start as int, v@.len() as int),
            without_plus(s) == d,
            s == v@.subrange(from as int, v@.len() as int),
            n <= max,
            n == digits_value(d.take(i - start)),
            forall|k: int| 0 <= k < i - start ==> is_digit(#[trigger] d[k]),
        decreases v@.len() - i,
    {
        assert(d[i - start] == v@[i as int]);
        let c: u64 = match digit_of(v[i]) {
            Some(c) => c,
            None => {
                return None;
            },
        };
        assert(d.take(i - start + 1).drop_last() =~= d.take(i - start));
        n = n * 10 + c as u128;
        i += 1;
        if n > max as u128 {
            proof {
                if all_digits(d) {
                    lemma_digits_grow(d, i - start);
                }
            }
            return None;
        }
    }
    assert(d.take(i - start) =~= d);
    Some(n as u64)
}

} // verus!
