//! Export of the stems of a take: which files are written for which sources.
use vstd::prelude::*;

use crate::text::chars_of;
use crate::text::join;
use crate::text::pad;
use crate::text::padded;
use crate::text::trim;
use crate::text::trimmed;

verus! {

/// Where the stems went, and how many sources there were.
#[derive(Debug)]
pub struct ExportResult {
    pub dir: String,
    pub source_count: usize,
}

/// The character is a letter or a number, as `char::is_alphanumeric` has it.
pub uninterp spec fn alphanumeric(c: char) -> bool;

/// `char::is_alphanumeric`, of which only the result is named.
#[verifier::external_body]
fn is_letter_or_number(c: char) -> (r: bool)
    ensures
        r == alphanumeric(c),
{
    c.is_alphanumeric()
}

/// The character may stand in a file name: a letter or a number, a space, a
/// dash, an underscore, or a dot.
pub open spec fn file_char(c: char) -> bool {
    ||| '0' <= c <= '9'
    ||| 'a' <= c <= 'z'
    ||| 'A' <= c <= 'Z'
    ||| c == ' '
    ||| c == '-'
    ||| c == '_'
    ||| c == '.'
    ||| c >= '\u{80}' && alphanumeric(c)
}

/// The text with an underscore for every character that may not stand in a
/// file name.
pub open spec fn sanitized(s: Seq<char>) -> Seq<char> {
    s.map_values(
        |c: char|
            if file_char(c) {
                c
            } else {
                '_'
            },
    )
}

fn is_file_char(c: char) -> (r: bool)
    ensures
        r == file_char(c),
{
    if c >= '\u{80}' {
        is_letter_or_number(c)
    } else {
        ('0' <= c && c <= '9') || ('a' <= c && c <= 'z') || ('A' <= c && c <= 'Z') || c == ' '
            || c == '-' || c == '_' || c == '.'
    }
}

/// A name that can stand in a file system.
pub fn sanitize(s: &str) -> (r: String)
    ensures
        r@ == sanitized(s@),
{
    let v = chars_of(s);
    let mut out = String::new();
    let mut i: usize = 0;
    while i < v.len()
        invariant
            0 <= i <= v@.len(),
            v@ == s@,
            out@ =~= sanitized(s@.take(i as int)),
        decreases v@.len() - i,
    {
        if is_file_char(v[i]) {
            out.push(v[i]);
        } else {
            out.push('_');
        }
        assert(s@.take(i + 1) =~= s@.take(i as int).push(s@[i as int]));
        i += 1;
    }
    assert(s@.take(i as int) =~= s@);
    out
}

/// The name that is given to source `src_idx`, without white space around it.
pub open spec fn given_name(layer_names: Seq<String>, src_idx: int) -> Seq<char> {
    if 0 <= src_idx < layer_names.len() {
        trimmed(layer_names[src_idx]@)
    } else {
        Seq::empty()
    }
}

/// "source-" and the number of a source, counted from one, in two digits or
/// more.
pub open spec fn source_name(src_idx: nat) -> Seq<char> {
    "source-"@ + padded(src_idx + 1, 2)
}

/// The name of a source's stem.
pub open spec fn stem_name(layer_names: Seq<String>, src_idx: int) -> Seq<char> {
    let raw = given_name(layer_names, src_idx);
    if raw.len() == 0 {
        source_name(src_idx as nat)
    } else {
        sanitized(raw)
    }
}

/// The name of a source that has none of its own.
pub fn numbered_source(src_idx: usize) -> (r: String)
    ensures
        r@ == source_name(src_idx as nat),
{
    join("source-", pad(src_idx as u128 + 1, 2).as_str())
}

/// The file of a recorded source.
pub fn source_file(src_idx: usize) -> (r: String)
    ensures
        r@ == source_name(src_idx as nat) + ".wav"@,
{
    join(numbered_source(src_idx).as_str(), ".wav")
}

/// The name of a source's stem: the name given to it where there is one, made
/// fit for a file system, and else its number.
pub fn layer_filename(layer_names: &[String], src_idx: usize) -> (r: String)
    ensures
        r@ == stem_name(layer_names@, src_idx as int),
{
    if src_idx < layer_names.len() {
        let raw = trim(layer_names[src_idx].as_str());
        if raw.as_str().unicode_len() > 0 {
            return sanitize(raw.as_str());
        }
    }
    numbered_source(src_idx)
}

/// A stem that is to be written.
#[derive(Debug)]
pub struct Stem {
    /// Which of the loaded buffers.
    pub buffer: usize,
    pub source: usize,
    pub file: String,
}

/// The stem of buffer `i`.
pub open spec fn is_stem(
    s: Stem,
    i: int,
    source_indices: Seq<usize>,
    layer_names: Seq<String>,
) -> bool {
    &&& s.buffer == i
    &&& s.source == source_indices[i]
    &&& s.file@ == stem_name(layer_names, source_indices[i] as int) + ".wav"@
}

/// How many stems there are: one per source for which there is a buffer.
pub open spec fn stem_count(sources: nat, buffers: nat) -> nat {
    if sources < buffers {
        sources
    } else {
        buffers
    }
}

/// The stems that an export writes: one for each source that has a buffer, in
/// order. `source_indices[i]` is the source of buffer `i`.
pub fn plan_stems(source_indices: &[usize], buffers: usize, layer_names: &[String]) -> (r: Vec<
    Stem,
>)
    ensures
        r@.len() == stem_count(source_indices@.len(), buffers as nat),
        forall|i: int|
            0 <= i < r@.len() ==> is_stem(#[trigger] r@[i], i, source_indices@, layer_names@),
{
    let mut out: Vec<Stem> = Vec::new();
    let mut i: usize = 0;
    while i < source_indices.len() && i < buffers
        invariant
            0 <= i <= source_indices@.len(),
            i <= buffers,
            out@.len() == i,
            forall|k: int|
                0 <= k < i ==> is_stem(#[trigger] out@[k], k, source_indices@, layer_names@),
        decreases source_indices@.len() - i,
    {
        let source: usize = source_indices[i];
        let name = layer_filename(layer_names, source);
        out.push(Stem { buffer: i, source, file: join(name.as_str(), ".wav") });
        i += 1;
    }
    out
}

// Laws.

/// A name that is fit for a file system holds only characters that are, and
/// as many as before; making it fit again changes nothing.
pub proof fn sanitized_is_fit(s: Seq<char>)
    ensures
        sanitized(s).len() == s.len(),
        forall|i: int| 0 <= i < s.len() ==> file_char(#[trigger] sanitized(s)[i]),
        sanitized(sanitized(s)) == sanitized(s),
{
    let t = sanitized(s);
    assert forall|i: int| 0 <= i < s.len() implies file_char(#[trigger] t[i]) by {
        assert(t[i] == if file_char(s[i]) {
            s[i]
        } else {
            '_'
        });
    }
    assert(sanitized(t) =~= t);
}

} // verus!
