//! Decoding of bracketed pseudo-lists: text such as `['chop onions', 'boil water']`
//! or `[10.0, 0.5]` turned into its entries. The decode is deliberately simple:
//! no escaping, no nesting, and an entry can hold neither a comma nor (at its
//! ends) a quote.
use vstd::prelude::*;
use crate::text::{chars_of, split_bounds, split_commas, trim, trimmed_bounds, views};
use vstd::string::StrSliceExecFns;

verus! {

/// An error met while normalizing a row.
#[derive(Debug, Clone, Copy, PartialEq, Eq, Structural)]
pub enum RecordError {
    /// A scalar field (`id` or `minutes`) is not an integer.
    MalformedRow,
    /// An entry of the numeric list field is not a decimal number.
    MalformedNumericField,
}

/// `[` or `]`.
pub open spec fn is_bracket(c: char) -> bool {
    c == '[' || c == ']'
}

/// A single or a double quote.
pub open spec fn is_quote(c: char) -> bool {
    c == '\'' || c == '"'
}

/// `s` with one bracket character removed from its start and one from its end,
/// where they are there.
pub open spec fn strip_brackets(s: Seq<char>) -> Seq<char> {
    let a: int = if s.len() > 0 && is_bracket(s[0]) { 1 } else { 0 };
    let b: int = if s.len() > a && is_bracket(s.last()) { s.len() - 1 } else { s.len() as int };
    s.subrange(a, b)
}

/// `s` with one quote character removed from its start and one from its end,
/// where they are there.
pub open spec fn unquote(s: Seq<char>) -> Seq<char> {
    let a: int = if s.len() > 0 && is_quote(s[0]) { 1 } else { 0 };
    let b: int = if s.len() > a && is_quote(s.last()) { s.len() - 1 } else { s.len() as int };
    s.subrange(a, b)
}

/// The raw pieces of a bracketed list text: brackets stripped, split on commas.
pub open spec fn list_pieces(raw: Seq<char>) -> Seq<Seq<char>> {
    split_commas(strip_brackets(raw))
}

/// The entries of a bracketed list of strings: each piece trimmed, then unquoted.
pub open spec fn string_items(raw: Seq<char>) -> Seq<Seq<char>> {
    list_pieces(raw).map_values(|p: Seq<char>| unquote(trim(p)))
}

/// The entries of a bracketed list of numbers, as text: each piece trimmed.
pub open spec fn number_items(raw: Seq<char>) -> Seq<Seq<char>> {
    list_pieces(raw).map_values(|p: Seq<char>| trim(p))
}

/// The bounds within `lo..hi` that remain once one quote is removed from each end.
fn unquoted_bounds(cs: &Vec<char>, lo: usize, hi: usize) -> (r: (usize, usize))
    requires
        lo <= hi <= cs@.len(),
    ensures
        lo <= r.0 <= r.1 <= hi,
        cs@.subrange(r.0 as int, r.1 as int) == unquote(cs@.subrange(lo as int, hi as int)),
{
    let a: usize = if lo < hi && (cs[lo] == '\'' || cs[lo] == '"') { lo + 1 } else { lo };
    let b: usize = if a < hi && (cs[hi - 1] == '\'' || cs[hi - 1] == '"') { hi - 1 } else { hi };
    assert(cs@.subrange(a as int, b as int) =~= unquote(cs@.subrange(lo as int, hi as int)).subrange(0, (b - a) as int));
    (a, b)
}

/// The bounds of `raw` once one bracket is removed from each end.
fn bracket_bounds(cs: &Vec<char>) -> (r: (usize, usize))
    ensures
        r.0 <= r.1 <= cs@.len(),
        cs@.subrange(r.0 as int, r.1 as int) == strip_brackets(cs@),
{
    let n = cs.len();
    let a: usize = if 0 < n && (cs[0] == '[' || cs[0] == ']') { 1 } else { 0 };
    let b: usize = if a < n && (cs[n - 1] == '[' || cs[n - 1] == ']') { n - 1 } else { n };
    (a, b)
}

/// Decodes a bracketed list of strings. Strips one bracket from each end,
/// splits on commas, trims each piece of whitespace and then of one quote at
/// each end. Never fails: even `[]` gives one entry, the empty string.
pub fn decode_string_sequence(raw: &str) -> (r: Vec<String>)
    ensures
        views(r@) == string_items(raw@),
{
    let cs = chars_of(raw);
    let (a, b) = bracket_bounds(&cs);
    let parts = split_bounds(&cs, a, b);
    let ghost pieces = list_pieces(raw@);
    let mut out: Vec<String> = Vec::new();
    let mut k: usize = 0;
    while k < parts.len()
        invariant
            cs@ == raw@,
            b <= cs@.len(),
            pieces == list_pieces(raw@),
            parts@.len() == pieces.len(),
            forall|j: int|
                0 <= j < parts@.len() ==> a <= #[trigger] parts@[j].0 <= parts@[j].1 <= b
                    && cs@.subrange(parts@[j].0 as int, parts@[j].1 as int) == pieces[j],
            k <= parts@.len(),
            out@.len() == k,
            forall|j: int| 0 <= j < k ==> (#[trigger] out@[j])@ == unquote(trim(pieces[j])),
        decreases parts@.len() - k,
    {
        let (lo, hi) = parts[k];
        let (tlo, thi) = trimmed_bounds(&cs, lo, hi);
        let (qlo, qhi) = unquoted_bounds(&cs, tlo, thi);
        let s = raw.substring_char(qlo, qhi).to_owned();
        out.push(s);
        k = k + 1;
    }
    assert(views(out@) =~= string_items(raw@));
    out
}

/// The entries of a bracketed list of numbers, as text: one bracket stripped
/// from each end, split on commas, each piece trimmed of whitespace.
pub fn number_fields(raw: &str) -> (r: Vec<String>)
    ensures
        views(r@) == number_items(raw@),
{
    let cs = chars_of(raw);
    let (a, b) = bracket_bounds(&cs);
    let parts = split_bounds(&cs, a, b);
    let ghost pieces = list_pieces(raw@);
    let mut out: Vec<String> = Vec::new();
    let mut k: usize = 0;
    while k < parts.len()
        invariant
            cs@ == raw@,
            pieces == list_pieces(raw@),
            parts@.len() == pieces.len(),
            forall|j: int|
                0 <= j < parts@.len() ==> a <= #[trigger] parts@[j].0 <= parts@[j].1 <= b
                    && cs@.subrange(parts@[j].0 as int, parts@[j].1 as int) == pieces[j],
            b <= cs@.len(),
            k <= parts@.len(),
            out@.len() == k,
            forall|j: int| 0 <= j < k ==> (#[trigger] out@[j])@ == trim(pieces[j]),
        decreases parts@.len() - k,
    {
        let (lo, hi) = parts[k];
        let (tlo, thi) = trimmed_bounds(&cs, lo, hi);
        let s = raw.substring_char(tlo, thi).to_owned();
        out.push(s);
        k = k + 1;
    }
    assert(views(out@) =~= number_items(raw@));
    out
}

/// Accepts the entries of a numeric list given, for each, whether it is a
/// decimal number: all of them when every one is, else `MalformedNumericField`.
pub fn accept_number_fields(fields: Vec<String>, valid: &Vec<bool>) -> (r: Result<
    Vec<String>,
    RecordError,
>)
    requires
        valid@.len() == fields@.len(),
    ensures
        (forall|i: int| 0 <= i < valid@.len() ==> #[trigger] valid@[i]) ==> r == Ok::<
            Vec<String>,
            RecordError,
        >(fields),
        !(forall|i: int| 0 <= i < valid@.len() ==> #[trigger] valid@[i]) ==> r == Err::<
            Vec<String>,
            RecordError,
        >(RecordError::MalformedNumericField),
{
    let mut i: usize = 0;
    while i < valid.len()
        invariant
            i <= valid@.len(),
            forall|j: int| 0 <= j < i ==> #[trigger] valid@[j],
        decreases valid@.len() - i,
    {
        if !valid[i] {
            return Err(RecordError::MalformedNumericField);
        }
        i = i + 1;
    }
    Ok(fields)
}

} // verus!
