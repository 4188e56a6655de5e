//! Reading back a list that was written plainly: entries with no comma and no
//! quote, each optionally quoted, separated by a comma and a space.
use vstd::prelude::*;
use crate::decode::{is_quote, list_pieces, strip_brackets, string_items, unquote};
use crate::text::{split_commas, trim, trim_end, trim_start, whitespace};

verus! {

/// Whether `e` can stand as a plain list entry: no comma, no quote, and no
/// whitespace at either end.
pub open spec fn simple_entry(e: Seq<char>) -> bool {
    &&& forall|i: int| 0 <= i < e.len() ==> #[trigger] e[i] != ',' && !is_quote(e[i])
    &&& e.len() > 0 ==> !whitespace(e[0]) && !whitespace(e.last())
}

/// Whether `q` is a quote to write around entries: none, `'` or `"`.
pub open spec fn entry_quote(q: Seq<char>) -> bool {
    q == Seq::<char>::empty() || q == seq!['\''] || q == seq!['"']
}

/// An entry as written in a list: within the quote `q`, and after the first
/// entry preceded by a space.
pub open spec fn written_entry(e: Seq<char>, q: Seq<char>, first: bool) -> Seq<char> {
    if first {
        q + e + q
    } else {
        seq![' '] + q + e + q
    }
}

/// Pieces joined with commas between them.
pub open spec fn join_commas(ps: Seq<Seq<char>>) -> Seq<char>
    decreases ps.len(),
{
    if ps.len() == 0 {
        Seq::empty()
    } else if ps.len() == 1 {
        ps[0]
    } else {
        join_commas(ps.drop_last()) + seq![','] + ps.last()
    }
}

/// The list text `[e1, e2, ..., en]`, each entry within the quote `q`.
pub open spec fn list_text(es: Seq<Seq<char>>, q: Seq<char>) -> Seq<char> {
    seq!['['] + join_commas(es.map(|i: int, e: Seq<char>| written_entry(e, q, i == 0)))
        + seq![']']
}

proof fn lemma_split_len(s: Seq<char>)
    ensures
        split_commas(s).len() >= 1,
    decreases s.len(),
{
    if s.len() > 0 {
        lemma_split_len(s.drop_last());
    }
}

/// Text with no comma extends the last piece.
proof fn lemma_split_append(s: Seq<char>, t: Seq<char>)
    requires
        forall|i: int| 0 <= i < t.len() ==> #[trigger] t[i] != ',',
    ensures
        split_commas(s + t) == split_commas(s).update(
            split_commas(s).len() - 1,
            split_commas(s).last() + t,
        ),
    decreases t.len(),
{
    lemma_split_len(s);
    let p = split_commas(s);
    if t.len() == 0 {
        assert(s + t =~= s);
        assert(p.last() + t =~= p.last());
        assert(p.update(p.len() - 1, p.last() + t) =~= p);
    } else {
        let t0 = t.drop_last();
        lemma_split_append(s, t0);
        assert((s + t).drop_last() =~= s + t0);
        assert((s + t).last() == t.last());
        let p0 = split_commas(s + t0);
        assert(p0.last() == p.last() + t0);
        assert(p0.len() == p.len());
        assert(p0.last().push(t.last()) =~= p.last() + t);
        assert(p0.update(p0.len() - 1, p0.last().push(t.last())) =~= p.update(
            p.len() - 1,
            p.last() + t,
        ));
    }
}

/// Splitting pieces joined with commas gives the pieces back, where none
/// holds a comma.
proof fn lemma_split_join(ps: Seq<Seq<char>>)
    requires
        ps.len() >= 1,
        forall|k: int, i: int| 0 <= k < ps.len() && 0 <= i < ps[k].len() ==> #[trigger] ps[k][i]
            != ',',
    ensures
        split_commas(join_commas(ps)) == ps,
    decreases ps.len(),
{
    if ps.len() == 1 {
        let e = Seq::<char>::empty();
        lemma_split_append(e, ps[0]);
        assert(e + ps[0] =~= ps[0]);
        assert(split_commas(e) == seq![e]);
        assert(seq![e].update(0, e + ps[0]) =~= ps);
    } else {
        let front = ps.drop_last();
        lemma_split_join(front);
        let j = join_commas(front);
        let jc = j + seq![','];
        assert(jc.drop_last() =~= j);
        assert(split_commas(jc) == front.push(Seq::<char>::empty()));
        lemma_split_append(jc, ps.last());
        assert(Seq::<char>::empty() + ps.last() =~= ps.last());
        assert(front.push(Seq::<char>::empty()).update(front.len() as int, ps.last()) =~= ps);
    }
}

/// A plainly written entry reads back as itself.
proof fn lemma_entry_reads_back(e: Seq<char>, q: Seq<char>, first: bool)
    requires
        simple_entry(e),
        entry_quote(q),
    ensures
        unquote(trim(written_entry(e, q, first))) == e,
{
    let y = q + e + q;
    let w = written_entry(e, q, first);
    if !first {
        assert(w =~= seq![' '] + y);
        assert(w.drop_first() =~= y);
        assert(whitespace(w[0]));
        assert(trim_start(w) == trim_start(y));
    } else {
        assert(w == y);
    }
    if y.len() == 0 {
        assert(trim_start(y) == y);
        assert(trim_end(y) == y);
        assert(e =~= y);
    } else {
        if q.len() > 0 {
            assert(y[0] == q[0]);
            assert(y.last() == q[0]);
        } else {
            assert(y =~= e);
        }
        assert(!whitespace(y[0]));
        assert(!whitespace(y.last()));
        assert(trim_start(y) == y);
        assert(trim_end(y) == y);
        if q.len() > 0 {
            assert(y.subrange(1, y.len() - 1) =~= e);
        } else {
            assert(!is_quote(e[0]));
            assert(!is_quote(e[e.len() - 1]));
            assert(y.subrange(0, y.len() as int) =~= e);
        }
    }
    assert(trim(w) == y);
    assert(unquote(y) =~= e);
}

/// A list `[e1, e2, ..., en]` of plain entries, all quoted alike or all
/// unquoted, decodes to exactly `e1, e2, ..., en`.
pub proof fn lemma_decode_plain_list(es: Seq<Seq<char>>, q: Seq<char>)
    requires
        es.len() >= 1,
        entry_quote(q),
        forall|i: int| 0 <= i < es.len() ==> simple_entry(#[trigger] es[i]),
    ensures
        string_items(list_text(es, q)) == es,
{
    let ps = es.map(|i: int, e: Seq<char>| written_entry(e, q, i == 0));
    let raw = list_text(es, q);
    let j = join_commas(ps);
    assert(raw[0] == '[');
    assert(raw.last() == ']');
    assert(strip_brackets(raw) =~= j);
    assert forall|k: int, i: int| 0 <= k < ps.len() && 0 <= i < ps[k].len() implies #[trigger] ps[k][i]
        != ',' by {
        let e = es[k];
        assert(simple_entry(e));
        let y = q + e + q;
        if k == 0 {
            assert(ps[k] == y);
            if i < q.len() || i >= q.len() + e.len() {
            } else {
                assert(y[i] == e[i - q.len()]);
            }
        } else {
            let w = seq![' '] + y;
            assert(ps[k] == w);
            if i == 0 {
            } else if i < 1 + q.len() || i >= 1 + q.len() + e.len() {
            } else {
                assert(w[i] == e[i - 1 - q.len()]);
            }
        }
    }
    lemma_split_join(ps);
    assert(list_pieces(raw) == ps);
    assert forall|i: int| 0 <= i < es.len() implies unquote(trim(#[trigger] ps[i])) == es[i] by {
        lemma_entry_reads_back(es[i], q, i == 0);
    }
    assert(string_items(raw) =~= es);
}

} // verus!
