//! Loading a table of rows, one record at a time, into an in-memory store.
use vstd::prelude::*;
use crate::decode::RecordError;
use crate::graph::{apply, apply_all, attach_ops, GraphModel, MemoryGraph, Op};
use crate::laws::lemma_apply_all_concat;
use crate::record::{normalize_row, normalizes, row_ok, row_ops, RawRow, Recipe};
use crate::text::views;

verus! {

/// Why loading stopped: the position of the offending row, and its error.
#[derive(Debug, Clone, Copy, PartialEq, Eq, Structural)]
pub struct RowError {
    pub row: usize,
    pub error: RecordError,
}

/// The error that a row gives, given whether every entry of its numeric list
/// is a decimal number.
pub open spec fn row_error(row: RawRow, numbers_ok: bool) -> Option<RecordError> {
    if !row_ok(row) {
        Some(RecordError::MalformedRow)
    } else if !numbers_ok {
        Some(RecordError::MalformedNumericField)
    } else {
        None
    }
}

/// The store `g` once the first `k` rows are loaded.
pub open spec fn loaded(g: GraphModel, rows: Seq<RawRow>, k: int) -> GraphModel
    decreases k,
{
    if k <= 0 {
        g
    } else {
        apply_all(loaded(g, rows, k - 1), row_ops(rows[k - 1]))
    }
}

/// Loads one record: creates its recipe node, then attaches its ingredients,
/// each step a transaction of its own.
pub fn load_record(store: &mut MemoryGraph, recipe: &Recipe)
    ensures
        final(store)@ == apply_all(
            old(store)@,
            seq![Op::CreateRecipe(recipe.node_model())] + attach_ops(
                recipe.id as int,
                views(recipe.ingredients@),
            ),
        ),
{
    let ghost g = store@;
    store.apply(&recipe.recipe_statement());
    let sts = recipe.ingredient_statements();
    store.run(&sts);
    proof {
        let first = seq![Op::CreateRecipe(recipe.node_model())];
        lemma_apply_all_concat(g, first, attach_ops(recipe.id as int, views(recipe.ingredients@)));
        assert(first.drop_last() =~= Seq::<Op>::empty());
        assert(apply_all(g, first) == apply(apply_all(g, first.drop_last()), first.last()));
    }
}

/// Loads rows in order. `numbers_ok[i]` says whether every entry of the
/// numeric list of row `i` is a decimal number. Stops at the first row that
/// does not normalize, before writing anything of it, and reports it: the
/// store then holds exactly the rows before it.
pub fn load_rows(store: &mut MemoryGraph, rows: &Vec<RawRow>, numbers_ok: &Vec<bool>) -> (r:
    Result<(), RowError>)
    requires
        numbers_ok@.len() == rows@.len(),
    ensures
        r is Ok <==> forall|i: int|
            0 <= i < rows@.len() ==> #[trigger] row_error(rows@[i], numbers_ok@[i]) is None,
        r is Ok ==> final(store)@ == loaded(old(store)@, rows@, rows@.len() as int),
        r is Err ==> {
            let e = r->Err_0;
            &&& e.row < rows@.len()
            &&& forall|i: int|
                0 <= i < e.row ==> #[trigger] row_error(rows@[i], numbers_ok@[i]) is None
            &&& row_error(rows@[e.row as int], numbers_ok@[e.row as int]) == Some(e.error)
            &&& final(store)@ == loaded(old(store)@, rows@, e.row as int)
        },
{
    let ghost g = store@;
    let mut i: usize = 0;
    while i < rows.len()
        invariant
            i <= rows@.len(),
            numbers_ok@.len() == rows@.len(),
            forall|j: int| 0 <= j < i ==> #[trigger] row_error(rows@[j], numbers_ok@[j]) is None,
            store@ == loaded(g, rows@, i as int),
            g == old(store)@,
        decreases rows@.len() - i,
    {
        let recipe = match normalize_row(&rows[i]) {
            Ok(rec) => rec,
            Err(e) => {
                assert(row_error(rows@[i as int], numbers_ok@[i as int]) == Some(e));
                return Err(RowError { row: i, error: e });
            },
        };
        if !numbers_ok[i] {
            assert(row_error(rows@[i as int], numbers_ok@[i as int]) == Some(
                RecordError::MalformedNumericField,
            ));
            return Err(RowError { row: i, error: RecordError::MalformedNumericField });
        }
        load_record(store, &recipe);
        proof {
            let row = rows@[i as int];
            assert(normalizes(row, recipe));
            assert(recipe.node_model() == crate::record::row_node(row));
            assert(loaded(g, rows@, i + 1) == apply_all(loaded(g, rows@, i as int), row_ops(row)));
        }
        i = i + 1;
    }
    Ok(())
}

} // verus!
