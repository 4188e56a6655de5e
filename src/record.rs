//! Recipe records: a raw row of the input table, its normalized form, and the
//! statements that load one record into the store.
use vstd::prelude::*;
use crate::decode::{decode_string_sequence, number_fields, number_items, string_items, RecordError};
use crate::graph::{attach_ops, copy_strings, ingredient_statements, op_views, NodeModel, Op, RecipeNode, Statement};
use crate::scalar::{i32_text, parse_i32};
use crate::text::views;

verus! {

/// One row of the input table, each column as its text.
pub struct RawRow {
    pub id: String,
    pub name: String,
    pub description: String,
    pub ingredients: String,
    pub minutes: String,
    pub steps: String,
    pub nutrition: String,
}

/// A normalized recipe record.
pub struct Recipe {
    pub id: i32,
    pub name: String,
    pub description: String,
    pub ingredients: Vec<String>,
    pub minutes: i32,
    pub steps: Vec<String>,
    /// The entries of the numeric list, each as its decimal text.
    pub nutrition: Vec<String>,
}

/// Whether both integer columns of `row` hold an `i32`.
pub open spec fn row_ok(row: RawRow) -> bool {
    i32_text(row.id@) is Some && i32_text(row.minutes@) is Some
}

/// Whether `rec` is the normalized form of `row`.
pub open spec fn normalizes(row: RawRow, rec: Recipe) -> bool {
    &&& i32_text(row.id@) == Some(rec.id)
    &&& i32_text(row.minutes@) == Some(rec.minutes)
    &&& rec.name@ == row.name@
    &&& rec.description@ == row.description@
    &&& views(rec.ingredients@) == string_items(row.ingredients@)
    &&& views(rec.steps@) == string_items(row.steps@)
    &&& views(rec.nutrition@) == number_items(row.nutrition@)
}

/// The recipe node that a well-formed row gives.
pub open spec fn row_node(row: RawRow) -> NodeModel {
    NodeModel {
        id: i32_text(row.id@)->Some_0 as int,
        name: row.name@,
        description: row.description@,
        minutes: i32_text(row.minutes@)->Some_0 as int,
        nutrition: number_items(row.nutrition@),
        steps: string_items(row.steps@),
    }
}

/// The statements that load a well-formed row: its recipe node, then its
/// ingredients.
pub open spec fn row_ops(row: RawRow) -> Seq<Op> {
    seq![Op::CreateRecipe(row_node(row))] + attach_ops(
        i32_text(row.id@)->Some_0 as int,
        string_items(row.ingredients@),
    )
}

/// Normalizes a row: the integer columns parsed, the list columns decoded.
/// `MalformedRow` exactly when `id` or `minutes` is not an `i32`; the entries
/// of `nutrition` are kept as text here and are not checked.
pub fn normalize_row(row: &RawRow) -> (r: Result<Recipe, RecordError>)
    ensures
        r is Ok <==> row_ok(*row),
        r is Ok ==> normalizes(*row, r->Ok_0),
        r is Err ==> r->Err_0 == RecordError::MalformedRow,
{
    let id = match parse_i32(row.id.as_str()) {
        Some(v) => v,
        None => return Err(RecordError::MalformedRow),
    };
    let ingredients = decode_string_sequence(row.ingredients.as_str());
    let minutes = match parse_i32(row.minutes.as_str()) {
        Some(v) => v,
        None => return Err(RecordError::MalformedRow),
    };
    let steps = decode_string_sequence(row.steps.as_str());
    let nutrition = number_fields(row.nutrition.as_str());
    Ok(Recipe {
        id,
        name: row.name.clone(),
        description: row.description.clone(),
        ingredients,
        minutes,
        steps,
        nutrition,
    })
}

impl Recipe {
    /// The properties of this record's recipe node: every field but the
    /// ingredients.
    pub open spec fn node_model(&self) -> NodeModel {
        NodeModel {
            id: self.id as int,
            name: self.name@,
            description: self.description@,
            minutes: self.minutes as int,
            nutrition: views(self.nutrition@),
            steps: views(self.steps@),
        }
    }

    /// The recipe node of this record.
    pub fn node(&self) -> (r: RecipeNode)
        ensures
            r@ == self.node_model(),
    {
        RecipeNode {
            id: self.id,
            name: self.name.clone(),
            description: self.description.clone(),
            minutes: self.minutes,
            nutrition: copy_strings(&self.nutrition),
            steps: copy_strings(&self.steps),
        }
    }

    /// The statement that creates this record's recipe node.
    pub fn recipe_statement(&self) -> (r: Statement)
        ensures
            r@ == Op::CreateRecipe(self.node_model()),
    {
        Statement::CreateRecipe(self.node())
    }

    /// The statements that attach this record's ingredients to its node.
    pub fn ingredient_statements(&self) -> (r: Vec<Statement>)
        ensures
            op_views(r@) == attach_ops(self.id as int, views(self.ingredients@)),
    {
        ingredient_statements(self.id, &self.ingredients)
    }
}

} // verus!
