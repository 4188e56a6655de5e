//! The graph side of loading: the statements issued against a property-graph
//! store, their meaning as a function on a model of the store, and an
//! in-memory store that executes them.
use vstd::prelude::*;
use crate::text::views;
use crate::laws::{lemma_apply_all_wf, lemma_apply_wf};

verus! {

/// The properties of a recipe node.
pub struct RecipeNode {
    pub id: i32,
    pub name: String,
    pub description: String,
    pub minutes: i32,
    /// The entries of the numeric list, each as its decimal text.
    pub nutrition: Vec<String>,
    pub steps: Vec<String>,
}

/// A recipe node as a mathematical value.
pub struct NodeModel {
    pub id: int,
    pub name: Seq<char>,
    pub description: Seq<char>,
    pub minutes: int,
    pub nutrition: Seq<Seq<char>>,
    pub steps: Seq<Seq<char>>,
}

impl View for RecipeNode {
    type V = NodeModel;

    open spec fn view(&self) -> NodeModel {
        NodeModel {
            id: self.id as int,
            name: self.name@,
            description: self.description@,
            minutes: self.minutes as int,
            nutrition: views(self.nutrition@),
            steps: views(self.steps@),
        }
    }
}

/// One write issued against the store.
pub enum Statement {
    /// Create a recipe node, unconditionally.
    CreateRecipe(RecipeNode),
    /// Create the ingredient node of this name unless one exists.
    MergeIngredient(String),
    /// Link every recipe node of this id to the ingredient node of this name,
    /// unless the edge exists.
    MergeContains(i32, String),
}

/// A statement as a mathematical value.
pub enum Op {
    CreateRecipe(NodeModel),
    MergeIngredient(Seq<char>),
    MergeContains(int, Seq<char>),
}

impl View for Statement {
    type V = Op;

    open spec fn view(&self) -> Op {
        match self {
            Statement::CreateRecipe(n) => Op::CreateRecipe(n@),
            Statement::MergeIngredient(s) => Op::MergeIngredient(s@),
            Statement::MergeContains(id, s) => Op::MergeContains(*id as int, s@),
        }
    }
}

/// The contents of a store: recipe nodes by position, ingredient nodes by
/// name, and "contains" edges from a recipe position to an ingredient name.
pub struct GraphModel {
    pub recipes: Seq<NodeModel>,
    pub ingredients: Seq<Seq<char>>,
    pub contains: Seq<(int, Seq<char>)>,
}

/// A store in which no ingredient and no edge occurs twice, and every edge
/// joins nodes that exist.
pub open spec fn graph_wf(g: GraphModel) -> bool {
    &&& g.ingredients.no_duplicates()
    &&& g.contains.no_duplicates()
    &&& forall|i: int|
        0 <= i < g.contains.len() ==> 0 <= (#[trigger] g.contains[i]).0 < g.recipes.len()
            && g.ingredients.contains(g.contains[i].1)
}

/// `c` with an edge to `name` added from each of the first `k` recipes whose
/// id is `id`, where that edge is missing.
pub open spec fn link(
    c: Seq<(int, Seq<char>)>,
    recipes: Seq<NodeModel>,
    id: int,
    name: Seq<char>,
    k: int,
) -> Seq<(int, Seq<char>)>
    decreases k,
{
    if k <= 0 {
        c
    } else {
        let c1 = link(c, recipes, id, name, k - 1);
        if recipes[k - 1].id == id && !c1.contains((k - 1, name)) {
            c1.push((k - 1, name))
        } else {
            c1
        }
    }
}

/// What one statement does to a store.
pub open spec fn apply(g: GraphModel, op: Op) -> GraphModel {
    match op {
        Op::CreateRecipe(n) => GraphModel { recipes: g.recipes.push(n), ..g },
        Op::MergeIngredient(name) => if g.ingredients.contains(name) {
            g
        } else {
            GraphModel { ingredients: g.ingredients.push(name), ..g }
        },
        Op::MergeContains(id, name) => if g.ingredients.contains(name) {
            GraphModel {
                contains: link(g.contains, g.recipes, id, name, g.recipes.len() as int),
                ..g
            }
        } else {
            g
        },
    }
}

/// What a sequence of statements does to a store, in order.
pub open spec fn apply_all(g: GraphModel, ops: Seq<Op>) -> GraphModel
    decreases ops.len(),
{
    if ops.len() == 0 {
        g
    } else {
        apply(apply_all(g, ops.drop_last()), ops.last())
    }
}

/// The statements that attach ingredients to a recipe: for each ingredient in
/// order, merge its node, then merge the edge to it.
pub open spec fn attach_ops(id: int, ingredients: Seq<Seq<char>>) -> Seq<Op>
    decreases ingredients.len(),
{
    if ingredients.len() == 0 {
        Seq::empty()
    } else {
        attach_ops(id, ingredients.drop_last()) + seq![
            Op::MergeIngredient(ingredients.last()),
            Op::MergeContains(id, ingredients.last()),
        ]
    }
}

/// Copies a list of strings.
pub fn copy_strings(v: &Vec<String>) -> (r: Vec<String>)
    ensures
        views(r@) == views(v@),
{
    let mut out: Vec<String> = Vec::new();
    let mut i: usize = 0;
    while i < v.len()
        invariant
            i <= v@.len(),
            out@.len() == i,
            forall|j: int| 0 <= j < i ==> (#[trigger] out@[j])@ == v@[j]@,
        decreases v@.len() - i,
    {
        out.push(v[i].clone());
        i = i + 1;
    }
    assert(views(out@) =~= views(v@));
    out
}

impl RecipeNode {
    /// A copy of the node with the same properties.
    pub fn copy(&self) -> (r: RecipeNode)
        ensures
            r@ == self@,
    {
        RecipeNode {
            id: self.id,
            name: self.name.clone(),
            description: self.description.clone(),
            minutes: self.minutes,
            nutrition: copy_strings(&self.nutrition),
            steps: copy_strings(&self.steps),
        }
    }
}

/// The statements that attach `ingredients` to the recipe of id `recipe_id`,
/// to be run in one transaction.
pub fn ingredient_statements(recipe_id: i32, ingredients: &Vec<String>) -> (r: Vec<Statement>)
    ensures
        op_views(r@) == attach_ops(recipe_id as int, views(ingredients@)),
{
    let mut out: Vec<Statement> = Vec::new();
    let mut i: usize = 0;
    while i < ingredients.len()
        invariant
            i <= ingredients@.len(),
            out@.map_values(|s: Statement| s@) == attach_ops(
                recipe_id as int,
                views(ingredients@.subrange(0, i as int)),
            ),
        decreases ingredients@.len() - i,
    {
        let ghost before = out@.map_values(|s: Statement| s@);
        let ghost pre = views(ingredients@.subrange(0, i as int));
        let ghost cur = views(ingredients@.subrange(0, i + 1));
        assert(cur.drop_last() =~= pre);
        assert(cur.last() == ingredients@[i as int]@);
        out.push(Statement::MergeIngredient(ingredients[i].clone()));
        out.push(Statement::MergeContains(recipe_id, ingredients[i].clone()));
        assert(out@.map_values(|s: Statement| s@) =~= before + seq![
            Op::MergeIngredient(cur.last()),
            Op::MergeContains(recipe_id as int, cur.last()),
        ]);
        i = i + 1;
    }
    assert(ingredients@.subrange(0, ingredients@.len() as int) =~= ingredients@);
    out
}


/// An in-memory property-graph store that executes statements with the
/// meaning that `apply` gives them.
pub struct MemoryGraph {
    recipes: Vec<RecipeNode>,
    ingredients: Vec<String>,
    contains: Vec<(usize, String)>,
}

/// The view of the edges of a memory store.
pub open spec fn edge_views(c: Seq<(usize, String)>) -> Seq<(int, Seq<char>)> {
    c.map_values(|e: (usize, String)| (e.0 as int, e.1@))
}

/// The view of the statements of a list.
pub open spec fn op_views(v: Seq<Statement>) -> Seq<Op> {
    v.map_values(|s: Statement| s@)
}

impl View for MemoryGraph {
    type V = GraphModel;

    closed spec fn view(&self) -> GraphModel {
        GraphModel {
            recipes: self.recipes@.map_values(|n: RecipeNode| n@),
            ingredients: views(self.ingredients@),
            contains: edge_views(self.contains@),
        }
    }
}

impl MemoryGraph {
    /// An empty store.
    pub fn new() -> (r: MemoryGraph)
        ensures
            r@.recipes.len() == 0,
            r@.ingredients.len() == 0,
            r@.contains.len() == 0,
            graph_wf(r@),
    {
        let r = MemoryGraph { recipes: Vec::new(), ingredients: Vec::new(), contains: Vec::new() };
        assert(r@.recipes =~= Seq::<NodeModel>::empty());
        r
    }

    /// The number of recipe nodes.
    pub fn recipe_count(&self) -> (r: usize)
        ensures
            r == self@.recipes.len(),
    {
        self.recipes.len()
    }

    /// The number of ingredient nodes.
    pub fn ingredient_count(&self) -> (r: usize)
        ensures
            r == self@.ingredients.len(),
    {
        self.ingredients.len()
    }

    /// The number of "contains" edges.
    pub fn edge_count(&self) -> (r: usize)
        ensures
            r == self@.contains.len(),
    {
        self.contains.len()
    }

    /// The recipe node at position `k`.
    pub fn recipe(&self, k: usize) -> (r: &RecipeNode)
        requires
            k < self@.recipes.len(),
        ensures
            r@ == self@.recipes[k as int],
    {
        &self.recipes[k]
    }

    /// Whether an ingredient node of this name exists.
    pub fn has_ingredient(&self, name: &String) -> (r: bool)
        ensures
            r == self@.ingredients.contains(name@),
    {
        let mut i: usize = 0;
        while i < self.ingredients.len()
            invariant
                i <= self.ingredients@.len(),
                forall|j: int| 0 <= j < i ==> self.ingredients@[j]@ != name@,
            decreases self.ingredients@.len() - i,
        {
            if self.ingredients[i] == *name {
                assert(self@.ingredients[i as int] == name@);
                return true;
            }
            i = i + 1;
        }
        assert forall|j: int| 0 <= j < self@.ingredients.len() implies self@.ingredients[j]
            != name@ by {
            assert(self@.ingredients[j] == self.ingredients@[j]@);
        }
        false
    }

    /// Whether the recipe node at position `k` has an edge to the ingredient
    /// of this name.
    pub fn has_edge(&self, k: usize, name: &String) -> (r: bool)
        ensures
            r == self@.contains.contains((k as int, name@)),
    {
        let mut i: usize = 0;
        while i < self.contains.len()
            invariant
                i <= self.contains@.len(),
                forall|j: int| 0 <= j < i ==> edge_views(self.contains@)[j] != (k as int, name@),
            decreases self.contains@.len() - i,
        {
            if self.contains[i].0 == k && self.contains[i].1 == *name {
                assert(self@.contains[i as int] == (k as int, name@));
                return true;
            }
            i = i + 1;
        }
        false
    }

    /// Adds an edge to `name` from each recipe node of id `id` that lacks one.
    fn link_recipes(&mut self, id: i32, name: &String)
        ensures
            final(self)@ == (GraphModel {
                contains: link(old(self)@.contains, old(self)@.recipes, id as int, name@,
                    old(self)@.recipes.len() as int),
                ..old(self)@
            }),
    {
        let mut k: usize = 0;
        let ghost start = self@;
        while k < self.recipes.len()
            invariant
                k <= self.recipes@.len(),
                self@.recipes == start.recipes,
                self@.ingredients == start.ingredients,
                self@.contains == link(start.contains, start.recipes, id as int, name@, k as int),
            decreases self.recipes@.len() - k,
        {
            assert(self@.recipes[k as int] == self.recipes@[k as int]@);
            if self.recipes[k].id == id && !self.has_edge(k, name) {
                let ghost before = self.contains@;
                self.contains.push((k, name.clone()));
                assert(edge_views(self.contains@) =~= edge_views(before).push((k as int, name@)));
            }
            k = k + 1;
        }
    }

    /// Executes one statement.
    pub fn apply(&mut self, st: &Statement)
        ensures
            final(self)@ == apply(old(self)@, st@),
            graph_wf(old(self)@) ==> graph_wf(final(self)@),
    {
        proof {
            if graph_wf(self@) {
                lemma_apply_wf(self@, st@);
            }
        }
        match st {
            Statement::CreateRecipe(n) => {
                let ghost before = self.recipes@;
                self.recipes.push(n.copy());
                assert(self@.recipes =~= before.map_values(|n: RecipeNode| n@).push(n@));
            },
            Statement::MergeIngredient(name) => {
                if !self.has_ingredient(name) {
                    let ghost before = self.ingredients@;
                    self.ingredients.push(name.clone());
                    assert(views(self.ingredients@) =~= views(before).push(name@));
                }
            },
            Statement::MergeContains(id, name) => {
                if self.has_ingredient(name) {
                    self.link_recipes(*id, name);
                }
            },
        }
    }

    /// Executes a list of statements in order, as one transaction.
    pub fn run(&mut self, sts: &Vec<Statement>)
        ensures
            final(self)@ == apply_all(old(self)@, op_views(sts@)),
            graph_wf(old(self)@) ==> graph_wf(final(self)@),
    {
        proof {
            if graph_wf(self@) {
                lemma_apply_all_wf(self@, op_views(sts@));
            }
        }
        let mut i: usize = 0;
        let ghost start = self@;
        while i < sts.len()
            invariant
                i <= sts@.len(),
                self@ == apply_all(start, op_views(sts@.subrange(0, i as int))),
            decreases sts@.len() - i,
        {
            assert(op_views(sts@.subrange(0, i + 1)).drop_last() =~= op_views(
                sts@.subrange(0, i as int),
            ));
            self.apply(&sts[i]);
            i = i + 1;
        }
        assert(sts@.subrange(0, sts@.len() as int) =~= sts@);
    }
}

} // verus!
