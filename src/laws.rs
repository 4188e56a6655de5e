//! Properties of the statements that loading issues, proved over the model of
//! the store.
use vstd::prelude::*;
use crate::graph::{apply, apply_all, attach_ops, graph_wf, link, GraphModel, NodeModel, Op};

verus! {

/// Whether every edge of `c` starts at a recipe position below `n` and ends at
/// a name in `ingredients`.
pub open spec fn edges_within(
    c: Seq<(int, Seq<char>)>,
    n: int,
    ingredients: Seq<Seq<char>>,
) -> bool {
    forall|i: int|
        0 <= i < c.len() ==> 0 <= (#[trigger] c[i]).0 < n && ingredients.contains(c[i].1)
}

/// Adding the missing edges keeps the old ones, adds one from every matching
/// recipe, keeps edges distinct and between existing nodes, and changes nothing
/// where no edge was missing.
pub proof fn lemma_link(
    c: Seq<(int, Seq<char>)>,
    recipes: Seq<NodeModel>,
    ingredients: Seq<Seq<char>>,
    id: int,
    name: Seq<char>,
    k: int,
)
    requires
        0 <= k <= recipes.len(),
        c.no_duplicates(),
        edges_within(c, recipes.len() as int, ingredients),
        ingredients.contains(name),
    ensures
        link(c, recipes, id, name, k).no_duplicates(),
        edges_within(link(c, recipes, id, name, k), recipes.len() as int, ingredients),
        forall|x: (int, Seq<char>)| c.contains(x) ==> link(c, recipes, id, name, k).contains(x),
        forall|j: int|
            0 <= j < k && #[trigger] recipes[j].id == id ==> link(
                c,
                recipes,
                id,
                name,
                k,
            ).contains((j, name)),
        (forall|j: int| 0 <= j < k && #[trigger] recipes[j].id == id ==> c.contains((j, name)))
            ==> link(c, recipes, id, name, k) == c,
    decreases k,
{
    if k > 0 {
        lemma_link(c, recipes, ingredients, id, name, k - 1);
        let c1 = link(c, recipes, id, name, k - 1);
        if recipes[k - 1].id == id && !c1.contains((k - 1, name)) {
            let c2 = c1.push((k - 1, name));
            assert forall|x: (int, Seq<char>)| c1.contains(x) implies c2.contains(x) by {
                let i = choose|i: int| 0 <= i < c1.len() && c1[i] == x;
                assert(c2[i] == x);
            }
            assert(c2[c1.len() as int] == (k - 1, name));
            assert forall|i: int, j: int| 0 <= i < c2.len() && 0 <= j < c2.len() && i != j
                implies c2[i] != c2[j] by {
                if i < c1.len() && j < c1.len() {
                } else if i < c1.len() {
                    assert(c1[i] == c2[i]);
                } else {
                    assert(c1[j] == c2[j]);
                }
            }
            assert(edges_within(c2, recipes.len() as int, ingredients)) by {
                assert forall|i: int| 0 <= i < c2.len() implies 0 <= (#[trigger] c2[i]).0
                    < recipes.len() && ingredients.contains(c2[i].1) by {
                    if i < c1.len() {
                        assert(c2[i] == c1[i]);
                    }
                }
            }
            assert forall|j: int| 0 <= j < k && #[trigger] recipes[j].id == id implies c2.contains(
                (j, name),
            ) by {
                if j < k - 1 {
                    let i = choose|i: int| 0 <= i < c1.len() && c1[i] == (j, name);
                    assert(c2[i] == (j, name));
                }
            }
            if forall|j: int| 0 <= j < k && #[trigger] recipes[j].id == id ==> c.contains(
                (j, name),
            ) {
                assert(recipes[k - 1].id == id);
                assert(c.contains((k - 1, name)));
            }
        }
    }
}

/// Applying a statement to a well-formed store gives a well-formed store.
pub proof fn lemma_apply_wf(g: GraphModel, op: Op)
    requires
        graph_wf(g),
    ensures
        graph_wf(apply(g, op)),
{
    match op {
        Op::CreateRecipe(n) => {
            let h = apply(g, op);
            assert forall|i: int| 0 <= i < h.contains.len() implies 0 <= (
            #[trigger] h.contains[i]).0 < h.recipes.len() && h.ingredients.contains(
                h.contains[i].1,
            ) by {
                assert(g.contains[i] == h.contains[i]);
            }
        },
        Op::MergeIngredient(name) => {
            if !g.ingredients.contains(name) {
                let h = apply(g, op);
                assert(h.ingredients == g.ingredients.push(name));
                assert forall|x: Seq<char>| g.ingredients.contains(x) implies h.ingredients.contains(
                    x,
                ) by {
                    let i = choose|i: int| 0 <= i < g.ingredients.len() && g.ingredients[i] == x;
                    assert(h.ingredients[i] == x);
                }
                assert forall|i: int, j: int|
                    0 <= i < h.ingredients.len() && 0 <= j < h.ingredients.len() && i != j
                        implies h.ingredients[i] != h.ingredients[j] by {
                    if i < g.ingredients.len() && j < g.ingredients.len() {
                    } else if i < g.ingredients.len() {
                        assert(g.ingredients[i] == h.ingredients[i]);
                    } else {
                        assert(g.ingredients[j] == h.ingredients[j]);
                    }
                }
                assert forall|i: int| 0 <= i < h.contains.len() implies 0 <= (
                #[trigger] h.contains[i]).0 < h.recipes.len() && h.ingredients.contains(
                    h.contains[i].1,
                ) by {
                    assert(g.ingredients.contains(g.contains[i].1));
                }
            }
        },
        Op::MergeContains(id, name) => {
            if g.ingredients.contains(name) {
                lemma_link(g.contains, g.recipes, g.ingredients, id, name, g.recipes.len() as int);
            }
        },
    }
}

/// Applying statements to a well-formed store gives a well-formed store.
pub proof fn lemma_apply_all_wf(g: GraphModel, ops: Seq<Op>)
    requires
        graph_wf(g),
    ensures
        graph_wf(apply_all(g, ops)),
    decreases ops.len(),
{
    if ops.len() > 0 {
        lemma_apply_all_wf(g, ops.drop_last());
        lemma_apply_wf(apply_all(g, ops.drop_last()), ops.last());
    }
}


/// Whether every ingredient of `ingredients` has a node in `g`, with an edge
/// to it from every recipe node of id `id`.
pub open spec fn attached(g: GraphModel, id: int, ingredients: Seq<Seq<char>>) -> bool {
    forall|i: int|
        0 <= i < ingredients.len() ==> g.ingredients.contains(#[trigger] ingredients[i])
            && forall|j: int|
            0 <= j < g.recipes.len() && g.recipes[j].id == id ==> g.contains.contains(
                (j, ingredients[i]),
            )
}

/// Unfolds the statements of the last ingredient off the end of a list.
proof fn lemma_attach_last(g: GraphModel, id: int, ingredients: Seq<Seq<char>>)
    requires
        ingredients.len() > 0,
    ensures
        apply_all(g, attach_ops(id, ingredients)) == apply(
            apply(
                apply_all(g, attach_ops(id, ingredients.drop_last())),
                Op::MergeIngredient(ingredients.last()),
            ),
            Op::MergeContains(id, ingredients.last()),
        ),
{
    let a = attach_ops(id, ingredients.drop_last());
    let ops = attach_ops(id, ingredients);
    assert(ops == a + seq![
        Op::MergeIngredient(ingredients.last()),
        Op::MergeContains(id, ingredients.last()),
    ]);
    assert(ops.drop_last() =~= a.push(Op::MergeIngredient(ingredients.last())));
    assert(ops.drop_last().drop_last() =~= a);
    assert(ops.last() == Op::MergeContains(id, ingredients.last()));
    assert(ops.drop_last().last() == Op::MergeIngredient(ingredients.last()));
    assert(apply_all(g, ops) == apply(apply_all(g, ops.drop_last()), ops.last()));
    assert(apply_all(g, ops.drop_last()) == apply(
        apply_all(g, ops.drop_last().drop_last()),
        ops.drop_last().last(),
    ));
}

/// Attaching ingredients keeps the recipes, keeps every ingredient and edge
/// already there, and leaves each ingredient attached.
pub proof fn lemma_attach_effect(g: GraphModel, id: int, ingredients: Seq<Seq<char>>)
    requires
        graph_wf(g),
    ensures
        apply_all(g, attach_ops(id, ingredients)).recipes == g.recipes,
        forall|x: Seq<char>|
            g.ingredients.contains(x) ==> apply_all(
                g,
                attach_ops(id, ingredients),
            ).ingredients.contains(x),
        forall|e: (int, Seq<char>)|
            g.contains.contains(e) ==> apply_all(g, attach_ops(id, ingredients)).contains.contains(
                e,
            ),
        attached(apply_all(g, attach_ops(id, ingredients)), id, ingredients),
    decreases ingredients.len(),
{
    if ingredients.len() == 0 {
    } else {
        let rest = ingredients.drop_last();
        let l = ingredients.last();
        lemma_attach_effect(g, id, rest);
        lemma_attach_last(g, id, ingredients);
        let h0 = apply_all(g, attach_ops(id, rest));
        lemma_apply_all_wf(g, attach_ops(id, rest));
        let h1 = apply(h0, Op::MergeIngredient(l));
        lemma_apply_wf(h0, Op::MergeIngredient(l));
        let h2 = apply(h1, Op::MergeContains(id, l));
        assert forall|x: Seq<char>| h0.ingredients.contains(x) implies h1.ingredients.contains(
            x,
        ) by {
            if !h0.ingredients.contains(l) {
                let i = choose|i: int| 0 <= i < h0.ingredients.len() && h0.ingredients[i] == x;
                assert(h1.ingredients[i] == x);
            }
        }
        if !h0.ingredients.contains(l) {
            assert(h1.ingredients[h0.ingredients.len() as int] == l);
        }
        assert(h1.ingredients.contains(l));
        lemma_link(h1.contains, h1.recipes, h1.ingredients, id, l, h1.recipes.len() as int);
        assert(h2.ingredients == h1.ingredients);
        assert(h2.recipes == g.recipes);
        assert forall|i: int| 0 <= i < ingredients.len() implies h2.ingredients.contains(
            #[trigger] ingredients[i],
        ) && forall|j: int|
            0 <= j < h2.recipes.len() && h2.recipes[j].id == id ==> h2.contains.contains(
                (j, ingredients[i]),
            ) by {
            if i < rest.len() {
                assert(rest[i] == ingredients[i]);
            }
        }
    }
}

/// Attaching ingredients that are all attached already changes nothing.
pub proof fn lemma_attach_unchanged(g: GraphModel, id: int, ingredients: Seq<Seq<char>>)
    requires
        graph_wf(g),
        attached(g, id, ingredients),
    ensures
        apply_all(g, attach_ops(id, ingredients)) == g,
    decreases ingredients.len(),
{
    if ingredients.len() > 0 {
        let rest = ingredients.drop_last();
        let l = ingredients.last();
        assert(attached(g, id, rest)) by {
            assert forall|i: int| 0 <= i < rest.len() implies g.ingredients.contains(
                #[trigger] rest[i],
            ) && forall|j: int|
                0 <= j < g.recipes.len() && g.recipes[j].id == id ==> g.contains.contains(
                    (j, rest[i]),
                ) by {
                assert(rest[i] == ingredients[i]);
            }
        }
        lemma_attach_unchanged(g, id, rest);
        lemma_attach_last(g, id, ingredients);
        assert(ingredients[ingredients.len() - 1] == l);
        lemma_link(g.contains, g.recipes, g.ingredients, id, l, g.recipes.len() as int);
    }
}

/// Attaching the same ingredients to a recipe twice leaves the store as
/// attaching them once does: no ingredient node and no edge is made twice.
/// After either, each ingredient has exactly one node, and each recipe node of
/// that id exactly one edge to it.
pub proof fn lemma_attach_idempotent(g: GraphModel, id: int, ingredients: Seq<Seq<char>>)
    requires
        graph_wf(g),
    ensures
        apply_all(apply_all(g, attach_ops(id, ingredients)), attach_ops(id, ingredients))
            == apply_all(g, attach_ops(id, ingredients)),
        graph_wf(apply_all(g, attach_ops(id, ingredients))),
        attached(apply_all(g, attach_ops(id, ingredients)), id, ingredients),
{
    let h = apply_all(g, attach_ops(id, ingredients));
    lemma_attach_effect(g, id, ingredients);
    lemma_apply_all_wf(g, attach_ops(id, ingredients));
    lemma_attach_unchanged(h, id, ingredients);
}

/// Creating a recipe node is no upsert: creating the same node twice leaves
/// two nodes of its id, and touches neither ingredients nor edges.
pub proof fn lemma_create_twice(g: GraphModel, n: NodeModel)
    ensures
        apply_all(g, seq![Op::CreateRecipe(n), Op::CreateRecipe(n)]).recipes == g.recipes + seq![
            n,
            n,
        ],
        apply_all(g, seq![Op::CreateRecipe(n), Op::CreateRecipe(n)]).ingredients == g.ingredients,
        apply_all(g, seq![Op::CreateRecipe(n), Op::CreateRecipe(n)]).contains == g.contains,
{
    let ops = seq![Op::CreateRecipe(n), Op::CreateRecipe(n)];
    assert(ops.drop_last() =~= seq![Op::CreateRecipe(n)]);
    assert(ops.drop_last().drop_last() =~= Seq::<Op>::empty());
    assert(apply_all(g, ops.drop_last().drop_last()) == g);
    assert(apply_all(g, ops.drop_last()) == apply(g, Op::CreateRecipe(n)));
    assert(apply_all(g, ops) == apply(apply(g, Op::CreateRecipe(n)), Op::CreateRecipe(n)));
    assert(g.recipes.push(n).push(n) =~= g.recipes + seq![n, n]);
}


/// Running two lists of statements one after the other is running their
/// concatenation.
pub proof fn lemma_apply_all_concat(g: GraphModel, a: Seq<Op>, b: Seq<Op>)
    ensures
        apply_all(g, a + b) == apply_all(apply_all(g, a), b),
    decreases b.len(),
{
    if b.len() == 0 {
        assert(a + b =~= a);
    } else {
        lemma_apply_all_concat(g, a, b.drop_last());
        assert((a + b).drop_last() =~= a + b.drop_last());
        assert((a + b).last() == b.last());
    }
}

} // verus!
