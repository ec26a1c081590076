//! Gradient-boosted trees: reading a model document and scoring features.

use vstd::prelude::*;
use vstd::string::*;
use crate::number::{Number, Quantity};

verus! {

// ---- Model documents ----

/// A parsed JSON document.
#[verifier::external_type_specification]
#[verifier::external_body]
pub struct ExValue(serde_json::Value);

/// The paths of member names that lead to a node of a document. The empty path leads to the
/// document itself.
pub uninterp spec fn json_nodes(v: serde_json::Value) -> Set<Seq<Seq<char>>>;

/// The texts of a document, by the path of member names that leads to each.
pub uninterp spec fn json_strings(v: serde_json::Value) -> Map<Seq<Seq<char>>, Seq<char>>;

/// The numbers of a document, each as it is written out, by the path of member names that leads
/// to it.
pub uninterp spec fn json_numbers(v: serde_json::Value) -> Map<Seq<Seq<char>>, Seq<char>>;

/// What `serde_json::from_str` reads from a text: the nodes, the texts and the numbers of the
/// document, if the text is one.
pub uninterp spec fn json_in_text(text: Seq<char>) -> Option<
    (Set<Seq<Seq<char>>>, Map<Seq<Seq<char>>, Seq<char>>, Map<Seq<Seq<char>>, Seq<char>>),
>;

/// The nodes below a member.
pub open spec fn nodes_below(nodes: Set<Seq<Seq<char>>>, key: Seq<char>) -> Set<Seq<Seq<char>>> {
    Set::new(|p: Seq<Seq<char>>| nodes.contains(seq![key] + p))
}

/// The texts or numbers below a member.
pub open spec fn entries_below(
    entries: Map<Seq<Seq<char>>, Seq<char>>,
    key: Seq<char>,
) -> Map<Seq<Seq<char>>, Seq<char>> {
    Map::new(
        |p: Seq<Seq<char>>| entries.dom().contains(seq![key] + p),
        |p: Seq<Seq<char>>| entries[seq![key] + p],
    )
}

/// The texts or numbers below a path.
pub open spec fn entries_under(
    entries: Map<Seq<Seq<char>>, Seq<char>>,
    path: Seq<Seq<char>>,
) -> Map<Seq<Seq<char>>, Seq<char>> {
    Map::new(
        |p: Seq<Seq<char>>| entries.dom().contains(path + p),
        |p: Seq<Seq<char>>| entries[path + p],
    )
}

/// Parses a text by `serde_json::from_str`. Whether it is a document, and what nodes, texts and
/// numbers that has, is named by [`json_in_text`].
#[verifier::external_body]
pub(crate) fn parse_json(text: &str) -> (r: Option<serde_json::Value>)
    ensures
        json_in_text(text@) == match r {
            Some(v) => Some((json_nodes(v), json_strings(v), json_numbers(v))),
            None => None,
        },
{
    serde_json::from_str(text).ok()
}

/// The member of a document by `serde_json::Value::get`: it is there if its path leads to a
/// node, and what is below it is what the document has below that path.
#[verifier::external_body]
pub(crate) fn json_member<'a>(v: &'a serde_json::Value, key: &str) -> (r: Option<&'a serde_json::Value>)
    ensures
        r is Some == json_nodes(*v).contains(seq![key@]),
        r matches Some(m) ==> json_nodes(*m) == nodes_below(json_nodes(*v), key@),
        r matches Some(m) ==> json_strings(*m) == entries_below(json_strings(*v), key@),
        r matches Some(m) ==> json_numbers(*m) == entries_below(json_numbers(*v), key@),
{
    v.get(key)
}

/// The text that a node is, by `serde_json::Value::as_str`.
#[verifier::external_body]
fn json_text<'a>(v: &'a serde_json::Value) -> (r: Option<&'a str>)
    ensures
        r is Some == json_strings(*v).dom().contains(Seq::empty()),
        r matches Some(t) ==> t@ == json_strings(*v)[Seq::empty()],
{
    v.as_str()
}

/// The number that a node is, as `serde_json::Value::as_number` gives it, written out.
#[verifier::external_body]
pub(crate) fn json_number(v: &serde_json::Value) -> (r: Option<String>)
    ensures
        r is Some == json_numbers(*v).dom().contains(Seq::empty()),
        r matches Some(t) ==> t@ == json_numbers(*v)[Seq::empty()],
{
    match v.as_number() {
        Some(n) => Some(n.to_string()),
        None => None,
    }
}

/// Why a model can not be read.
#[derive(Debug)]
pub enum ModelError {
    /// The text is no JSON document.
    InvalidJson,
    /// There is no `learner` field.
    NoLearner,
    /// There is no `base_score` text in `learner_model_param`.
    NoBaseScore,
    /// The base score, as it is written, is no number.
    BadBaseScore(String),
    /// There are no `trees`.
    NoTrees,
}

/// The path of the base score.
pub open spec fn base_score_path() -> Seq<Seq<char>> {
    seq!["learner"@, "learner_model_param"@, "base_score"@]
}

/// The path of the trees.
pub open spec fn trees_path() -> Seq<Seq<char>> {
    seq!["learner"@, "gradient_booster"@, "model"@, "trees"@]
}

/// Where the opening brackets at the front of a text end.
pub open spec fn brackets_end(text: Seq<char>, from: int) -> int
    decreases text.len() - from,
{
    if 0 <= from < text.len() && text[from] == '[' {
        brackets_end(text, from + 1)
    } else {
        from
    }
}

/// Where the closing brackets at the end of a text start, not before `from`.
pub open spec fn brackets_start(text: Seq<char>, from: int, to: int) -> int
    decreases to - from,
{
    if from < to <= text.len() && text[to - 1] == ']' {
        brackets_start(text, from, to - 1)
    } else {
        to
    }
}

/// A text without the opening brackets at its front and the closing ones at its end.
pub open spec fn without_brackets(text: Seq<char>) -> Seq<char> {
    let from = brackets_end(text, 0);
    text.subrange(from, brackets_start(text, from, text.len() as int))
}

/// Removes the opening brackets at the front of a text and the closing ones at its end.
pub fn trim_brackets<'a>(text: &'a str) -> (r: &'a str)
    ensures
        r@ == without_brackets(text@),
{
    let n = text.unicode_len();
    let mut from: usize = 0;
    while from < n && text.get_char(from) == '['
        invariant
            from <= n,
            n == text@.len(),
            brackets_end(text@, 0) == brackets_end(text@, from as int),
        decreases n - from,
    {
        from = from + 1;
    }
    let mut to: usize = n;
    while from < to && text.get_char(to - 1) == ']'
        invariant
            from <= to <= n,
            n == text@.len(),
            brackets_start(text@, from as int, n as int) == brackets_start(
                text@,
                from as int,
                to as int,
            ),
        decreases to,
    {
        to = to - 1;
    }
    text.substring_char(from, to)
}

/// Parses a model document.
pub fn parse_model_document(text: &str) -> (r: Result<serde_json::Value, ModelError>)
    ensures
        match r {
            Ok(v) => json_in_text(text@) == Some((json_nodes(v), json_strings(v), json_numbers(v))),
            Err(e) => e is InvalidJson && json_in_text(text@) is None,
        },
{
    match parse_json(text) {
        Some(v) => Ok(v),
        None => Err(ModelError::InvalidJson),
    }
}

/// Follows member names from a document.
fn follow<'a>(v: &'a serde_json::Value, first: &str, second: &str) -> (r: Option<
    &'a serde_json::Value,
>)
    ensures
        r is Some == (json_nodes(*v).contains(seq![first@]) && json_nodes(*v).contains(
            seq![first@, second@],
        )),
        r matches Some(m) ==> forall|p: Seq<Seq<char>>| #[trigger]
            json_nodes(*m).contains(p) == json_nodes(*v).contains(seq![first@, second@] + p),
        r matches Some(m) ==> json_strings(*m) == entries_under(
            json_strings(*v),
            seq![first@, second@],
        ),
        r matches Some(m) ==> json_numbers(*m) == entries_under(
            json_numbers(*v),
            seq![first@, second@],
        ),
{
    match json_member(v, first) {
        Some(inner) => {
            assert(seq![first@] + seq![second@] =~= seq![first@, second@]);
            let found = json_member(inner, second);
            proof {
                assert forall|p: Seq<Seq<char>>| #[trigger] (seq![first@] + (seq![second@] + p))
                    == seq![first@, second@] + p by {
                    assert(seq![first@] + (seq![second@] + p) =~= seq![first@, second@] + p);
                }
                if let Some(m) = found {
                    let path = seq![first@, second@];
                    assert(json_strings(*m) =~= entries_under(json_strings(*v), path));
                    assert(json_numbers(*m) =~= entries_under(json_numbers(*v), path));
                }
            }
            found
        },
        None => None,
    }
}

/// The base score and the trees of a model document. The learner is looked for first, then
/// the text of its base score, which may stand in brackets, then the trees.
pub fn model_parts<'a, S: Number>(doc: &'a serde_json::Value) -> (r: Result<
    (S, &'a serde_json::Value),
    ModelError,
>)
    ensures
        ({
            let nodes = json_nodes(*doc);
            let strings = json_strings(*doc);
            let path = base_score_path();
            let has_score = nodes.contains(path.take(2)) && nodes.contains(path)
                && strings.dom().contains(path);
            let score = S::spec_parse(without_brackets(strings[path]));
            let has_trees = nodes.contains(trees_path().take(2)) && nodes.contains(
                trees_path().take(3),
            ) && nodes.contains(trees_path());
            if !nodes.contains(seq!["learner"@]) {
                r matches Err(ModelError::NoLearner)
            } else if !has_score {
                r matches Err(ModelError::NoBaseScore)
            } else if score is None {
                r matches Err(ModelError::BadBaseScore(text)) && text@ == strings[path]
            } else if !has_trees {
                r matches Err(ModelError::NoTrees)
            } else {
                &&& r matches Ok(parts)
                &&& parts.0 == score->0
                &&& forall|p: Seq<Seq<char>>| #[trigger]
                    json_nodes(*parts.1).contains(p) == nodes.contains(trees_path() + p)
                &&& json_strings(*parts.1) == entries_under(strings, trees_path())
                &&& json_numbers(*parts.1) == entries_under(json_numbers(*doc), trees_path())
            }
        }),
{
    let learner = match json_member(doc, "learner") {
        Some(v) => v,
        None => {
            return Err(ModelError::NoLearner);
        },
    };
    let ghost nodes = json_nodes(*doc);
    let ghost strings = json_strings(*doc);
    proof {
        let l = "learner"@;
        assert(base_score_path().take(2) =~= seq![l] + seq!["learner_model_param"@]);
        assert(base_score_path() =~= seq![l] + seq!["learner_model_param"@, "base_score"@]);
        assert(base_score_path() =~= seq![l] + (seq!["learner_model_param"@, "base_score"@]
            + Seq::empty()));
        assert(trees_path().take(2) =~= seq![l] + seq!["gradient_booster"@]);
        assert(trees_path().take(3) =~= seq![l] + seq!["gradient_booster"@, "model"@]);
        assert(trees_path() =~= seq![l] + (seq!["gradient_booster"@, "model"@] + seq!["trees"@]));
    }
    let score_node = match follow(learner, "learner_model_param", "base_score") {
        Some(v) => v,
        None => {
            return Err(ModelError::NoBaseScore);
        },
    };
    proof {
        let none = Seq::<Seq<char>>::empty();
        assert(json_strings(*score_node).dom().contains(none) == strings.dom().contains(
            base_score_path(),
        ));
    }
    let score_text = match json_text(score_node) {
        Some(t) => t,
        None => {
            return Err(ModelError::NoBaseScore);
        },
    };
    let base_score = match S::parse(trim_brackets(score_text)) {
        Some(s) => s,
        None => {
            return Err(ModelError::BadBaseScore(String::from_str(score_text)));
        },
    };
    let model = match follow(learner, "gradient_booster", "model") {
        Some(v) => v,
        None => {
            return Err(ModelError::NoTrees);
        },
    };
    assert(json_nodes(*model).contains(seq!["trees"@]) == nodes.contains(trees_path()));
    match json_member(model, "trees") {
        Some(trees) => {
            assert forall|p: Seq<Seq<char>>| #[trigger]
                json_nodes(*trees).contains(p) == nodes.contains(trees_path() + p) by {
                assert(seq!["learner"@] + (seq!["gradient_booster"@, "model"@] + (seq!["trees"@]
                    + p)) =~= trees_path() + p);
                assert(json_nodes(*model).contains(seq!["trees"@] + p) == json_nodes(
                    *learner,
                ).contains(seq!["gradient_booster"@, "model"@] + (seq!["trees"@] + p)));
            }
            proof {
                assert forall|p: Seq<Seq<char>>| #[trigger]
                    (trees_path() + p) == seq!["learner"@] + (seq!["gradient_booster"@, "model"@] + (
                    seq!["trees"@] + p)) by {
                    assert(trees_path() + p =~= seq!["learner"@] + (seq![
                        "gradient_booster"@,
                        "model"@,
                    ] + (seq!["trees"@] + p)));
                }
                assert(json_strings(*trees) =~= entries_under(strings, trees_path()));
                assert(json_numbers(*trees) =~= entries_under(json_numbers(*doc), trees_path()));
            }
            Ok((base_score, trees))
        },
        None => Err(ModelError::NoTrees),
    }
}

// ---- Trees ----

/// A regression tree, node by node. A left child of minus one marks a leaf.
#[derive(Debug)]
pub struct XGBTree<S> {
    pub left_children: Vec<i32>,
    pub right_children: Vec<i32>,
    pub split_indices: Vec<i32>,
    pub split_conditions: Vec<S>,
    pub base_weights: Vec<S>,
}

/// A sum of trees over a base score.
#[derive(Debug)]
pub struct XGBModel<S> {
    pub trees: Vec<XGBTree<S>>,
    pub base_score: S,
}

/// The node after an inner one, for the given features, if the tree has one: the left child
/// where the feature is below the condition, else the right one.
pub open spec fn child_of<S: Quantity>(tree: XGBTree<S>, features: Seq<S>, node: int) -> Option<
    int,
> {
    if node < tree.left_children@.len() && node < tree.split_indices@.len() && node
        < tree.split_conditions@.len() && 0 <= tree.split_indices@[node] < features.len() {
        if features[tree.split_indices@[node] as int] < tree.split_conditions@[node] {
            Some(tree.left_children@[node] as int)
        } else if node < tree.right_children@.len() {
            Some(tree.right_children@[node] as int)
        } else {
            None
        }
    } else {
        None
    }
}

/// The leaf that is reached from a node in at most the given number of steps, if any.
pub open spec fn leaf_from<S: Quantity>(
    tree: XGBTree<S>,
    features: Seq<S>,
    node: int,
    steps: nat,
) -> Option<int>
    decreases steps,
{
    if !(0 <= node < tree.left_children@.len()) {
        None
    } else if tree.left_children@[node] == -1 {
        Some(node)
    } else if steps == 0 {
        None
    } else {
        match child_of(tree, features, node) {
            Some(child) => leaf_from(tree, features, child, (steps - 1) as nat),
            None => None,
        }
    }
}

/// A number of steps in which a leaf is reached from the root, if there is one.
pub open spec fn depth_of<S: Quantity>(tree: XGBTree<S>, features: Seq<S>) -> nat {
    choose|steps: nat| #[trigger] leaf_from(tree, features, 0, steps) is Some
}

/// The walk from the root ends at a leaf that has a weight.
pub open spec fn walk_ends<S: Quantity>(tree: XGBTree<S>, features: Seq<S>) -> bool {
    exists|steps: nat|
        (#[trigger] leaf_from(tree, features, 0, steps)) is Some && leaf_from(
            tree,
            features,
            0,
            steps,
        )->0 < tree.base_weights@.len()
}

/// The weight of the leaf that the walk from the root ends at.
pub open spec fn tree_weight<S: Quantity>(tree: XGBTree<S>, features: Seq<S>) -> S {
    tree.base_weights@[leaf_from(tree, features, 0, depth_of(tree, features))->0]
}

/// The base score with the weights of the first `n` trees.
pub open spec fn prediction<S: Quantity>(
    trees: Seq<XGBTree<S>>,
    base_score: S,
    features: Seq<S>,
    n: nat,
) -> S
    decreases n,
{
    if n == 0 {
        base_score
    } else {
        prediction(trees, base_score, features, (n - 1) as nat) + tree_weight(
            trees[n - 1],
            features,
        )
    }
}

/// The leaf does not depend on how many more steps are allowed.
pub proof fn law_leaf_unique<S: Quantity>(
    tree: XGBTree<S>,
    features: Seq<S>,
    node: int,
    a: nat,
    b: nat,
)
    requires
        leaf_from(tree, features, node, a) is Some,
        leaf_from(tree, features, node, b) is Some,
    ensures
        leaf_from(tree, features, node, a) == leaf_from(tree, features, node, b),
    decreases a,
{
    if a > 0 && b > 0 && tree.left_children@[node] != -1 {
        match child_of(tree, features, node) {
            Some(child) => {
                law_leaf_unique(tree, features, child, (a - 1) as nat, (b - 1) as nat);
            },
            None => {},
        }
    }
}

fn weight_of<S: Number>(tree: &XGBTree<S>, features: &[S]) -> (r: S)
    requires
        walk_ends(*tree, features@),
    ensures
        r == tree_weight(*tree, features@),
{
    let ghost enough = choose|steps: nat|
        (#[trigger] leaf_from(*tree, features@, 0, steps)) is Some && leaf_from(
            *tree,
            features@,
            0,
            steps,
        )->0 < tree.base_weights@.len();
    let ghost goal = leaf_from(*tree, features@, 0, enough);
    proof {
        law_leaf_unique(*tree, features@, 0, enough, depth_of(*tree, features@));
    }
    let ghost mut left = enough;
    let mut node: usize = 0;
    while tree.left_children[node] != -1
        invariant
            node < tree.left_children@.len(),
            goal is Some,
            goal->0 < tree.base_weights@.len(),
            leaf_from(*tree, features@, node as int, left) == goal,
        decreases left,
    {
        let feat_idx = tree.split_indices[node] as usize;
        let val = features[feat_idx];
        let threshold = tree.split_conditions[node];
        let next: i32 = if val.lt(threshold) {
            tree.left_children[node]
        } else {
            tree.right_children[node]
        };
        proof {
            assert(left > 0);
            assert(child_of(*tree, features@, node as int) == Some(next as int));
            assert(leaf_from(*tree, features@, next as int, (left - 1) as nat) == goal);
            left = (left - 1) as nat;
        }
        node = next as usize;
    }
    tree.base_weights[node]
}

impl<S: Number> XGBModel<S> {
    /// Scores a feature vector: the base score and the weight of the leaf that each tree leads
    /// to.
    pub fn predict(&self, features: &[S]) -> (r: S)
        requires
            forall|t: int|
                0 <= t < self.trees@.len() ==> walk_ends(#[trigger] self.trees@[t], features@),
        ensures
            r == prediction(self.trees@, self.base_score, features@, self.trees@.len()),
    {
        let n = self.trees.len();
        let mut sum = self.base_score;
        let mut t: usize = 0;
        while t < n
            invariant
                t <= n,
                n == self.trees@.len(),
                forall|t: int|
                    0 <= t < self.trees@.len() ==> walk_ends(#[trigger] self.trees@[t], features@),
                sum == prediction(self.trees@, self.base_score, features@, t as nat),
            decreases n - t,
        {
            assert(walk_ends(self.trees@[t as int], features@));
            sum = sum.plus(weight_of(&self.trees[t], features));
            t = t + 1;
        }
        sum
    }
}

} // verus!
