//! Loot trees: weighted nodes, of which a roll picks one at random.
//!
//! Example:
//! { chances: 5, result: "item1" }
//! { chances: 2, result: "item2" }
//!
//! Each node starts where the chances of the nodes before it end:
//! item1 from 0, item2 from 5, and the maximum is 7 (exclusive).
//! A roll draws a number from 0 to 6: 0 to 4 give item1, 5 and 6 give item2.

use partial_function::{LowerPartialFunction, LowerPartialFunctionBuilder};
use rand::Rng;
use vstd::prelude::*;

verus! {

/// The function type of the `partial_function` crate that is defined by segments, each
/// valid from its lower bound up to the lower bound of the next one.
#[verifier::external_type_specification]
#[verifier::external_body]
#[verifier::reject_recursive_types(B)]
#[verifier::reject_recursive_types(O)]
pub struct ExLowerPartialFunction<B: PartialOrd, O>(LowerPartialFunction<B, O>);

/// The builder of the `partial_function` crate that collects the segments of a
/// `LowerPartialFunction`.
#[verifier::external_type_specification]
#[verifier::external_body]
#[verifier::reject_recursive_types(B)]
#[verifier::reject_recursive_types(O)]
pub struct ExLowerPartialFunctionBuilder<B, O>(LowerPartialFunctionBuilder<B, O>);

/// The segments that a `LowerPartialFunction` holds, in the order in which it holds
/// them: the lower bound of each and the value that its function gives. The functions
/// that this library hands to the crate are constant.
pub uninterp spec fn segments(function: LowerPartialFunction<i32, usize>) -> Seq<(i32, usize)>;

/// The segments that a `LowerPartialFunctionBuilder` has been given so far, in the
/// order in which they came: the lower bound of each and the value that its function
/// gives.
pub uninterp spec fn pending_segments(builder: LowerPartialFunctionBuilder<i32, usize>) -> Seq<
    (i32, usize),
>;

/// Whether the segment `idx` is valid at `x`: it starts at or below `x`, and the
/// segment held after it, if there is one, starts above `x`.
pub open spec fn reaches(held: Seq<(i32, usize)>, x: i32, idx: int) -> bool {
    &&& 0 <= idx < held.len()
    &&& held[idx].0 <= x
    &&& idx + 1 < held.len() ==> held[idx + 1].0 > x
}

/// Whether the segment `idx` is the first one held that is valid at `x`.
pub open spec fn reaches_first(held: Seq<(i32, usize)>, x: i32, idx: int) -> bool {
    &&& reaches(held, x, idx)
    &&& forall|j: int| 0 <= j < idx ==> !reaches(held, x, j)
}

/// `LowerPartialFunction::builder` of `partial_function`: a builder that has been
/// given no segment yet.
#[verifier::external_body]
fn new_segments() -> (builder: LowerPartialFunctionBuilder<i32, usize>)
    ensures
        pending_segments(builder) == Seq::<(i32, usize)>::empty(),
{
    LowerPartialFunction::builder()
}

/// `LowerPartialFunctionBuilder::with` of `partial_function`, handed the function
/// that is `value` everywhere: the builder holds one segment more, after the others.
/// The crate asserts in debug builds that no segment with the same lower bound is
/// there already, so such a segment is not admitted.
#[verifier::external_body]
fn with_segment(
    builder: LowerPartialFunctionBuilder<i32, usize>,
    lower: i32,
    value: usize,
) -> (extended: LowerPartialFunctionBuilder<i32, usize>)
    requires
        forall|i: int|
            0 <= i < pending_segments(builder).len() ==> (#[trigger] pending_segments(
                builder,
            )[i]).0 != lower,
    ensures
        pending_segments(extended) == pending_segments(builder).push((lower, value)),
{
    builder.with(lower, Box::new(move |_| value))
}

/// `LowerPartialFunctionBuilder::build` of `partial_function`: the function holds the
/// segments that the builder was given, sorted by their lower bounds.
#[verifier::external_body]
fn build_segments(builder: LowerPartialFunctionBuilder<i32, usize>) -> (function:
    LowerPartialFunction<i32, usize>)
    ensures
        segments(function).to_multiset() == pending_segments(builder).to_multiset(),
        forall|i: int, j: int|
            0 <= i < j < segments(function).len() ==> (#[trigger] segments(function)[i]).0 <= (
            #[trigger] segments(function)[j]).0,
{
    builder.build()
}

/// `LowerPartialFunction::eval` of `partial_function`: the value of the first segment
/// held that is valid at `x`, or nothing where no segment is valid at `x`.
#[verifier::external_body]
fn eval_segments(function: &LowerPartialFunction<i32, usize>, x: i32) -> (value: Option<usize>)
    ensures
        match value {
            Some(v) => exists|i: int|
                #[trigger] reaches_first(segments(*function), x, i) && segments(*function)[i].1
                    == v,
            None => forall|i: int| !#[trigger] reaches(segments(*function), x, i),
        },
{
    function.eval(x)
}

/// `Rng::random_range` of `rand` on the generator that `rand::rng` gives, for the
/// range from `low` up to and without `high`: some number of that range. The call
/// panics on an empty range, which is not admitted.
#[verifier::external_body]
fn random_between(low: i32, high: i32) -> (drawn: i32)
    requires
        low < high,
    ensures
        low <= drawn < high,
{
    rand::rng().random_range(low..high)
}

/// A weighted node of a loot tree with the corresponding result.
pub struct LootTreeNode<R> {
    /// The weight of this node.
    pub chances: i32,
    /// The result of this node.
    pub result: R,
}

/// A builder for the `LootTree`.
pub struct LootTreeBuilder<R> {
    /// The nodes contained in this builder.
    pub nodes: Vec<LootTreeNode<R>>,
}

/// A loot tree: for each node the number from which its result is rolled, which is
/// the sum of the chances of the nodes before it.
pub struct LootTree<R> {
    results: Vec<R>,
    partial_func: LowerPartialFunction<i32, usize>,
    max: i32,
}

/// The sum of the chances of the first `count` nodes.
pub open spec fn chances_before<R>(nodes: Seq<LootTreeNode<R>>, count: int) -> int
    decreases count,
{
    if count <= 0 {
        0
    } else {
        chances_before(nodes, count - 1) + nodes[count - 1].chances
    }
}

/// The segments that `build` hands out for the first `count` nodes: each node starts
/// where the chances before it end, and its value is its position.
pub open spec fn node_segments<R>(nodes: Seq<LootTreeNode<R>>, count: int) -> Seq<(i32, usize)> {
    Seq::new(count as nat, |i: int| (chances_before(nodes, i) as i32, i as usize))
}

impl<R> LootTreeBuilder<R> {
    /// Whether a loot tree can be built of the nodes: the sum of the chances stays
    /// within `i32` all along, and no two nodes start at the same number.
    pub open spec fn buildable(&self) -> bool {
        &&& forall|i: int|
            0 <= i <= self.nodes@.len() ==> i32::MIN <= #[trigger] chances_before(self.nodes@, i)
                <= i32::MAX
        &&& forall|i: int, j: int|
            0 <= i < j < self.nodes@.len() ==> #[trigger] chances_before(self.nodes@, i)
                != #[trigger] chances_before(self.nodes@, j)
    }
}

impl<R> LootTree<R> {
    #[verifier::type_invariant]
    spec fn well_formed(self) -> bool {
        let held = segments(self.partial_func);
        &&& forall|k: int| 0 <= k < held.len() ==> (#[trigger] held[k]).1 < self.results@.len()
        &&& forall|a: int, b: int|
            0 <= a < b < held.len() ==> (#[trigger] held[a]).0 < (#[trigger] held[b]).0
    }

    /// The number below which rolls are drawn.
    pub closed spec fn max(&self) -> int {
        self.max as int
    }

    /// The entries of the tree, ascending by the number from which each is rolled:
    /// that number and the result.
    pub closed spec fn table(&self) -> Seq<(int, R)> {
        Seq::new(
            segments(self.partial_func).len(),
            |k: int|
                (
                    segments(self.partial_func)[k].0 as int,
                    self.results@[segments(self.partial_func)[k].1 as int],
                ),
        )
    }

    /// Whether the entry `idx` is the one that the number `x` picks: the entry that
    /// starts highest among those that start at or below `x`.
    pub open spec fn picks(&self, x: int, idx: int) -> bool {
        &&& 0 <= idx < self.table().len()
        &&& self.table()[idx].0 <= x
        &&& forall|j: int|
            0 <= j < self.table().len() && (#[trigger] self.table()[j]).0 <= x ==> self.table()[j].0
                <= self.table()[idx].0
    }

    /// Whether `result` is what the number `x` gives: a clone of the result of the
    /// entry that `x` picks, or nothing where every entry starts above `x`.
    pub open spec fn gives(&self, x: int, result: Option<R>) -> bool where R: Clone {
        match result {
            Some(r) => exists|k: int| #[trigger] self.picks(x, k) && cloned(self.table()[k].1, r),
            None => forall|k: int|
                0 <= k < self.table().len() ==> (#[trigger] self.table()[k]).0 > x,
        }
    }
}

/// In an ascending sequence with a segment that starts at or below `x`, one segment is
/// valid at `x`.
proof fn lemma_some_segment_reaches(held: Seq<(i32, usize)>, x: i32, upto: int) -> (idx: int)
    requires
        forall|a: int, b: int|
            0 <= a < b < held.len() ==> (#[trigger] held[a]).0 < (#[trigger] held[b]).0,
        0 <= upto < held.len(),
        held[upto].0 <= x,
    ensures
        reaches(held, x, idx),
    decreases held.len() - upto,
{
    if upto + 1 < held.len() && held[upto + 1].0 <= x {
        lemma_some_segment_reaches(held, x, upto + 1)
    } else {
        upto
    }
}

impl<R: Clone + 'static> LootTreeBuilder<R> {
    /// Creates a new builder without nodes.
    pub fn new() -> (builder: Self)
        ensures
            builder.nodes@ == Seq::<LootTreeNode<R>>::empty(),
    {
        LootTreeBuilder { nodes: Vec::new() }
    }

    /// Builds the loot tree: each node is rolled from the sum of the chances of the
    /// nodes before it, and rolls are drawn below the sum of all chances.
    pub fn build(self) -> (tree: LootTree<R>)
        requires
            self.buildable(),
        ensures
            tree.max() == chances_before(self.nodes@, self.nodes@.len() as int),
            tree.table().len() == self.nodes@.len(),
            forall|i: int|
                0 <= i < self.nodes@.len() ==> tree.table().contains(
                    (#[trigger] chances_before(self.nodes@, i), self.nodes@[i].result),
                ),
            forall|a: int, b: int|
                0 <= a < b < tree.table().len() ==> (#[trigger] tree.table()[a]).0 < (
                #[trigger] tree.table()[b]).0,
    {
        let ghost nodes = self.nodes@;
        let mut builder = new_segments();
        let mut results: Vec<R> = Vec::new();
        let mut accum: i32 = 0;
        for node in iter: self.nodes
            invariant
                iter.seq() == nodes,
                forall|i: int|
                    0 <= i <= nodes.len() ==> i32::MIN <= #[trigger] chances_before(nodes, i)
                        <= i32::MAX,
                forall|i: int, j: int|
                    0 <= i < j < nodes.len() ==> #[trigger] chances_before(nodes, i)
                        != #[trigger] chances_before(nodes, j),
                accum == chances_before(nodes, iter.index() as int),
                pending_segments(builder) == node_segments(nodes, iter.index() as int),
                results@.len() == iter.index(),
                forall|i: int|
                    0 <= i < iter.index() ==> results@[i] == (#[trigger] nodes[i]).result,
        {
            let ghost done = iter.index() as int;
            proof {
                assert(chances_before(nodes, done + 1) == accum + node.chances);
                assert forall|i: int| 0 <= i < pending_segments(builder).len() implies (
                #[trigger] pending_segments(builder)[i]).0 != accum by {
                    assert(chances_before(nodes, i) != chances_before(nodes, done));
                }
            }
            builder = with_segment(builder, accum, results.len());
            accum = accum + node.chances;
            results.push(node.result);
            proof {
                assert(pending_segments(builder) =~= node_segments(nodes, done + 1));
            }
        }
        let ghost pending = pending_segments(builder);
        let partial_func = build_segments(builder);
        proof {
            let held = segments(partial_func);
            pending.to_multiset_ensures();
            held.to_multiset_ensures();
            assert(pending.no_duplicates());
            pending.lemma_multiset_has_no_duplicates();
            held.lemma_multiset_has_no_duplicates_conv();
            assert forall|k: int| 0 <= k < held.len() implies pending.contains(
                #[trigger] held[k],
            ) by {
                assert(held.contains(held[k]));
                assert(held.to_multiset().count(held[k]) > 0);
                assert(pending.to_multiset().count(held[k]) > 0);
            }
            assert forall|k: int| 0 <= k < held.len() implies (#[trigger] held[k]).1
                < results@.len() by {
                assert(pending.contains(held[k]));
            }
            assert forall|a: int, b: int| 0 <= a < b < held.len() implies (#[trigger] held[a]).0 < (
            #[trigger] held[b]).0 by {
                assert(pending.contains(held[a]));
                assert(pending.contains(held[b]));
                let i = choose|i: int| 0 <= i < pending.len() && pending[i] == held[a];
                let j = choose|j: int| 0 <= j < pending.len() && pending[j] == held[b];
                if i != j {
                    if i < j {
                        assert(chances_before(nodes, i) != chances_before(nodes, j));
                    } else {
                        assert(chances_before(nodes, j) != chances_before(nodes, i));
                    }
                }
            }
        }
        let tree = LootTree { results, partial_func, max: accum };
        proof {
            let held = segments(partial_func);
            assert forall|i: int| 0 <= i < nodes.len() implies tree.table().contains(
                (#[trigger] chances_before(nodes, i), nodes[i].result),
            ) by {
                assert(pending[i] == (chances_before(nodes, i) as i32, i as usize));
                assert(pending.contains(pending[i]));
                assert(pending.to_multiset().count(pending[i]) > 0);
                assert(held.to_multiset().count(pending[i]) > 0);
                assert(held.contains(pending[i]));
                let k = choose|k: int| 0 <= k < held.len() && held[k] == pending[i];
                assert(tree.results.len() == nodes.len());
                assert(held[k].0 as int == chances_before(nodes, i));
                assert(held[k].1 as int == i);
                assert(tree.results@[i] == nodes[i].result);
                assert(tree.table()[k] == (chances_before(nodes, i), nodes[i].result));
            }
        }
        tree
    }
}

impl<R: Clone> LootTree<R> {
    /// Returns the result that the number `x` gives: that of the node that starts
    /// highest among those that start at or below `x`.
    pub fn pick(&self, x: i32) -> (result: Option<R>)
        ensures
            self.gives(x as int, result),
    {
        proof {
            use_type_invariant(self);
        }
        let ghost held = segments(self.partial_func);
        match eval_segments(&self.partial_func, x) {
            Some(idx) => {
                let ghost k = choose|i: int|
                    #[trigger] reaches_first(held, x, i) && held[i].1 == idx;
                let result = self.results[idx].clone();
                proof {
                    assert forall|j: int|
                        0 <= j < self.table().len() && (#[trigger] self.table()[j]).0
                            <= x implies self.table()[j].0 <= self.table()[k].0 by {
                        if j > k {
                            assert(held[k + 1].0 <= held[j].0);
                        }
                    }
                    assert(self.picks(x as int, k));
                }
                Some(result)
            },
            None => {
                proof {
                    assert forall|k: int| 0 <= k < self.table().len() implies (
                    #[trigger] self.table()[k]).0 > x by {
                        if held[k].0 <= x {
                            let idx = lemma_some_segment_reaches(held, x, k);
                            assert(reaches(held, x, idx));
                        }
                    }
                }
                None
            },
        }
    }

    /// Returns a random item from the loot tree: what `pick` gives for a number drawn
    /// from 0 up to and without the maximum, which must be above 0.
    pub fn roll(&self) -> (result: Option<R>)
        requires
            self.max() > 0,
        ensures
            exists|x: int| 0 <= x < self.max() && #[trigger] self.gives(x, result),
    {
        let drawn = random_between(0, self.max);
        self.pick(drawn)
    }
}

} // verus!
