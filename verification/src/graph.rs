//! Plans of tensor graphs, and what they compute.

use crate::scalar::Scalar;
use std::marker::PhantomData;
use vstd::prelude::*;

verus! {

/// An operation of a graph. Operands are the places of earlier nodes.
#[derive(Debug, Clone)]
pub enum GraphOp {
    /// What a run is given, by name.
    Input { name: String },
    /// What is set before a run, by name.
    Param { name: String },
    Add { a: usize, b: usize },
    Sub { a: usize, b: usize },
    Mul { a: usize, b: usize },
    Neg { a: usize },
    Reshape { a: usize },
    /// A range of one axis.
    Narrow { a: usize, axis: usize, start: usize, len: usize },
    /// Tensors of one shape, side by side along an axis.
    Concat { parts: Vec<usize>, axis: usize },
    Matmul { a: usize, b: usize },
    Fft { a: usize, inverse: bool },
    LogMel { a: usize, filters: usize },
}

/// An operation and the shape of its result.
#[derive(Debug, Clone)]
pub struct GraphNode {
    pub op: GraphOp,
    pub shape: Vec<usize>,
}

/// A graph over numbers of one type.
#[derive(Debug)]
pub struct GraphPlan<T> {
    pub name: String,
    pub nodes: Vec<GraphNode>,
    pub outputs: Vec<usize>,
    pub numbers: PhantomData<T>,
}

// ---------------------------------------------------------------------------
// What graphs compute
// ---------------------------------------------------------------------------

/// What a graph is run with: the values of its inputs and parameters, and the operations that a
/// backend brings along.
#[verifier::reject_recursive_types(T)]
pub struct Env<T> {
    pub leaf: spec_fn(Seq<char>) -> Seq<T>,
    pub fft: spec_fn(Seq<T>, bool) -> Seq<T>,
    pub log_mel: spec_fn(Seq<T>, Seq<T>) -> Seq<T>,
}

/// The numbers below one place of an axis: the product of the later dimensions.
pub open spec fn inner_of(shape: Seq<usize>, axis: int) -> nat
    decreases shape.len() - axis,
{
    if axis + 1 >= shape.len() {
        1
    } else {
        shape[axis + 1] as nat * inner_of(shape, axis + 1)
    }
}

/// The numbers of a tensor.
pub open spec fn size_of(shape: Seq<usize>) -> nat {
    inner_of(shape, -1)
}

/// A tensor with another laid over it as often as it takes, number by number.
pub open spec fn added<T: Scalar>(a: Seq<T>, b: Seq<T>) -> Seq<T> {
    Seq::new(a.len(), |p: int| T::sum(a[p], b[p % (b.len() as int)]))
}

pub open spec fn subtracted<T: Scalar>(a: Seq<T>, b: Seq<T>) -> Seq<T> {
    Seq::new(a.len(), |p: int| T::difference(a[p], b[p % (b.len() as int)]))
}

pub open spec fn multiplied<T: Scalar>(a: Seq<T>, b: Seq<T>) -> Seq<T> {
    Seq::new(a.len(), |p: int| T::product(a[p], b[p % (b.len() as int)]))
}

pub open spec fn negated<T: Scalar>(a: Seq<T>) -> Seq<T> {
    Seq::new(a.len(), |p: int| T::opposite(a[p]))
}

/// A range of an axis of `size` places, with `inner` numbers below each place.
pub open spec fn narrowed<T>(v: Seq<T>, size: nat, inner: nat, start: nat, len: nat) -> Seq<T> {
    let block = (len * inner) as int;
    Seq::new(
        (v.len() as int / (size * inner) as int * block) as nat,
        |p: int| v[(p / block) * (size * inner) + start * inner + p % block],
    )
}

/// Tensors side by side along an axis: `block` numbers of each in turn.
pub open spec fn side_by_side<T>(parts: Seq<Seq<T>>, block: int) -> Seq<T> {
    let k = parts.len() as int;
    Seq::new(
        (k * parts[0].len()) as nat,
        |p: int| parts[(p / block) % k][(p / (block * k)) * block + p % block],
    )
}

/// The sum of the first `k` products of a row and a column.
pub open spec fn dot<T: Scalar>(a: Seq<T>, b: Seq<T>, row: int, inner: int, columns: int, c: int, k: nat) -> T
    decreases k,
{
    if k == 0 {
        T::nought()
    } else {
        T::sum(
            dot(a, b, row, inner, columns, c, (k - 1) as nat),
            T::product(a[row * inner + (k - 1)], b[(k - 1) * columns + c]),
        )
    }
}

/// The product of two matrices.
pub open spec fn matrix_product<T: Scalar>(a: Seq<T>, b: Seq<T>, inner: int, columns: int) -> Seq<T> {
    Seq::new(
        (a.len() as int / inner * columns) as nat,
        |p: int| dot(a, b, p / columns, inner, columns, p % columns, inner as nat),
    )
}

/// What a node computes.
pub open spec fn value_of<T: Scalar>(nodes: Seq<GraphNode>, env: Env<T>, id: int) -> Seq<T>
    decreases id, 1nat, 0nat,
{
    if id < 0 || id >= nodes.len() {
        Seq::empty()
    } else {
        match nodes[id].op {
            GraphOp::Input { name } => (env.leaf)(name@),
            GraphOp::Param { name } => (env.leaf)(name@),
            GraphOp::Add { a, b } => if a < id && b < id {
                added(value_of(nodes, env, a as int), value_of(nodes, env, b as int))
            } else {
                Seq::empty()
            },
            GraphOp::Sub { a, b } => if a < id && b < id {
                subtracted(value_of(nodes, env, a as int), value_of(nodes, env, b as int))
            } else {
                Seq::empty()
            },
            GraphOp::Mul { a, b } => if a < id && b < id {
                multiplied(value_of(nodes, env, a as int), value_of(nodes, env, b as int))
            } else {
                Seq::empty()
            },
            GraphOp::Neg { a } => if a < id {
                negated(value_of(nodes, env, a as int))
            } else {
                Seq::empty()
            },
            GraphOp::Reshape { a } => if a < id {
                value_of(nodes, env, a as int)
            } else {
                Seq::empty()
            },
            GraphOp::Narrow { a, axis, start, len } => if a < id {
                let shape = nodes[a as int].shape@;
                narrowed(
                    value_of(nodes, env, a as int),
                    shape[axis as int] as nat,
                    inner_of(shape, axis as int),
                    start as nat,
                    len as nat,
                )
            } else {
                Seq::empty()
            },
            GraphOp::Concat { parts, axis } => {
                let shape = nodes[parts@[0] as int].shape@;
                side_by_side(
                    values_of(nodes, env, id, parts@),
                    shape[axis as int] * inner_of(shape, axis as int),
                )
            },
            GraphOp::Matmul { a, b } => if a < id && b < id {
                let shape = nodes[b as int].shape@;
                matrix_product(
                    value_of(nodes, env, a as int),
                    value_of(nodes, env, b as int),
                    shape[0] as int,
                    shape[1] as int,
                )
            } else {
                Seq::empty()
            },
            GraphOp::Fft { a, inverse } => if a < id {
                (env.fft)(value_of(nodes, env, a as int), inverse)
            } else {
                Seq::empty()
            },
            GraphOp::LogMel { a, filters } => if a < id && filters < id {
                (env.log_mel)(
                    value_of(nodes, env, a as int),
                    value_of(nodes, env, filters as int),
                )
            } else {
                Seq::empty()
            },
        }
    }
}

/// What some earlier nodes compute.
pub open spec fn values_of<T: Scalar>(
    nodes: Seq<GraphNode>,
    env: Env<T>,
    id: int,
    parts: Seq<usize>,
) -> Seq<Seq<T>>
    decreases id, 0nat, parts.len(),
{
    if parts.len() == 0 {
        Seq::empty()
    } else {
        values_of(nodes, env, id, parts.drop_last()).push(
            if parts.last() < id {
                value_of(nodes, env, parts.last() as int)
            } else {
                Seq::empty()
            },
        )
    }
}

/// Whether every operand comes before its operation.
pub open spec fn ordered(nodes: Seq<GraphNode>) -> bool {
    forall|id: int| 0 <= id < nodes.len() ==> operands_before(#[trigger] nodes[id].op, id)
}

/// Whether the operands of an operation come before a place.
pub open spec fn operands_before(op: GraphOp, id: int) -> bool {
    match op {
        GraphOp::Input { name } => true,
        GraphOp::Param { name } => true,
        GraphOp::Add { a, b } => a < id && b < id,
        GraphOp::Sub { a, b } => a < id && b < id,
        GraphOp::Mul { a, b } => a < id && b < id,
        GraphOp::Neg { a } => a < id,
        GraphOp::Reshape { a } => a < id,
        GraphOp::Narrow { a, axis, start, len } => a < id,
        GraphOp::Concat { parts, axis } => parts@.len() > 0 && forall|j: int|
            0 <= j < parts@.len() ==> (#[trigger] parts@[j]) < id,
        GraphOp::Matmul { a, b } => a < id && b < id,
        GraphOp::Fft { a, inverse } => a < id,
        GraphOp::LogMel { a, filters } => a < id && filters < id,
    }
}

/// Nodes that are added later change nothing of what earlier ones compute.
proof fn lemma_prefix<T: Scalar>(before: Seq<GraphNode>, after: Seq<GraphNode>, env: Env<T>, id: int)
    requires
        ordered(before),
        before.len() <= after.len(),
        forall|i: int| 0 <= i < before.len() ==> #[trigger] after[i] == before[i],
        0 <= id < before.len(),
    ensures
        value_of(after, env, id) == value_of(before, env, id),
    decreases id, 1nat, 0nat,
{
    assert(after[id] == before[id]);
    assert(operands_before(before[id].op, id));
    match before[id].op {
        GraphOp::Input { name } => {},
        GraphOp::Param { name } => {},
        GraphOp::Add { a, b } => {
            lemma_prefix(before, after, env, a as int);
            lemma_prefix(before, after, env, b as int);
        },
        GraphOp::Sub { a, b } => {
            lemma_prefix(before, after, env, a as int);
            lemma_prefix(before, after, env, b as int);
        },
        GraphOp::Mul { a, b } => {
            lemma_prefix(before, after, env, a as int);
            lemma_prefix(before, after, env, b as int);
        },
        GraphOp::Neg { a } => {
            lemma_prefix(before, after, env, a as int);
        },
        GraphOp::Reshape { a } => {
            lemma_prefix(before, after, env, a as int);
        },
        GraphOp::Narrow { a, axis, start, len } => {
            lemma_prefix(before, after, env, a as int);
            assert(after[a as int] == before[a as int]);
        },
        GraphOp::Concat { parts, axis } => {
            lemma_prefix_list(before, after, env, id, parts@);
            assert(after[parts@[0] as int] == before[parts@[0] as int]);
        },
        GraphOp::Matmul { a, b } => {
            lemma_prefix(before, after, env, a as int);
            lemma_prefix(before, after, env, b as int);
            assert(after[b as int] == before[b as int]);
        },
        GraphOp::Fft { a, inverse } => {
            lemma_prefix(before, after, env, a as int);
        },
        GraphOp::LogMel { a, filters } => {
            lemma_prefix(before, after, env, a as int);
            lemma_prefix(before, after, env, filters as int);
        },
    }
}

proof fn lemma_prefix_list<T: Scalar>(
    before: Seq<GraphNode>,
    after: Seq<GraphNode>,
    env: Env<T>,
    id: int,
    parts: Seq<usize>,
)
    requires
        ordered(before),
        before.len() <= after.len(),
        forall|i: int| 0 <= i < before.len() ==> #[trigger] after[i] == before[i],
        0 <= id < before.len(),
        forall|j: int| 0 <= j < parts.len() ==> (#[trigger] parts[j]) < id,
    ensures
        values_of(after, env, id, parts) == values_of(before, env, id, parts),
    decreases id, 0nat, parts.len(),
{
    if parts.len() > 0 {
        let d = parts.drop_last();
        assert forall|j: int| 0 <= j < d.len() implies (#[trigger] d[j]) < id by {
            assert(d[j] == parts[j]);
        }
        lemma_prefix_list(before, after, env, id, d);
        assert(parts[parts.len() - 1] < id);
        lemma_prefix(before, after, env, parts.last() as int);
    }
}

proof fn lemma_values_at<T: Scalar>(nodes: Seq<GraphNode>, env: Env<T>, id: int, parts: Seq<usize>)
    requires
        forall|j: int| 0 <= j < parts.len() ==> (#[trigger] parts[j]) < id,
    ensures
        values_of(nodes, env, id, parts).len() == parts.len(),
        forall|j: int|
            0 <= j < parts.len() ==> #[trigger] values_of(nodes, env, id, parts)[j] == value_of(
                nodes,
                env,
                parts[j] as int,
            ),
    decreases parts.len(),
{
    if parts.len() > 0 {
        let d = parts.drop_last();
        assert forall|j: int| 0 <= j < d.len() implies (#[trigger] d[j]) < id by {
            assert(d[j] == parts[j]);
        }
        lemma_values_at(nodes, env, id, d);
        assert(parts[parts.len() - 1] < id);
        assert forall|j: int| 0 <= j < parts.len() implies #[trigger] values_of(
            nodes,
            env,
            id,
            parts,
        )[j] == value_of(nodes, env, parts[j] as int) by {
            if j < d.len() {
                assert(values_of(nodes, env, id, d)[j] == value_of(nodes, env, d[j] as int));
            }
        }
    }
}

// ---------------------------------------------------------------------------
// Shapes
// ---------------------------------------------------------------------------

/// The numbers that the first `k` dimensions count.
pub open spec fn counted_to(shape: Seq<usize>, k: nat) -> nat
    decreases k,
{
    if k == 0 {
        1
    } else {
        counted_to(shape, (k - 1) as nat) * shape[k - 1] as nat
    }
}

/// Whether the dimensions can be multiplied up, one after the other, in signed words.
pub open spec fn countable(shape: Seq<usize>) -> bool {
    &&& forall|k: nat| k <= shape.len() ==> #[trigger] counted_to(shape, k) <= i64::MAX
    &&& forall|k: int| 0 <= k < shape.len() ==> (#[trigger] shape[k]) <= i64::MAX
}

/// Whether the dimensions up to a place are all one.
pub open spec fn ones_up_to(shape: Seq<usize>, k: int) -> bool {
    forall|j: int| 0 <= j <= k ==> #[trigger] shape[j] == 1
}

/// Whether a shape repeats within another: from the last dimension on it has those of the other, and
/// then ones, so that its numbers laid out one after the other as often as it takes fill the other.
pub open spec fn repeats_in(part: Seq<usize>, whole: Seq<usize>) -> bool {
    &&& part.len() <= whole.len()
    &&& forall|k: int|
        0 <= k < part.len() ==> #[trigger] part[k] == whole[k + whole.len() - part.len()]
            || ones_up_to(part, k)
}

/// Whether a node has the shape that its operation gives its operands.
pub open spec fn node_fits(nodes: Seq<GraphNode>, i: int) -> bool {
    let own = nodes[i].shape@;
    match nodes[i].op {
        GraphOp::Input { name } => true,
        GraphOp::Param { name } => true,
        GraphOp::Add { a, b } => a < i && b < i && own == nodes[a as int].shape@ && repeats_in(
            nodes[b as int].shape@,
            own,
        ),
        GraphOp::Sub { a, b } => a < i && b < i && own == nodes[a as int].shape@ && repeats_in(
            nodes[b as int].shape@,
            own,
        ),
        GraphOp::Mul { a, b } => a < i && b < i && own == nodes[a as int].shape@ && repeats_in(
            nodes[b as int].shape@,
            own,
        ),
        GraphOp::Neg { a } => a < i && own == nodes[a as int].shape@,
        GraphOp::Reshape { a } => a < i && countable(own) && counted_to(own, own.len())
            == counted_to(nodes[a as int].shape@, nodes[a as int].shape@.len()) && countable(
            nodes[a as int].shape@,
        ),
        GraphOp::Narrow { a, axis, start, len } => a < i && axis < nodes[a as int].shape@.len()
            && start + len <= nodes[a as int].shape@[axis as int] && own
            == nodes[a as int].shape@.update(axis as int, len),
        GraphOp::Concat { parts, axis } => parts@.len() > 0 && parts@[0] < i && all_shaped(
            nodes,
            i,
            parts@,
        ) && axis < nodes[parts@[0] as int].shape@.len()
            && nodes[parts@[0] as int].shape@[axis as int] * parts@.len() <= usize::MAX && own
            == nodes[parts@[0] as int].shape@.update(
            axis as int,
            (nodes[parts@[0] as int].shape@[axis as int] * parts@.len()) as usize,
        ),
        GraphOp::Matmul { a, b } => a < i && b < i && own.len() == 2
            && nodes[a as int].shape@.len() == 2 && nodes[b as int].shape@.len() == 2
            && nodes[a as int].shape@[1] == nodes[b as int].shape@[0] && own[0]
            == nodes[a as int].shape@[0] && own[1] == nodes[b as int].shape@[1],
        GraphOp::Fft { a, inverse } => a < i && own == nodes[a as int].shape@ && own.len() > 0
            && own.last() > 0 && own.last() % 2 == 0,
        GraphOp::LogMel { a, filters } => a < i && filters < i && nodes[a as int].shape@.len() > 0
            && nodes[a as int].shape@.last() % 2 == 0 && nodes[filters as int].shape@.len() == 2
            && nodes[filters as int].shape@[1] == nodes[a as int].shape@.last() / 4 + 1 && own
            == nodes[a as int].shape@.update(
            nodes[a as int].shape@.len() - 1,
            nodes[filters as int].shape@[0],
        ),
    }
}

/// Whether earlier nodes have the shape of the first of them.
pub open spec fn all_shaped(nodes: Seq<GraphNode>, i: int, parts: Seq<usize>) -> bool {
    forall|j: int|
        0 <= j < parts.len() ==> (#[trigger] parts[j]) < i && nodes[parts[j] as int].shape@
            == nodes[parts[0] as int].shape@
}

/// Whether every node of a plan has the shape that its operation gives.
pub open spec fn shapes_fit(nodes: Seq<GraphNode>) -> bool {
    forall|i: int| 0 <= i < nodes.len() ==> #[trigger] node_fits(nodes, i)
}

/// Whether a shape has no empty dimension and few enough numbers to be counted in signed words.
pub open spec fn small(shape: Seq<usize>) -> bool {
    &&& size_of(shape) <= i64::MAX
    &&& forall|k: int| 0 <= k < shape.len() ==> (#[trigger] shape[k]) >= 1
}

proof fn lemma_inner_positive(shape: Seq<usize>, axis: int)
    requires
        small(shape),
        -1 <= axis,
    ensures
        inner_of(shape, axis) >= 1,
    decreases shape.len() - axis,
{
    if axis + 1 < shape.len() {
        lemma_inner_positive(shape, axis + 1);
        let d = shape[axis + 1] as nat;
        let rest = inner_of(shape, axis + 1);
        assert(d >= 1);
        assert(d * rest >= 1) by (nonlinear_arith)
            requires
                d >= 1,
                rest >= 1,
        ;
    }
}

proof fn lemma_counted(shape: Seq<usize>, k: nat)
    requires
        k <= shape.len(),
    ensures
        counted_to(shape, k) * inner_of(shape, k - 1) == size_of(shape),
    decreases k,
{
    if k == 0 {
        assert(1 * inner_of(shape, -1) == inner_of(shape, -1)) by (nonlinear_arith);
    } else {
        let j = (k - 1) as nat;
        lemma_counted(shape, j);
        let c = counted_to(shape, j);
        let d = shape[j as int] as nat;
        let rest = inner_of(shape, j as int);
        assert(inner_of(shape, j - 1) == d * rest);
        assert((c * d) * rest == c * (d * rest)) by (nonlinear_arith);
    }
}

/// A small shape can be multiplied up, one dimension after the other, to its size.
pub proof fn small_shapes_are_countable(shape: Seq<usize>)
    requires
        small(shape),
    ensures
        countable(shape),
        counted_to(shape, shape.len()) == size_of(shape),
{
    assert forall|k: nat| k <= shape.len() implies #[trigger] counted_to(shape, k) <= i64::MAX by {
        lemma_counted(shape, k);
        lemma_inner_positive(shape, k - 1);
        let c = counted_to(shape, k);
        let rest = inner_of(shape, k - 1);
        assert(c <= c * rest) by (nonlinear_arith)
            requires
                rest >= 1,
                c >= 0,
        ;
    }
    assert forall|k: int| 0 <= k < shape.len() implies (#[trigger] shape[k]) <= i64::MAX by {
        let c = counted_to(shape, k as nat);
        let d = shape[k] as nat;
        assert(counted_to(shape, (k + 1) as nat) == c * d);
        assert(counted_to(shape, (k + 1) as nat) <= i64::MAX);
        lemma_counted(shape, k as nat);
        lemma_inner_positive(shape, -1);
        assert(c >= 1) by (nonlinear_arith)
            requires
                c * inner_of(shape, k - 1) >= 1,
                c >= 0,
        ;
        assert(d <= c * d) by (nonlinear_arith)
            requires
                c >= 1,
                d >= 0,
        ;
    }
    lemma_counted(shape, shape.len());
    assert(inner_of(shape, shape.len() - 1) == 1);
    let c = counted_to(shape, shape.len());
    assert(c * 1 == c) by (nonlinear_arith);
}

/// Nodes that are added later change nothing of whether earlier ones fit.
proof fn lemma_fits_prefix(before: Seq<GraphNode>, after: Seq<GraphNode>, i: int)
    requires
        ordered(before),
        before.len() <= after.len(),
        forall|k: int| 0 <= k < before.len() ==> #[trigger] after[k] == before[k],
        0 <= i < before.len(),
        node_fits(before, i),
    ensures
        node_fits(after, i),
{
    assert(after[i] == before[i]);
    assert(operands_before(before[i].op, i));
    match before[i].op {
        GraphOp::Input { name } => {},
        GraphOp::Param { name } => {},
        GraphOp::Add { a, b } | GraphOp::Sub { a, b } | GraphOp::Mul { a, b } => {
            assert(after[a as int] == before[a as int]);
            assert(after[b as int] == before[b as int]);
        },
        GraphOp::Neg { a } => {
            assert(after[a as int] == before[a as int]);
        },
        GraphOp::Reshape { a } => {
            assert(after[a as int] == before[a as int]);
        },
        GraphOp::Narrow { a, axis, start, len } => {
            assert(after[a as int] == before[a as int]);
        },
        GraphOp::Concat { parts, axis } => {
            assert(after[parts@[0] as int] == before[parts@[0] as int]);
            assert forall|j: int| 0 <= j < parts@.len() implies (#[trigger] parts@[j]) < i
                && after[parts@[j] as int].shape@ == after[parts@[0] as int].shape@ by {
                assert(parts@[j] < i);
                assert(after[parts@[j] as int] == before[parts@[j] as int]);
            }
        },
        GraphOp::Matmul { a, b } => {
            assert(after[a as int] == before[a as int]);
            assert(after[b as int] == before[b as int]);
        },
        GraphOp::Fft { a, inverse } => {
            assert(after[a as int] == before[a as int]);
        },
        GraphOp::LogMel { a, filters } => {
            assert(after[a as int] == before[a as int]);
            assert(after[filters as int] == before[filters as int]);
        },
    }
}

// ---------------------------------------------------------------------------
// Building graphs
// ---------------------------------------------------------------------------

impl<T: Scalar> GraphPlan<T> {
    /// What a node computes.
    pub open spec fn value(&self, env: Env<T>, id: int) -> Seq<T> {
        value_of(self.nodes@, env, id)
    }

    /// The shape of a node.
    pub open spec fn shape(&self, id: int) -> Seq<usize> {
        self.nodes@[id].shape@
    }

    /// Whether every operand comes before its operation, and every node has the shape that its
    /// operation gives its operands.
    pub open spec fn well_formed(&self) -> bool {
        &&& ordered(self.nodes@)
        &&& shapes_fit(self.nodes@)
    }

    /// Whether the graph holds another one at its start: its nodes compute what they computed.
    pub open spec fn extends(&self, before: GraphPlan<T>) -> bool {
        &&& before.nodes@.len() <= self.nodes@.len()
        &&& self.name@ == before.name@
        &&& self.outputs@ == before.outputs@
        &&& forall|i: int|
            0 <= i < before.nodes@.len() ==> #[trigger] self.nodes@[i] == before.nodes@[i]
        &&& forall|env: Env<T>, i: int|
            0 <= i < before.nodes@.len() ==> #[trigger] self.value(env, i) == before.value(env, i)
    }

    pub fn new(name: &str) -> (r: GraphPlan<T>)
        ensures
            r.name@ == name@,
            r.nodes@.len() == 0,
            r.outputs@.len() == 0,
            r.well_formed(),
    {
        GraphPlan {
            name: name.to_owned(),
            nodes: Vec::new(),
            outputs: Vec::new(),
            numbers: PhantomData,
        }
    }

    fn push(&mut self, op: GraphOp, shape: Vec<usize>) -> (r: usize)
        requires
            old(self).well_formed(),
            operands_before(op, old(self).nodes@.len() as int),
            node_fits(
                old(self).nodes@.push(GraphNode { op, shape }),
                old(self).nodes@.len() as int,
            ),
        ensures
            r == old(self).nodes@.len(),
            final(self).nodes@ == old(self).nodes@.push(GraphNode { op, shape }),
            final(self).well_formed(),
            final(self).extends(*old(self)),
    {
        let r: usize = self.nodes.len();
        let ghost before = *self;
        self.nodes.push(GraphNode { op, shape });
        proof {
            assert forall|id: int| 0 <= id < self.nodes@.len() implies operands_before(
                #[trigger] self.nodes@[id].op,
                id,
            ) by {
                if id < before.nodes@.len() {
                    assert(self.nodes@[id] == before.nodes@[id]);
                    assert(operands_before(before.nodes@[id].op, id));
                }
            }
            assert forall|env: Env<T>, i: int| 0 <= i < before.nodes@.len() implies
                #[trigger] self.value(env, i) == before.value(env, i) by {
                lemma_prefix(before.nodes@, self.nodes@, env, i);
            }
            assert forall|i: int| 0 <= i < self.nodes@.len() implies #[trigger] node_fits(
                self.nodes@,
                i,
            ) by {
                if i < before.nodes@.len() {
                    assert(node_fits(before.nodes@, i));
                    lemma_fits_prefix(before.nodes@, self.nodes@, i);
                }
            }
        }
        r
    }

    pub fn input(&mut self, name: &str, shape: Vec<usize>) -> (r: usize)
        requires
            old(self).well_formed(),
        ensures
            r == old(self).nodes@.len(),
            final(self).well_formed(),
            final(self).extends(*old(self)),
            final(self).nodes@.len() == r + 1,
            final(self).shape(r as int) == shape@,
            final(self).nodes@[r as int].op matches GraphOp::Input { name: n } && n@ == name@,
            forall|env: Env<T>| #[trigger] final(self).value(env, r as int) == (env.leaf)(name@),
    {
        self.push(GraphOp::Input { name: name.to_owned() }, shape)
    }

    pub fn param(&mut self, name: &str, shape: Vec<usize>) -> (r: usize)
        requires
            old(self).well_formed(),
        ensures
            r == old(self).nodes@.len(),
            final(self).well_formed(),
            final(self).extends(*old(self)),
            final(self).nodes@.len() == r + 1,
            final(self).shape(r as int) == shape@,
            final(self).nodes@[r as int].op matches GraphOp::Param { name: n } && n@ == name@,
            forall|env: Env<T>| #[trigger] final(self).value(env, r as int) == (env.leaf)(name@),
    {
        self.push(GraphOp::Param { name: name.to_owned() }, shape)
    }

    fn shape_of(&self, id: usize) -> (r: Vec<usize>)
        requires
            id < self.nodes@.len(),
        ensures
            r@ == self.shape(id as int),
    {
        crate::html::copy_counts(&self.nodes[id].shape)
    }

    /// The sum of two tensors; the second may be a part that repeats.
    pub fn plus(&mut self, a: usize, b: usize) -> (r: usize)
        requires
            old(self).well_formed(),
            a < old(self).nodes@.len(),
            b < old(self).nodes@.len(),
            repeats_in(old(self).shape(b as int), old(self).shape(a as int)),
        ensures
            r == old(self).nodes@.len(),
            final(self).well_formed(),
            final(self).extends(*old(self)),
            final(self).nodes@.len() == r + 1,
            final(self).shape(r as int) == old(self).shape(a as int),
            forall|env: Env<T>| #[trigger]
                final(self).value(env, r as int) == added(
                    old(self).value(env, a as int),
                    old(self).value(env, b as int),
                ),
    {
        let shape = self.shape_of(a);
        let ghost before = *self;
        let r = self.push(GraphOp::Add { a, b }, shape);
        proof {
            assert forall|env: Env<T>| #[trigger] self.value(env, r as int) == added(
                before.value(env, a as int),
                before.value(env, b as int),
            ) by {
                assert(self.value(env, a as int) == before.value(env, a as int));
                assert(self.value(env, b as int) == before.value(env, b as int));
            }
        }
        r
    }

    /// The difference of two tensors; the second may be a part that repeats.
    pub fn minus(&mut self, a: usize, b: usize) -> (r: usize)
        requires
            old(self).well_formed(),
            a < old(self).nodes@.len(),
            b < old(self).nodes@.len(),
            repeats_in(old(self).shape(b as int), old(self).shape(a as int)),
        ensures
            r == old(self).nodes@.len(),
            final(self).well_formed(),
            final(self).extends(*old(self)),
            final(self).nodes@.len() == r + 1,
            final(self).nodes@[r as int].op == (GraphOp::Sub { a, b }),
            final(self).shape(r as int) == old(self).shape(a as int),
            forall|env: Env<T>| #[trigger]
                final(self).value(env, r as int) == subtracted(
                    old(self).value(env, a as int),
                    old(self).value(env, b as int),
                ),
    {
        let shape = self.shape_of(a);
        let ghost before = *self;
        let r = self.push(GraphOp::Sub { a, b }, shape);
        proof {
            assert forall|env: Env<T>| #[trigger] self.value(env, r as int) == subtracted(
                before.value(env, a as int),
                before.value(env, b as int),
            ) by {
                assert(self.value(env, a as int) == before.value(env, a as int));
                assert(self.value(env, b as int) == before.value(env, b as int));
            }
        }
        r
    }

    /// The product of two tensors, number by number; the second may be a part that repeats.
    pub fn times(&mut self, a: usize, b: usize) -> (r: usize)
        requires
            old(self).well_formed(),
            a < old(self).nodes@.len(),
            b < old(self).nodes@.len(),
            repeats_in(old(self).shape(b as int), old(self).shape(a as int)),
        ensures
            r == old(self).nodes@.len(),
            final(self).well_formed(),
            final(self).extends(*old(self)),
            final(self).nodes@.len() == r + 1,
            final(self).shape(r as int) == old(self).shape(a as int),
            forall|env: Env<T>| #[trigger]
                final(self).value(env, r as int) == multiplied(
                    old(self).value(env, a as int),
                    old(self).value(env, b as int),
                ),
    {
        let shape = self.shape_of(a);
        let ghost before = *self;
        let r = self.push(GraphOp::Mul { a, b }, shape);
        proof {
            assert forall|env: Env<T>| #[trigger] self.value(env, r as int) == multiplied(
                before.value(env, a as int),
                before.value(env, b as int),
            ) by {
                assert(self.value(env, a as int) == before.value(env, a as int));
                assert(self.value(env, b as int) == before.value(env, b as int));
            }
        }
        r
    }

    /// The opposite of a tensor.
    pub fn neg(&mut self, a: usize) -> (r: usize)
        requires
            old(self).well_formed(),
            a < old(self).nodes@.len(),
        ensures
            r == old(self).nodes@.len(),
            final(self).well_formed(),
            final(self).extends(*old(self)),
            final(self).nodes@.len() == r + 1,
            final(self).shape(r as int) == old(self).shape(a as int),
            forall|env: Env<T>| #[trigger]
                final(self).value(env, r as int) == negated(old(self).value(env, a as int)),
    {
        let shape = self.shape_of(a);
        let ghost before = *self;
        let r = self.push(GraphOp::Neg { a }, shape);
        proof {
            assert forall|env: Env<T>| #[trigger] self.value(env, r as int) == negated(
                before.value(env, a as int),
            ) by {
                assert(self.value(env, a as int) == before.value(env, a as int));
            }
        }
        r
    }

    /// A tensor in another shape of as many numbers.
    pub fn reshape(&mut self, a: usize, shape: Vec<usize>) -> (r: usize)
        requires
            old(self).well_formed(),
            a < old(self).nodes@.len(),
            small(shape@),
            small(old(self).shape(a as int)),
            size_of(shape@) == size_of(old(self).shape(a as int)),
        ensures
            r == old(self).nodes@.len(),
            final(self).well_formed(),
            final(self).extends(*old(self)),
            final(self).nodes@.len() == r + 1,
            final(self).shape(r as int) == shape@,
            forall|env: Env<T>| #[trigger]
                final(self).value(env, r as int) == old(self).value(env, a as int),
    {
        let ghost before = *self;
        proof {
            small_shapes_are_countable(shape@);
            small_shapes_are_countable(before.shape(a as int));
        }
        let r = self.push(GraphOp::Reshape { a }, shape);
        proof {
            assert forall|env: Env<T>| #[trigger] self.value(env, r as int) == before.value(
                env,
                a as int,
            ) by {
                assert(self.value(env, a as int) == before.value(env, a as int));
            }
        }
        r
    }

    /// A range of an axis of a tensor.
    pub fn narrow(&mut self, a: usize, axis: usize, start: usize, len: usize) -> (r: usize)
        requires
            old(self).well_formed(),
            a < old(self).nodes@.len(),
            axis < old(self).shape(a as int).len(),
            start + len <= old(self).shape(a as int)[axis as int],
        ensures
            r == old(self).nodes@.len(),
            final(self).well_formed(),
            final(self).extends(*old(self)),
            final(self).nodes@.len() == r + 1,
            final(self).shape(r as int) == old(self).shape(a as int).update(axis as int, len),
            forall|env: Env<T>| #[trigger]
                final(self).value(env, r as int) == narrowed(
                    old(self).value(env, a as int),
                    old(self).shape(a as int)[axis as int] as nat,
                    inner_of(old(self).shape(a as int), axis as int),
                    start as nat,
                    len as nat,
                ),
    {
        let mut shape = self.shape_of(a);
        shape.set(axis, len);
        let ghost before = *self;
        let r = self.push(GraphOp::Narrow { a, axis, start, len }, shape);
        proof {
            assert(self.nodes@[a as int] == before.nodes@[a as int]);
            assert forall|env: Env<T>| #[trigger] self.value(env, r as int) == narrowed(
                before.value(env, a as int),
                before.shape(a as int)[axis as int] as nat,
                inner_of(before.shape(a as int), axis as int),
                start as nat,
                len as nat,
            ) by {
                assert(self.value(env, a as int) == before.value(env, a as int));
            }
        }
        r
    }

    /// The values of some nodes.
    pub open spec fn values(&self, env: Env<T>, parts: Seq<usize>) -> Seq<Seq<T>> {
        Seq::new(parts.len(), |j: int| self.value(env, parts[j] as int))
    }

    /// Tensors of one shape side by side along an axis.
    pub fn concat(&mut self, parts: Vec<usize>, axis: usize) -> (r: usize)
        requires
            old(self).well_formed(),
            parts@.len() > 0,
            forall|j: int| 0 <= j < parts@.len() ==> (#[trigger] parts@[j]) < old(self).nodes@.len(),
            forall|j: int|
                0 <= j < parts@.len() ==> old(self).shape((#[trigger] parts@[j]) as int)
                    == old(self).shape(parts@[0] as int),
            axis < old(self).shape(parts@[0] as int).len(),
            old(self).shape(parts@[0] as int)[axis as int] * parts@.len() <= usize::MAX,
        ensures
            r == old(self).nodes@.len(),
            final(self).well_formed(),
            final(self).extends(*old(self)),
            final(self).nodes@.len() == r + 1,
            final(self).nodes@[r as int].op == (GraphOp::Concat { parts, axis }),
            final(self).shape(r as int) == old(self).shape(parts@[0] as int).update(
                axis as int,
                (old(self).shape(parts@[0] as int)[axis as int] * parts@.len()) as usize,
            ),
            forall|env: Env<T>| #[trigger]
                final(self).value(env, r as int) == side_by_side(
                    old(self).values(env, parts@),
                    old(self).shape(parts@[0] as int)[axis as int] * inner_of(
                        old(self).shape(parts@[0] as int),
                        axis as int,
                    ),
                ),
    {
        let count: usize = parts.len();
        let first: usize = parts[0];
        let mut shape = self.shape_of(first);
        let size: usize = shape[axis];
        shape.set(axis, size * count);
        let ghost before = *self;
        let ghost listed = parts@;
        let r = self.push(GraphOp::Concat { parts, axis }, shape);
        proof {
            assert(self.nodes@[first as int] == before.nodes@[first as int]);
            assert forall|env: Env<T>| #[trigger] self.value(env, r as int) == side_by_side(
                before.values(env, listed),
                before.shape(listed[0] as int)[axis as int] * inner_of(
                    before.shape(listed[0] as int),
                    axis as int,
                ),
            ) by {
                lemma_values_at(self.nodes@, env, r as int, listed);
                assert(values_of(self.nodes@, env, r as int, listed) =~= before.values(
                    env,
                    listed,
                )) by {
                    assert forall|j: int| 0 <= j < listed.len() implies values_of(
                        self.nodes@,
                        env,
                        r as int,
                        listed,
                    )[j] == before.values(env, listed)[j] by {
                        assert(self.value(env, listed[j] as int) == before.value(
                            env,
                            listed[j] as int,
                        ));
                    }
                }
            }
        }
        r
    }

    /// The product of a matrix and another.
    pub fn matmul(&mut self, a: usize, b: usize) -> (r: usize)
        requires
            old(self).well_formed(),
            a < old(self).nodes@.len(),
            b < old(self).nodes@.len(),
            old(self).shape(a as int).len() == 2,
            old(self).shape(b as int).len() == 2,
            old(self).shape(a as int)[1] == old(self).shape(b as int)[0],
        ensures
            r == old(self).nodes@.len(),
            final(self).well_formed(),
            final(self).extends(*old(self)),
            final(self).nodes@.len() == r + 1,
            final(self).shape(r as int) == seq![
                old(self).shape(a as int)[0],
                old(self).shape(b as int)[1],
            ],
            forall|env: Env<T>| #[trigger]
                final(self).value(env, r as int) == matrix_product(
                    old(self).value(env, a as int),
                    old(self).value(env, b as int),
                    old(self).shape(b as int)[0] as int,
                    old(self).shape(b as int)[1] as int,
                ),
    {
        let left = self.shape_of(a);
        let right = self.shape_of(b);
        let rows: usize = left[0];
        let columns: usize = right[1];
        let shape = vec![rows, columns];
        assert(shape@ =~= seq![rows, columns]);
        let ghost before = *self;
        let r = self.push(GraphOp::Matmul { a, b }, shape);
        proof {
            assert(self.nodes@[b as int] == before.nodes@[b as int]);
            assert forall|env: Env<T>| #[trigger] self.value(env, r as int) == matrix_product(
                before.value(env, a as int),
                before.value(env, b as int),
                before.shape(b as int)[0] as int,
                before.shape(b as int)[1] as int,
            ) by {
                assert(self.value(env, a as int) == before.value(env, a as int));
                assert(self.value(env, b as int) == before.value(env, b as int));
            }
        }
        r
    }

    /// The transform of a backend: rows of real parts, then imaginary parts.
    pub fn fft(&mut self, a: usize, inverse: bool) -> (r: usize)
        requires
            old(self).well_formed(),
            a < old(self).nodes@.len(),
            old(self).shape(a as int).len() > 0,
            old(self).shape(a as int).last() > 0,
            old(self).shape(a as int).last() % 2 == 0,
        ensures
            r == old(self).nodes@.len(),
            final(self).well_formed(),
            final(self).extends(*old(self)),
            final(self).nodes@.len() == r + 1,
            final(self).nodes@[r as int].op == (GraphOp::Fft { a, inverse }),
            final(self).shape(r as int) == old(self).shape(a as int),
            forall|env: Env<T>| #[trigger]
                final(self).value(env, r as int) == (env.fft)(
                    old(self).value(env, a as int),
                    inverse,
                ),
    {
        let shape = self.shape_of(a);
        let ghost before = *self;
        let r = self.push(GraphOp::Fft { a, inverse }, shape);
        proof {
            assert forall|env: Env<T>| #[trigger] self.value(env, r as int) == (env.fft)(
                before.value(env, a as int),
                inverse,
            ) by {
                assert(self.value(env, a as int) == before.value(env, a as int));
            }
        }
        r
    }

    /// The logarithmic mel energies of a backend.
    pub fn log_mel(&mut self, a: usize, filters: usize) -> (r: usize)
        requires
            old(self).well_formed(),
            a < old(self).nodes@.len(),
            filters < old(self).nodes@.len(),
            old(self).shape(a as int).len() == 2,
            old(self).shape(filters as int).len() == 2,
            old(self).shape(a as int)[1] % 2 == 0,
            old(self).shape(filters as int)[1] == old(self).shape(a as int)[1] / 4 + 1,
        ensures
            r == old(self).nodes@.len(),
            final(self).well_formed(),
            final(self).extends(*old(self)),
            final(self).nodes@.len() == r + 1,
            final(self).shape(r as int) == seq![
                old(self).shape(a as int)[0],
                old(self).shape(filters as int)[0],
            ],
            forall|env: Env<T>| #[trigger]
                final(self).value(env, r as int) == (env.log_mel)(
                    old(self).value(env, a as int),
                    old(self).value(env, filters as int),
                ),
    {
        let left = self.shape_of(a);
        let right = self.shape_of(filters);
        let rows: usize = left[0];
        let mels: usize = right[0];
        let shape = vec![rows, mels];
        assert(shape@ =~= seq![rows, mels]);
        assert(shape@ =~= left@.update(1, mels));
        let ghost before = *self;
        let r = self.push(GraphOp::LogMel { a, filters }, shape);
        proof {
            assert forall|env: Env<T>| #[trigger] self.value(env, r as int) == (env.log_mel)(
                before.value(env, a as int),
                before.value(env, filters as int),
            ) by {
                assert(self.value(env, a as int) == before.value(env, a as int));
                assert(self.value(env, filters as int) == before.value(env, filters as int));
            }
        }
        r
    }

    /// Names the results of the graph.
    pub fn set_outputs(&mut self, outputs: Vec<usize>)
        requires
            old(self).well_formed(),
        ensures
            final(self).nodes@ == old(self).nodes@,
            final(self).name@ == old(self).name@,
            final(self).outputs@ == outputs@,
            final(self).well_formed(),
    {
        self.outputs = outputs;
    }
}

} // verus!
