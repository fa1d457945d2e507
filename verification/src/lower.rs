//! Plans turned into graphs of the `rlx_ir` crate.

use crate::graph::{
    all_shaped, countable, counted_to, node_fits, ones_up_to, repeats_in, shapes_fit, GraphNode,
    GraphOp, GraphPlan,
};
use crate::scalar::Scalar;
use rlx_ir::infer::GraphExt;
use rlx_ir::{DType, Graph, NodeId, Shape};
use vstd::prelude::*;

verus! {

/// A graph of `rlx_ir`.
#[verifier::external_type_specification]
#[verifier::external_body]
pub struct ExGraph(rlx_ir::Graph);

/// An operation of a graph, by the places of its operands.
pub enum IrOp {
    Input { name: Seq<char> },
    Param { name: Seq<char> },
    Add { a: usize, b: usize },
    Sub { a: usize, b: usize },
    Mul { a: usize, b: usize },
    Neg { a: usize },
    Reshape { a: usize },
    Narrow { a: usize, axis: usize, start: usize, len: usize },
    Concat { parts: Seq<usize>, axis: usize },
    Matmul { a: usize, b: usize },
    Fft { a: usize, inverse: bool },
    LogMel { a: usize, filters: usize },
}

/// A node of a graph: one of the operations above with a static shape in single precision, or
/// anything else.
pub enum IrNode {
    Plain { op: IrOp, shape: Seq<usize> },
    Other,
}

/// The nodes of a graph in order; the place of a node is its id.
pub uninterp spec fn ir_nodes(g: Graph) -> Seq<IrNode>;

/// The places of the results of a graph.
pub uninterp spec fn ir_outputs(g: Graph) -> Seq<usize>;

/// The name of a graph.
pub uninterp spec fn ir_name(g: Graph) -> Seq<char>;

/// The shape of a plain node.
pub open spec fn ir_shape(g: Graph, id: usize) -> Option<Seq<usize>> {
    if id < ir_nodes(g).len() {
        match ir_nodes(g)[id as int] {
            IrNode::Plain { op, shape } => Some(shape),
            IrNode::Other => None,
        }
    } else {
        None
    }
}

/// Whether a graph is another one with a node behind it.
pub open spec fn grown(after: Graph, before: Graph, op: IrOp, shape: Seq<usize>) -> bool {
    &&& ir_nodes(after) == ir_nodes(before).push(IrNode::Plain { op, shape })
    &&& ir_outputs(after) == ir_outputs(before)
    &&& ir_name(after) == ir_name(before)
}

/// Whether a graph can take one more node.
pub open spec fn has_room(g: Graph) -> bool {
    ir_nodes(g).len() < u32::MAX
}

// ---------------------------------------------------------------------------
// What `rlx_ir` does
// ---------------------------------------------------------------------------

/// `rlx_ir::Graph::new`: a graph of a name, with no nodes and no results.
#[verifier::external_body]
fn ir_graph(name: &str) -> (g: Graph)
    ensures
        ir_nodes(g) == Seq::<IrNode>::empty(),
        ir_outputs(g) == Seq::<usize>::empty(),
        ir_name(g) == name@,
{
    Graph::new(name)
}

/// `rlx_ir::Graph::input`: a leaf that a run is given, of a static shape in single precision.
#[verifier::external_body]
fn ir_input(g: &mut Graph, name: &str, shape: &Vec<usize>) -> (r: usize)
    requires
        has_room(*old(g)),
    ensures
        r == ir_nodes(*old(g)).len(),
        grown(*final(g), *old(g), IrOp::Input { name: name@ }, shape@),
{
    g.input(name, Shape::new(shape, DType::F32)).0 as usize
}

/// `rlx_ir::Graph::param`: a leaf that is set before a run, of a static shape in single precision.
#[verifier::external_body]
fn ir_param(g: &mut Graph, name: &str, shape: &Vec<usize>) -> (r: usize)
    requires
        has_room(*old(g)),
    ensures
        r == ir_nodes(*old(g)).len(),
        grown(*final(g), *old(g), IrOp::Param { name: name@ }, shape@),
{
    g.param(name, Shape::new(shape, DType::F32)).0 as usize
}

/// `rlx_ir`'s `GraphExt::add`: where the second shape repeats in the first, a node of the first.
#[verifier::external_body]
fn ir_add(g: &mut Graph, a: usize, b: usize) -> (r: usize)
    requires
        has_room(*old(g)),
        ir_shape(*old(g), a) is Some,
        ir_shape(*old(g), b) is Some,
        repeats_in(ir_shape(*old(g), b)->0, ir_shape(*old(g), a)->0),
    ensures
        r == ir_nodes(*old(g)).len(),
        grown(*final(g), *old(g), IrOp::Add { a, b }, ir_shape(*old(g), a)->0),
{
    g.add(NodeId(a as u32), NodeId(b as u32)).0 as usize
}

/// `rlx_ir`'s `GraphExt::sub`: where the second shape repeats in the first, a node of the first.
#[verifier::external_body]
fn ir_sub(g: &mut Graph, a: usize, b: usize) -> (r: usize)
    requires
        has_room(*old(g)),
        ir_shape(*old(g), a) is Some,
        ir_shape(*old(g), b) is Some,
        repeats_in(ir_shape(*old(g), b)->0, ir_shape(*old(g), a)->0),
    ensures
        r == ir_nodes(*old(g)).len(),
        grown(*final(g), *old(g), IrOp::Sub { a, b }, ir_shape(*old(g), a)->0),
{
    g.sub(NodeId(a as u32), NodeId(b as u32)).0 as usize
}

/// `rlx_ir`'s `GraphExt::mul`: where the second shape repeats in the first, a node of the first.
#[verifier::external_body]
fn ir_mul(g: &mut Graph, a: usize, b: usize) -> (r: usize)
    requires
        has_room(*old(g)),
        ir_shape(*old(g), a) is Some,
        ir_shape(*old(g), b) is Some,
        repeats_in(ir_shape(*old(g), b)->0, ir_shape(*old(g), a)->0),
    ensures
        r == ir_nodes(*old(g)).len(),
        grown(*final(g), *old(g), IrOp::Mul { a, b }, ir_shape(*old(g), a)->0),
{
    g.mul(NodeId(a as u32), NodeId(b as u32)).0 as usize
}

/// `rlx_ir`'s `GraphExt::neg`: a node of the shape of its operand.
#[verifier::external_body]
fn ir_neg(g: &mut Graph, a: usize) -> (r: usize)
    requires
        has_room(*old(g)),
        ir_shape(*old(g), a) is Some,
    ensures
        r == ir_nodes(*old(g)).len(),
        grown(*final(g), *old(g), IrOp::Neg { a }, ir_shape(*old(g), a)->0),
{
    g.neg(NodeId(a as u32)).0 as usize
}

/// `rlx_ir`'s `GraphExt::reshape_`: a node of the shape asked for, where it counts as many numbers.
#[verifier::external_body]
fn ir_reshape(g: &mut Graph, a: usize, shape: &Vec<usize>) -> (r: usize)
    requires
        has_room(*old(g)),
        ir_shape(*old(g), a) is Some,
        countable(shape@),
        counted_to(shape@, shape@.len()) == counted_to(
            ir_shape(*old(g), a)->0,
            (ir_shape(*old(g), a)->0).len(),
        ),
    ensures
        r == ir_nodes(*old(g)).len(),
        grown(*final(g), *old(g), IrOp::Reshape { a }, shape@),
{
    let dims = shape.iter().map(|&d| d as i64).collect();
    g.reshape_(NodeId(a as u32), dims).0 as usize
}

/// `rlx_ir`'s `GraphExt::narrow_`: a node with a range of one dimension of its operand.
#[verifier::external_body]
fn ir_narrow(g: &mut Graph, a: usize, axis: usize, start: usize, len: usize) -> (r: usize)
    requires
        has_room(*old(g)),
        ir_shape(*old(g), a) is Some,
        axis < (ir_shape(*old(g), a)->0).len(),
        start + len <= (ir_shape(*old(g), a)->0)[axis as int],
    ensures
        r == ir_nodes(*old(g)).len(),
        grown(
            *final(g),
            *old(g),
            IrOp::Narrow { a, axis, start, len },
            (ir_shape(*old(g), a)->0).update(axis as int, len),
        ),
{
    g.narrow_(NodeId(a as u32), axis, start, len).0 as usize
}

/// `rlx_ir`'s `GraphExt::concat_`: a node with tensors of one shape side by side.
#[verifier::external_body]
fn ir_concat(g: &mut Graph, parts: &Vec<usize>, axis: usize) -> (r: usize)
    requires
        has_room(*old(g)),
        parts@.len() > 0,
        ir_shape(*old(g), parts@[0]) is Some,
        forall|j: int|
            0 <= j < parts@.len() ==> ir_shape(*old(g), #[trigger] parts@[j]) == ir_shape(
                *old(g),
                parts@[0],
            ),
        axis < (ir_shape(*old(g), parts@[0])->0).len(),
        (ir_shape(*old(g), parts@[0])->0)[axis as int] * parts@.len() <= usize::MAX,
    ensures
        r == ir_nodes(*old(g)).len(),
        grown(
            *final(g),
            *old(g),
            IrOp::Concat { parts: parts@, axis },
            (ir_shape(*old(g), parts@[0])->0).update(
                axis as int,
                ((ir_shape(*old(g), parts@[0])->0)[axis as int] * parts@.len()) as usize,
            ),
        ),
{
    let ids = parts.iter().map(|&p| NodeId(p as u32)).collect();
    g.concat_(ids, axis).0 as usize
}

/// `rlx_ir::Graph::matmul`: a product of the shape that it is told, in single precision.
#[verifier::external_body]
fn ir_matmul(g: &mut Graph, a: usize, b: usize, shape: &Vec<usize>) -> (r: usize)
    requires
        has_room(*old(g)),
        ir_shape(*old(g), a) is Some,
        ir_shape(*old(g), b) is Some,
    ensures
        r == ir_nodes(*old(g)).len(),
        grown(*final(g), *old(g), IrOp::Matmul { a, b }, shape@),
{
    let shape = Shape::new(shape, DType::F32);
    g.matmul(NodeId(a as u32), NodeId(b as u32), shape).0 as usize
}

/// `rlx_ir::Graph::fft`: a transform along the last dimension, which holds the real and then the
/// imaginary parts and so is even.
#[verifier::external_body]
fn ir_fft(g: &mut Graph, a: usize, inverse: bool) -> (r: usize)
    requires
        has_room(*old(g)),
        ir_shape(*old(g), a) is Some,
        (ir_shape(*old(g), a)->0).len() > 0,
        (ir_shape(*old(g), a)->0).last() > 0,
        (ir_shape(*old(g), a)->0).last() % 2 == 0,
    ensures
        r == ir_nodes(*old(g)).len(),
        grown(*final(g), *old(g), IrOp::Fft { a, inverse }, ir_shape(*old(g), a)->0),
{
    g.fft(NodeId(a as u32), inverse).0 as usize
}

/// `rlx_ir::Graph::log_mel`: the mel energies of spectra in planes along the last dimension, by a
/// filter for each energy over the bins up to the middle.
#[verifier::external_body]
fn ir_log_mel(g: &mut Graph, a: usize, filters: usize) -> (r: usize)
    requires
        has_room(*old(g)),
        ir_shape(*old(g), a) is Some,
        ir_shape(*old(g), filters) is Some,
        (ir_shape(*old(g), a)->0).len() > 0,
        (ir_shape(*old(g), a)->0).last() % 2 == 0,
        (ir_shape(*old(g), filters)->0).len() == 2,
        (ir_shape(*old(g), filters)->0)[1] == (ir_shape(*old(g), a)->0).last() / 4 + 1,
    ensures
        r == ir_nodes(*old(g)).len(),
        grown(
            *final(g),
            *old(g),
            IrOp::LogMel { a, filters },
            (ir_shape(*old(g), a)->0).update(
                (ir_shape(*old(g), a)->0).len() - 1,
                (ir_shape(*old(g), filters)->0)[0],
            ),
        ),
{
    g.log_mel(NodeId(a as u32), NodeId(filters as u32)).0 as usize
}

/// `rlx_ir::Graph::set_outputs`: tells the results and leaves the name and the nodes as they are.
#[verifier::external_body]
fn ir_set_outputs(g: &mut Graph, outputs: &Vec<usize>)
    requires
        forall|j: int| 0 <= j < outputs@.len() ==> (#[trigger] outputs@[j]) < u32::MAX,
    ensures
        ir_nodes(*final(g)) == ir_nodes(*old(g)),
        ir_outputs(*final(g)) == outputs@,
        ir_name(*final(g)) == ir_name(*old(g)),
{
    let ids = outputs.iter().map(|&p| NodeId(p as u32)).collect();
    g.set_outputs(ids);
}

// ---------------------------------------------------------------------------
// Plans that can be turned
// ---------------------------------------------------------------------------

/// An operation of a plan as one of a graph.
pub open spec fn ir_op(op: GraphOp) -> IrOp {
    match op {
        GraphOp::Input { name } => IrOp::Input { name: name@ },
        GraphOp::Param { name } => IrOp::Param { name: name@ },
        GraphOp::Add { a, b } => IrOp::Add { a, b },
        GraphOp::Sub { a, b } => IrOp::Sub { a, b },
        GraphOp::Mul { a, b } => IrOp::Mul { a, b },
        GraphOp::Neg { a } => IrOp::Neg { a },
        GraphOp::Reshape { a } => IrOp::Reshape { a },
        GraphOp::Narrow { a, axis, start, len } => IrOp::Narrow { a, axis, start, len },
        GraphOp::Concat { parts, axis } => IrOp::Concat { parts: parts@, axis },
        GraphOp::Matmul { a, b } => IrOp::Matmul { a, b },
        GraphOp::Fft { a, inverse } => IrOp::Fft { a, inverse },
        GraphOp::LogMel { a, filters } => IrOp::LogMel { a, filters },
    }
}

/// The nodes of a plan as nodes of a graph.
pub open spec fn ir_plan(nodes: Seq<GraphNode>) -> Seq<IrNode> {
    Seq::new(
        nodes.len(),
        |i: int| IrNode::Plain { op: ir_op(nodes[i].op), shape: nodes[i].shape@ },
    )
}

fn same_counts(a: &Vec<usize>, b: &Vec<usize>) -> (r: bool)
    ensures
        r == (a@ == b@),
{
    if a.len() != b.len() {
        return false;
    }
    let mut i: usize = 0;
    while i < a.len()
        invariant
            i <= a.len(),
            a.len() == b.len(),
            forall|k: int| 0 <= k < i ==> a@[k] == b@[k],
        decreases a.len() - i,
    {
        if a[i] != b[i] {
            return false;
        }
        i += 1;
    }
    assert(a@ =~= b@);
    true
}

/// The numbers that a shape counts, where its dimensions can be multiplied up.
fn count_numbers(shape: &Vec<usize>) -> (r: Option<u64>)
    ensures
        match r {
            Some(n) => countable(shape@) && n == counted_to(shape@, shape@.len()),
            None => !countable(shape@),
        },
{
    let limit: u64 = 0x7fff_ffff_ffff_ffff;
    let mut n: u64 = 1;
    let mut i: usize = 0;
    while i < shape.len()
        invariant
            i <= shape.len(),
            limit == i64::MAX,
            n <= limit,
            n == counted_to(shape@, i as nat),
            forall|k: nat| k <= i ==> #[trigger] counted_to(shape@, k) <= i64::MAX,
            forall|k: int| 0 <= k < i ==> (#[trigger] shape@[k]) <= i64::MAX,
        decreases shape.len() - i,
    {
        let d: u64 = shape[i] as u64;
        let wide: u128 = n as u128;
        assert(n * d <= u64::MAX * u64::MAX) by (nonlinear_arith)
            requires
                n <= u64::MAX,
                d <= u64::MAX,
        ;
        let p: u128 = wide * d as u128;
        assert(counted_to(shape@, (i + 1) as nat) == p);
        if d > limit || p > limit as u128 {
            assert(shape@[i as int] > i64::MAX || counted_to(shape@, (i + 1) as nat) > i64::MAX);
            return None;
        }
        n = p as u64;
        i += 1;
    }
    Some(n)
}

fn check_repeats(part: &Vec<usize>, whole: &Vec<usize>) -> (r: bool)
    ensures
        r == repeats_in(part@, whole@),
{
    if part.len() > whole.len() {
        return false;
    }
    let lead: usize = whole.len() - part.len();
    let mut ones: bool = true;
    let mut k: usize = 0;
    while k < part.len()
        invariant
            k <= part.len(),
            part.len() <= whole.len(),
            lead == whole.len() - part.len(),
            ones == ones_up_to(part@, k - 1),
            forall|j: int|
                0 <= j < k ==> #[trigger] part@[j] == whole@[j + whole@.len() - part@.len()]
                    || ones_up_to(part@, j),
        decreases part.len() - k,
    {
        if part[k] != 1 {
            assert(part@[k as int] != 1);
            ones = false;
        }
        assert(ones == ones_up_to(part@, k as int)) by {
            if ones {
                assert forall|j: int| 0 <= j <= k implies #[trigger] part@[j] == 1 by {
                    if j < k {
                        assert(ones_up_to(part@, k - 1));
                    }
                }
            } else if ones_up_to(part@, k as int) {
                assert(part@[k as int] == 1);
                assert(ones_up_to(part@, k - 1));
            }
        }
        if part[k] != whole[lead + k] && !ones {
            assert(!(part@[k as int] == whole@[k + whole@.len() - part@.len()] || ones_up_to(
                part@,
                k as int,
            )));
            return false;
        }
        k += 1;
    }
    true
}

/// Whether a node of a plan has the shape that its operation gives its operands.
fn check_node(nodes: &Vec<GraphNode>, i: usize) -> (r: bool)
    requires
        i < nodes@.len(),
    ensures
        r == node_fits(nodes@, i as int),
{
    let own = &nodes[i].shape;
    match &nodes[i].op {
        GraphOp::Input { name } => true,
        GraphOp::Param { name } => true,
        GraphOp::Add { a, b } => *a < i && *b < i && same_counts(own, &nodes[*a].shape)
            && check_repeats(&nodes[*b].shape, own),
        GraphOp::Sub { a, b } => *a < i && *b < i && same_counts(own, &nodes[*a].shape)
            && check_repeats(&nodes[*b].shape, own),
        GraphOp::Mul { a, b } => *a < i && *b < i && same_counts(own, &nodes[*a].shape)
            && check_repeats(&nodes[*b].shape, own),
        GraphOp::Neg { a } => *a < i && same_counts(own, &nodes[*a].shape),
        GraphOp::Reshape { a } => {
            if *a >= i {
                return false;
            }
            match (count_numbers(own), count_numbers(&nodes[*a].shape)) {
                (Some(x), Some(y)) => x == y,
                _ => false,
            }
        },
        GraphOp::Narrow { a, axis, start, len } => {
            if *a >= i || *axis >= nodes[*a].shape.len() {
                return false;
            }
            let dim: usize = nodes[*a].shape[*axis];
            *len <= dim && *start <= dim - *len && check_updated(
                own,
                &nodes[*a].shape,
                *axis,
                *len,
            )
        },
        GraphOp::Concat { parts, axis } => {
            if parts.len() == 0 || !check_parts(nodes, i, parts) {
                return false;
            }
            let first: usize = parts[0];
            assert(parts@[0] < i);
            if *axis >= nodes[first].shape.len() {
                return false;
            }
            let dim: usize = nodes[first].shape[*axis];
            let count: usize = parts.len();
            let p: Option<usize> = dim.checked_mul(count);
            match p {
                Some(total) => check_updated(own, &nodes[first].shape, *axis, total),
                None => false,
            }
        },
        GraphOp::Matmul { a, b } => {
            if *a >= i || *b >= i || own.len() != 2 || nodes[*a].shape.len() != 2
                || nodes[*b].shape.len() != 2 {
                return false;
            }
            nodes[*a].shape[1] == nodes[*b].shape[0] && own[0] == nodes[*a].shape[0] && own[1]
                == nodes[*b].shape[1]
        },
        GraphOp::Fft { a, inverse } => {
            if *a >= i || own.len() == 0 {
                return false;
            }
            let last: usize = own[own.len() - 1];
            same_counts(own, &nodes[*a].shape) && last > 0 && last % 2 == 0
        },
        GraphOp::LogMel { a, filters } => {
            if *a >= i || *filters >= i || nodes[*a].shape.len() == 0
                || nodes[*filters].shape.len() != 2 {
                return false;
            }
            let rank: usize = nodes[*a].shape.len();
            let last: usize = nodes[*a].shape[rank - 1];
            last % 2 == 0 && nodes[*filters].shape[1] == last / 4 + 1 && check_updated(
                own,
                &nodes[*a].shape,
                rank - 1,
                nodes[*filters].shape[0],
            )
        },
    }
}

/// Whether a shape is another one with one dimension changed.
fn check_updated(own: &Vec<usize>, base: &Vec<usize>, axis: usize, dim: usize) -> (r: bool)
    requires
        axis < base@.len(),
    ensures
        r == (own@ == base@.update(axis as int, dim)),
{
    if own.len() != base.len() {
        return false;
    }
    let mut k: usize = 0;
    while k < own.len()
        invariant
            k <= own.len(),
            axis < base@.len(),
            own@.len() == base@.len(),
            forall|j: int| 0 <= j < k ==> own@[j] == base@.update(axis as int, dim)[j],
        decreases own.len() - k,
    {
        let want: usize = if k == axis {
            dim
        } else {
            base[k]
        };
        if own[k] != want {
            assert(own@[k as int] != base@.update(axis as int, dim)[k as int]);
            return false;
        }
        k += 1;
    }
    assert(own@ =~= base@.update(axis as int, dim));
    true
}

fn check_parts(nodes: &Vec<GraphNode>, i: usize, parts: &Vec<usize>) -> (r: bool)
    requires
        i < nodes@.len(),
        parts@.len() > 0,
    ensures
        r == all_shaped(nodes@, i as int, parts@),
{
    if parts[0] >= i {
        assert(!(parts@[0] < i));
        return false;
    }
    let first: usize = parts[0];
    let mut j: usize = 0;
    while j < parts.len()
        invariant
            j <= parts.len(),
            i < nodes@.len(),
            first == parts@[0],
            first < i,
            forall|k: int|
                0 <= k < j ==> (#[trigger] parts@[k]) < i && nodes@[parts@[k] as int].shape@
                    == nodes@[parts@[0] as int].shape@,
        decreases parts.len() - j,
    {
        let p: usize = parts[j];
        if p >= i {
            assert(!(parts@[j as int] < i));
            return false;
        }
        if !same_counts(&nodes[p].shape, &nodes[first].shape) {
            assert(nodes@[parts@[j as int] as int].shape@ != nodes@[parts@[0] as int].shape@);
            return false;
        }
        j += 1;
    }
    true
}

/// Appends a node of a plan to a graph that holds the nodes before it.
fn append_node(g: &mut Graph, nodes: &Vec<GraphNode>, i: usize)
    requires
        i < nodes@.len(),
        i < u32::MAX,
        node_fits(nodes@, i as int),
        ir_nodes(*old(g)) == ir_plan(nodes@).take(i as int),
    ensures
        ir_name(*final(g)) == ir_name(*old(g)),
        ir_nodes(*final(g)) == ir_plan(nodes@).take(i + 1),
        ir_outputs(*final(g)) == ir_outputs(*old(g)),
{
    let ghost plan = ir_plan(nodes@);
    proof {
        assert forall|k: usize| k < i implies ir_shape(*old(g), k) == Some(
            nodes@[k as int].shape@,
        ) by {
            assert(plan.take(i as int)[k as int] == plan[k as int]);
        }
        assert(plan.take(i as int).push(plan[i as int]) =~= plan.take(i + 1));
    }
    let own = &nodes[i].shape;
    match &nodes[i].op {
        GraphOp::Input { name } => {
            ir_input(g, name.as_str(), own);
        },
        GraphOp::Param { name } => {
            ir_param(g, name.as_str(), own);
        },
        GraphOp::Add { a, b } => {
            ir_add(g, *a, *b);
        },
        GraphOp::Sub { a, b } => {
            ir_sub(g, *a, *b);
        },
        GraphOp::Mul { a, b } => {
            ir_mul(g, *a, *b);
        },
        GraphOp::Neg { a } => {
            ir_neg(g, *a);
        },
        GraphOp::Reshape { a } => {
            ir_reshape(g, *a, own);
        },
        GraphOp::Narrow { a, axis, start, len } => {
            ir_narrow(g, *a, *axis, *start, *len);
        },
        GraphOp::Concat { parts, axis } => {
            proof {
                assert forall|j: int| 0 <= j < parts@.len() implies ir_shape(
                    *old(g),
                    #[trigger] parts@[j],
                ) == ir_shape(*old(g), parts@[0]) by {
                    assert(parts@[j] < i);
                }
            }
            ir_concat(g, parts, *axis);
        },
        GraphOp::Matmul { a, b } => {
            ir_matmul(g, *a, *b, own);
        },
        GraphOp::Fft { a, inverse } => {
            ir_fft(g, *a, *inverse);
        },
        GraphOp::LogMel { a, filters } => {
            ir_log_mel(g, *a, *filters);
        },
    }
}

/// Whether the results of a plan are nodes of it.
pub open spec fn outputs_fit(outputs: Seq<usize>, count: nat) -> bool {
    forall|j: int| 0 <= j < outputs.len() ==> (#[trigger] outputs[j]) < count
}

/// Turns a plan into a graph of its name, node for node: every well-formed plan of few enough nodes whose
/// results are nodes of it. `None` where a node has another shape than its
/// operation gives, a result is no node, or there are too many nodes.
pub fn lower<T: Scalar>(plan: &GraphPlan<T>) -> (r: Option<Graph>)
    ensures
        plan.well_formed() && outputs_fit(plan.outputs@, plan.nodes@.len()) && plan.nodes@.len()
            < u32::MAX ==> r is Some,
        match r {
            Some(g) => shapes_fit(plan.nodes@) && outputs_fit(plan.outputs@, plan.nodes@.len())
                && plan.nodes@.len() < u32::MAX && ir_nodes(g) == ir_plan(plan.nodes@)
                && ir_outputs(g) == plan.outputs@ && ir_name(g) == plan.name@,
            None => !(shapes_fit(plan.nodes@) && outputs_fit(plan.outputs@, plan.nodes@.len())
                && plan.nodes@.len() < u32::MAX),
        },
{
    let count: usize = plan.nodes.len();
    if count >= 0xffff_ffff {
        return None;
    }
    let mut j: usize = 0;
    while j < plan.outputs.len()
        invariant
            j <= plan.outputs.len(),
            count == plan.nodes@.len(),
            forall|k: int| 0 <= k < j ==> (#[trigger] plan.outputs@[k]) < count,
        decreases plan.outputs.len() - j,
    {
        if plan.outputs[j] >= count {
            assert(!(plan.outputs@[j as int] < count));
            return None;
        }
        j += 1;
    }
    let mut g: Graph = ir_graph(plan.name.as_str());
    let mut i: usize = 0;
    assert(ir_plan(plan.nodes@).take(0) =~= Seq::<IrNode>::empty());
    while i < count
        invariant
            i <= count,
            count == plan.nodes@.len(),
            count < u32::MAX,
            ir_nodes(g) == ir_plan(plan.nodes@).take(i as int),
            ir_name(g) == plan.name@,
            forall|k: int| 0 <= k < i ==> #[trigger] node_fits(plan.nodes@, k),
        decreases count - i,
    {
        if !check_node(&plan.nodes, i) {
            return None;
        }
        append_node(&mut g, &plan.nodes, i);
        i += 1;
    }
    assert(ir_plan(plan.nodes@).take(count as int) =~= ir_plan(plan.nodes@));
    ir_set_outputs(&mut g, &plan.outputs);
    Some(g)
}

} // verus!
