//! Structural lowering of the source's region-based control flow into the
//! target's structured conditional and loop nodes.
//!
//! Each construct is built as its own sub-graph under a fresh structured
//! node, whose external ports are then registered with the enclosing
//! wiring context exactly as a primitive operation's would be. A
//! conditional's child cases stand in case order.

use vstd::prelude::*;
use crate::graph::{graph_extended, Edge, Graph, IntNodeOp, NodeId, NodeOp};
use crate::jeff_ir::{ControlFlowOp, JeffType, Operation, Region, SwitchOp, ValuePort};
use crate::to_hugr::{
    build_nested, hugr_types_of_ports, lemma_extended_refl, lemma_graph_extended_trans,
    lemma_widen_container, lemma_wiring_mono, same_port_types, JeffToHugrError,
};
use crate::types::{jeff_int_width_to_hugr_width, spec_jeff_to_hugr, HugrType, Signature};
use crate::wiring::{
    lemma_absorb_bounded, lemma_entries_bounded, lemma_prefix_index, ports_bounded,
    wiring_bounded, BuildContext, CallRegistry, PortRef, WiringView,
};

verus! {

/// The target types of a port list.
pub open spec fn spec_port_types(ports: Seq<ValuePort>) -> Seq<HugrType> {
    ports.map_values(|p: ValuePort| spec_jeff_to_hugr(p.ty))
}

/// A nested region build failed: from some graph, call registry and
/// container, the boundary pair carrying the given rows was added, and
/// the region's translation between them fails with the reported error
/// - one of its operations fails, or its wiring cannot resolve.
pub open spec fn spec_nested_fails(
    region: Region,
    in_tys: Seq<HugrType>,
    out_tys: Seq<HugrType>,
    e: JeffToHugrError,
) -> bool {
    exists|g0: Graph, container: NodeId, c0: Map<u32, Seq<PortRef>>, gb: Graph|
        #![trigger crate::to_hugr::spec_boundary_added(g0, gb, container, in_tys, out_tys), c0.dom()]
        crate::to_hugr::spec_boundary_added(g0, gb, container, in_tys, out_tys)
            && crate::to_hugr::spec_region_fails(
            region.operations@,
            gb,
            container,
            crate::to_hugr::spec_region_seed(
                region,
                g0.nodes@.len() as usize,
                (g0.nodes@.len() + 1) as usize,
                in_tys.len() as int,
                out_tys.len() as int,
            ),
            c0,
            e,
        )
}

/// The spliced head node's external ports are registered to the
/// operation's values, 1:1 in declaration order, as the lowering's last
/// act: the final context is some intermediate context - same aliases
/// as at entry, grown only by the nested regions' leftover registrations
/// - with the operation's inputs then outputs registered onto `node`.
pub open spec fn spec_head_ports_registered(
    w0: WiringView,
    w1: WiringView,
    op: Operation,
    node: NodeId,
) -> bool {
    exists|wa: WiringView|
        #![trigger crate::wiring::spec_register_in_seq(wa, op.inputs@, node, op.inputs@.len() as int)]
        wa.alias == w0.alias && w1 == crate::wiring::spec_register_out_seq(
            crate::wiring::spec_register_in_seq(wa, op.inputs@, node, op.inputs@.len() as int),
            op.outputs@,
            node,
            op.outputs@.len() as int,
        )
}

/// A nested region was genuinely translated inside `container`: from
/// some pre-state and call registry, the boundary pair carrying the
/// given rows was added under `container`, each of the region's
/// operations was translated in order, and the region's wiring resolved.
pub open spec fn spec_nested_built(
    region: Region,
    in_tys: Seq<HugrType>,
    out_tys: Seq<HugrType>,
    container: NodeId,
) -> bool {
    exists|
        g0: Graph,
        c0: Map<u32, Seq<PortRef>>,
        gb: Graph,
        gm: Graph,
        wm: WiringView,
        c1: Map<u32, Seq<PortRef>>,
        g2: Graph,
        left: WiringView,
    |
        #![trigger crate::to_hugr::spec_boundary_added(g0, gb, container, in_tys, out_tys), crate::to_hugr::spec_ops_built(
            region.operations@,
            region.operations@.len() as int,
            gb,
            container,
            crate::to_hugr::spec_region_seed(
                region,
                g0.nodes@.len() as usize,
                (g0.nodes@.len() + 1) as usize,
                in_tys.len() as int,
                out_tys.len() as int,
            ),
            c0,
            gm,
            wm,
            c1,
        ), crate::to_hugr::spec_region_resolved(wm, gm, g2, left)]
        {
            &&& crate::to_hugr::spec_boundary_added(g0, gb, container, in_tys, out_tys)
            &&& crate::to_hugr::spec_ops_built(
                region.operations@,
                region.operations@.len() as int,
                gb,
                container,
                crate::to_hugr::spec_region_seed(
                    region,
                    g0.nodes@.len() as usize,
                    (g0.nodes@.len() + 1) as usize,
                    in_tys.len() as int,
                    out_tys.len() as int,
                ),
                c0,
                gm,
                wm,
                c1,
            )
            &&& crate::to_hugr::spec_region_resolved(wm, gm, g2, left)
        }
}

/// Which source branch fills which case of a lowered conditional: among
/// the exactly two case children of the conditional node, the earlier
/// holds the translation of branch 0, and the later holds branch 1 when
/// there is one, else the declared default branch when there is one.
pub open spec fn spec_switch_cases(sw: SwitchOp, op: Operation, g0: Graph, g1: Graph) -> bool {
    let n0 = g0.nodes@.len() as int;
    exists|ca: int, cb: int|
        #![trigger g1.nodes@[ca], g1.nodes@[cb]]
        {
            &&& n0 < ca < cb < g1.nodes@.len()
            &&& g1.nodes@[ca].parent == Some(n0 as usize)
            &&& g1.nodes@[cb].parent == Some(n0 as usize)
            &&& (forall|i: int|
                n0 < i < g1.nodes@.len() && (#[trigger] g1.nodes@[i]).parent == Some(n0 as usize)
                    ==> i == ca || i == cb)
            &&& spec_nested_built(
                sw.branches@[0],
                spec_port_types(op.inputs@.skip(1)),
                spec_port_types(op.outputs@),
                ca as usize,
            )
            &&& (sw.branches@.len() > 1 ==> spec_nested_built(
                sw.branches@[1],
                spec_port_types(op.inputs@.skip(1)),
                spec_port_types(op.outputs@),
                cb as usize,
            ))
            &&& ((sw.branches@.len() <= 1 && sw.default_branch is Some) ==> spec_nested_built(
                sw.default_branch->0,
                spec_port_types(op.inputs@.skip(1)),
                spec_port_types(op.outputs@),
                cb as usize,
            ))
        }
}

/// A successful nested build witnesses [`spec_nested_built`], with the
/// boundary rows restated in any equal form.
pub proof fn lemma_nested_built_intro(
    region: Region,
    rin: Seq<HugrType>,
    rout: Seq<HugrType>,
    tin: Seq<HugrType>,
    tout: Seq<HugrType>,
    container: NodeId,
    g_pre: Graph,
    g_post: Graph,
    c_pre: Map<u32, Seq<PortRef>>,
    c_post: Map<u32, Seq<PortRef>>,
    left: WiringView,
)
    requires
        rin == tin,
        rout == tout,
        exists|gb: Graph, gm: Graph, wm: WiringView|
            #![trigger crate::to_hugr::spec_boundary_added(g_pre, gb, container, rin, rout), crate::to_hugr::spec_region_resolved(wm, gm, g_post, left)]
            crate::to_hugr::spec_boundary_added(g_pre, gb, container, rin, rout)
                && crate::to_hugr::spec_ops_built(
                region.operations@,
                region.operations@.len() as int,
                gb,
                container,
                crate::to_hugr::spec_region_seed(
                    region,
                    g_pre.nodes@.len() as usize,
                    (g_pre.nodes@.len() + 1) as usize,
                    rin.len() as int,
                    rout.len() as int,
                ),
                c_pre,
                gm,
                wm,
                c_post,
            ) && crate::to_hugr::spec_region_resolved(wm, gm, g_post, left),
    ensures
        spec_nested_built(region, tin, tout, container),
{
    let (gb, gm, wm): (Graph, Graph, WiringView) = choose|gb: Graph, gm: Graph, wm: WiringView|
        #![trigger crate::to_hugr::spec_boundary_added(g_pre, gb, container, rin, rout), crate::to_hugr::spec_region_resolved(wm, gm, g_post, left)]
        crate::to_hugr::spec_boundary_added(g_pre, gb, container, rin, rout)
            && crate::to_hugr::spec_ops_built(
            region.operations@,
            region.operations@.len() as int,
            gb,
            container,
            crate::to_hugr::spec_region_seed(
                region,
                g_pre.nodes@.len() as usize,
                (g_pre.nodes@.len() + 1) as usize,
                rin.len() as int,
                rout.len() as int,
            ),
            c_pre,
            gm,
            wm,
            c_post,
        ) && crate::to_hugr::spec_region_resolved(wm, gm, g_post, left);
    assert(crate::to_hugr::spec_boundary_added(g_pre, gb, container, tin, tout));
    assert(crate::to_hugr::spec_ops_built(
        region.operations@,
        region.operations@.len() as int,
        gb,
        container,
        crate::to_hugr::spec_region_seed(
            region,
            g_pre.nodes@.len() as usize,
            (g_pre.nodes@.len() + 1) as usize,
            tin.len() as int,
            tout.len() as int,
        ),
        c_pre,
        gm,
        wm,
        c_post,
    ));
    assert(crate::to_hugr::spec_region_resolved(wm, gm, g_post, left));
}

/// What a failed control-flow lowering pins down: either the operation
/// is too large to carry the counter ports, or the form's own shape
/// check failed with its error, or one of the form's nested regions
/// fails to translate with the reported error.
pub open spec fn spec_cf_err(cf: ControlFlowOp, op: Operation, e: JeffToHugrError) -> bool {
    ((op.inputs@.len() > usize::MAX - 4 || op.outputs@.len() > usize::MAX - 4)
        && e is UnsupportedOperation) || (match cf {
        ControlFlowOp::Switch(sw) => ((op.inputs@.len() == 0 || op.inputs@[0].ty != (JeffType::Int {
            bits: 1,
        }) || sw.branches@.len() == 0) && e is UnsupportedOperation) || (exists|br: Region|
            #![trigger spec_nested_fails(
                br,
                spec_port_types(op.inputs@.skip(1)),
                spec_port_types(op.outputs@),
                e,
            )]
            (sw.branches@.contains(br) || (sw.default_branch matches Some(d) && br == d))
                && spec_nested_fails(
                br,
                spec_port_types(op.inputs@.skip(1)),
                spec_port_types(op.outputs@),
                e,
            )),
        ControlFlowOp::DoWhile { body, condition } => (op.input_types() != op.output_types()
            && e is InvalidOperationIO) || spec_nested_fails(
            body,
            spec_port_types(op.inputs@),
            spec_port_types(op.inputs@),
            e,
        ) || spec_nested_fails(condition, spec_port_types(op.inputs@), seq![HugrType::Bool], e),
        ControlFlowOp::While { body, condition } => (op.input_types() != op.output_types()
            && e is InvalidOperationIO) || spec_nested_fails(
            body,
            spec_port_types(op.inputs@),
            spec_port_types(op.inputs@),
            e,
        ) || spec_nested_fails(condition, spec_port_types(op.inputs@), seq![HugrType::Bool], e),
        ControlFlowOp::For { region } => ((op.inputs@.len() == 0 || !(op.inputs@[0].ty is Int))
            && e is InvalidOperationIO) || (exists|in_tys: Seq<HugrType>|
            #[trigger] spec_nested_fails(region, in_tys, spec_port_types(op.outputs@), e)),
    })
}

/// What a lowered binary conditional looks like: one structured
/// conditional node under `parent` with a two-row unit discriminant, the
/// remaining inputs and the declared outputs, and exactly two child
/// cases, each opening with its own boundary nodes - two independently
/// built branches.
pub open spec fn spec_switch_built(op: Operation, g0: Graph, g1: Graph, parent: NodeId) -> bool {
    let n0 = g0.nodes@.len() as int;
    &&& g1.nodes@.len() > n0
    &&& g0.nodes@.is_prefix_of(g1.nodes@)
    &&& (g1.nodes@[n0].op matches NodeOp::Conditional { sum_rows, other_inputs, outputs }
        && sum_rows@.len() == 2 && sum_rows@[0]@.len() == 0 && sum_rows@[1]@.len() == 0
        && other_inputs@ == spec_port_types(op.inputs@.skip(1)) && outputs@ == spec_port_types(
        op.outputs@,
    ))
    &&& g1.nodes@[n0].parent == Some(parent)
    &&& exists|c0: int, c1: int|
        #![trigger g1.nodes@[c0], g1.nodes@[c1]]
        n0 < c0 && c0 + 2 < c1 && c1 + 2 < g1.nodes@.len() && (g1.nodes@[c0].op is Case) && (
        g1.nodes@[c1].op is Case) && g1.nodes@[c0].parent == Some(n0 as usize)
            && g1.nodes@[c1].parent == Some(n0 as usize) && (g1.nodes@[c0 + 1].op is Input) && (
        g1.nodes@[c0 + 2].op is Output) && (g1.nodes@[c1 + 1].op is Input) && (g1.nodes@[c1
            + 2].op is Output) && (forall|i: int|
            n0 < i < g1.nodes@.len() && (#[trigger] g1.nodes@[i]).parent == Some(n0 as usize)
                ==> i == c0 || i == c1)
}

/// The edges drawn between `count` consecutive port pairs of two nodes.
pub open spec fn spec_range_edges(
    src: NodeId,
    src_base: usize,
    dst: NodeId,
    dst_base: usize,
    count: usize,
) -> Seq<Edge> {
    Seq::new(
        count as nat,
        |k: int|
            Edge {
                src,
                src_port: (src_base + k) as usize,
                dst,
                dst_port: (dst_base + k) as usize,
            },
    )
}

/// One edge of a drawn range is a member of the list the range landed
/// in.
pub proof fn lemma_range_edge_contained(
    e0: Seq<Edge>,
    e1: Seq<Edge>,
    src: NodeId,
    src_base: usize,
    dst: NodeId,
    dst_base: usize,
    count: usize,
    k: int,
)
    requires
        e1 == e0 + spec_range_edges(src, src_base, dst, dst_base, count),
        0 <= k < count,
    ensures
        e1.contains(
            Edge { src, src_port: (src_base + k) as usize, dst, dst_port: (dst_base + k) as usize },
        ),
{
    assert(e1[e0.len() + k] == Edge {
        src,
        src_port: (src_base + k) as usize,
        dst,
        dst_port: (dst_base + k) as usize,
    });
}

/// Draw `count` edges between consecutive ports of two nodes.
pub fn connect_range(
    g: &mut Graph,
    src: NodeId,
    src_base: usize,
    dst: NodeId,
    dst_base: usize,
    count: usize,
)
    requires
        old(g).wf(),
        src < old(g).nodes@.len(),
        dst < old(g).nodes@.len(),
        src_base + count <= usize::MAX,
        dst_base + count <= usize::MAX,
    ensures
        (*final(g)).wf(),
        (*final(g)).nodes@ == old(g).nodes@,
        (*final(g)).order_edges@ == old(g).order_edges@,
        old(g).edges@.is_prefix_of((*final(g)).edges@),
        (*final(g)).edges@ == old(g).edges@ + spec_range_edges(src, src_base, dst, dst_base, count),
        forall|c: NodeId| #[trigger] graph_extended(*old(g), *final(g), c),
{
    for i in 0..count
        invariant
            (*g).wf(),
            src < (*g).nodes@.len(),
            dst < (*g).nodes@.len(),
            src_base + count <= usize::MAX,
            dst_base + count <= usize::MAX,
            (*g).nodes@ == old(g).nodes@,
            (*g).order_edges@ == old(g).order_edges@,
            old(g).edges@.is_prefix_of((*g).edges@),
            (*g).edges@ == old(g).edges@ + spec_range_edges(src, src_base, dst, dst_base, i),
    {
        let ghost g_pre = *g;
        g.connect(src, src_base + i, dst, dst_base + i);
        proof {
            crate::wiring::lemma_prefix_trans(old(g).edges@, g_pre.edges@, (*g).edges@);
            assert(spec_range_edges(src, src_base, dst, dst_base, (i + 1) as usize)
                =~= spec_range_edges(src, src_base, dst, dst_base, i).push(
                Edge {
                    src,
                    src_port: (src_base + i) as usize,
                    dst,
                    dst_port: (dst_base + i) as usize,
                },
            ));
            assert((*g).edges@ =~= old(g).edges@ + spec_range_edges(
                src,
                src_base,
                dst,
                dst_base,
                (i + 1) as usize,
            ));
        }
    }
    proof {
        assert forall|c: NodeId| #[trigger] graph_extended(*old(g), *g, c) by {
            assert((*g).nodes@.subrange(0, old(g).nodes@.len() as int) =~= old(g).nodes@);
            assert((*g).order_edges@.subrange(0, old(g).order_edges@.len() as int) =~= old(g).order_edges@);
        }
    }
}

/// Absorb a resolved child context's leftovers, with the bookkeeping that
/// keeps the enclosing context bounded by the grown graph.
fn absorb_child(ctx: &mut BuildContext, child: BuildContext, g: &Graph)
    requires
        old(ctx).wf(),
        child.wf(),
        wiring_bounded(old(ctx)@, g.nodes@.len() as nat),
        wiring_bounded(child@, g.nodes@.len() as nat),
    ensures
        (*final(ctx)).wf(),
        wiring_bounded((*final(ctx))@, g.nodes@.len() as nat),
        (*final(ctx))@.alias == old(ctx)@.alias,
{
    proof {
        lemma_entries_bounded(child.input_edges.entry_seq(), g.nodes@.len() as nat);
        lemma_entries_bounded(child.output_edges.entry_seq(), g.nodes@.len() as nat);
        lemma_absorb_bounded(
            old(ctx)@,
            child.input_edges.entry_seq(),
            child.output_edges.entry_seq(),
            g.nodes@.len() as nat,
        );
    }
    ctx.absorb(child);
}

/// A one-element row holding the native boolean.
fn bool_row() -> (r: Vec<HugrType>)
    ensures
        r@ == seq![HugrType::Bool],
{
    let mut v: Vec<HugrType> = Vec::new();
    v.push(HugrType::Bool);
    proof {
        assert(v@ =~= seq![HugrType::Bool]);
    }
    v
}

/// The two empty rows of a unit discriminant.
fn two_empty_rows() -> (r: Vec<Vec<HugrType>>)
    ensures
        r@.len() == 2,
        r@[0]@.len() == 0,
        r@[1]@.len() == 0,
{
    let mut v: Vec<Vec<HugrType>> = Vec::new();
    v.push(Vec::new());
    v.push(Vec::new());
    v
}

/// The boolean followed by the given state types: a symmetric loop
/// boundary's output row.
fn flag_and_state(ports: &Vec<ValuePort>) -> (r: Vec<HugrType>)
    ensures
        r@ == seq![HugrType::Bool] + spec_port_types(ports@),
{
    let mut v = bool_row();
    let mut tail = hugr_types_of_ports(ports, 0);
    proof {
        assert(ports@.skip(0) =~= ports@);
    }
    v.append(&mut tail);
    proof {
        assert(v@ =~= seq![HugrType::Bool] + spec_port_types(ports@));
    }
    v
}

/// The loop-control sum followed by the given state types: a bounded
/// loop boundary's output row.
fn control_and_state(ports: &Vec<ValuePort>) -> (r: Vec<HugrType>)
    ensures
        r@ == seq![HugrType::TailControl] + spec_port_types(ports@),
{
    let mut v: Vec<HugrType> = Vec::new();
    v.push(HugrType::TailControl);
    let mut tail = hugr_types_of_ports(ports, 0);
    proof {
        assert(ports@.skip(0) =~= ports@);
    }
    v.append(&mut tail);
    proof {
        assert(v@ =~= seq![HugrType::TailControl] + spec_port_types(ports@));
    }
    v
}

/// Three copies of the counter type.
fn three_of(t: HugrType) -> (r: Vec<HugrType>)
    ensures
        r@ == seq![t, t, t],
{
    let mut v: Vec<HugrType> = Vec::new();
    v.push(t);
    v.push(t);
    v.push(t);
    proof {
        assert(v@ =~= seq![t, t, t]);
    }
    v
}

/// The counter triple followed by the given state types.
fn counter_and_state(t: HugrType, ports: &Vec<ValuePort>) -> (r: Vec<HugrType>)
    ensures
        r@ == seq![t, t, t] + spec_port_types(ports@),
{
    let mut v = three_of(t);
    let mut tail = hugr_types_of_ports(ports, 0);
    proof {
        assert(ports@.skip(0) =~= ports@);
    }
    v.append(&mut tail);
    proof {
        assert(v@ =~= seq![t, t, t] + spec_port_types(ports@));
    }
    v
}

/// The counter followed by the given state types: the loop body's input
/// row.
fn counter_then_state(t: HugrType, ports: &Vec<ValuePort>) -> (r: Vec<HugrType>)
    ensures
        r@ == seq![t] + spec_port_types(ports@),
{
    let mut v: Vec<HugrType> = Vec::new();
    v.push(t);
    let mut tail = hugr_types_of_ports(ports, 0);
    proof {
        assert(ports@.skip(0) =~= ports@);
    }
    v.append(&mut tail);
    proof {
        assert(v@ =~= seq![t] + spec_port_types(ports@));
    }
    v
}

/// The rows of the bounded loop's control sum: continue with the counter
/// triple, or break with nothing.
fn counter_tag_rows(t: HugrType) -> (r: Vec<Vec<HugrType>>)
    ensures
        r@.len() == 2,
        r@[0]@ == seq![t, t, t],
        r@[1]@.len() == 0,
{
    let mut v: Vec<Vec<HugrType>> = Vec::new();
    v.push(three_of(t));
    v.push(Vec::new());
    v
}

/// Registering an operation's values on its structured node keeps the
/// context bounded.
pub proof fn lemma_register_both_bounded(
    w0: WiringView,
    ins: Seq<ValuePort>,
    outs: Seq<ValuePort>,
    node: NodeId,
    n: nat,
)
    requires
        node < n,
        wiring_bounded(w0, n),
    ensures
        wiring_bounded(
            crate::wiring::spec_register_out_seq(
                crate::wiring::spec_register_in_seq(w0, ins, node, ins.len() as int),
                outs,
                node,
                outs.len() as int,
            ),
            n,
        ),
{
    crate::wiring::lemma_register_in_seq_facts(w0, ins, node, ins.len() as int, n);
    let w_mid = crate::wiring::spec_register_in_seq(w0, ins, node, ins.len() as int);
    crate::wiring::lemma_register_out_seq_facts(w_mid, outs, node, outs.len() as int, n);
}

/// Translate one structured control-flow operation.
///
/// Conditionals accept only a unit-width discriminant; the symmetric
/// loop forms insist that their input and output type vectors match; the
/// bounded loop reads its counter width off its first input. Each form
/// is built as a sub-graph under one structured node whose external
/// ports take the operation's values.
#[verifier::rlimit(100)]
pub fn build_control_flow_op(
    cfop: &ControlFlowOp,
    op: &Operation,
    g: &mut Graph,
    parent: NodeId,
    ctx: &mut BuildContext,
    calls: &mut CallRegistry,
) -> (r: Result<(), JeffToHugrError>)
    requires
        old(ctx).wf(),
        old(calls).wf(),
        old(g).wf(),
        parent < old(g).nodes@.len(),
        wiring_bounded(old(ctx)@, old(g).nodes@.len() as nat),
        ports_bounded(old(calls)@, old(g).nodes@.len() as nat),
    ensures
        (*final(ctx)).wf(),
        (*final(calls)).wf(),
        (*final(g)).wf(),
        graph_extended(*old(g), *final(g), parent),
        wiring_bounded((*final(ctx))@, (*final(g)).nodes@.len() as nat),
        ports_bounded((*final(calls))@, (*final(g)).nodes@.len() as nat),
        r is Ok && *cfop is Switch ==> spec_switch_built(*op, *old(g), *final(g), parent),
        *cfop is Switch ==> ((op.inputs@.len() == 0 || op.inputs@[0].ty != (JeffType::Int {
            bits: 1,
        })) ==> r is Err),
        *cfop is DoWhile ==> ((op.input_types() != op.output_types() && op.inputs@.len()
            <= usize::MAX - 4 && op.outputs@.len() <= usize::MAX - 4) ==> (r matches Err(e)
            && e matches JeffToHugrError::InvalidOperationIO { op: nm, input_types, output_types }
            && nm@ == "DoWhile"@ && input_types@ == op.input_types() && output_types@
            == op.output_types())),
        *cfop is While ==> ((op.input_types() != op.output_types() && op.inputs@.len()
            <= usize::MAX - 4 && op.outputs@.len() <= usize::MAX - 4) ==> (r matches Err(e)
            && e matches JeffToHugrError::InvalidOperationIO { op: nm, input_types, output_types }
            && nm@ == "While"@ && input_types@ == op.input_types() && output_types@
            == op.output_types())),
        r matches Err(e) ==> spec_cf_err(*cfop, *op, e),
        r is Ok ==> spec_head_ports_registered(
            old(ctx)@,
            (*final(ctx))@,
            *op,
            old(g).nodes@.len() as usize,
        ),
        *cfop matches ControlFlowOp::Switch(sw) ==> (r is Ok ==> spec_switch_cases(
            sw,
            *op,
            *old(g),
            *final(g),
        )),
        *cfop matches ControlFlowOp::DoWhile { body, condition } ==> (r is Ok
            ==> spec_nested_built(
            body,
            spec_port_types(op.inputs@),
            spec_port_types(op.inputs@),
            (old(g).nodes@.len() + 3) as usize,
        ) && (exists|cd: NodeId|
            #![trigger spec_nested_built(
                condition,
                spec_port_types(op.inputs@),
                seq![HugrType::Bool],
                cd,
            )]
            old(g).nodes@.len() < cd && spec_nested_built(
                condition,
                spec_port_types(op.inputs@),
                seq![HugrType::Bool],
                cd,
            ) && (*final(g)).edges@.contains(
                Edge {
                    src: cd,
                    src_port: 0,
                    dst: (old(g).nodes@.len() + 2) as usize,
                    dst_port: 0,
                },
            ) && (forall|k: int|
                0 <= k < op.inputs@.len() ==> #[trigger] (*final(g)).edges@.contains(
                    Edge {
                        src: (old(g).nodes@.len() + 1) as usize,
                        src_port: k as usize,
                        dst: (old(g).nodes@.len() + 3) as usize,
                        dst_port: k as usize,
                    },
                ) && (*final(g)).edges@.contains(
                    Edge {
                        src: (old(g).nodes@.len() + 3) as usize,
                        src_port: k as usize,
                        dst: cd,
                        dst_port: k as usize,
                    },
                ) && (*final(g)).edges@.contains(
                    Edge {
                        src: (old(g).nodes@.len() + 3) as usize,
                        src_port: k as usize,
                        dst: (old(g).nodes@.len() + 2) as usize,
                        dst_port: (k + 1) as usize,
                    },
                )))),
        *cfop matches ControlFlowOp::While { body, condition } ==> (r is Ok
            ==> spec_nested_built(
            condition,
            spec_port_types(op.inputs@),
            seq![HugrType::Bool],
            (old(g).nodes@.len() + 3) as usize,
        ) && (*final(g)).edges@.contains(
            Edge {
                src: (old(g).nodes@.len() + 3) as usize,
                src_port: 0,
                dst: (old(g).nodes@.len() + 2) as usize,
                dst_port: 0,
            },
        ) && (exists|bc: NodeId|
            #![trigger spec_nested_built(
                body,
                spec_port_types(op.inputs@),
                spec_port_types(op.inputs@),
                (bc + 4) as usize,
            )]
            old(g).nodes@.len() < bc && spec_nested_built(
                body,
                spec_port_types(op.inputs@),
                spec_port_types(op.inputs@),
                (bc + 4) as usize,
            ) && (*final(g)).edges@.contains(
                Edge {
                    src: (old(g).nodes@.len() + 3) as usize,
                    src_port: 0,
                    dst: bc,
                    dst_port: 0,
                },
            ) && (forall|k: int|
                0 <= k < op.inputs@.len() ==> #[trigger] (*final(g)).edges@.contains(
                    Edge {
                        src: (old(g).nodes@.len() + 1) as usize,
                        src_port: k as usize,
                        dst: (old(g).nodes@.len() + 3) as usize,
                        dst_port: k as usize,
                    },
                ) && (*final(g)).edges@.contains(
                    Edge {
                        src: (old(g).nodes@.len() + 1) as usize,
                        src_port: k as usize,
                        dst: bc,
                        dst_port: (k + 1) as usize,
                    },
                ) && (*final(g)).edges@.contains(
                    Edge {
                        src: (bc + 2) as usize,
                        src_port: k as usize,
                        dst: (bc + 3) as usize,
                        dst_port: k as usize,
                    },
                ) && (*final(g)).edges@.contains(
                    Edge {
                        src: bc,
                        src_port: k as usize,
                        dst: (old(g).nodes@.len() + 2) as usize,
                        dst_port: (k + 1) as usize,
                    },
                )))),
        *cfop matches ControlFlowOp::For { region } ==> (r is Ok ==> (exists|
            bd: NodeId,
            in_tys: Seq<HugrType>,
        |
            old(g).nodes@.len() < bd && #[trigger] spec_nested_built(
                region,
                in_tys,
                spec_port_types(op.outputs@),
                bd,
            ))),
        r is Ok && (*cfop is DoWhile || *cfop is While) ==> (*final(g)).nodes@.len() > old(g).nodes@.len() && ((*final(g)).nodes@[old(g).nodes@.len() as int].op
            matches NodeOp::TailLoop { just_inputs, just_outputs, rest } && just_inputs@.len() == 0
            && just_outputs@.len() == 0 && rest@ == spec_port_types(op.inputs@)) && (*final(g)).nodes@[old(g).nodes@.len() as int].parent == Some(parent),
        *cfop is For ==> (((op.inputs@.len() == 0 || !(op.inputs@[0].ty is Int))
            && op.inputs@.len() <= usize::MAX - 4 && op.outputs@.len() <= usize::MAX - 4) ==> (
        r matches Err(e) && e matches JeffToHugrError::InvalidOperationIO {
            op: nm,
            input_types,
            output_types,
        } && nm@ == "For"@ && input_types@ == op.input_types() && output_types@
            == op.output_types())),
        r is Ok && *cfop is For ==> (*final(g)).nodes@.len() > old(g).nodes@.len() && ((*final(g)).nodes@[old(g).nodes@.len() as int].op matches NodeOp::TailLoop {
            just_inputs,
            just_outputs,
            rest,
        } && just_inputs@.len() == 3 && just_outputs@.len() == 0 && rest@ == spec_port_types(
            op.outputs@,
        )) && (*final(g)).nodes@[old(g).nodes@.len() as int].parent == Some(parent),
    decreases *cfop, 3int,
{
    if op.inputs.len() > usize::MAX - 4 || op.outputs.len() > usize::MAX - 4 {
        proof {
            lemma_extended_refl(*old(g), *g, parent);
        }
        return Err(JeffToHugrError::unsupported_op("ControlFlowOp".to_owned()));
    }
    match cfop {
        ControlFlowOp::Switch(switch_op) => {
            proof {
                assert(decreases_to!(*cfop => *switch_op));
            }
            build_switch(switch_op, op, g, parent, ctx, calls)
        },
        ControlFlowOp::DoWhile { body, condition } => {
            if !same_port_types(&op.inputs, &op.outputs) {
                proof {
                    lemma_extended_refl(*old(g), *g, parent);
                }
                return Err(JeffToHugrError::invalid_op_io("DoWhile".to_owned(), op));
            }
            let ghost g0 = *g;
            let n_state = op.inputs.len();
            let loop_node = g.add_node(
                parent,
                NodeOp::TailLoop {
                    just_inputs: Vec::new(),
                    just_outputs: Vec::new(),
                    rest: hugr_types_of_ports(&op.inputs, 0),
                },
            );
            let ghost a1 = *g;
            let in_node = g.add_node(
                loop_node,
                NodeOp::Input { types: hugr_types_of_ports(&op.inputs, 0) },
            );
            let ghost p2 = *g;
            proof {
                lemma_widen_container(a1, p2, loop_node, parent);
                lemma_graph_extended_trans(g0, a1, p2, parent);
                assert(graph_extended(a1, p2, parent));
            }
            let out_node = g.add_node(
                loop_node,
                NodeOp::Output { types: flag_and_state(&op.inputs) },
            );
            let ghost p3 = *g;
            proof {
                lemma_widen_container(p2, p3, loop_node, parent);
                lemma_graph_extended_trans(g0, p2, p3, parent);
                lemma_graph_extended_trans(a1, p2, p3, parent);
            }
            let body_dfg = g.add_node(
                loop_node,
                NodeOp::Dfg {
                    signature: Signature {
                        inputs: hugr_types_of_ports(&op.inputs, 0),
                        outputs: hugr_types_of_ports(&op.inputs, 0),
                    },
                },
            );
            let ghost p4 = *g;
            proof {
                lemma_widen_container(p3, p4, loop_node, parent);
                lemma_graph_extended_trans(g0, p3, p4, parent);
                lemma_graph_extended_trans(a1, p3, p4, parent);
                assert(decreases_to!(*cfop => *body));
            }
            let body_in_tys = hugr_types_of_ports(&op.inputs, 0);
            let body_out_tys = hugr_types_of_ports(&op.inputs, 0);
            let ghost bin = body_in_tys@;
            let ghost bout = body_out_tys@;
            let ghost c_pre_b = (*calls)@;
            let left_b = match build_nested(body, body_in_tys, body_out_tys, g, body_dfg, calls) {
                Ok(l) => l,
                Err(e) => {
                    proof {
                        lemma_widen_container(p4, *g, body_dfg, parent);
                        lemma_graph_extended_trans(g0, p4, *g, parent);
                        assert(op.inputs@.skip(0) =~= op.inputs@);
                        assert(bin =~= spec_port_types(op.inputs@));
                        assert(bout =~= spec_port_types(op.inputs@));
                        assert(spec_nested_fails(
                            *body,
                            spec_port_types(op.inputs@),
                            spec_port_types(op.inputs@),
                            e,
                        )) by {
                            let gb = choose|gb: Graph|
                                crate::to_hugr::spec_boundary_added(p4, gb, body_dfg, bin, bout)
                                    && #[trigger] crate::to_hugr::spec_region_fails(
                                    body.operations@,
                                    gb,
                                    body_dfg,
                                    crate::to_hugr::spec_region_seed(
                                        *body,
                                        p4.nodes@.len() as usize,
                                        (p4.nodes@.len() + 1) as usize,
                                        bin.len() as int,
                                        bout.len() as int,
                                    ),
                                    c_pre_b,
                                    e,
                                );
                            assert(crate::to_hugr::spec_boundary_added(
                                p4,
                                gb,
                                body_dfg,
                                spec_port_types(op.inputs@),
                                spec_port_types(op.inputs@),
                            ));
                            let d = c_pre_b.dom();
                        }
                    }
                    return Err(e);
                },
            };
            let ghost p5 = *g;
            let ghost lb = left_b@;
            proof {
                lemma_widen_container(p4, p5, body_dfg, parent);
                lemma_graph_extended_trans(g0, p4, p5, parent);
                lemma_graph_extended_trans(a1, p4, p5, parent);
                lemma_wiring_mono(ctx@, g0.nodes@.len() as nat, p5.nodes@.len() as nat);
                assert(op.inputs@.skip(0) =~= op.inputs@);
                assert(bin =~= spec_port_types(op.inputs@));
                assert(bout =~= spec_port_types(op.inputs@));
                lemma_nested_built_intro(
                    *body,
                    bin,
                    bout,
                    spec_port_types(op.inputs@),
                    spec_port_types(op.inputs@),
                    body_dfg,
                    p4,
                    p5,
                    c_pre_b,
                    (*calls)@,
                    lb,
                );
                assert(body_dfg == (old(g).nodes@.len() + 3) as usize);
            }
            absorb_child(ctx, left_b, g);
            connect_range(g, in_node, 0, body_dfg, 0, n_state);
            let ghost p6 = *g;
            proof {
                assert(graph_extended(p5, p6, parent));
                lemma_graph_extended_trans(g0, p5, p6, parent);
                lemma_graph_extended_trans(a1, p5, p6, parent);
            }
            let cond_dfg = g.add_node(
                loop_node,
                NodeOp::Dfg {
                    signature: Signature {
                        inputs: hugr_types_of_ports(&op.inputs, 0),
                        outputs: bool_row(),
                    },
                },
            );
            let ghost p7 = *g;
            proof {
                lemma_widen_container(p6, p7, loop_node, parent);
                lemma_graph_extended_trans(g0, p6, p7, parent);
                lemma_graph_extended_trans(a1, p6, p7, parent);
                assert(decreases_to!(*cfop => *condition));
            }
            let cond_in_tys = hugr_types_of_ports(&op.inputs, 0);
            let cond_out_tys = bool_row();
            let ghost cin = cond_in_tys@;
            let ghost cout = cond_out_tys@;
            let ghost c_pre_c = (*calls)@;
            let left_c = match build_nested(condition, cond_in_tys, cond_out_tys, g, cond_dfg, calls) {
                Ok(l) => l,
                Err(e) => {
                    proof {
                        lemma_widen_container(p7, *g, cond_dfg, parent);
                        lemma_graph_extended_trans(g0, p7, *g, parent);
                        assert(op.inputs@.skip(0) =~= op.inputs@);
                        assert(cin =~= spec_port_types(op.inputs@));
                        assert(cout =~= seq![HugrType::Bool]);
                        assert(spec_nested_fails(
                            *condition,
                            spec_port_types(op.inputs@),
                            seq![HugrType::Bool],
                            e,
                        )) by {
                            let gb = choose|gb: Graph|
                                crate::to_hugr::spec_boundary_added(p7, gb, cond_dfg, cin, cout)
                                    && #[trigger] crate::to_hugr::spec_region_fails(
                                    condition.operations@,
                                    gb,
                                    cond_dfg,
                                    crate::to_hugr::spec_region_seed(
                                        *condition,
                                        p7.nodes@.len() as usize,
                                        (p7.nodes@.len() + 1) as usize,
                                        cin.len() as int,
                                        cout.len() as int,
                                    ),
                                    c_pre_c,
                                    e,
                                );
                            assert(crate::to_hugr::spec_boundary_added(
                                p7,
                                gb,
                                cond_dfg,
                                spec_port_types(op.inputs@),
                                seq![HugrType::Bool],
                            ));
                            let d = c_pre_c.dom();
                        }
                    }
                    return Err(e);
                },
            };
            let ghost p8 = *g;
            let ghost lc = left_c@;
            proof {
                lemma_widen_container(p7, p8, cond_dfg, parent);
                lemma_graph_extended_trans(g0, p7, p8, parent);
                lemma_graph_extended_trans(a1, p7, p8, parent);
                lemma_wiring_mono(ctx@, p6.nodes@.len() as nat, p8.nodes@.len() as nat);
                assert(op.inputs@.skip(0) =~= op.inputs@);
                assert(cin =~= spec_port_types(op.inputs@));
                lemma_nested_built_intro(
                    *condition,
                    cin,
                    cout,
                    spec_port_types(op.inputs@),
                    seq![HugrType::Bool],
                    cond_dfg,
                    p7,
                    p8,
                    c_pre_c,
                    (*calls)@,
                    lc,
                );
                assert(cond_dfg > old(g).nodes@.len());
            }
            absorb_child(ctx, left_c, g);
            connect_range(g, body_dfg, 0, cond_dfg, 0, n_state);
            let ghost p9 = *g;
            g.connect(cond_dfg, 0, out_node, 0);
            let ghost p10 = *g;
            connect_range(g, body_dfg, 0, out_node, 1, n_state);
            proof {
                assert(graph_extended(p8, p9, parent));
                lemma_graph_extended_trans(g0, p8, p9, parent);
                assert(graph_extended(p9, p10, parent));
                lemma_graph_extended_trans(g0, p9, p10, parent);
                assert(graph_extended(p10, *g, parent));
                lemma_graph_extended_trans(g0, p10, *g, parent);
                lemma_graph_extended_trans(a1, p8, p9, parent);
                lemma_graph_extended_trans(a1, p9, p10, parent);
                lemma_graph_extended_trans(a1, p10, *g, parent);
            }
            let ghost w_reg = ctx@;
            ctx.register_inputs(&op.inputs, op.inputs.len(), loop_node);
            ctx.register_outputs(&op.outputs, op.outputs.len(), loop_node);
            proof {
                lemma_register_both_bounded(
                    w_reg,
                    op.inputs@,
                    op.outputs@,
                    loop_node,
                    (*g).nodes@.len() as nat,
                );
                assert(spec_head_ports_registered(
                    old(ctx)@,
                    ctx@,
                    *op,
                    old(g).nodes@.len() as usize,
                )) by {
                    assert(w_reg.alias == old(ctx)@.alias);
                    assert(ctx@ == crate::wiring::spec_register_out_seq(
                        crate::wiring::spec_register_in_seq(
                            w_reg,
                            op.inputs@,
                            old(g).nodes@.len() as usize,
                            op.inputs@.len() as int,
                        ),
                        op.outputs@,
                        old(g).nodes@.len() as usize,
                        op.outputs@.len() as int,
                    ));
                }
                lemma_prefix_index(a1.nodes@, (*g).nodes@, g0.nodes@.len() as int);
                assert(op.inputs@.skip(0) =~= op.inputs@);
                assert(in_node == (old(g).nodes@.len() + 1) as usize);
                assert(out_node == (old(g).nodes@.len() + 2) as usize);
                assert(p6.edges@.is_prefix_of(p8.edges@)) by {
                    assert(p7.edges@ == p6.edges@);
                }
                assert(p8.edges@.is_prefix_of(p9.edges@)) by {
                    assert(p9.edges@.subrange(0, p8.edges@.len() as int) =~= p8.edges@);
                }
                assert(p9.edges@.is_prefix_of(p10.edges@)) by {
                    assert(p10.edges@.subrange(0, p9.edges@.len() as int) =~= p9.edges@);
                }
                assert(p10.edges@.is_prefix_of((*g).edges@)) by {
                    assert((*g).edges@.subrange(0, p10.edges@.len() as int) =~= p10.edges@);
                }
                crate::wiring::lemma_prefix_trans(p6.edges@, p8.edges@, p9.edges@);
                crate::wiring::lemma_prefix_trans(p6.edges@, p9.edges@, p10.edges@);
                crate::wiring::lemma_prefix_trans(p6.edges@, p10.edges@, (*g).edges@);
                crate::wiring::lemma_prefix_trans(p9.edges@, p10.edges@, (*g).edges@);
                crate::wiring::lemma_prefix_contains(p6.edges@, (*g).edges@);
                crate::wiring::lemma_prefix_contains(p9.edges@, (*g).edges@);
                crate::wiring::lemma_prefix_contains(p10.edges@, (*g).edges@);
                assert((*g).edges@.contains(
                    Edge {
                        src: cond_dfg,
                        src_port: 0,
                        dst: (old(g).nodes@.len() + 2) as usize,
                        dst_port: 0,
                    },
                )) by {
                    assert(p10.edges@[p9.edges@.len() as int] == Edge {
                        src: cond_dfg,
                        src_port: 0,
                        dst: out_node,
                        dst_port: 0,
                    });
                    assert(p10.edges@.contains(
                        Edge { src: cond_dfg, src_port: 0, dst: out_node, dst_port: 0 },
                    ));
                }
                assert forall|k: int|
                    0 <= k < op.inputs@.len() implies #[trigger] (*g).edges@.contains(
                    Edge {
                        src: (old(g).nodes@.len() + 1) as usize,
                        src_port: k as usize,
                        dst: (old(g).nodes@.len() + 3) as usize,
                        dst_port: k as usize,
                    },
                ) && (*g).edges@.contains(
                    Edge {
                        src: (old(g).nodes@.len() + 3) as usize,
                        src_port: k as usize,
                        dst: cond_dfg,
                        dst_port: k as usize,
                    },
                ) && (*g).edges@.contains(
                    Edge {
                        src: (old(g).nodes@.len() + 3) as usize,
                        src_port: k as usize,
                        dst: (old(g).nodes@.len() + 2) as usize,
                        dst_port: (k + 1) as usize,
                    },
                ) by {
                    lemma_range_edge_contained(
                        p5.edges@,
                        p6.edges@,
                        in_node,
                        0,
                        body_dfg,
                        0,
                        n_state,
                        k,
                    );
                    lemma_range_edge_contained(
                        p8.edges@,
                        p9.edges@,
                        body_dfg,
                        0,
                        cond_dfg,
                        0,
                        n_state,
                        k,
                    );
                    lemma_range_edge_contained(
                        p10.edges@,
                        (*g).edges@,
                        body_dfg,
                        0,
                        out_node,
                        1,
                        n_state,
                        k,
                    );
                    assert((0 + k) as usize == k as usize);
                    assert((1 + k) as usize == (k + 1) as usize);
                }
            }
            Ok(())
        },
        ControlFlowOp::While { body, condition } => {
            if !same_port_types(&op.inputs, &op.outputs) {
                proof {
                    lemma_extended_refl(*old(g), *g, parent);
                }
                return Err(JeffToHugrError::invalid_op_io("While".to_owned(), op));
            }
            let ghost g0 = *g;
            let n_state = op.inputs.len();
            let loop_node = g.add_node(
                parent,
                NodeOp::TailLoop {
                    just_inputs: Vec::new(),
                    just_outputs: Vec::new(),
                    rest: hugr_types_of_ports(&op.inputs, 0),
                },
            );
            let ghost a1 = *g;
            let in_node = g.add_node(
                loop_node,
                NodeOp::Input { types: hugr_types_of_ports(&op.inputs, 0) },
            );
            let ghost p2 = *g;
            let out_node = g.add_node(
                loop_node,
                NodeOp::Output { types: flag_and_state(&op.inputs) },
            );
            let ghost p3 = *g;
            let cond_dfg = g.add_node(
                loop_node,
                NodeOp::Dfg {
                    signature: Signature {
                        inputs: hugr_types_of_ports(&op.inputs, 0),
                        outputs: bool_row(),
                    },
                },
            );
            let ghost p4 = *g;
            proof {
                lemma_widen_container(a1, p2, loop_node, parent);
                lemma_graph_extended_trans(g0, a1, p2, parent);
                lemma_widen_container(p2, p3, loop_node, parent);
                lemma_graph_extended_trans(g0, p2, p3, parent);
                lemma_widen_container(p3, p4, loop_node, parent);
                lemma_graph_extended_trans(g0, p3, p4, parent);
                lemma_graph_extended_trans(a1, p2, p3, parent);
                lemma_graph_extended_trans(a1, p3, p4, parent);
                assert(decreases_to!(*cfop => *condition));
            }
            let cond_in_tys = hugr_types_of_ports(&op.inputs, 0);
            let cond_out_tys = bool_row();
            let ghost cin = cond_in_tys@;
            let ghost cout = cond_out_tys@;
            let ghost c_pre_c = (*calls)@;
            let left_c = match build_nested(condition, cond_in_tys, cond_out_tys, g, cond_dfg, calls) {
                Ok(l) => l,
                Err(e) => {
                    proof {
                        lemma_widen_container(p4, *g, cond_dfg, parent);
                        lemma_graph_extended_trans(g0, p4, *g, parent);
                        assert(op.inputs@.skip(0) =~= op.inputs@);
                        assert(cin =~= spec_port_types(op.inputs@));
                        assert(cout =~= seq![HugrType::Bool]);
                        assert(spec_nested_fails(
                            *condition,
                            spec_port_types(op.inputs@),
                            seq![HugrType::Bool],
                            e,
                        )) by {
                            let gb = choose|gb: Graph|
                                crate::to_hugr::spec_boundary_added(p4, gb, cond_dfg, cin, cout)
                                    && #[trigger] crate::to_hugr::spec_region_fails(
                                    condition.operations@,
                                    gb,
                                    cond_dfg,
                                    crate::to_hugr::spec_region_seed(
                                        *condition,
                                        p4.nodes@.len() as usize,
                                        (p4.nodes@.len() + 1) as usize,
                                        cin.len() as int,
                                        cout.len() as int,
                                    ),
                                    c_pre_c,
                                    e,
                                );
                            assert(crate::to_hugr::spec_boundary_added(
                                p4,
                                gb,
                                cond_dfg,
                                spec_port_types(op.inputs@),
                                seq![HugrType::Bool],
                            ));
                            let d = c_pre_c.dom();
                        }
                    }
                    return Err(e);
                },
            };
            let ghost p5 = *g;
            let ghost lc = left_c@;
            proof {
                lemma_widen_container(p4, p5, cond_dfg, parent);
                lemma_graph_extended_trans(g0, p4, p5, parent);
                lemma_graph_extended_trans(a1, p4, p5, parent);
                lemma_wiring_mono(ctx@, g0.nodes@.len() as nat, p5.nodes@.len() as nat);
                assert(op.inputs@.skip(0) =~= op.inputs@);
                assert(cin =~= spec_port_types(op.inputs@));
                lemma_nested_built_intro(
                    *condition,
                    cin,
                    cout,
                    spec_port_types(op.inputs@),
                    seq![HugrType::Bool],
                    cond_dfg,
                    p4,
                    p5,
                    c_pre_c,
                    (*calls)@,
                    lc,
                );
                assert(cond_dfg == (old(g).nodes@.len() + 3) as usize);
            }
            absorb_child(ctx, left_c, g);
            connect_range(g, in_node, 0, cond_dfg, 0, n_state);
            let ghost p6 = *g;
            let bcond = g.add_node(
                loop_node,
                NodeOp::Conditional {
                    sum_rows: two_empty_rows(),
                    other_inputs: hugr_types_of_ports(&op.inputs, 0),
                    outputs: hugr_types_of_ports(&op.inputs, 0),
                },
            );
            let ghost p7 = *g;
            g.connect(cond_dfg, 0, bcond, 0);
            let ghost p8 = *g;
            connect_range(g, in_node, 0, bcond, 1, n_state);
            let ghost p9 = *g;
            proof {
                assert(graph_extended(p5, p6, parent));
                lemma_graph_extended_trans(g0, p5, p6, parent);
                lemma_widen_container(p6, p7, loop_node, parent);
                lemma_graph_extended_trans(g0, p6, p7, parent);
                assert(graph_extended(p7, p8, parent));
                lemma_graph_extended_trans(g0, p7, p8, parent);
                assert(graph_extended(p8, p9, parent));
                lemma_graph_extended_trans(g0, p8, p9, parent);
                lemma_graph_extended_trans(a1, p5, p6, parent);
                lemma_graph_extended_trans(a1, p6, p7, parent);
                lemma_graph_extended_trans(a1, p7, p8, parent);
                lemma_graph_extended_trans(a1, p8, p9, parent);
            }
            // the untaken branch passes the state straight through
            let c0 = g.add_node(
                bcond,
                NodeOp::Case {
                    signature: Signature {
                        inputs: hugr_types_of_ports(&op.inputs, 0),
                        outputs: hugr_types_of_ports(&op.inputs, 0),
                    },
                },
            );
            let ghost p10 = *g;
            let c0_in = g.add_node(
                c0,
                NodeOp::Input { types: hugr_types_of_ports(&op.inputs, 0) },
            );
            let ghost p11 = *g;
            let c0_out = g.add_node(
                c0,
                NodeOp::Output { types: hugr_types_of_ports(&op.inputs, 0) },
            );
            let ghost p12 = *g;
            connect_range(g, c0_in, 0, c0_out, 0, n_state);
            let ghost p13 = *g;
            let c1 = g.add_node(
                bcond,
                NodeOp::Case {
                    signature: Signature {
                        inputs: hugr_types_of_ports(&op.inputs, 0),
                        outputs: hugr_types_of_ports(&op.inputs, 0),
                    },
                },
            );
            let ghost p14 = *g;
            proof {
                lemma_widen_container(p9, p10, bcond, parent);
                lemma_graph_extended_trans(g0, p9, p10, parent);
                lemma_widen_container(p10, p11, c0, parent);
                lemma_graph_extended_trans(g0, p10, p11, parent);
                lemma_widen_container(p11, p12, c0, parent);
                lemma_graph_extended_trans(g0, p11, p12, parent);
                assert(graph_extended(p12, p13, parent));
                lemma_graph_extended_trans(g0, p12, p13, parent);
                lemma_widen_container(p13, p14, bcond, parent);
                lemma_graph_extended_trans(g0, p13, p14, parent);
                lemma_graph_extended_trans(a1, p9, p10, parent);
                lemma_graph_extended_trans(a1, p10, p11, parent);
                lemma_graph_extended_trans(a1, p11, p12, parent);
                lemma_graph_extended_trans(a1, p12, p13, parent);
                lemma_graph_extended_trans(a1, p13, p14, parent);
                assert(decreases_to!(*cfop => *body));
            }
            let body_in_tys = hugr_types_of_ports(&op.inputs, 0);
            let body_out_tys = hugr_types_of_ports(&op.inputs, 0);
            let ghost bin = body_in_tys@;
            let ghost bout = body_out_tys@;
            let ghost c_pre_b = (*calls)@;
            let left_b = match build_nested(body, body_in_tys, body_out_tys, g, c1, calls) {
                Ok(l) => l,
                Err(e) => {
                    proof {
                        lemma_widen_container(p14, *g, c1, parent);
                        lemma_graph_extended_trans(g0, p14, *g, parent);
                        assert(op.inputs@.skip(0) =~= op.inputs@);
                        assert(bin =~= spec_port_types(op.inputs@));
                        assert(bout =~= spec_port_types(op.inputs@));
                        assert(spec_nested_fails(
                            *body,
                            spec_port_types(op.inputs@),
                            spec_port_types(op.inputs@),
                            e,
                        )) by {
                            let gb = choose|gb: Graph|
                                crate::to_hugr::spec_boundary_added(p14, gb, c1, bin, bout)
                                    && #[trigger] crate::to_hugr::spec_region_fails(
                                    body.operations@,
                                    gb,
                                    c1,
                                    crate::to_hugr::spec_region_seed(
                                        *body,
                                        p14.nodes@.len() as usize,
                                        (p14.nodes@.len() + 1) as usize,
                                        bin.len() as int,
                                        bout.len() as int,
                                    ),
                                    c_pre_b,
                                    e,
                                );
                            assert(crate::to_hugr::spec_boundary_added(
                                p14,
                                gb,
                                c1,
                                spec_port_types(op.inputs@),
                                spec_port_types(op.inputs@),
                            ));
                            let d = c_pre_b.dom();
                        }
                    }
                    return Err(e);
                },
            };
            let ghost p15 = *g;
            let ghost lb = left_b@;
            proof {
                lemma_widen_container(p14, p15, c1, parent);
                lemma_graph_extended_trans(g0, p14, p15, parent);
                lemma_graph_extended_trans(a1, p14, p15, parent);
                lemma_wiring_mono(ctx@, p6.nodes@.len() as nat, p15.nodes@.len() as nat);
                assert(op.inputs@.skip(0) =~= op.inputs@);
                assert(bin =~= spec_port_types(op.inputs@));
                assert(bout =~= spec_port_types(op.inputs@));
                lemma_nested_built_intro(
                    *body,
                    bin,
                    bout,
                    spec_port_types(op.inputs@),
                    spec_port_types(op.inputs@),
                    c1,
                    p14,
                    p15,
                    c_pre_b,
                    (*calls)@,
                    lb,
                );
                assert(c1 > old(g).nodes@.len());
            }
            absorb_child(ctx, left_b, g);
            let ghost p16 = *g;
            g.connect(cond_dfg, 0, out_node, 0);
            let ghost p17 = *g;
            connect_range(g, bcond, 0, out_node, 1, n_state);
            proof {
                assert(graph_extended(p16, p17, parent));
                lemma_graph_extended_trans(g0, p16, p17, parent);
                assert(graph_extended(p17, *g, parent));
                lemma_graph_extended_trans(g0, p17, *g, parent);
                lemma_graph_extended_trans(a1, p16, p17, parent);
                lemma_graph_extended_trans(a1, p17, *g, parent);
            }
            let ghost w_reg = ctx@;
            ctx.register_inputs(&op.inputs, op.inputs.len(), loop_node);
            ctx.register_outputs(&op.outputs, op.outputs.len(), loop_node);
            proof {
                lemma_register_both_bounded(
                    w_reg,
                    op.inputs@,
                    op.outputs@,
                    loop_node,
                    (*g).nodes@.len() as nat,
                );
                assert(spec_head_ports_registered(
                    old(ctx)@,
                    ctx@,
                    *op,
                    old(g).nodes@.len() as usize,
                )) by {
                    assert(w_reg.alias == old(ctx)@.alias);
                    assert(ctx@ == crate::wiring::spec_register_out_seq(
                        crate::wiring::spec_register_in_seq(
                            w_reg,
                            op.inputs@,
                            old(g).nodes@.len() as usize,
                            op.inputs@.len() as int,
                        ),
                        op.outputs@,
                        old(g).nodes@.len() as usize,
                        op.outputs@.len() as int,
                    ));
                }
                lemma_prefix_index(a1.nodes@, (*g).nodes@, g0.nodes@.len() as int);
                assert(op.inputs@.skip(0) =~= op.inputs@);
                assert(in_node == (old(g).nodes@.len() + 1) as usize);
                assert(out_node == (old(g).nodes@.len() + 2) as usize);
                assert(cond_dfg == (old(g).nodes@.len() + 3) as usize);
                assert(c0_in == (bcond + 2) as usize);
                assert(c0_out == (bcond + 3) as usize);
                assert(c1 == (bcond + 4) as usize);
                assert(p6.edges@.is_prefix_of(p8.edges@)) by {
                    assert(p7.edges@ == p6.edges@);
                    assert(p8.edges@.subrange(0, p7.edges@.len() as int) =~= p7.edges@);
                }
                assert(p8.edges@.is_prefix_of(p9.edges@)) by {
                    assert(p9.edges@.subrange(0, p8.edges@.len() as int) =~= p8.edges@);
                }
                assert(p12.edges@ == p9.edges@);
                assert(p13.edges@.is_prefix_of(p15.edges@)) by {
                    assert(p14.edges@ == p13.edges@);
                }
                assert(p16.edges@ == p15.edges@);
                assert(p16.edges@.is_prefix_of(p17.edges@)) by {
                    assert(p17.edges@.subrange(0, p16.edges@.len() as int) =~= p16.edges@);
                }
                assert(p17.edges@.is_prefix_of((*g).edges@)) by {
                    assert((*g).edges@.subrange(0, p17.edges@.len() as int) =~= p17.edges@);
                }
                assert(p9.edges@.is_prefix_of(p13.edges@)) by {
                    assert(p13.edges@.subrange(0, p12.edges@.len() as int) =~= p12.edges@);
                }
                crate::wiring::lemma_prefix_trans(p6.edges@, p8.edges@, p9.edges@);
                crate::wiring::lemma_prefix_trans(p13.edges@, p15.edges@, p17.edges@);
                crate::wiring::lemma_prefix_trans(p13.edges@, p17.edges@, (*g).edges@);
                crate::wiring::lemma_prefix_trans(p9.edges@, p13.edges@, (*g).edges@);
                crate::wiring::lemma_prefix_trans(p8.edges@, p9.edges@, (*g).edges@);
                crate::wiring::lemma_prefix_trans(p6.edges@, p8.edges@, (*g).edges@);
                crate::wiring::lemma_prefix_contains(p6.edges@, (*g).edges@);
                crate::wiring::lemma_prefix_contains(p8.edges@, (*g).edges@);
                crate::wiring::lemma_prefix_contains(p9.edges@, (*g).edges@);
                crate::wiring::lemma_prefix_contains(p13.edges@, (*g).edges@);
                assert((*g).edges@.contains(
                    Edge { src: cond_dfg, src_port: 0, dst: bcond, dst_port: 0 },
                )) by {
                    assert(p8.edges@[p7.edges@.len() as int] == Edge {
                        src: cond_dfg,
                        src_port: 0,
                        dst: bcond,
                        dst_port: 0,
                    });
                    assert(p8.edges@.contains(
                        Edge { src: cond_dfg, src_port: 0, dst: bcond, dst_port: 0 },
                    ));
                }
                assert((*g).edges@.contains(
                    Edge {
                        src: cond_dfg,
                        src_port: 0,
                        dst: (old(g).nodes@.len() + 2) as usize,
                        dst_port: 0,
                    },
                )) by {
                    assert(p17.edges@[p16.edges@.len() as int] == Edge {
                        src: cond_dfg,
                        src_port: 0,
                        dst: out_node,
                        dst_port: 0,
                    });
                    assert(p17.edges@.contains(
                        Edge { src: cond_dfg, src_port: 0, dst: out_node, dst_port: 0 },
                    ));
                    crate::wiring::lemma_prefix_contains(p17.edges@, (*g).edges@);
                }
                assert forall|k: int|
                    0 <= k < op.inputs@.len() implies #[trigger] (*g).edges@.contains(
                    Edge {
                        src: (old(g).nodes@.len() + 1) as usize,
                        src_port: k as usize,
                        dst: (old(g).nodes@.len() + 3) as usize,
                        dst_port: k as usize,
                    },
                ) && (*g).edges@.contains(
                    Edge {
                        src: (old(g).nodes@.len() + 1) as usize,
                        src_port: k as usize,
                        dst: bcond,
                        dst_port: (k + 1) as usize,
                    },
                ) && (*g).edges@.contains(
                    Edge {
                        src: (bcond + 2) as usize,
                        src_port: k as usize,
                        dst: (bcond + 3) as usize,
                        dst_port: k as usize,
                    },
                ) && (*g).edges@.contains(
                    Edge {
                        src: bcond,
                        src_port: k as usize,
                        dst: (old(g).nodes@.len() + 2) as usize,
                        dst_port: (k + 1) as usize,
                    },
                ) by {
                    lemma_range_edge_contained(
                        p5.edges@,
                        p6.edges@,
                        in_node,
                        0,
                        cond_dfg,
                        0,
                        n_state,
                        k,
                    );
                    lemma_range_edge_contained(
                        p8.edges@,
                        p9.edges@,
                        in_node,
                        0,
                        bcond,
                        1,
                        n_state,
                        k,
                    );
                    lemma_range_edge_contained(
                        p12.edges@,
                        p13.edges@,
                        c0_in,
                        0,
                        c0_out,
                        0,
                        n_state,
                        k,
                    );
                    lemma_range_edge_contained(
                        p17.edges@,
                        (*g).edges@,
                        bcond,
                        0,
                        out_node,
                        1,
                        n_state,
                        k,
                    );
                    assert((0 + k) as usize == k as usize);
                    assert((1 + k) as usize == (k + 1) as usize);
                }
            }
            Ok(())
        },
        ControlFlowOp::For { region } => {
            proof {
                assert(decreases_to!(*cfop => *region));
            }
            build_for(region, op, g, parent, ctx, calls)
        },
    }
}


/// Lower a multi-way branch with a unit-width discriminant into a
/// structured conditional with two cases: branch 0 maps directly; branch
/// 1 maps to the second explicit branch if present, else the declared
/// default branch, else an identity pass-through.
#[verifier::rlimit(100)]
fn build_switch(
    switch_op: &SwitchOp,
    op: &Operation,
    g: &mut Graph,
    parent: NodeId,
    ctx: &mut BuildContext,
    calls: &mut CallRegistry,
) -> (r: Result<(), JeffToHugrError>)
    requires
        old(ctx).wf(),
        old(calls).wf(),
        old(g).wf(),
        parent < old(g).nodes@.len(),
        wiring_bounded(old(ctx)@, old(g).nodes@.len() as nat),
        ports_bounded(old(calls)@, old(g).nodes@.len() as nat),
    ensures
        (*final(ctx)).wf(),
        (*final(calls)).wf(),
        (*final(g)).wf(),
        graph_extended(*old(g), *final(g), parent),
        wiring_bounded((*final(ctx))@, (*final(g)).nodes@.len() as nat),
        ports_bounded((*final(calls))@, (*final(g)).nodes@.len() as nat),
        r is Ok ==> spec_switch_built(*op, *old(g), *final(g), parent),
        r is Ok ==> spec_switch_cases(*switch_op, *op, *old(g), *final(g)),
        r is Ok ==> spec_head_ports_registered(
            old(ctx)@,
            (*final(ctx))@,
            *op,
            old(g).nodes@.len() as usize,
        ),
        (op.inputs@.len() == 0 || op.inputs@[0].ty != (JeffType::Int { bits: 1 })) ==> r is Err,
        r matches Err(e) ==> (((op.inputs@.len() == 0 || op.inputs@[0].ty != (JeffType::Int {
            bits: 1,
        }) || switch_op.branches@.len() == 0) && e is UnsupportedOperation) || (exists|br: Region|
            #![trigger spec_nested_fails(
                br,
                spec_port_types(op.inputs@.skip(1)),
                spec_port_types(op.outputs@),
                e,
            )]
            (switch_op.branches@.contains(br) || (switch_op.default_branch matches Some(d) && br
                == d)) && spec_nested_fails(
                br,
                spec_port_types(op.inputs@.skip(1)),
                spec_port_types(op.outputs@),
                e,
            ))),
    decreases *switch_op, 3int,
{
    let selector_ok: bool = if op.inputs.len() == 0 {
        false
    } else {
        match op.inputs[0].ty {
            JeffType::Int { bits } => bits == 1,
            _ => false,
        }
    };
    if !selector_ok {
        proof {
            lemma_extended_refl(*old(g), *g, parent);
        }
        return Err(JeffToHugrError::unsupported_op("Switch".to_owned()));
    }
    if switch_op.branches.len() == 0 {
        proof {
            lemma_extended_refl(*old(g), *g, parent);
        }
        return Err(JeffToHugrError::unsupported_op("Switch".to_owned()));
    }
    let ghost g0 = *g;
    let n0 = g.add_node(
        parent,
        NodeOp::Conditional {
            sum_rows: two_empty_rows(),
            other_inputs: hugr_types_of_ports(&op.inputs, 1),
            outputs: hugr_types_of_ports(&op.outputs, 0),
        },
    );
    let ghost s1 = *g;
    let c0 = g.add_node(
        n0,
        NodeOp::Case {
            signature: Signature {
                inputs: hugr_types_of_ports(&op.inputs, 1),
                outputs: hugr_types_of_ports(&op.outputs, 0),
            },
        },
    );
    let ghost s2 = *g;
    proof {
        lemma_widen_container(s1, s2, n0, parent);
        lemma_graph_extended_trans(g0, s1, s2, parent);
        assert(decreases_to!(*switch_op => switch_op.branches));
        assert(decreases_to!(switch_op.branches => switch_op.branches@));
        assert(decreases_to!(switch_op.branches@ => switch_op.branches@[0]));
    }
    let b0_in_tys = hugr_types_of_ports(&op.inputs, 1);
    let b0_out_tys = hugr_types_of_ports(&op.outputs, 0);
    let ghost b0in = b0_in_tys@;
    let ghost b0out = b0_out_tys@;
    let ghost c_pre_0 = (*calls)@;
    let left0 = match build_nested(&switch_op.branches[0], b0_in_tys, b0_out_tys, g, c0, calls) {
        Ok(l) => l,
        Err(e) => {
            proof {
                lemma_widen_container(s2, *g, c0, parent);
                lemma_graph_extended_trans(g0, s2, *g, parent);
                assert(op.outputs@.skip(0) =~= op.outputs@);
                assert(b0in =~= spec_port_types(op.inputs@.skip(1)));
                assert(b0out =~= spec_port_types(op.outputs@));
                assert(spec_nested_fails(
                    switch_op.branches@[0],
                    spec_port_types(op.inputs@.skip(1)),
                    spec_port_types(op.outputs@),
                    e,
                )) by {
                    let gb = choose|gb: Graph|
                        crate::to_hugr::spec_boundary_added(s2, gb, c0, b0in, b0out)
                            && #[trigger] crate::to_hugr::spec_region_fails(
                            switch_op.branches@[0].operations@,
                            gb,
                            c0,
                            crate::to_hugr::spec_region_seed(
                                switch_op.branches@[0],
                                s2.nodes@.len() as usize,
                                (s2.nodes@.len() + 1) as usize,
                                b0in.len() as int,
                                b0out.len() as int,
                            ),
                            c_pre_0,
                            e,
                        );
                    assert(crate::to_hugr::spec_boundary_added(
                        s2,
                        gb,
                        c0,
                        spec_port_types(op.inputs@.skip(1)),
                        spec_port_types(op.outputs@),
                    ));
                    let d = c_pre_0.dom();
                }
                assert(switch_op.branches@.contains(switch_op.branches@[0]));
            }
            return Err(e);
        },
    };
    let ghost s3 = *g;
    let ghost l0 = left0@;
    proof {
        lemma_widen_container(s2, s3, c0, parent);
        lemma_graph_extended_trans(g0, s2, s3, parent);
        lemma_wiring_mono(ctx@, g0.nodes@.len() as nat, s3.nodes@.len() as nat);
        assert(op.outputs@.skip(0) =~= op.outputs@);
        assert(b0in =~= spec_port_types(op.inputs@.skip(1)));
        assert(b0out =~= spec_port_types(op.outputs@));
        lemma_nested_built_intro(
            switch_op.branches@[0],
            b0in,
            b0out,
            spec_port_types(op.inputs@.skip(1)),
            spec_port_types(op.outputs@),
            c0,
            s2,
            s3,
            c_pre_0,
            (*calls)@,
            l0,
        );
    }
    absorb_child(ctx, left0, g);
    let c1 = g.add_node(
        n0,
        NodeOp::Case {
            signature: Signature {
                inputs: hugr_types_of_ports(&op.inputs, 1),
                outputs: hugr_types_of_ports(&op.outputs, 0),
            },
        },
    );
    let ghost s4 = *g;
    proof {
        lemma_widen_container(s3, s4, n0, parent);
        lemma_graph_extended_trans(g0, s3, s4, parent);
    }
    if switch_op.branches.len() > 1 {
        proof {
            assert(decreases_to!(*switch_op => switch_op.branches));
            assert(decreases_to!(switch_op.branches => switch_op.branches@));
            assert(decreases_to!(switch_op.branches@ => switch_op.branches@[1]));
        }
        let b1_in_tys = hugr_types_of_ports(&op.inputs, 1);
        let b1_out_tys = hugr_types_of_ports(&op.outputs, 0);
        let ghost b1in = b1_in_tys@;
        let ghost b1out = b1_out_tys@;
        let ghost c_pre_1 = (*calls)@;
        let left1 = match build_nested(&switch_op.branches[1], b1_in_tys, b1_out_tys, g, c1, calls) {
            Ok(l) => l,
            Err(e) => {
                proof {
                    lemma_widen_container(s4, *g, c1, parent);
                    lemma_graph_extended_trans(g0, s4, *g, parent);
                    assert(op.outputs@.skip(0) =~= op.outputs@);
                    assert(b1in =~= spec_port_types(op.inputs@.skip(1)));
                    assert(b1out =~= spec_port_types(op.outputs@));
                    assert(spec_nested_fails(
                        switch_op.branches@[1],
                        spec_port_types(op.inputs@.skip(1)),
                        spec_port_types(op.outputs@),
                        e,
                    )) by {
                        let gb = choose|gb: Graph|
                            crate::to_hugr::spec_boundary_added(s4, gb, c1, b1in, b1out)
                                && #[trigger] crate::to_hugr::spec_region_fails(
                                switch_op.branches@[1].operations@,
                                gb,
                                c1,
                                crate::to_hugr::spec_region_seed(
                                    switch_op.branches@[1],
                                    s4.nodes@.len() as usize,
                                    (s4.nodes@.len() + 1) as usize,
                                    b1in.len() as int,
                                    b1out.len() as int,
                                ),
                                c_pre_1,
                                e,
                            );
                        assert(crate::to_hugr::spec_boundary_added(
                            s4,
                            gb,
                            c1,
                            spec_port_types(op.inputs@.skip(1)),
                            spec_port_types(op.outputs@),
                        ));
                        let d = c_pre_1.dom();
                    }
                    assert(switch_op.branches@.contains(switch_op.branches@[1]));
                }
                return Err(e);
            },
        };
        let ghost s4b = *g;
        let ghost l1 = left1@;
        proof {
            lemma_widen_container(s4, *g, c1, parent);
            lemma_graph_extended_trans(g0, s4, *g, parent);
            lemma_wiring_mono(ctx@, s3.nodes@.len() as nat, (*g).nodes@.len() as nat);
            assert((*g).nodes@[c1 as int + 1].op is Input);
            assert((*g).nodes@[c1 as int + 2].op is Output);
            assert(op.outputs@.skip(0) =~= op.outputs@);
            assert(b1in =~= spec_port_types(op.inputs@.skip(1)));
            assert(b1out =~= spec_port_types(op.outputs@));
            lemma_nested_built_intro(
                switch_op.branches@[1],
                b1in,
                b1out,
                spec_port_types(op.inputs@.skip(1)),
                spec_port_types(op.outputs@),
                c1,
                s4,
                s4b,
                c_pre_1,
                (*calls)@,
                l1,
            );
        }
        absorb_child(ctx, left1, g);
    } else {
        match &switch_op.default_branch {
            Some(default_branch) => {
                proof {
                    assert(decreases_to!(*switch_op => switch_op.default_branch));
                    assert(decreases_to!(switch_op.default_branch => *default_branch));
                }
                let db_in_tys = hugr_types_of_ports(&op.inputs, 1);
                let db_out_tys = hugr_types_of_ports(&op.outputs, 0);
                let ghost dbin = db_in_tys@;
                let ghost dbout = db_out_tys@;
                let ghost c_pre_d = (*calls)@;
                let left1 = match build_nested(default_branch, db_in_tys, db_out_tys, g, c1, calls) {
                    Ok(l) => l,
                    Err(e) => {
                        proof {
                            lemma_widen_container(s4, *g, c1, parent);
                            lemma_graph_extended_trans(g0, s4, *g, parent);
                            assert(op.outputs@.skip(0) =~= op.outputs@);
                            assert(dbin =~= spec_port_types(op.inputs@.skip(1)));
                            assert(dbout =~= spec_port_types(op.outputs@));
                            assert(spec_nested_fails(
                                *default_branch,
                                spec_port_types(op.inputs@.skip(1)),
                                spec_port_types(op.outputs@),
                                e,
                            )) by {
                                let gb = choose|gb: Graph|
                                    crate::to_hugr::spec_boundary_added(s4, gb, c1, dbin, dbout)
                                        && #[trigger] crate::to_hugr::spec_region_fails(
                                        default_branch.operations@,
                                        gb,
                                        c1,
                                        crate::to_hugr::spec_region_seed(
                                            *default_branch,
                                            s4.nodes@.len() as usize,
                                            (s4.nodes@.len() + 1) as usize,
                                            dbin.len() as int,
                                            dbout.len() as int,
                                        ),
                                        c_pre_d,
                                        e,
                                    );
                                assert(crate::to_hugr::spec_boundary_added(
                                    s4,
                                    gb,
                                    c1,
                                    spec_port_types(op.inputs@.skip(1)),
                                    spec_port_types(op.outputs@),
                                ));
                                let d = c_pre_d.dom();
                            }
                        }
                        return Err(e);
                    },
                };
                let ghost s4b = *g;
                let ghost l1 = left1@;
                proof {
                    lemma_widen_container(s4, *g, c1, parent);
                    lemma_graph_extended_trans(g0, s4, *g, parent);
                    lemma_wiring_mono(ctx@, s3.nodes@.len() as nat, (*g).nodes@.len() as nat);
                    assert((*g).nodes@[c1 as int + 1].op is Input);
                    assert((*g).nodes@[c1 as int + 2].op is Output);
                    assert(op.outputs@.skip(0) =~= op.outputs@);
                    assert(dbin =~= spec_port_types(op.inputs@.skip(1)));
                    assert(dbout =~= spec_port_types(op.outputs@));
                    lemma_nested_built_intro(
                        *default_branch,
                        dbin,
                        dbout,
                        spec_port_types(op.inputs@.skip(1)),
                        spec_port_types(op.outputs@),
                        c1,
                        s4,
                        s4b,
                        c_pre_d,
                        (*calls)@,
                        l1,
                    );
                }
                absorb_child(ctx, left1, g);
            },
            None => {
                let n_pass = if op.inputs.len() - 1 < op.outputs.len() {
                    op.inputs.len() - 1
                } else {
                    op.outputs.len()
                };
                let c1_in = g.add_node(
                    c1,
                    NodeOp::Input { types: hugr_types_of_ports(&op.inputs, 1) },
                );
                let ghost t1 = *g;
                let c1_out = g.add_node(
                    c1,
                    NodeOp::Output { types: hugr_types_of_ports(&op.outputs, 0) },
                );
                let ghost t2 = *g;
                connect_range(g, c1_in, 0, c1_out, 0, n_pass);
                proof {
                    lemma_widen_container(s4, t1, c1, parent);
                    lemma_graph_extended_trans(g0, s4, t1, parent);
                    lemma_widen_container(t1, t2, c1, parent);
                    lemma_graph_extended_trans(g0, t1, t2, parent);
                    assert(graph_extended(t2, *g, parent));
                    lemma_graph_extended_trans(g0, t2, *g, parent);
                    assert(graph_extended(s4, t1, c1));
                    assert(graph_extended(t1, t2, c1));
                    lemma_graph_extended_trans(s4, t1, t2, c1);
                    assert(graph_extended(t2, *g, c1));
                    lemma_graph_extended_trans(s4, t2, *g, c1);
                    lemma_wiring_mono(ctx@, s3.nodes@.len() as nat, (*g).nodes@.len() as nat);
                    assert((*g).nodes@[c1 as int + 1].op is Input);
                    assert((*g).nodes@[c1 as int + 2].op is Output);
                }
            },
        }
    }
    let ghost s5 = *g;
    let ghost w_reg = ctx@;
    ctx.register_inputs(&op.inputs, op.inputs.len(), n0);
    ctx.register_outputs(&op.outputs, op.outputs.len(), n0);
    proof {
        lemma_register_both_bounded(
            w_reg,
            op.inputs@,
            op.outputs@,
            n0,
            (*g).nodes@.len() as nat,
        );
        assert(spec_head_ports_registered(
            old(ctx)@,
            ctx@,
            *op,
            old(g).nodes@.len() as usize,
        )) by {
            assert(w_reg.alias == old(ctx)@.alias);
            assert(ctx@ == crate::wiring::spec_register_out_seq(
                crate::wiring::spec_register_in_seq(
                    w_reg,
                    op.inputs@,
                    old(g).nodes@.len() as usize,
                    op.inputs@.len() as int,
                ),
                op.outputs@,
                old(g).nodes@.len() as usize,
                op.outputs@.len() as int,
            ));
        }
        // fold the stages so facts about earlier indices carry to the end
        assert(graph_extended(s3, s4, parent));
        lemma_graph_extended_trans(s3, s4, s5, parent);
        lemma_prefix_index(s3.nodes@, s5.nodes@, n0 as int);
        lemma_prefix_index(s3.nodes@, s5.nodes@, c0 as int);
        lemma_prefix_index(s3.nodes@, s5.nodes@, c0 as int + 1);
        lemma_prefix_index(s3.nodes@, s5.nodes@, c0 as int + 2);
        lemma_prefix_index(s1.nodes@, s3.nodes@, n0 as int);
        lemma_prefix_index(s2.nodes@, s3.nodes@, c0 as int);
        lemma_prefix_index(s4.nodes@, s5.nodes@, c1 as int);
        assert(s5.nodes@[n0 as int] == s1.nodes@[n0 as int]);
        assert(op.outputs@.skip(0) =~= op.outputs@);
        assert(s5.nodes@[c0 as int].op is Case);
        assert(s5.nodes@[c0 as int].parent == Some(n0));
        assert(s5.nodes@[c0 as int + 1].op is Input);
        assert(s5.nodes@[c0 as int + 2].op is Output);
        assert(s5.nodes@[c1 as int].op is Case);
        assert(s5.nodes@[c1 as int].parent == Some(n0));
        assert(s5.nodes@[c1 as int + 1].op is Input);
        assert(s5.nodes@[c1 as int + 2].op is Output);
        assert(c0 + 2 < c1);
        assert(c1 + 2 < s5.nodes@.len());
        assert forall|i: int|
            g0.nodes@.len() < i < s5.nodes@.len() && (#[trigger] s5.nodes@[i]).parent == Some(
                n0,
            ) implies i == c0 as int || i == c1 as int by {
            if c0 < i && i < s3.nodes@.len() {
                lemma_prefix_index(s3.nodes@, s5.nodes@, i);
                assert(s3.nodes@[i].parent->0 >= s2.nodes@.len());
            } else if c1 < i && i < s5.nodes@.len() {
                assert(s5.nodes@[i].parent->0 >= s4.nodes@.len());
            }
        }
        assert(g0.nodes@.is_prefix_of(s5.nodes@));
        assert(spec_switch_built(*op, g0, s5, parent));
        assert(spec_switch_cases(*switch_op, *op, g0, s5));
    }
    Ok(())
}

/// Lower a bounded counting loop: a repeat node carrying the counter
/// triple and the state, whose body tests the counter against the stop
/// value, runs the loop body and advances the counter on the continue
/// side, and signals the break side otherwise.
#[verifier::rlimit(100)]
fn build_for(
    region: &Region,
    op: &Operation,
    g: &mut Graph,
    parent: NodeId,
    ctx: &mut BuildContext,
    calls: &mut CallRegistry,
) -> (r: Result<(), JeffToHugrError>)
    requires
        old(ctx).wf(),
        old(calls).wf(),
        old(g).wf(),
        parent < old(g).nodes@.len(),
        wiring_bounded(old(ctx)@, old(g).nodes@.len() as nat),
        ports_bounded(old(calls)@, old(g).nodes@.len() as nat),
        op.inputs@.len() <= usize::MAX - 4,
        op.outputs@.len() <= usize::MAX - 4,
    ensures
        (*final(ctx)).wf(),
        (*final(calls)).wf(),
        (*final(g)).wf(),
        graph_extended(*old(g), *final(g), parent),
        wiring_bounded((*final(ctx))@, (*final(g)).nodes@.len() as nat),
        ports_bounded((*final(calls))@, (*final(g)).nodes@.len() as nat),
        (op.inputs@.len() == 0 || !(op.inputs@[0].ty is Int)) ==> (r matches Err(e)
            && e matches JeffToHugrError::InvalidOperationIO { op: nm, input_types, output_types }
            && nm@ == "For"@ && input_types@ == op.input_types() && output_types@
            == op.output_types()),
        r matches Err(e) ==> (((op.inputs@.len() == 0 || !(op.inputs@[0].ty is Int))
            && e is InvalidOperationIO) || (exists|in_tys: Seq<HugrType>|
            #[trigger] spec_nested_fails(*region, in_tys, spec_port_types(op.outputs@), e))),
        r is Ok ==> (*final(g)).nodes@.len() > old(g).nodes@.len() && ((*final(g)).nodes@[old(g).nodes@.len() as int].op matches NodeOp::TailLoop { just_inputs, just_outputs, rest }
            && just_inputs@.len() == 3 && just_outputs@.len() == 0 && rest@ == spec_port_types(
            op.outputs@,
        )) && (*final(g)).nodes@[old(g).nodes@.len() as int].parent == Some(parent),
        r is Ok ==> spec_head_ports_registered(
            old(ctx)@,
            (*final(ctx))@,
            *op,
            old(g).nodes@.len() as usize,
        ),
        r is Ok ==> (exists|bd: NodeId, in_tys: Seq<HugrType>|
            old(g).nodes@.len() < bd && #[trigger] spec_nested_built(
                *region,
                in_tys,
                spec_port_types(op.outputs@),
                bd,
            )),
    decreases *region, 3int,
{
    if op.inputs.len() == 0 {
        proof {
            lemma_extended_refl(*old(g), *g, parent);
        }
        return Err(JeffToHugrError::invalid_op_io("For".to_owned(), op));
    }
    let bits = match op.inputs[0].ty {
        JeffType::Int { bits } => bits,
        _ => {
            proof {
                lemma_extended_refl(*old(g), *g, parent);
            }
            return Err(JeffToHugrError::invalid_op_io("For".to_owned(), op));
        },
    };
    let log_width: u8 = if bits == 0 {
        0
    } else {
        jeff_int_width_to_hugr_width(bits)
    };
    let int_ty = HugrType::Int { log_width };
    let n_state = op.outputs.len();
    let ghost g0 = *g;
    let loop_node = g.add_node(
        parent,
        NodeOp::TailLoop {
            just_inputs: three_of(int_ty),
            just_outputs: Vec::new(),
            rest: hugr_types_of_ports(&op.outputs, 0),
        },
    );
    let ghost a1 = *g;
    let in_node = g.add_node(loop_node, NodeOp::Input { types: counter_and_state(int_ty, &op.outputs) });
    let ghost st2 = *g;
    let out_node = g.add_node(loop_node, NodeOp::Output { types: control_and_state(&op.outputs) });
    let ghost st3 = *g;
    let ilt = g.add_node(loop_node, NodeOp::IntOp { op: IntNodeOp::IltS, log_width });
    let ghost st4 = *g;
    g.connect(in_node, 0, ilt, 0);
    let ghost st5 = *g;
    g.connect(in_node, 1, ilt, 1);
    let ghost st6 = *g;
    let cond = g.add_node(
        loop_node,
        NodeOp::Conditional {
            sum_rows: two_empty_rows(),
            other_inputs: counter_and_state(int_ty, &op.outputs),
            outputs: control_and_state(&op.outputs),
        },
    );
    let ghost st7 = *g;
    g.connect(ilt, 0, cond, 0);
    let ghost st8 = *g;
    connect_range(g, in_node, 0, cond, 1, 3 + n_state);
    let ghost st9 = *g;
    proof {
        lemma_widen_container(a1, st2, loop_node, parent);
        lemma_graph_extended_trans(g0, a1, st2, parent);
        lemma_widen_container(st2, st3, loop_node, parent);
        lemma_graph_extended_trans(g0, st2, st3, parent);
        lemma_widen_container(st3, st4, loop_node, parent);
        lemma_graph_extended_trans(g0, st3, st4, parent);
        assert(graph_extended(st4, st5, parent));
        lemma_graph_extended_trans(g0, st4, st5, parent);
        assert(graph_extended(st5, st6, parent));
        lemma_graph_extended_trans(g0, st5, st6, parent);
        lemma_widen_container(st6, st7, loop_node, parent);
        lemma_graph_extended_trans(g0, st6, st7, parent);
        assert(graph_extended(st7, st8, parent));
        lemma_graph_extended_trans(g0, st7, st8, parent);
        assert(graph_extended(st8, st9, parent));
        lemma_graph_extended_trans(g0, st8, st9, parent);
        lemma_graph_extended_trans(a1, st2, st3, parent);
        lemma_graph_extended_trans(a1, st3, st4, parent);
        lemma_graph_extended_trans(a1, st4, st5, parent);
        lemma_graph_extended_trans(a1, st5, st6, parent);
        lemma_graph_extended_trans(a1, st6, st7, parent);
        lemma_graph_extended_trans(a1, st7, st8, parent);
        lemma_graph_extended_trans(a1, st8, st9, parent);
    }
    // break side: discard the counter triple and signal the exit
    let brk = g.add_node(
        cond,
        NodeOp::Case {
            signature: Signature {
                inputs: counter_and_state(int_ty, &op.outputs),
                outputs: control_and_state(&op.outputs),
            },
        },
    );
    let ghost st10 = *g;
    let bin = g.add_node(brk, NodeOp::Input { types: counter_and_state(int_ty, &op.outputs) });
    let ghost st11 = *g;
    let bout = g.add_node(brk, NodeOp::Output { types: control_and_state(&op.outputs) });
    let ghost st12 = *g;
    let btag = g.add_node(brk, NodeOp::Tag { tag: 1, variants: counter_tag_rows(int_ty) });
    let ghost st13 = *g;
    g.connect(btag, 0, bout, 0);
    let ghost st14 = *g;
    connect_range(g, bin, 3, bout, 1, n_state);
    let ghost st15 = *g;
    proof {
        lemma_widen_container(st9, st10, cond, parent);
        lemma_graph_extended_trans(g0, st9, st10, parent);
        lemma_widen_container(st10, st11, brk, parent);
        lemma_graph_extended_trans(g0, st10, st11, parent);
        lemma_widen_container(st11, st12, brk, parent);
        lemma_graph_extended_trans(g0, st11, st12, parent);
        lemma_widen_container(st12, st13, brk, parent);
        lemma_graph_extended_trans(g0, st12, st13, parent);
        assert(graph_extended(st13, st14, parent));
        lemma_graph_extended_trans(g0, st13, st14, parent);
        assert(graph_extended(st14, st15, parent));
        lemma_graph_extended_trans(g0, st14, st15, parent);
        lemma_graph_extended_trans(a1, st9, st10, parent);
        lemma_graph_extended_trans(a1, st10, st11, parent);
        lemma_graph_extended_trans(a1, st11, st12, parent);
        lemma_graph_extended_trans(a1, st12, st13, parent);
        lemma_graph_extended_trans(a1, st13, st14, parent);
        lemma_graph_extended_trans(a1, st14, st15, parent);
    }
    // continue side: run the body, advance the counter, signal another turn
    let cont = g.add_node(
        cond,
        NodeOp::Case {
            signature: Signature {
                inputs: counter_and_state(int_ty, &op.outputs),
                outputs: control_and_state(&op.outputs),
            },
        },
    );
    let ghost st16 = *g;
    let cin = g.add_node(cont, NodeOp::Input { types: counter_and_state(int_ty, &op.outputs) });
    let ghost st17 = *g;
    let cout = g.add_node(cont, NodeOp::Output { types: control_and_state(&op.outputs) });
    let ghost st18 = *g;
    let body_dfg = g.add_node(
        cont,
        NodeOp::Dfg {
            signature: Signature {
                inputs: counter_then_state(int_ty, &op.outputs),
                outputs: hugr_types_of_ports(&op.outputs, 0),
            },
        },
    );
    let ghost st19 = *g;
    proof {
        lemma_widen_container(st15, st16, cond, parent);
        lemma_graph_extended_trans(g0, st15, st16, parent);
        lemma_widen_container(st16, st17, cont, parent);
        lemma_graph_extended_trans(g0, st16, st17, parent);
        lemma_widen_container(st17, st18, cont, parent);
        lemma_graph_extended_trans(g0, st17, st18, parent);
        lemma_widen_container(st18, st19, cont, parent);
        lemma_graph_extended_trans(g0, st18, st19, parent);
        lemma_graph_extended_trans(a1, st15, st16, parent);
        lemma_graph_extended_trans(a1, st16, st17, parent);
        lemma_graph_extended_trans(a1, st17, st18, parent);
        lemma_graph_extended_trans(a1, st18, st19, parent);
        assert(decreases_to!(*region, 3int => *region, 1int));
    }
    let for_in_tys = counter_then_state(int_ty, &op.outputs);
    let for_out_tys = hugr_types_of_ports(&op.outputs, 0);
    let ghost fin = for_in_tys@;
    let ghost fout = for_out_tys@;
    let ghost c_pre_f = (*calls)@;
    let left = match build_nested(region, for_in_tys, for_out_tys, g, body_dfg, calls) {
        Ok(l) => l,
        Err(e) => {
            proof {
                lemma_widen_container(st19, *g, body_dfg, parent);
                lemma_graph_extended_trans(g0, st19, *g, parent);
                assert(op.outputs@.skip(0) =~= op.outputs@);
                assert(fout =~= spec_port_types(op.outputs@));
                assert(spec_nested_fails(*region, fin, spec_port_types(op.outputs@), e)) by {
                    let gb = choose|gb: Graph|
                        crate::to_hugr::spec_boundary_added(st19, gb, body_dfg, fin, fout)
                            && #[trigger] crate::to_hugr::spec_region_fails(
                            region.operations@,
                            gb,
                            body_dfg,
                            crate::to_hugr::spec_region_seed(
                                *region,
                                st19.nodes@.len() as usize,
                                (st19.nodes@.len() + 1) as usize,
                                fin.len() as int,
                                fout.len() as int,
                            ),
                            c_pre_f,
                            e,
                        );
                    assert(crate::to_hugr::spec_boundary_added(
                        st19,
                        gb,
                        body_dfg,
                        fin,
                        spec_port_types(op.outputs@),
                    ));
                    let d = c_pre_f.dom();
                }
            }
            return Err(e);
        },
    };
    let ghost st20 = *g;
    let ghost lf = left@;
    proof {
        lemma_widen_container(st19, st20, body_dfg, parent);
        lemma_graph_extended_trans(g0, st19, st20, parent);
        lemma_graph_extended_trans(a1, st19, st20, parent);
        lemma_wiring_mono(ctx@, g0.nodes@.len() as nat, st20.nodes@.len() as nat);
        assert(op.outputs@.skip(0) =~= op.outputs@);
        assert(fout =~= spec_port_types(op.outputs@));
        lemma_nested_built_intro(
            *region,
            fin,
            fout,
            fin,
            spec_port_types(op.outputs@),
            body_dfg,
            st19,
            st20,
            c_pre_f,
            (*calls)@,
            lf,
        );
        assert(body_dfg > old(g).nodes@.len());
    }
    absorb_child(ctx, left, g);
    g.connect(cin, 0, body_dfg, 0);
    let ghost st21 = *g;
    connect_range(g, cin, 3, body_dfg, 1, n_state);
    let ghost st22 = *g;
    proof {
        assert(graph_extended(st20, st21, parent));
        lemma_graph_extended_trans(g0, st20, st21, parent);
        assert(graph_extended(st21, st22, parent));
        lemma_graph_extended_trans(g0, st21, st22, parent);
        lemma_graph_extended_trans(a1, st20, st21, parent);
        lemma_graph_extended_trans(a1, st21, st22, parent);
    }
    let iadd = g.add_node(cont, NodeOp::IntOp { op: IntNodeOp::Iadd, log_width });
    let ghost st23 = *g;
    g.connect(cin, 0, iadd, 0);
    g.connect(cin, 2, iadd, 1);
    let ghost st24 = *g;
    let ctag = g.add_node(cont, NodeOp::Tag { tag: 0, variants: counter_tag_rows(int_ty) });
    let ghost st25 = *g;
    g.connect(iadd, 0, ctag, 0);
    g.connect(cin, 1, ctag, 1);
    g.connect(cin, 2, ctag, 2);
    g.connect(ctag, 0, cout, 0);
    let ghost st26 = *g;
    connect_range(g, body_dfg, 0, cout, 1, n_state);
    let ghost st27 = *g;
    g.connect(cond, 0, out_node, 0);
    let ghost st28 = *g;
    connect_range(g, cond, 1, out_node, 1, n_state);
    proof {
        lemma_widen_container(st22, st23, cont, parent);
        lemma_graph_extended_trans(g0, st22, st23, parent);
        assert(graph_extended(st23, st24, parent));
        lemma_graph_extended_trans(g0, st23, st24, parent);
        lemma_widen_container(st24, st25, cont, parent);
        lemma_graph_extended_trans(g0, st24, st25, parent);
        assert(graph_extended(st25, st26, parent));
        lemma_graph_extended_trans(g0, st25, st26, parent);
        assert(graph_extended(st26, st27, parent));
        lemma_graph_extended_trans(g0, st26, st27, parent);
        assert(graph_extended(st27, st28, parent));
        lemma_graph_extended_trans(g0, st27, st28, parent);
        assert(graph_extended(st28, *g, parent));
        lemma_graph_extended_trans(g0, st28, *g, parent);
        lemma_graph_extended_trans(a1, st22, st23, parent);
        lemma_graph_extended_trans(a1, st23, st24, parent);
        lemma_graph_extended_trans(a1, st24, st25, parent);
        lemma_graph_extended_trans(a1, st25, st26, parent);
        lemma_graph_extended_trans(a1, st26, st27, parent);
        lemma_graph_extended_trans(a1, st27, st28, parent);
        lemma_graph_extended_trans(a1, st28, *g, parent);
    }
    let ghost w_reg = ctx@;
    ctx.register_inputs(&op.inputs, op.inputs.len(), loop_node);
    ctx.register_outputs(&op.outputs, op.outputs.len(), loop_node);
    proof {
        lemma_register_both_bounded(
            w_reg,
            op.inputs@,
            op.outputs@,
            loop_node,
            (*g).nodes@.len() as nat,
        );
        assert(spec_head_ports_registered(
            old(ctx)@,
            ctx@,
            *op,
            old(g).nodes@.len() as usize,
        )) by {
            assert(w_reg.alias == old(ctx)@.alias);
            assert(ctx@ == crate::wiring::spec_register_out_seq(
                crate::wiring::spec_register_in_seq(
                    w_reg,
                    op.inputs@,
                    old(g).nodes@.len() as usize,
                    op.inputs@.len() as int,
                ),
                op.outputs@,
                old(g).nodes@.len() as usize,
                op.outputs@.len() as int,
            ));
        }
        lemma_prefix_index(a1.nodes@, (*g).nodes@, g0.nodes@.len() as int);
        assert(op.outputs@.skip(0) =~= op.outputs@);
    }
    Ok(())
}


/// How many times the lowered bounded loop runs its body: starting from
/// `start`, the body runs once for each counter value below `stop`, the
/// counter advancing by `step` after each run. A non-positive step never
/// passes the comparison's exit, so the protocol is only meaningful for
/// positive steps; the count is zero when the range is empty.
pub open spec fn spec_trip_count(start: int, stop: int, step: int) -> nat
    decreases (if stop - start > 0 { stop - start } else { 0 }),
{
    if start >= stop || step <= 0 {
        0
    } else {
        1 + spec_trip_count(start + step, stop, step)
    }
}

/// The count never exceeds the width of the range.
pub proof fn lemma_trip_count_bound(start: int, stop: int, step: int)
    requires
        step >= 1,
    ensures
        spec_trip_count(start, stop, step) <= (if stop - start > 0 { stop - start } else { 0 }),
    decreases (if stop - start > 0 { stop - start } else { 0 }),
{
    if start < stop {
        lemma_trip_count_bound(start + step, stop, step);
    }
}

/// Run the counter protocol of the lowered bounded loop: repeat while
/// the counter is below the stop value, advancing it by the step each
/// turn, and report how many turns the body would run.
///
/// This is the model of the repeat node built by the bounded-loop
/// lowering: its continue case fires exactly once per counted turn.
pub fn for_loop_trip_count(start: i64, stop: i64, step: i64) -> (r: u64)
    requires
        step >= 1,
        stop + step <= i64::MAX,
    ensures
        r == spec_trip_count(start as int, stop as int, step as int),
{
    let mut counter = start;
    let mut count: u64 = 0;
    proof {
        lemma_trip_count_bound(start as int, stop as int, step as int);
    }
    while counter < stop
        invariant
            step >= 1,
            stop + step <= i64::MAX,
            count + spec_trip_count(counter as int, stop as int, step as int) == spec_trip_count(
                start as int,
                stop as int,
                step as int,
            ),
            spec_trip_count(start as int, stop as int, step as int) <= (if stop - start > 0 {
                stop - start
            } else {
                0
            }),
        decreases (if stop - counter > 0 { stop - counter } else { 0 }),
    {
        counter = counter + step;
        count = count + 1;
    }
    count
}

} // verus!
