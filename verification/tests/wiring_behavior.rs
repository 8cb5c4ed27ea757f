//! Tests of the deferred-wiring context: registration, alias merging and
//! resolution.

use hugr_jeff::graph::{Edge, Graph, NodeOp};
use hugr_jeff::wiring::BuildContext;

fn two_node_graph() -> Graph {
    let mut g = Graph::new();
    let root = g.add_root(NodeOp::Module);
    g.add_node(root, NodeOp::Input { types: vec![] });
    g.add_node(root, NodeOp::Output { types: vec![] });
    g
}

#[test]
fn merge_redirects_present_and_future_registrations() {
    let mut ctx = BuildContext::new();
    assert_eq!(ctx.earliest_id(5), 5);
    ctx.merge_with_earlier(5, 3);
    assert_eq!(ctx.earliest_id(5), 3);
    assert_eq!(ctx.earliest_id(3), 3);
    // chains collapse to one canonical representative
    ctx.merge_with_earlier(7, 5);
    assert_eq!(ctx.earliest_id(7), 3);
}

#[test]
fn merge_succeeds_in_either_order() {
    // merging 3 into 5 and 5 into 3 both end with 3 as the representative
    let mut ctx = BuildContext::new();
    ctx.merge_with_earlier(3, 5);
    assert_eq!(ctx.earliest_id(5), 3);
    assert_eq!(ctx.earliest_id(3), 3);

    let mut ctx2 = BuildContext::new();
    ctx2.merge_with_earlier(5, 3);
    assert_eq!(ctx2.earliest_id(5), 3);
    assert_eq!(ctx2.earliest_id(3), 3);

    // a repeated merge of an already-merged value joins the classes
    ctx2.merge_with_earlier(5, 4);
    assert_eq!(ctx2.earliest_id(4), 3);
}

#[test]
fn alias_indifference_on_resolution() {
    // registering under the alias or under the canonical value draws the
    // same edges
    let mut g1 = two_node_graph();
    let mut ctx1 = BuildContext::new();
    ctx1.register_output(3, 1, 0);
    ctx1.merge_with_earlier(5, 3);
    ctx1.register_input(5, 2, 0);
    let _ = ctx1.resolve(&mut g1).unwrap();

    let mut g2 = two_node_graph();
    let mut ctx2 = BuildContext::new();
    ctx2.register_output(3, 1, 0);
    ctx2.merge_with_earlier(5, 3);
    ctx2.register_input(3, 2, 0);
    let _ = ctx2.resolve(&mut g2).unwrap();

    assert_eq!(g1.edges, g2.edges);
    assert_eq!(g1.edges, vec![Edge { src: 1, src_port: 0, dst: 2, dst_port: 0 }]);
}

#[test]
fn resolution_connects_every_matching_pair() {
    let mut g = two_node_graph();
    let mut ctx = BuildContext::new();
    // one value with two producer ports and two consumer ports
    ctx.register_output(4, 1, 0);
    ctx.register_output(4, 1, 1);
    ctx.register_input(4, 2, 0);
    ctx.register_input(4, 2, 1);
    let left = ctx.resolve(&mut g).unwrap();
    assert_eq!(g.edges.len(), 4);
    for sp in 0..2 {
        for dp in 0..2 {
            assert!(g.edges.contains(&Edge { src: 1, src_port: sp, dst: 2, dst_port: dp }));
        }
    }
    // everything matched: no leftover inputs
    assert_eq!(left.input_edges.len(), 0);
}

#[test]
fn unmatched_input_is_left_over_not_dropped() {
    let mut g = two_node_graph();
    let mut ctx = BuildContext::new();
    ctx.register_input(9, 2, 0);
    ctx.register_output(4, 1, 0);
    let left = ctx.resolve(&mut g).unwrap();
    // nothing was silently connected
    assert_eq!(g.edges.len(), 0);
    // the unmatched input survives for the enclosing scope
    assert_eq!(left.input_edges.len(), 1);
    assert_eq!(left.input_edges.key_at(0), 9);
    // outputs stay visible to the enclosing scope as well
    assert_eq!(left.output_edges.len(), 1);
}
