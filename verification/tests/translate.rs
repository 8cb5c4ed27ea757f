//! End-to-end tests of the translation driver on model programs.

use hugr_jeff::graph::{Edge, NodeOp, OrderEdge, TketGate};
use hugr_jeff::jeff_ir::{
    ControlFlowOp, FloatOp, FuncOp, Function, GateOp, GateOpType, IntOp, JeffType, Module, OpType,
    Operation, QubitOp, Region, SwitchOp, ValuePort, WellKnownGate,
};
use hugr_jeff::optype::control_flow::for_loop_trip_count;
use hugr_jeff::to_hugr::{jeff_to_hugr, JeffToHugrError};

fn qubit_port(id: u32) -> ValuePort {
    ValuePort { id, ty: JeffType::Qubit }
}

fn float_port(id: u32) -> ValuePort {
    ValuePort { id, ty: JeffType::Float { precision: hugr_jeff::jeff_ir::FloatPrecision::Float64 } }
}

fn bit_port(id: u32) -> ValuePort {
    ValuePort { id, ty: JeffType::Int { bits: 1 } }
}

/// A module with one function whose body applies one gate to a qubit.
fn gate_module(gate: GateOp) -> Module {
    Module {
        functions: vec![Function::Definition {
            name: "main".to_string(),
            inputs: vec![JeffType::Qubit],
            outputs: vec![JeffType::Qubit],
            body: Region {
                sources: vec![qubit_port(0)],
                targets: vec![qubit_port(1)],
                operations: vec![Operation {
                    optype: OpType::QubitOp(QubitOp::Gate(gate)),
                    inputs: vec![qubit_port(0)],
                    outputs: vec![qubit_port(1)],
                }],
            },
        }],
    }
}

fn x_gate(power: u64) -> GateOp {
    GateOp {
        gate_type: GateOpType::WellKnown(WellKnownGate::X),
        adjoint: false,
        control_qubits: 0,
        power,
        num_qubits: 1,
        num_params: 0,
    }
}

#[test]
fn empty_module_translates() {
    let module = Module { functions: vec![] };
    let g = jeff_to_hugr(&module).unwrap();
    assert_eq!(g.nodes.len(), 1);
    assert!(matches!(g.nodes[0].op, NodeOp::Module));
    assert!(g.nodes[0].parent.is_none());
}

#[test]
fn even_power_self_inverse_gate_adds_no_node() {
    // root, function, input boundary, output boundary - and no gate node
    let g = jeff_to_hugr(&gate_module(x_gate(2))).unwrap();
    assert_eq!(g.nodes.len(), 4);
    // the boundary ports connect straight through
    assert!(g.edges.contains(&Edge { src: 2, src_port: 0, dst: 3, dst_port: 0 }));
}

#[test]
fn odd_power_self_inverse_gate_adds_one_node() {
    let g = jeff_to_hugr(&gate_module(x_gate(3))).unwrap();
    assert_eq!(g.nodes.len(), 5);
    assert!(matches!(g.nodes[4].op, NodeOp::TketOp { op: TketGate::X }));
    assert!(g.edges.contains(&Edge { src: 2, src_port: 0, dst: 4, dst_port: 0 }));
    assert!(g.edges.contains(&Edge { src: 4, src_port: 0, dst: 3, dst_port: 0 }));
}

#[test]
fn even_power_gate_elides_with_descending_value_ids() {
    // value ids need not be numbered in order of appearance: the even
    // power still lowers to zero nodes
    let module = Module {
        functions: vec![Function::Definition {
            name: "main".to_string(),
            inputs: vec![JeffType::Qubit],
            outputs: vec![JeffType::Qubit],
            body: Region {
                sources: vec![qubit_port(5)],
                targets: vec![qubit_port(3)],
                operations: vec![Operation {
                    optype: OpType::QubitOp(QubitOp::Gate(x_gate(2))),
                    inputs: vec![qubit_port(5)],
                    outputs: vec![qubit_port(3)],
                }],
            },
        }],
    };
    let g = jeff_to_hugr(&module).unwrap();
    assert_eq!(g.nodes.len(), 4);
    assert!(g.edges.contains(&Edge { src: 2, src_port: 0, dst: 3, dst_port: 0 }));
}

#[test]
fn even_power_controlled_gate_elides_with_descending_value_ids() {
    let gate = GateOp {
        gate_type: GateOpType::WellKnown(WellKnownGate::X),
        adjoint: false,
        control_qubits: 1,
        power: 2,
        num_qubits: 2,
        num_params: 0,
    };
    let module = Module {
        functions: vec![Function::Definition {
            name: "main".to_string(),
            inputs: vec![JeffType::Qubit, JeffType::Qubit],
            outputs: vec![JeffType::Qubit, JeffType::Qubit],
            body: Region {
                sources: vec![qubit_port(8), qubit_port(9)],
                targets: vec![qubit_port(2), qubit_port(3)],
                operations: vec![Operation {
                    optype: OpType::QubitOp(QubitOp::Gate(gate)),
                    inputs: vec![qubit_port(8), qubit_port(9)],
                    outputs: vec![qubit_port(2), qubit_port(3)],
                }],
            },
        }],
    };
    let g = jeff_to_hugr(&module).unwrap();
    assert_eq!(g.nodes.len(), 4);
    assert!(g.edges.contains(&Edge { src: 2, src_port: 0, dst: 3, dst_port: 0 }));
    assert!(g.edges.contains(&Edge { src: 2, src_port: 1, dst: 3, dst_port: 1 }));
}

#[test]
fn odd_power_swap_relabels_with_descending_value_ids() {
    let gate = GateOp {
        gate_type: GateOpType::WellKnown(WellKnownGate::Swap),
        adjoint: false,
        control_qubits: 0,
        power: 1,
        num_qubits: 2,
        num_params: 0,
    };
    let module = Module {
        functions: vec![Function::Definition {
            name: "main".to_string(),
            inputs: vec![JeffType::Qubit, JeffType::Qubit],
            outputs: vec![JeffType::Qubit, JeffType::Qubit],
            body: Region {
                sources: vec![qubit_port(8), qubit_port(9)],
                targets: vec![qubit_port(2), qubit_port(3)],
                operations: vec![Operation {
                    optype: OpType::QubitOp(QubitOp::Gate(gate)),
                    inputs: vec![qubit_port(8), qubit_port(9)],
                    outputs: vec![qubit_port(2), qubit_port(3)],
                }],
            },
        }],
    };
    let g = jeff_to_hugr(&module).unwrap();
    assert_eq!(g.nodes.len(), 4);
    // each output leg crosses over to the other input leg
    assert!(g.edges.contains(&Edge { src: 2, src_port: 1, dst: 3, dst_port: 0 }));
    assert!(g.edges.contains(&Edge { src: 2, src_port: 0, dst: 3, dst_port: 1 }));
}

#[test]
fn odd_power_swap_relabels_without_nodes() {
    let gate = GateOp {
        gate_type: GateOpType::WellKnown(WellKnownGate::Swap),
        adjoint: false,
        control_qubits: 0,
        power: 1,
        num_qubits: 2,
        num_params: 0,
    };
    let module = Module {
        functions: vec![Function::Definition {
            name: "main".to_string(),
            inputs: vec![JeffType::Qubit, JeffType::Qubit],
            outputs: vec![JeffType::Qubit, JeffType::Qubit],
            body: Region {
                sources: vec![qubit_port(0), qubit_port(1)],
                targets: vec![qubit_port(2), qubit_port(3)],
                operations: vec![Operation {
                    optype: OpType::QubitOp(QubitOp::Gate(gate)),
                    inputs: vec![qubit_port(0), qubit_port(1)],
                    outputs: vec![qubit_port(2), qubit_port(3)],
                }],
            },
        }],
    };
    let g = jeff_to_hugr(&module).unwrap();
    assert_eq!(g.nodes.len(), 4);
    // each output leg crosses over to the other input leg
    assert!(g.edges.contains(&Edge { src: 2, src_port: 1, dst: 3, dst_port: 0 }));
    assert!(g.edges.contains(&Edge { src: 2, src_port: 0, dst: 3, dst_port: 1 }));
}

#[test]
fn unsupported_float_op_is_reported() {
    let module = Module {
        functions: vec![Function::Definition {
            name: "main".to_string(),
            inputs: vec![],
            outputs: vec![],
            body: Region {
                sources: vec![],
                targets: vec![],
                operations: vec![Operation {
                    optype: OpType::FloatOp(FloatOp::Sqrt),
                    inputs: vec![float_port(0)],
                    outputs: vec![float_port(1)],
                }],
            },
        }],
    };
    let r = jeff_to_hugr(&module);
    assert!(matches!(r, Err(JeffToHugrError::UnsupportedOperation { .. })));
}

#[test]
fn do_while_with_mismatched_state_is_invalid() {
    let body = Region { sources: vec![], targets: vec![], operations: vec![] };
    let condition = Region { sources: vec![], targets: vec![], operations: vec![] };
    let module = Module {
        functions: vec![Function::Definition {
            name: "main".to_string(),
            inputs: vec![],
            outputs: vec![],
            body: Region {
                sources: vec![],
                targets: vec![],
                operations: vec![Operation {
                    optype: OpType::ControlFlowOp(ControlFlowOp::DoWhile { body, condition }),
                    inputs: vec![float_port(0)],
                    outputs: vec![bit_port(1)],
                }],
            },
        }],
    };
    let r = jeff_to_hugr(&module);
    match r {
        Err(JeffToHugrError::InvalidOperationIO { op, .. }) => assert_eq!(op, "DoWhile"),
        other => panic!("expected an I/O mismatch error, got {other:?}"),
    }
}

#[test]
fn while_with_mismatched_state_error_names_the_form() {
    let body = Region { sources: vec![], targets: vec![], operations: vec![] };
    let condition = Region { sources: vec![], targets: vec![], operations: vec![] };
    let module = Module {
        functions: vec![Function::Definition {
            name: "main".to_string(),
            inputs: vec![],
            outputs: vec![],
            body: Region {
                sources: vec![],
                targets: vec![],
                operations: vec![Operation {
                    optype: OpType::ControlFlowOp(ControlFlowOp::While { body, condition }),
                    inputs: vec![float_port(0)],
                    outputs: vec![bit_port(1)],
                }],
            },
        }],
    };
    let r = jeff_to_hugr(&module);
    match r {
        Err(JeffToHugrError::InvalidOperationIO { op, input_types, output_types }) => {
            assert_eq!(op, "While");
            assert_eq!(input_types, vec![float_port(0).ty]);
            assert_eq!(output_types, vec![JeffType::Int { bits: 1 }]);
        },
        other => panic!("expected an I/O mismatch error, got {other:?}"),
    }
}

#[test]
fn call_past_the_function_table_is_malformed() {
    let module = Module {
        functions: vec![Function::Definition {
            name: "main".to_string(),
            inputs: vec![],
            outputs: vec![],
            body: Region {
                sources: vec![],
                targets: vec![],
                operations: vec![Operation {
                    optype: OpType::FuncOp(FuncOp { func_idx: 7 }),
                    inputs: vec![],
                    outputs: vec![],
                }],
            },
        }],
    };
    let r = jeff_to_hugr(&module);
    assert_eq!(r, Err(JeffToHugrError::MalformedJeffFile));
}

#[test]
fn consumed_value_without_producer_is_unmatched() {
    let module = Module {
        functions: vec![Function::Definition {
            name: "main".to_string(),
            inputs: vec![],
            outputs: vec![],
            body: Region {
                sources: vec![],
                targets: vec![],
                operations: vec![Operation {
                    optype: OpType::QubitOp(QubitOp::Free),
                    inputs: vec![qubit_port(9)],
                    outputs: vec![],
                }],
            },
        }],
    };
    let r = jeff_to_hugr(&module);
    match r {
        Err(JeffToHugrError::UnmatchedInput { value, op, input_types, output_types, .. }) => {
            assert_eq!(value, 9);
            assert_eq!(op, "QubitOp");
            assert_eq!(input_types, vec![JeffType::Qubit]);
            assert_eq!(output_types, vec![]);
        },
        other => panic!("expected an unmatched-input error, got {other:?}"),
    }
}

#[test]
fn forward_reference_call_resolves() {
    // the first function calls the second, which comes later in the table
    let module = Module {
        functions: vec![
            Function::Definition {
                name: "caller".to_string(),
                inputs: vec![],
                outputs: vec![],
                body: Region {
                    sources: vec![],
                    targets: vec![],
                    operations: vec![Operation {
                        optype: OpType::FuncOp(FuncOp { func_idx: 1 }),
                        inputs: vec![],
                        outputs: vec![],
                    }],
                },
            },
            Function::Declaration {
                name: "callee".to_string(),
                inputs: vec![],
                outputs: vec![],
            },
        ],
    };
    let g = jeff_to_hugr(&module).unwrap();
    // root, caller, its boundaries, the call node, the declaration
    assert_eq!(g.nodes.len(), 6);
    assert!(matches!(g.nodes[5].op, NodeOp::FuncDecl { .. }));
    // the static edge runs from the declaration to the call node
    assert!(g.edges.contains(&Edge { src: 5, src_port: 0, dst: 4, dst_port: 0 }));
}

#[test]
fn binary_conditional_has_two_cases() {
    // an empty branch passes its value straight through
    let branch = |v: u32| Region {
        sources: vec![float_port(v)],
        targets: vec![float_port(v)],
        operations: vec![],
    };
    let module = Module {
        functions: vec![Function::Definition {
            name: "main".to_string(),
            inputs: vec![JeffType::Int { bits: 1 }, JeffType::Float {
                precision: hugr_jeff::jeff_ir::FloatPrecision::Float64,
            }],
            outputs: vec![JeffType::Float {
                precision: hugr_jeff::jeff_ir::FloatPrecision::Float64,
            }],
            body: Region {
                sources: vec![bit_port(0), float_port(1)],
                targets: vec![float_port(2)],
                operations: vec![Operation {
                    optype: OpType::ControlFlowOp(ControlFlowOp::Switch(SwitchOp {
                        branches: vec![branch(10), branch(12)],
                        default_branch: None,
                    })),
                    inputs: vec![bit_port(0), float_port(1)],
                    outputs: vec![float_port(2)],
                }],
            },
        }],
    };
    let g = jeff_to_hugr(&module).unwrap();
    let conditionals: Vec<usize> = (0..g.nodes.len())
        .filter(|&i| matches!(g.nodes[i].op, NodeOp::Conditional { .. }))
        .collect();
    assert_eq!(conditionals.len(), 1);
    let cond = conditionals[0];
    let cases: Vec<usize> = (0..g.nodes.len())
        .filter(|&i| g.nodes[i].parent == Some(cond))
        .collect();
    assert_eq!(cases.len(), 2);
    for c in cases {
        assert!(matches!(g.nodes[c].op, NodeOp::Case { .. }));
        assert!(matches!(g.nodes[c + 1].op, NodeOp::Input { .. }));
        assert!(matches!(g.nodes[c + 2].op, NodeOp::Output { .. }));
    }
}

#[test]
fn wider_selector_is_unsupported() {
    let module = Module {
        functions: vec![Function::Definition {
            name: "main".to_string(),
            inputs: vec![JeffType::Int { bits: 8 }],
            outputs: vec![],
            body: Region {
                sources: vec![ValuePort { id: 0, ty: JeffType::Int { bits: 8 } }],
                targets: vec![],
                operations: vec![Operation {
                    optype: OpType::ControlFlowOp(ControlFlowOp::Switch(SwitchOp {
                        branches: vec![Region {
                            sources: vec![],
                            targets: vec![],
                            operations: vec![],
                        }],
                        default_branch: None,
                    })),
                    inputs: vec![ValuePort { id: 0, ty: JeffType::Int { bits: 8 } }],
                    outputs: vec![],
                }],
            },
        }],
    };
    let r = jeff_to_hugr(&module);
    assert!(matches!(r, Err(JeffToHugrError::UnsupportedOperation { .. })));
}

#[test]
fn cross_scope_value_gets_data_and_order_edges() {
    // a constant produced in the function scope is consumed inside the
    // loop body: the data edge crosses scopes and an ordering edge joins
    // the constant to the loop node
    let f64_ty = JeffType::Float { precision: hugr_jeff::jeff_ir::FloatPrecision::Float64 };
    let body = Region {
        sources: vec![float_port(20)],
        targets: vec![float_port(21)],
        operations: vec![Operation {
            optype: OpType::FloatOp(FloatOp::Add),
            inputs: vec![float_port(10), float_port(20)],
            outputs: vec![float_port(21)],
        }],
    };
    let condition = Region {
        sources: vec![float_port(30)],
        targets: vec![bit_port(31)],
        operations: vec![Operation {
            optype: OpType::IntOp(IntOp::Const1(true)),
            inputs: vec![],
            outputs: vec![bit_port(31)],
        }],
    };
    let module = Module {
        functions: vec![Function::Definition {
            name: "main".to_string(),
            inputs: vec![],
            outputs: vec![],
            body: Region {
                sources: vec![],
                targets: vec![],
                operations: vec![
                    Operation {
                        optype: OpType::FloatOp(FloatOp::Const64 { bits: 0 }),
                        inputs: vec![],
                        outputs: vec![float_port(10)],
                    },
                    Operation {
                        optype: OpType::ControlFlowOp(ControlFlowOp::DoWhile { body, condition }),
                        inputs: vec![float_port(10)],
                        outputs: vec![float_port(40)],
                    },
                ],
            },
        }],
    };
    let g = jeff_to_hugr(&module).unwrap();
    // the constant is node 4 (root, function, input, output, constant),
    // the loop node follows it
    assert!(matches!(g.nodes[4].op, NodeOp::LoadValue { .. }));
    assert!(matches!(g.nodes[5].op, NodeOp::TailLoop { .. }));
    // data edge from the constant deep into the loop body's adder
    let add_node = (0..g.nodes.len())
        .find(|&i| matches!(g.nodes[i].op, NodeOp::FloatOp { op: hugr_jeff::graph::FloatNodeOp::Fadd }))
        .unwrap();
    assert!(g.nodes[add_node].parent != g.nodes[4].parent);
    assert!(g.edges.iter().any(|e| e.src == 4 && e.dst == add_node));
    // and an explicit ordering edge between their sibling ancestors
    assert_eq!(g.order_edges, vec![OrderEdge { src: 4, dst: 5 }]);
}

#[test]
fn bounded_loop_counts_five_turns() {
    assert_eq!(for_loop_trip_count(0, 5, 1), 5);
}

#[test]
fn bounded_loop_with_empty_range_runs_never() {
    assert_eq!(for_loop_trip_count(5, 0, 1), 0);
}

#[test]
fn bounded_loop_with_stride_counts_partial_steps() {
    assert_eq!(for_loop_trip_count(0, 5, 2), 3);
    assert_eq!(for_loop_trip_count(-4, 4, 4), 2);
}

#[test]
fn parametric_rotation_converts_radians() {
    let gate = GateOp {
        gate_type: GateOpType::WellKnown(WellKnownGate::Rx),
        adjoint: false,
        control_qubits: 0,
        power: 1,
        num_qubits: 1,
        num_params: 1,
    };
    let module = Module {
        functions: vec![Function::Definition {
            name: "main".to_string(),
            inputs: vec![JeffType::Qubit, JeffType::Float {
                precision: hugr_jeff::jeff_ir::FloatPrecision::Float64,
            }],
            outputs: vec![JeffType::Qubit],
            body: Region {
                sources: vec![qubit_port(0), float_port(1)],
                targets: vec![qubit_port(2)],
                operations: vec![Operation {
                    optype: OpType::QubitOp(QubitOp::Gate(gate)),
                    inputs: vec![qubit_port(0), float_port(1)],
                    outputs: vec![qubit_port(2)],
                }],
            },
        }],
    };
    let g = jeff_to_hugr(&module).unwrap();
    // the rotation node, a loaded constant, a division and a conversion
    assert!(matches!(g.nodes[4].op, NodeOp::TketOp { op: TketGate::Rx }));
    assert!(matches!(g.nodes[5].op, NodeOp::LoadValue { .. }));
    assert!(matches!(
        g.nodes[6].op,
        NodeOp::FloatOp { op: hugr_jeff::graph::FloatNodeOp::Fdiv }
    ));
    assert!(matches!(g.nodes[7].op, NodeOp::RotationFromHalfTurns));
    // constant over divisor, divisor into the conversion, conversion into
    // the rotation port
    assert!(g.edges.contains(&Edge { src: 5, src_port: 0, dst: 6, dst_port: 1 }));
    assert!(g.edges.contains(&Edge { src: 6, src_port: 0, dst: 7, dst_port: 0 }));
    assert!(g.edges.contains(&Edge { src: 7, src_port: 0, dst: 4, dst_port: 1 }));
    // the angle input feeds the divisor, not the rotation node
    assert!(g.edges.contains(&Edge { src: 2, src_port: 1, dst: 6, dst_port: 0 }));
}

#[test]
fn bounded_loop_builds_a_repeat_node_with_both_signals() {
    let int64 = |id: u32| ValuePort { id, ty: JeffType::Int { bits: 64 } };
    let body = Region {
        sources: vec![int64(10)],
        targets: vec![],
        operations: vec![],
    };
    let module = Module {
        functions: vec![Function::Definition {
            name: "main".to_string(),
            inputs: vec![],
            outputs: vec![],
            body: Region {
                sources: vec![],
                targets: vec![],
                operations: vec![
                    Operation {
                        optype: OpType::IntOp(IntOp::Const64(0)),
                        inputs: vec![],
                        outputs: vec![int64(0)],
                    },
                    Operation {
                        optype: OpType::IntOp(IntOp::Const64(5)),
                        inputs: vec![],
                        outputs: vec![int64(1)],
                    },
                    Operation {
                        optype: OpType::IntOp(IntOp::Const64(1)),
                        inputs: vec![],
                        outputs: vec![int64(2)],
                    },
                    Operation {
                        optype: OpType::ControlFlowOp(ControlFlowOp::For { region: body }),
                        inputs: vec![int64(0), int64(1), int64(2)],
                        outputs: vec![],
                    },
                ],
            },
        }],
    };
    let g = jeff_to_hugr(&module).unwrap();
    let loops: Vec<usize> = (0..g.nodes.len())
        .filter(|&i| matches!(g.nodes[i].op, NodeOp::TailLoop { .. }))
        .collect();
    assert_eq!(loops.len(), 1);
    if let NodeOp::TailLoop { just_inputs, just_outputs, rest } = &g.nodes[loops[0]].op {
        assert_eq!(just_inputs.len(), 3);
        assert_eq!(just_outputs.len(), 0);
        assert_eq!(rest.len(), 0);
    }
    // a comparison, an increment, and one signal per side
    assert!((0..g.nodes.len()).any(|i| matches!(
        g.nodes[i].op,
        NodeOp::IntOp { op: hugr_jeff::graph::IntNodeOp::IltS, log_width: 6 }
    )));
    assert!((0..g.nodes.len()).any(|i| matches!(
        g.nodes[i].op,
        NodeOp::IntOp { op: hugr_jeff::graph::IntNodeOp::Iadd, log_width: 6 }
    )));
    assert!((0..g.nodes.len()).any(|i| matches!(g.nodes[i].op, NodeOp::Tag { tag: 0, .. })));
    assert!((0..g.nodes.len()).any(|i| matches!(g.nodes[i].op, NodeOp::Tag { tag: 1, .. })));
}

#[test]
fn while_loop_wraps_its_body_in_a_conditional() {
    let body = Region {
        sources: vec![float_port(20)],
        targets: vec![float_port(20)],
        operations: vec![],
    };
    let condition = Region {
        sources: vec![float_port(30)],
        targets: vec![bit_port(31)],
        operations: vec![Operation {
            optype: OpType::IntOp(IntOp::Const1(false)),
            inputs: vec![],
            outputs: vec![bit_port(31)],
        }],
    };
    let module = Module {
        functions: vec![Function::Definition {
            name: "main".to_string(),
            inputs: vec![JeffType::Float {
                precision: hugr_jeff::jeff_ir::FloatPrecision::Float64,
            }],
            outputs: vec![JeffType::Float {
                precision: hugr_jeff::jeff_ir::FloatPrecision::Float64,
            }],
            body: Region {
                sources: vec![float_port(0)],
                targets: vec![float_port(1)],
                operations: vec![Operation {
                    optype: OpType::ControlFlowOp(ControlFlowOp::While { body, condition }),
                    inputs: vec![float_port(0)],
                    outputs: vec![float_port(1)],
                }],
            },
        }],
    };
    let g = jeff_to_hugr(&module).unwrap();
    // the condition-first form still builds one repeat node, with the body
    // behind a conditional keyed on the precomputed flag
    assert!((0..g.nodes.len()).any(|i| matches!(g.nodes[i].op, NodeOp::TailLoop { .. })));
    let conds: Vec<usize> = (0..g.nodes.len())
        .filter(|&i| matches!(g.nodes[i].op, NodeOp::Conditional { .. }))
        .collect();
    assert_eq!(conds.len(), 1);
    let cases: Vec<usize> =
        (0..g.nodes.len()).filter(|&i| g.nodes[i].parent == Some(conds[0])).collect();
    assert_eq!(cases.len(), 2);
}

#[test]
fn constant_array_is_loaded_with_its_width() {
    let arr = |id: u32| ValuePort { id, ty: JeffType::IntArray { bits: 8 } };
    let module = Module {
        functions: vec![Function::Definition {
            name: "main".to_string(),
            inputs: vec![],
            outputs: vec![JeffType::IntArray { bits: 8 }],
            body: Region {
                sources: vec![],
                targets: vec![arr(0)],
                operations: vec![Operation {
                    optype: OpType::IntArrayOp(hugr_jeff::jeff_ir::IntArrayOp::ConstArray8 {
                        values: vec![1, 2, 3],
                    }),
                    inputs: vec![],
                    outputs: vec![arr(0)],
                }],
            },
        }],
    };
    let g = jeff_to_hugr(&module).unwrap();
    let found = (0..g.nodes.len()).find_map(|i| match &g.nodes[i].op {
        NodeOp::LoadValue { value: hugr_jeff::graph::ConstValue::IntReg(c) } => Some(c.clone()),
        _ => None,
    });
    let c = found.unwrap();
    assert_eq!(c.bits(), 8);
    assert_eq!(c.values(), &vec![1u64, 2, 3]);
}
