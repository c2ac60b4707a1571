//! End-to-end runs of small programs: checked arithmetic, enum layout,
//! branching, the stack limit, constant caching, and step behaviour after
//! termination.

use mirvm::error::{EvalError, Unsupported};
use mirvm::eval::{
    eval_main, CachedMir, ConstantId, ConstantKind, EvalContext, StackPopCleanup,
};
use mirvm::memory::TargetDataLayout;
use mirvm::mir::{
    AggregateKind, BasicBlock, ConstVal, Constant, DefEntry, DefKind, Literal, Lvalue, Mir,
    Operand, Program, Projection, ProjectionElem, Rvalue, Statement, Terminator,
};
use mirvm::primval::BinOp;
use mirvm::ty::{AdtDef, AdtVariant, LayoutShape, StructLayout, Ty, TyDesc, UintWidth};

fn scalar(ty: Ty, size: usize, align: usize) -> TyDesc {
    TyDesc { ty, size, align, shape: LayoutShape::Scalar }
}

fn uint_const(v: u64, size: usize, ty: usize) -> Operand {
    Operand::Constant(Constant { ty, span: 0, literal: Literal::Value(ConstVal::Uint(v, size)) })
}

fn one_body_program(types: Vec<TyDesc>, adts: Vec<AdtDef>, body: Mir) -> Program {
    Program {
        types,
        adts,
        defs: vec![DefEntry { def_id: 1, kind: DefKind::Body(0) }],
        bodies: vec![body],
        vtables: vec![],
        layout: TargetDataLayout::host_default(),
    }
}

fn run_expecting(prog: Program, ret_ty: usize) -> (EvalContext, mirvm::memory::Pointer) {
    let mut ecx = EvalContext::new(prog, 1 << 20, 100);
    let ret = ecx.alloc_ret_ptr(ret_ty, 0).unwrap();
    ecx.push_stack_frame(1, 0, CachedMir::Ref(0), 0, Some(ret), StackPopCleanup::Nothing)
        .unwrap();
    ecx.run(10_000).unwrap();
    (ecx, ret)
}

const TY_U8: usize = 0;
const TY_BOOL: usize = 1;
const TY_PAIR: usize = 2;

fn checked_add_program() -> Program {
    let types = vec![
        scalar(Ty::Uint(UintWidth::U8), 1, 1),
        scalar(Ty::Bool, 1, 1),
        TyDesc {
            ty: Ty::Tuple(2),
            size: 2,
            align: 1,
            shape: LayoutShape::Univariant(StructLayout { field_offsets: vec![0, 1] }),
        },
    ];
    let body = Mir {
        basic_blocks: vec![BasicBlock {
            statements: vec![Statement {
                span: 0,
                lvalue: Lvalue::ReturnPointer,
                ty: TY_PAIR,
                rvalue: Rvalue::CheckedBinaryOp(
                    BinOp::Add,
                    uint_const(255, 1, TY_U8),
                    uint_const(1, 1, TY_U8),
                ),
            }],
            terminator: Terminator::Return,
            span: 0,
        }],
        promoted: vec![],
        arg_tys: vec![],
        var_tys: vec![],
        temp_tys: vec![],
        return_ty: TY_PAIR,
        span: 0,
    };
    one_body_program(types, vec![], body)
}

#[test]
fn scenario_checked_add_overflows() {
    let (ecx, ret) = run_expecting(checked_add_program(), TY_PAIR);
    assert_eq!(ecx.memory().read_uint(ret, 1).unwrap(), 0);
    let flag = mirvm::memory::Pointer { alloc_id: ret.alloc_id, offset: ret.offset + 1 };
    assert_eq!(ecx.memory().read_bool(flag).unwrap(), true);
}

const TY_U32: usize = 0;
const TY_ENUM: usize = 1;

fn enum_types() -> (Vec<TyDesc>, Vec<AdtDef>) {
    let types = vec![
        scalar(Ty::Uint(UintWidth::U32), 4, 4),
        TyDesc {
            ty: Ty::Adt(0),
            size: 8,
            align: 4,
            shape: LayoutShape::General {
                discr_size: 4,
                variants: vec![
                    StructLayout { field_offsets: vec![] },
                    StructLayout { field_offsets: vec![4] },
                ],
            },
        },
    ];
    let adts = vec![AdtDef {
        variants: vec![
            AdtVariant { disr_val: 0, fields: vec![] },
            AdtVariant { disr_val: 1, fields: vec![TY_U32] },
        ],
    }];
    (types, adts)
}

fn downcast_field_read() -> Rvalue {
    Rvalue::Use(Operand::Consume(
        Lvalue::Projection(Box::new(Projection {
            base: Lvalue::Projection(Box::new(Projection {
                base: Lvalue::Var(0),
                ty: TY_ENUM,
                elem: ProjectionElem::Downcast(1),
            })),
            ty: TY_ENUM,
            elem: ProjectionElem::Field(0),
        })),
        TY_U32,
    ))
}

fn enum_program(variant: usize, operands: Vec<Operand>) -> Program {
    let (types, adts) = enum_types();
    let body = Mir {
        basic_blocks: vec![BasicBlock {
            statements: vec![
                Statement {
                    span: 0,
                    lvalue: Lvalue::Var(0),
                    ty: TY_ENUM,
                    rvalue: Rvalue::Aggregate(AggregateKind::Adt(0, variant), operands),
                },
                Statement {
                    span: 0,
                    lvalue: Lvalue::ReturnPointer,
                    ty: TY_U32,
                    rvalue: downcast_field_read(),
                },
            ],
            terminator: Terminator::Return,
            span: 0,
        }],
        promoted: vec![],
        arg_tys: vec![],
        var_tys: vec![TY_ENUM],
        temp_tys: vec![],
        return_ty: TY_U32,
        span: 0,
    };
    one_body_program(types, adts, body)
}

#[test]
fn scenario_enum_payload_reads_back() {
    let prog = enum_program(1, vec![uint_const(7, 4, TY_U32)]);
    let (ecx, ret) = run_expecting(prog, TY_U32);
    assert_eq!(ecx.memory().read_uint(ret, 4).unwrap(), 7);
}

#[test]
fn scenario_wrong_variant_field_is_uninitialized() {
    // a `Use` copies bytes together with their (un)definedness, so the
    // failure surfaces at the first primitive read of the result
    let prog = enum_program(0, vec![]);
    let (ecx, ret) = run_expecting(prog, TY_U32);
    assert_eq!(ecx.memory().read_uint(ret, 4), Err(EvalError::ReadUndefBytes));
}

const TY_UNIT: usize = 0;
const TY_F_FN: usize = 1;
const TY_FN_PTR: usize = 2;

fn recursion_program() -> Program {
    let types = vec![
        TyDesc {
            ty: Ty::Tuple(0),
            size: 0,
            align: 1,
            shape: LayoutShape::Univariant(StructLayout { field_offsets: vec![] }),
        },
        scalar(Ty::FnDef(2, 0, TY_FN_PTR), 0, 1),
        scalar(Ty::FnPtr, 8, 8),
    ];
    let body = Mir {
        basic_blocks: vec![
            BasicBlock {
                statements: vec![],
                terminator: Terminator::Call {
                    func: Operand::Constant(Constant {
                        ty: TY_F_FN,
                        span: 0,
                        literal: Literal::Item { def_id: 2, substs: 0 },
                    }),
                    args: vec![],
                    destination: Some((Lvalue::ReturnPointer, 1)),
                },
                span: 0,
            },
            BasicBlock { statements: vec![], terminator: Terminator::Return, span: 0 },
        ],
        promoted: vec![],
        arg_tys: vec![],
        var_tys: vec![],
        temp_tys: vec![],
        return_ty: TY_UNIT,
        span: 0,
    };
    Program {
        types,
        adts: vec![],
        defs: vec![DefEntry { def_id: 2, kind: DefKind::Body(0) }],
        bodies: vec![body],
        vtables: vec![],
        layout: TargetDataLayout::host_default(),
    }
}

#[test]
fn scenario_unbounded_recursion_hits_stack_limit() {
    let limit = 4;
    let mut ecx = EvalContext::new(recursion_program(), 1 << 20, limit);
    let ret = ecx.alloc_ret_ptr(TY_UNIT, 0).unwrap();
    ecx.push_stack_frame(2, 0, CachedMir::Ref(0), 0, Some(ret), StackPopCleanup::Nothing)
        .unwrap();
    assert_eq!(ecx.run(10_000), Err(EvalError::StackFrameLimitReached));
    // the error fires at exactly the push that exceeds the limit
    assert_eq!(ecx.stack().len(), limit + 1);
}

const TY_SU32: usize = 0;
const DEF_STATIC: u64 = 5;

fn static_program() -> Program {
    let types = vec![scalar(Ty::Uint(UintWidth::U32), 4, 4)];
    let static_body = Mir {
        basic_blocks: vec![BasicBlock {
            statements: vec![Statement {
                span: 0,
                lvalue: Lvalue::ReturnPointer,
                ty: TY_SU32,
                rvalue: Rvalue::Use(uint_const(7, 4, TY_SU32)),
            }],
            terminator: Terminator::Return,
            span: 0,
        }],
        promoted: vec![],
        arg_tys: vec![],
        var_tys: vec![],
        temp_tys: vec![],
        return_ty: TY_SU32,
        span: 0,
    };
    let main_body = Mir {
        basic_blocks: vec![BasicBlock {
            statements: vec![
                Statement {
                    span: 0,
                    lvalue: Lvalue::Var(0),
                    ty: TY_SU32,
                    rvalue: Rvalue::Use(Operand::Consume(Lvalue::Static(DEF_STATIC), TY_SU32)),
                },
                Statement {
                    span: 0,
                    lvalue: Lvalue::Var(1),
                    ty: TY_SU32,
                    rvalue: Rvalue::Use(Operand::Consume(Lvalue::Static(DEF_STATIC), TY_SU32)),
                },
                Statement {
                    span: 0,
                    lvalue: Lvalue::ReturnPointer,
                    ty: TY_SU32,
                    rvalue: Rvalue::Use(Operand::Consume(Lvalue::Var(0), TY_SU32)),
                },
            ],
            terminator: Terminator::Return,
            span: 0,
        }],
        promoted: vec![],
        arg_tys: vec![],
        var_tys: vec![TY_SU32, TY_SU32],
        temp_tys: vec![],
        return_ty: TY_SU32,
        span: 0,
    };
    Program {
        types,
        adts: vec![],
        defs: vec![
            DefEntry { def_id: 1, kind: DefKind::Body(0) },
            DefEntry { def_id: DEF_STATIC, kind: DefKind::Body(1) },
        ],
        bodies: vec![main_body, static_body],
        vtables: vec![],
        layout: TargetDataLayout::host_default(),
    }
}

#[test]
fn constants_are_cached_and_frozen() {
    let (mut ecx, ret) = run_expecting(static_program(), TY_SU32);
    assert_eq!(ecx.memory().read_uint(ret, 4).unwrap(), 7);
    // referenced twice, computed and cached once
    assert_eq!(ecx.machine.statics.len(), 1);
    let cid = ConstantId { def_id: DEF_STATIC, substs: 0, kind: ConstantKind::Global };
    let p1 = ecx.machine.lookup_constant(cid).unwrap();
    let p2 = ecx.machine.lookup_constant(cid).unwrap();
    assert_eq!(p1, p2);
    assert_eq!(ecx.memory().read_uint(p1, 4).unwrap(), 7);
    // the computed static is sealed read-only
    assert_eq!(
        ecx.memory_mut().write_uint(p1, 9, 4),
        Err(EvalError::Unimplemented(Unsupported::FrozenMemory))
    );
}

#[test]
fn branch_on_condition() {
    let types = vec![scalar(Ty::Uint(UintWidth::U32), 4, 4), scalar(Ty::Bool, 1, 1)];
    let assign = |v: u64| Statement {
        span: 0,
        lvalue: Lvalue::ReturnPointer,
        ty: 0,
        rvalue: Rvalue::Use(uint_const(v, 4, 0)),
    };
    let body = Mir {
        basic_blocks: vec![
            BasicBlock {
                statements: vec![],
                terminator: Terminator::If {
                    cond: Operand::Constant(Constant {
                        ty: 1,
                        span: 0,
                        literal: Literal::Value(ConstVal::Bool(true)),
                    }),
                    then_target: 1,
                    else_target: 2,
                },
                span: 0,
            },
            BasicBlock {
                statements: vec![assign(1)],
                terminator: Terminator::Return,
                span: 0,
            },
            BasicBlock {
                statements: vec![assign(2)],
                terminator: Terminator::Return,
                span: 0,
            },
        ],
        promoted: vec![],
        arg_tys: vec![],
        var_tys: vec![],
        temp_tys: vec![],
        return_ty: 0,
        span: 0,
    };
    let (ecx, ret) = run_expecting(one_body_program(types, vec![], body), 0);
    assert_eq!(ecx.memory().read_uint(ret, 4).unwrap(), 1);
}

#[test]
fn switch_follows_the_active_variant() {
    let (types, adts) = enum_types();
    let assign = |v: u64| Statement {
        span: 0,
        lvalue: Lvalue::ReturnPointer,
        ty: TY_U32,
        rvalue: Rvalue::Use(uint_const(v, 4, TY_U32)),
    };
    let body = Mir {
        basic_blocks: vec![
            BasicBlock {
                statements: vec![Statement {
                    span: 0,
                    lvalue: Lvalue::Var(0),
                    ty: TY_ENUM,
                    rvalue: Rvalue::Aggregate(
                        AggregateKind::Adt(0, 1),
                        vec![uint_const(7, 4, TY_U32)],
                    ),
                }],
                terminator: Terminator::Switch {
                    discr: Lvalue::Var(0),
                    ty: TY_ENUM,
                    targets: vec![1, 2],
                },
                span: 0,
            },
            BasicBlock { statements: vec![assign(100)], terminator: Terminator::Return, span: 0 },
            BasicBlock {
                statements: vec![Statement {
                    span: 0,
                    lvalue: Lvalue::ReturnPointer,
                    ty: TY_U32,
                    rvalue: downcast_field_read(),
                }],
                terminator: Terminator::Return,
                span: 0,
            },
        ],
        promoted: vec![],
        arg_tys: vec![],
        var_tys: vec![TY_ENUM],
        temp_tys: vec![],
        return_ty: TY_U32,
        span: 0,
    };
    let (ecx, ret) = run_expecting(one_body_program(types, adts, body), TY_U32);
    assert_eq!(ecx.memory().read_uint(ret, 4).unwrap(), 7);
}

const ST_U32: usize = 0;
const ST_ARR: usize = 1;
const ST_SLICE_REF: usize = 2;
const ST_SLICE: usize = 3;
const ST_ARR_REF: usize = 4;
const ST_USIZE: usize = 5;

fn slice_program(ret_ty: usize, final_read: Rvalue) -> Program {
    let types = vec![
        scalar(Ty::Uint(UintWidth::U32), 4, 4),
        TyDesc { ty: Ty::Array(ST_U32, 3), size: 12, align: 4, shape: LayoutShape::Array },
        TyDesc { ty: Ty::Ref(ST_SLICE), size: 16, align: 8, shape: LayoutShape::FatPointer },
        TyDesc { ty: Ty::Slice(ST_U32), size: 0, align: 4, shape: LayoutShape::Array },
        scalar(Ty::Ref(ST_ARR), 8, 8),
        scalar(Ty::Uint(UintWidth::USize), 8, 8),
    ];
    let body = Mir {
        basic_blocks: vec![BasicBlock {
            statements: vec![
                Statement {
                    span: 0,
                    lvalue: Lvalue::Var(0),
                    ty: ST_ARR,
                    rvalue: Rvalue::Aggregate(
                        AggregateKind::Array,
                        vec![
                            uint_const(1, 4, ST_U32),
                            uint_const(2, 4, ST_U32),
                            uint_const(3, 4, ST_U32),
                        ],
                    ),
                },
                Statement {
                    span: 0,
                    lvalue: Lvalue::Var(1),
                    ty: ST_ARR_REF,
                    rvalue: Rvalue::Ref(Lvalue::Var(0)),
                },
                Statement {
                    span: 0,
                    lvalue: Lvalue::Var(2),
                    ty: ST_SLICE_REF,
                    rvalue: Rvalue::Cast(
                        mirvm::mir::CastKind::Unsize,
                        Operand::Consume(Lvalue::Var(1), ST_ARR_REF),
                        ST_SLICE_REF,
                    ),
                },
                Statement { span: 0, lvalue: Lvalue::ReturnPointer, ty: ret_ty, rvalue: final_read },
            ],
            terminator: Terminator::Return,
            span: 0,
        }],
        promoted: vec![],
        arg_tys: vec![],
        var_tys: vec![ST_ARR, ST_ARR_REF, ST_SLICE_REF],
        temp_tys: vec![],
        return_ty: ret_ty,
        span: 0,
    };
    one_body_program(types, vec![], body)
}

#[test]
fn unsize_records_the_length() {
    let read_len = Rvalue::Len(
        Lvalue::Projection(Box::new(Projection {
            base: Lvalue::Var(2),
            ty: ST_SLICE_REF,
            elem: ProjectionElem::Deref,
        })),
        ST_SLICE,
    );
    let (ecx, ret) = run_expecting(slice_program(ST_USIZE, read_len), ST_USIZE);
    assert_eq!(ecx.memory().read_usize(ret).unwrap(), 3);
}

#[test]
fn slice_indexing_reaches_the_element() {
    let read_elem = Rvalue::Use(Operand::Consume(
        Lvalue::Projection(Box::new(Projection {
            base: Lvalue::Projection(Box::new(Projection {
                base: Lvalue::Var(2),
                ty: ST_SLICE_REF,
                elem: ProjectionElem::Deref,
            })),
            ty: ST_SLICE,
            elem: ProjectionElem::Index(uint_const(1, 8, ST_USIZE)),
        })),
        ST_U32,
    ));
    let (ecx, ret) = run_expecting(slice_program(ST_U32, read_elem), ST_U32);
    assert_eq!(ecx.memory().read_uint(ret, 4).unwrap(), 2);
}

#[test]
fn repeat_fills_an_array() {
    let types = vec![
        scalar(Ty::Uint(UintWidth::U8), 1, 1),
        TyDesc { ty: Ty::Array(0, 4), size: 4, align: 1, shape: LayoutShape::Array },
        scalar(Ty::Uint(UintWidth::USize), 8, 8),
    ];
    let body = Mir {
        basic_blocks: vec![BasicBlock {
            statements: vec![
                Statement {
                    span: 0,
                    lvalue: Lvalue::Var(0),
                    ty: 1,
                    rvalue: Rvalue::Repeat(uint_const(9, 1, 0), 4),
                },
                Statement {
                    span: 0,
                    lvalue: Lvalue::ReturnPointer,
                    ty: 0,
                    rvalue: Rvalue::Use(Operand::Consume(
                        Lvalue::Projection(Box::new(Projection {
                            base: Lvalue::Var(0),
                            ty: 1,
                            elem: ProjectionElem::Index(uint_const(3, 8, 2)),
                        })),
                        0,
                    )),
                },
            ],
            terminator: Terminator::Return,
            span: 0,
        }],
        promoted: vec![],
        arg_tys: vec![],
        var_tys: vec![1],
        temp_tys: vec![],
        return_ty: 0,
        span: 0,
    };
    let (ecx, ret) = run_expecting(one_body_program(types, vec![], body), 0);
    assert_eq!(ecx.memory().read_uint(ret, 1).unwrap(), 9);
}

const NW_U32: usize = 0;
const NW_REF: usize = 1;
const NW_OPT: usize = 2;

fn nullable_types() -> (Vec<TyDesc>, Vec<AdtDef>) {
    let types = vec![
        scalar(Ty::Uint(UintWidth::U32), 4, 4),
        scalar(Ty::Ref(NW_U32), 8, 8),
        TyDesc {
            ty: Ty::Adt(0),
            size: 8,
            align: 8,
            shape: LayoutShape::StructWrappedNullablePointer {
                nndiscr: 1,
                nonnull: StructLayout { field_offsets: vec![0] },
                discrfield: vec![0],
            },
        },
    ];
    let adts = vec![AdtDef {
        variants: vec![
            AdtVariant { disr_val: 0, fields: vec![] },
            AdtVariant { disr_val: 1, fields: vec![NW_REF] },
        ],
    }];
    (types, adts)
}

fn nullable_program(make_some: bool) -> Program {
    let (types, adts) = nullable_types();
    let build = if make_some {
        vec![
            Statement {
                span: 0,
                lvalue: Lvalue::Var(1),
                ty: NW_U32,
                rvalue: Rvalue::Use(uint_const(5, 4, NW_U32)),
            },
            Statement {
                span: 0,
                lvalue: Lvalue::Temp(0),
                ty: NW_REF,
                rvalue: Rvalue::Ref(Lvalue::Var(1)),
            },
            Statement {
                span: 0,
                lvalue: Lvalue::Var(0),
                ty: NW_OPT,
                rvalue: Rvalue::Aggregate(
                    AggregateKind::Adt(0, 1),
                    vec![Operand::Consume(Lvalue::Temp(0), NW_REF)],
                ),
            },
        ]
    } else {
        vec![Statement {
            span: 0,
            lvalue: Lvalue::Var(0),
            ty: NW_OPT,
            rvalue: Rvalue::Aggregate(AggregateKind::Adt(0, 0), vec![]),
        }]
    };
    let read_through = Rvalue::Use(Operand::Consume(
        Lvalue::Projection(Box::new(Projection {
            base: Lvalue::Projection(Box::new(Projection {
                base: Lvalue::Projection(Box::new(Projection {
                    base: Lvalue::Var(0),
                    ty: NW_OPT,
                    elem: ProjectionElem::Downcast(1),
                })),
                ty: NW_OPT,
                elem: ProjectionElem::Field(0),
            })),
            ty: NW_REF,
            elem: ProjectionElem::Deref,
        })),
        NW_U32,
    ));
    let mut entry = build;
    entry.push(Statement { span: 0, lvalue: Lvalue::Temp(1), ty: NW_U32, rvalue: read_through });
    let body = Mir {
        basic_blocks: vec![
            BasicBlock {
                statements: entry,
                terminator: Terminator::Switch {
                    discr: Lvalue::Var(0),
                    ty: NW_OPT,
                    targets: vec![1, 2],
                },
                span: 0,
            },
            BasicBlock {
                statements: vec![Statement {
                    span: 0,
                    lvalue: Lvalue::ReturnPointer,
                    ty: NW_U32,
                    rvalue: Rvalue::Use(uint_const(100, 4, NW_U32)),
                }],
                terminator: Terminator::Return,
                span: 0,
            },
            BasicBlock {
                statements: vec![Statement {
                    span: 0,
                    lvalue: Lvalue::ReturnPointer,
                    ty: NW_U32,
                    rvalue: Rvalue::Use(Operand::Consume(Lvalue::Temp(1), NW_U32)),
                }],
                terminator: Terminator::Return,
                span: 0,
            },
        ],
        promoted: vec![],
        arg_tys: vec![],
        var_tys: vec![NW_OPT, NW_U32],
        temp_tys: vec![NW_REF, NW_U32],
        return_ty: NW_U32,
        span: 0,
    };
    one_body_program(types, adts, body)
}

#[test]
fn nullable_pointer_null_variant_is_all_zero() {
    let mut prog = nullable_program(false);
    // the null build never dereferences, so drop the read-through statement
    if let Some(bb) = prog.bodies[0].basic_blocks.get_mut(0) {
        bb.statements.pop();
    }
    let (ecx, ret) = run_expecting(prog, NW_U32);
    assert_eq!(ecx.memory().read_uint(ret, 4).unwrap(), 100);
}

#[test]
fn nullable_pointer_some_variant_reads_through() {
    let (ecx, ret) = run_expecting(nullable_program(true), NW_U32);
    assert_eq!(ecx.memory().read_uint(ret, 4).unwrap(), 5);
}

#[test]
fn switch_int_picks_the_matching_value() {
    let types = vec![scalar(Ty::Uint(UintWidth::U32), 4, 4)];
    let assign = |v: u64| Statement {
        span: 0,
        lvalue: Lvalue::ReturnPointer,
        ty: 0,
        rvalue: Rvalue::Use(uint_const(v, 4, 0)),
    };
    let body = Mir {
        basic_blocks: vec![
            BasicBlock {
                statements: vec![Statement {
                    span: 0,
                    lvalue: Lvalue::Var(0),
                    ty: 0,
                    rvalue: Rvalue::Use(uint_const(2, 4, 0)),
                }],
                terminator: Terminator::SwitchInt {
                    discr: Lvalue::Var(0),
                    discr_size: 4,
                    values: vec![1, 2],
                    targets: vec![1, 2, 3],
                },
                span: 0,
            },
            BasicBlock { statements: vec![assign(11)], terminator: Terminator::Return, span: 0 },
            BasicBlock { statements: vec![assign(22)], terminator: Terminator::Return, span: 0 },
            BasicBlock { statements: vec![assign(33)], terminator: Terminator::Return, span: 0 },
        ],
        promoted: vec![],
        arg_tys: vec![],
        var_tys: vec![0],
        temp_tys: vec![],
        return_ty: 0,
        span: 0,
    };
    let (ecx, ret) = run_expecting(one_body_program(types, vec![], body), 0);
    assert_eq!(ecx.memory().read_uint(ret, 4).unwrap(), 22);
}

#[test]
fn misc_cast_truncates() {
    let types = vec![
        scalar(Ty::Uint(UintWidth::U32), 4, 4),
        scalar(Ty::Uint(UintWidth::U8), 1, 1),
    ];
    let body = Mir {
        basic_blocks: vec![BasicBlock {
            statements: vec![Statement {
                span: 0,
                lvalue: Lvalue::ReturnPointer,
                ty: 1,
                rvalue: Rvalue::Cast(mirvm::mir::CastKind::Misc, uint_const(300, 4, 0), 1),
            }],
            terminator: Terminator::Return,
            span: 0,
        }],
        promoted: vec![],
        arg_tys: vec![],
        var_tys: vec![],
        temp_tys: vec![],
        return_ty: 1,
        span: 0,
    };
    let (ecx, ret) = run_expecting(one_body_program(types, vec![], body), 1);
    assert_eq!(ecx.memory().read_uint(ret, 1).unwrap(), 44);
}

const VT_U32: usize = 0;
const VT_REF_U32: usize = 1;
const VT_DYN: usize = 2;
const VT_REF_DYN: usize = 3;
const VT_FN_PTR: usize = 4;
const VT_TRAIT: u64 = 77;
const VT_METHOD: u64 = 50;

#[test]
fn unsize_to_trait_object_builds_the_vtable() {
    let types = vec![
        scalar(Ty::Uint(UintWidth::U32), 4, 4),
        scalar(Ty::Ref(VT_U32), 8, 8),
        TyDesc { ty: Ty::Trait(VT_TRAIT), size: 0, align: 1, shape: LayoutShape::Scalar },
        TyDesc { ty: Ty::Ref(VT_DYN), size: 16, align: 8, shape: LayoutShape::FatPointer },
        scalar(Ty::FnPtr, 8, 8),
    ];
    let body = Mir {
        basic_blocks: vec![BasicBlock {
            statements: vec![
                Statement {
                    span: 0,
                    lvalue: Lvalue::Var(0),
                    ty: VT_U32,
                    rvalue: Rvalue::Use(uint_const(5, 4, VT_U32)),
                },
                Statement {
                    span: 0,
                    lvalue: Lvalue::Var(1),
                    ty: VT_REF_U32,
                    rvalue: Rvalue::Ref(Lvalue::Var(0)),
                },
                Statement {
                    span: 0,
                    lvalue: Lvalue::Var(2),
                    ty: VT_REF_DYN,
                    rvalue: Rvalue::Cast(
                        mirvm::mir::CastKind::Unsize,
                        Operand::Consume(Lvalue::Var(1), VT_REF_U32),
                        VT_REF_DYN,
                    ),
                },
            ],
            terminator: Terminator::Return,
            span: 0,
        }],
        promoted: vec![],
        arg_tys: vec![],
        var_tys: vec![VT_U32, VT_REF_U32, VT_REF_DYN],
        temp_tys: vec![],
        return_ty: VT_U32,
        span: 0,
    };
    let mut prog = one_body_program(types, vec![], body);
    prog.vtables = vec![mirvm::mir::VtableDesc {
        self_ty: VT_U32,
        trait_id: VT_TRAIT,
        methods: vec![(VT_METHOD, 0, VT_FN_PTR)],
    }];
    let mut ecx = EvalContext::new(prog, 1 << 20, 100);
    let ret = ecx.alloc_ret_ptr(VT_U32, 0).unwrap();
    ecx.push_stack_frame(1, 0, CachedMir::Ref(0), 0, Some(ret), StackPopCleanup::Nothing)
        .unwrap();
    // run the three statements but stop before the frame returns
    for _ in 0..3 {
        assert!(ecx.step().unwrap());
    }
    let fat_slot = ecx.frame().unwrap().locals[2];
    let meta_slot =
        mirvm::memory::Pointer { alloc_id: fat_slot.alloc_id, offset: fat_slot.offset + 8 };
    let vtable = ecx.memory().read_ptr(meta_slot).unwrap();
    // layout: drop word, size, align, then the method pointers
    assert_eq!(ecx.memory().read_usize(vtable).unwrap(), 0);
    let size_slot = mirvm::memory::Pointer { alloc_id: vtable.alloc_id, offset: vtable.offset + 8 };
    assert_eq!(ecx.memory().read_usize(size_slot).unwrap(), 4);
    let align_slot =
        mirvm::memory::Pointer { alloc_id: vtable.alloc_id, offset: vtable.offset + 16 };
    assert_eq!(ecx.memory().read_usize(align_slot).unwrap(), 4);
    let method_slot =
        mirvm::memory::Pointer { alloc_id: vtable.alloc_id, offset: vtable.offset + 24 };
    let method = ecx.memory().read_ptr(method_slot).unwrap();
    assert_eq!(ecx.memory().get_fn(method.alloc_id).unwrap().def_id, VT_METHOD);
}

#[test]
fn step_is_inert_after_termination() {
    let prog = checked_add_program();
    let (mut ecx, r) = eval_main(prog, 1, 1 << 20, 10_000, 100);
    r.unwrap();
    assert_eq!(ecx.stack().len(), 0);
    let before = ecx.memory().stats();
    assert_eq!(ecx.step().unwrap(), false);
    assert_eq!(ecx.step().unwrap(), false);
    let after = ecx.memory().stats();
    assert_eq!(before.virtual_bytes_allocated, after.virtual_bytes_allocated);
    assert_eq!(before.allocations, after.allocations);
    assert_eq!(before.current_alloc_id, after.current_alloc_id);
}

#[test]
fn promoted_constants_are_materialized_and_cached() {
    let types = vec![scalar(Ty::Uint(UintWidth::U32), 4, 4)];
    let promoted_body = Mir {
        basic_blocks: vec![BasicBlock {
            statements: vec![Statement {
                span: 0,
                lvalue: Lvalue::ReturnPointer,
                ty: 0,
                rvalue: Rvalue::Use(uint_const(9, 4, 0)),
            }],
            terminator: Terminator::Return,
            span: 0,
        }],
        promoted: vec![],
        arg_tys: vec![],
        var_tys: vec![],
        temp_tys: vec![],
        return_ty: 0,
        span: 0,
    };
    let body = Mir {
        basic_blocks: vec![BasicBlock {
            statements: vec![Statement {
                span: 0,
                lvalue: Lvalue::ReturnPointer,
                ty: 0,
                rvalue: Rvalue::Use(Operand::Constant(Constant {
                    ty: 0,
                    span: 0,
                    literal: Literal::Promoted(0),
                })),
            }],
            terminator: Terminator::Return,
            span: 0,
        }],
        promoted: vec![promoted_body],
        arg_tys: vec![],
        var_tys: vec![],
        temp_tys: vec![],
        return_ty: 0,
        span: 0,
    };
    let (ecx, ret) = run_expecting(one_body_program(types, vec![], body), 0);
    assert_eq!(ecx.memory().read_uint(ret, 4).unwrap(), 9);
    assert_eq!(ecx.machine.statics.len(), 1);
    let cid = ConstantId { def_id: 1, substs: 0, kind: ConstantKind::Promoted(0) };
    assert!(ecx.machine.lookup_constant(cid).is_some());
}

fn start_wrapper_program() -> Program {
    let types = vec![scalar(Ty::Uint(UintWidth::USize), 8, 8)];
    let body = Mir {
        basic_blocks: vec![BasicBlock {
            statements: vec![Statement {
                span: 0,
                lvalue: Lvalue::ReturnPointer,
                ty: 0,
                rvalue: Rvalue::Use(Operand::Consume(Lvalue::Arg(0), 0)),
            }],
            terminator: Terminator::Return,
            span: 0,
        }],
        promoted: vec![],
        arg_tys: vec![0, 0],
        var_tys: vec![],
        temp_tys: vec![],
        return_ty: 0,
        span: 0,
    };
    one_body_program(types, vec![], body)
}

#[test]
fn start_wrapper_gets_zero_arguments() {
    // the entry point recognizes a two-argument entry function as a start
    // wrapper and hands it an argument count of zero, already defined
    let (ecx2, r) = eval_main(start_wrapper_program(), 1, 1 << 20, 10_000, 100);
    r.unwrap();
    assert_eq!(ecx2.stack().len(), 0);
    // the same installation by hand, through the frame accessor, makes the
    // value observable
    let mut ecx = EvalContext::new(start_wrapper_program(), 1 << 20, 100);
    let ret = ecx.alloc_ret_ptr(0, 0).unwrap();
    ecx.push_stack_frame(1, 0, CachedMir::Ref(0), 0, Some(ret), StackPopCleanup::Nothing)
        .unwrap();
    let psize = ecx.memory().pointer_size();
    let nargs = ecx.memory_mut().allocate(psize, psize).unwrap();
    ecx.memory_mut().write_usize(nargs, 0).unwrap();
    let f = ecx.frame_mut().unwrap();
    f.locals[0] = nargs;
    ecx.run(10_000).unwrap();
    assert_eq!(ecx.memory().read_usize(ret).unwrap(), 0);
}

#[test]
fn foreign_calls_are_classified() {
    let types = vec![
        TyDesc {
            ty: Ty::Tuple(0),
            size: 0,
            align: 1,
            shape: LayoutShape::Univariant(StructLayout { field_offsets: vec![] }),
        },
        scalar(Ty::FnDef(9, 0, 2), 0, 1),
        scalar(Ty::FnPtr, 8, 8),
    ];
    let body = Mir {
        basic_blocks: vec![
            BasicBlock {
                statements: vec![],
                terminator: Terminator::Call {
                    func: Operand::Constant(Constant {
                        ty: 1,
                        span: 0,
                        literal: Literal::Item { def_id: 9, substs: 0 },
                    }),
                    args: vec![],
                    destination: Some((Lvalue::ReturnPointer, 1)),
                },
                span: 0,
            },
            BasicBlock { statements: vec![], terminator: Terminator::Return, span: 0 },
        ],
        promoted: vec![],
        arg_tys: vec![],
        var_tys: vec![],
        temp_tys: vec![],
        return_ty: 0,
        span: 0,
    };
    let prog = Program {
        types,
        adts: vec![],
        defs: vec![
            DefEntry { def_id: 1, kind: DefKind::Body(0) },
            DefEntry { def_id: 9, kind: DefKind::Foreign },
        ],
        bodies: vec![body],
        vtables: vec![],
        layout: TargetDataLayout::host_default(),
    };
    let (_, r) = eval_main(prog, 1, 1 << 20, 10_000, 100);
    assert_eq!(r, Err(EvalError::CantCallCAbi(9)));
}
