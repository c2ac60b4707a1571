//! The size of `Option<Box<i32>>` equals the size of `*const i32`: a built
//! `Some(Box::new(42))` can be transmuted to a thin pointer and
//! dereferenced.

use mirvm::eval::{CachedMir, EvalContext, StackPopCleanup};
use mirvm::memory::TargetDataLayout;
use mirvm::mir::{
    AggregateKind, BasicBlock, ConstVal, Constant, DefEntry, DefKind, Intrinsic, Literal, Lvalue,
    Mir, Operand, Program, Projection, ProjectionElem, Rvalue, Statement, Terminator,
};
use mirvm::ty::{AdtDef, AdtVariant, IntWidth, LayoutShape, Ty, TyDesc};

const TY_I32: usize = 0;
const TY_BOX_I32: usize = 1;
const TY_OPT_BOX: usize = 2;
const TY_CONST_PTR: usize = 3;
const TY_TRANSMUTE_FN: usize = 4;
const TY_FN_PTR: usize = 5;

const DEF_MAIN: u64 = 1;
const DEF_TRANSMUTE: u64 = 100;

fn scalar(ty: Ty, size: usize, align: usize) -> TyDesc {
    TyDesc { ty, size, align, shape: LayoutShape::Scalar }
}

fn int_const(v: i64, size: usize, ty: usize) -> Operand {
    Operand::Constant(Constant { ty, span: 0, literal: Literal::Value(ConstVal::Int(v, size)) })
}

fn program() -> Program {
    let types = vec![
        scalar(Ty::Int(IntWidth::I32), 4, 4),
        scalar(Ty::Boxed(TY_I32), 8, 8),
        TyDesc {
            ty: Ty::Adt(0),
            size: 8,
            align: 8,
            shape: LayoutShape::RawNullablePointer { nndiscr: 1 },
        },
        scalar(Ty::RawPtr(TY_I32), 8, 8),
        scalar(Ty::FnDef(DEF_TRANSMUTE, 0, TY_FN_PTR), 0, 1),
        scalar(Ty::FnPtr, 8, 8),
    ];
    let adts = vec![AdtDef {
        variants: vec![
            AdtVariant { disr_val: 0, fields: vec![] },
            AdtVariant { disr_val: 1, fields: vec![TY_BOX_I32] },
        ],
    }];
    let body = Mir {
        basic_blocks: vec![
            BasicBlock {
                statements: vec![
                    Statement {
                        span: 0,
                        lvalue: Lvalue::Temp(0),
                        ty: TY_BOX_I32,
                        rvalue: Rvalue::BoxAlloc(TY_I32),
                    },
                    Statement {
                        span: 0,
                        lvalue: Lvalue::Projection(Box::new(Projection {
                            base: Lvalue::Temp(0),
                            ty: TY_BOX_I32,
                            elem: ProjectionElem::Deref,
                        })),
                        ty: TY_I32,
                        rvalue: Rvalue::Use(int_const(42, 4, TY_I32)),
                    },
                    Statement {
                        span: 0,
                        lvalue: Lvalue::Temp(1),
                        ty: TY_OPT_BOX,
                        rvalue: Rvalue::Aggregate(
                            AggregateKind::Adt(0, 1),
                            vec![Operand::Consume(Lvalue::Temp(0), TY_BOX_I32)],
                        ),
                    },
                ],
                terminator: Terminator::Call {
                    func: Operand::Constant(Constant {
                        ty: TY_TRANSMUTE_FN,
                        span: 0,
                        literal: Literal::Item { def_id: DEF_TRANSMUTE, substs: 0 },
                    }),
                    args: vec![Operand::Consume(Lvalue::Temp(1), TY_OPT_BOX)],
                    destination: Some((Lvalue::Temp(2), 1)),
                },
                span: 0,
            },
            BasicBlock {
                statements: vec![Statement {
                    span: 0,
                    lvalue: Lvalue::ReturnPointer,
                    ty: TY_I32,
                    rvalue: Rvalue::Use(Operand::Consume(
                        Lvalue::Projection(Box::new(Projection {
                            base: Lvalue::Temp(2),
                            ty: TY_CONST_PTR,
                            elem: ProjectionElem::Deref,
                        })),
                        TY_I32,
                    )),
                }],
                terminator: Terminator::Return,
                span: 0,
            },
        ],
        promoted: vec![],
        arg_tys: vec![],
        var_tys: vec![],
        temp_tys: vec![TY_BOX_I32, TY_OPT_BOX, TY_CONST_PTR],
        return_ty: TY_I32,
        span: 0,
    };
    Program {
        types,
        adts,
        defs: vec![
            DefEntry { def_id: DEF_MAIN, kind: DefKind::Body(0) },
            DefEntry { def_id: DEF_TRANSMUTE, kind: DefKind::Intrinsic(Intrinsic::Transmute) },
        ],
        bodies: vec![body],
        vtables: vec![],
        layout: TargetDataLayout::host_default(),
    }
}

fn option_box_deref() -> i64 {
    let mut ecx = EvalContext::new(program(), 1 << 20, 100);
    let ret = ecx.alloc_ret_ptr(TY_I32, 0).unwrap();
    ecx.push_stack_frame(DEF_MAIN, 0, CachedMir::Ref(0), 0, Some(ret), StackPopCleanup::Nothing)
        .unwrap();
    ecx.run(10_000).unwrap();
    ecx.memory().read_int(ret, 4).unwrap()
}

#[test]
fn main() {
    assert_eq!(option_box_deref(), 42);
}
