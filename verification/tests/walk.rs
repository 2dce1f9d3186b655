use gazm::assembler::asmout::AsmOut;
use gazm::assembler::binary::AccessType::ReadWrite;
use gazm::assembler::binary::{Binary, BinaryError, MemoryLocation};
use gazm::assembler::compile::{compile_entry, directive_for, Directive};
use gazm::assembler::error::AsmError;
use gazm::assembler::plan::{PlanEntry, PlanKind};
use gazm::assembler::sizer::{eval_operands, BinOp, Expr, SizeItem, Sizer, Stmt};

/// The index symbol of the loops below.
const I: u64 = 7;

/// Node ids: `fcb` of the index, `fcb` of twice the index; any other node
/// id is `fcb` of that constant.
const FCB_INDEX: usize = 100;
const FCB_INDEX_TWICE: usize = 101;

fn num(n: i64) -> Expr {
    Expr::Num(n)
}

fn op(o: BinOp, a: Expr, b: Expr) -> Expr {
    Expr::Bin(o, Box::new(a), Box::new(b))
}

fn org(n: i64) -> Stmt {
    Stmt::Item(1, SizeItem::Org(n))
}

/// `fcb <constant>`: the node id carries the constant.
fn fcb_const(v: usize) -> Stmt {
    Stmt::Item(v, SizeItem::EmitBytes(1))
}

/// `fcb i`
fn fcb_index() -> Stmt {
    Stmt::Item(FCB_INDEX, SizeItem::EmitBytes(1))
}

/// The operands of the `fcb` statements of the programs below, by node.
fn operands(e: &PlanEntry) -> Vec<Expr> {
    match e.kind {
        PlanKind::EmitBytes(_) => {
            if e.node_id == FCB_INDEX {
                vec![Expr::Sym(I)]
            } else if e.node_id == FCB_INDEX_TWICE {
                vec![op(BinOp::Mul, Expr::Sym(I), num(2))]
            } else {
                vec![num(e.node_id as i64)]
            }
        }
        _ => vec![],
    }
}

/// The directive the compiler emits for a planned statement of the
/// programs below.
fn directive(e: &PlanEntry) -> Directive {
    directive_for(e, &operands(e), &vec![], &vec![]).expect("directive")
}

/// Lay out `prog`, emit its plan and read `count` bytes at `addr`.
fn assemble_bytes(prog: Vec<Stmt>, addr: usize, count: usize) -> Vec<u8> {
    let mut s = Sizer::new(0);
    s.size_program(&prog).expect("layout");
    let mut out = AsmOut::new(Binary::new(0x10000, ReadWrite));
    for e in &s.plan {
        compile_entry(&mut out, e, &directive(e)).expect("emit");
    }
    out.get_binary().get_bytes(addr, count).expect("bytes").to_vec()
}

#[test]
fn repeat_without_index_still_iterates() {
    let prog = vec![org(0x1000), Stmt::Repeat(num(3), None, vec![fcb_const(7)])];
    assert_eq!(assemble_bytes(prog, 0x1000, 3), vec![7, 7, 7]);
}

#[test]
fn if_taken_assembles_then_branch() {
    let prog = vec![
        org(0x1000),
        Stmt::If(num(1), vec![fcb_const(1), Stmt::Else(vec![fcb_const(2)])]),
    ];
    assert_eq!(assemble_bytes(prog, 0x1000, 1), vec![1]);
}

#[test]
fn if_not_taken_assembles_else_branch() {
    let prog = vec![
        org(0x1000),
        Stmt::If(num(0), vec![fcb_const(1), Stmt::Else(vec![fcb_const(2)])]),
    ];
    assert_eq!(assemble_bytes(prog, 0x1000, 1), vec![2]);
}

#[test]
fn if_without_else_skips_body() {
    let prog = vec![org(0x1000), Stmt::If(num(0), vec![fcb_const(1)]), fcb_const(9)];
    assert_eq!(assemble_bytes(prog, 0x1000, 1), vec![9]);
}

#[test]
fn else_if_chain_takes_last_matching() {
    let inner = Stmt::If(num(0), vec![fcb_const(2), Stmt::Else(vec![fcb_const(3)])]);
    let prog = vec![org(0x1000), Stmt::If(num(0), vec![fcb_const(1), Stmt::Else(vec![inner])])];
    assert_eq!(assemble_bytes(prog, 0x1000, 1), vec![3]);
}

#[test]
fn while_loop_terminates_on_pc_condition() {
    let prog = vec![
        org(0x1000),
        Stmt::While(op(BinOp::Lt, Expr::Pc, num(0x1003)), vec![fcb_const(0)]),
    ];
    assert_eq!(assemble_bytes(prog, 0x1000, 3), vec![0, 0, 0]);
}

#[test]
fn while_nonterminating_condition_is_an_error() {
    let prog = vec![Stmt::While(num(1), vec![fcb_const(0)])];
    let mut s = Sizer::new(0);
    assert_eq!(s.size_program(&prog), Err(AsmError::WhileLimitExceeded(65536)));
}

#[test]
fn break_exits_repeat_early() {
    let prog = vec![
        org(0x1000),
        Stmt::Repeat(
            num(10),
            Some(I),
            vec![Stmt::If(op(BinOp::Eq, Expr::Sym(I), num(3)), vec![Stmt::Break]), fcb_index()],
        ),
    ];
    assert_eq!(assemble_bytes(prog, 0x1000, 3), vec![0, 1, 2]);
}

#[test]
fn continue_skips_iteration() {
    let prog = vec![
        org(0x1000),
        Stmt::Repeat(
            num(5),
            Some(I),
            vec![Stmt::If(op(BinOp::Eq, Expr::Sym(I), num(2)), vec![Stmt::Continue]), fcb_index()],
        ),
    ];
    assert_eq!(assemble_bytes(prog, 0x1000, 4), vec![0, 1, 3, 4]);
}

#[test]
fn break_exits_while() {
    let prog = vec![
        org(0x1000),
        Stmt::While(
            op(BinOp::Lt, Expr::Pc, num(0x1006)),
            vec![fcb_const(1), Stmt::If(op(BinOp::Eq, Expr::Pc, num(0x1002)), vec![Stmt::Break])],
        ),
    ];
    assert_eq!(assemble_bytes(prog, 0x1000, 2), vec![1, 1]);
    let mut s = Sizer::new(0);
    let prog = vec![
        org(0x1000),
        Stmt::While(
            op(BinOp::Lt, Expr::Pc, num(0x1006)),
            vec![fcb_const(1), Stmt::If(op(BinOp::Eq, Expr::Pc, num(0x1002)), vec![Stmt::Break])],
        ),
    ];
    s.size_program(&prog).unwrap();
    assert_eq!(s.get_pc(), 0x1002);
}

#[test]
fn break_outside_loop_is_an_error() {
    let prog = vec![org(0x1000), Stmt::Break];
    let mut s = Sizer::new(0);
    assert_eq!(s.size_program(&prog), Err(AsmError::LoopSignalOutsideLoop));
}

#[test]
fn logical_ops_bind_looser_than_comparisons() {
    let cond = op(
        BinOp::And,
        op(BinOp::Gt, num(3), num(2)),
        op(BinOp::Lt, num(1), num(2)),
    );
    let prog = vec![org(0x1000), Stmt::If(cond, vec![fcb_const(1), Stmt::Else(vec![fcb_const(2)])])];
    assert_eq!(assemble_bytes(prog, 0x1000, 1), vec![1]);
}

#[test]
fn repeat_binds_index_in_each_plan_entry() {
    let mut s = Sizer::new(0);
    let prog = vec![org(0x2000), Stmt::Repeat(num(3), Some(I), vec![fcb_index()])];
    s.size_program(&prog).unwrap();
    assert_eq!(s.plan.len(), 4);
    for k in 0..3 {
        let e = &s.plan[k + 1];
        assert_eq!(e.pc, 0x2000 + k);
        assert_eq!(e.bindings, vec![(I, k as i64)]);
    }
    assert_eq!(s.plan[0].bindings, vec![]);
}

#[test]
fn nested_repeats_carry_both_indices() {
    let mut s = Sizer::new(0);
    let prog = vec![Stmt::Repeat(
        num(2),
        Some(1),
        vec![Stmt::Repeat(num(2), Some(2), vec![fcb_const(5)])],
    )];
    s.size_program(&prog).unwrap();
    let b: Vec<Vec<(u64, i64)>> = s.plan.iter().map(|e| e.bindings.clone()).collect();
    assert_eq!(
        b,
        vec![
            vec![(1, 0), (2, 0)],
            vec![(1, 0), (2, 1)],
            vec![(1, 1), (2, 0)],
            vec![(1, 1), (2, 1)],
        ]
    );
}

#[test]
fn repeat_with_non_positive_count_emits_nothing() {
    let mut s = Sizer::new(0);
    s.size_program(&vec![Stmt::Repeat(num(-2), Some(I), vec![fcb_index()])]).unwrap();
    assert!(s.plan.is_empty());
}

#[test]
fn unbound_symbol_and_overflow_are_errors() {
    let mut s = Sizer::new(0);
    assert_eq!(
        s.size_program(&vec![Stmt::If(Expr::Sym(9), vec![])]),
        Err(AsmError::SymbolNotFound(9))
    );
    let mut s = Sizer::new(0);
    assert_eq!(
        s.size_program(&vec![Stmt::If(op(BinOp::Add, num(i64::MAX), num(1)), vec![])]),
        Err(AsmError::ArithmeticOverflow)
    );
    let mut s = Sizer::new(0);
    assert_eq!(
        s.size_program(&vec![Stmt::Repeat(op(BinOp::Mul, num(i64::MAX), num(2)), None, vec![])]),
        Err(AsmError::ArithmeticOverflow)
    );
    let mut s = Sizer::new(0);
    assert_eq!(s.size_program(&vec![Stmt::Else(vec![])]), Err(AsmError::UnableToSize));
}

#[test]
fn comparison_operators_evaluate_to_zero_or_one() {
    let s = Sizer::new(0);
    let cases = [
        (BinOp::Eq, 3, 3, 1),
        (BinOp::Ne, 3, 3, 0),
        (BinOp::Lt, 2, 1, 0),
        (BinOp::Le, 2, 2, 1),
        (BinOp::Gt, 5, 4, 1),
        (BinOp::Ge, 5, 6, 0),
        (BinOp::And, 0, 3, 0),
        (BinOp::Or, 6, 0, 1),
        (BinOp::Sub, 6, 9, -3),
        (BinOp::Mul, -6, 7, -42),
    ];
    for (o, a, b, want) in cases {
        assert_eq!(s.eval(&op(o, num(a), num(b))), Ok(want));
    }
}

#[test]
fn compile_entry_sets_pc_symbol_and_bindings() {
    let mut out = AsmOut::new(Binary::new(0x10000, ReadWrite));
    let e = PlanEntry {
        scope_id: 0,
        node_id: 1,
        kind: PlanKind::SetPc(0x1234),
        pc: 0,
        bindings: vec![(3, 10), (4, 20)],
    };
    compile_entry(&mut out, &e, &Directive::SetPc(0x1234)).unwrap();
    assert_eq!(out.pc_symbol, 0);
    assert_eq!(out.symbol_value(3), Some(10));
    assert_eq!(out.symbol_value(4), Some(20));
    assert_eq!(out.symbol_value(5), None);
    assert_eq!(out.get_binary().get_write_address(), 0x1234);
}

#[test]
fn error_messages_read_as_reported() {
    assert_eq!(
        AsmError::SectionOverflow { name: "small_sec".to_string(), overflow: 1, used: 5, max: 4 }.message(),
        "Section 'small_sec' overflowed by 1 bytes (allocated 5 bytes, maximum size 4 bytes)"
    );
    assert_eq!(
        AsmError::BranchOutOfRange { by: 3, val: -131 }.message(),
        "Branch out of range by 3 bytes (-131)"
    );
    assert_eq!(AsmError::UnknownSection("nope".to_string()).message(), "Unknown section 'nope'");
    assert_eq!(AsmError::NegativeReserve(-1).message(), "Argument for RMB must be positive");
    assert_eq!(
        AsmError::WhileLimitExceeded(65536).message(),
        "while loop exceeded 65536 iterations (condition never became zero?)"
    );
    assert_eq!(AsmError::LoopSignalOutsideLoop.message(), "break/continue outside of a loop");
    assert_eq!(
        AsmError::GrabOutOfRange { offset: 0x10, size: 0x200, file_size: 0x100 }.message(),
        "Trying to grab 0010 0200 from file size 100"
    );
    assert_eq!(
        AsmError::Binary(BinaryError::DoesNotFit { dest_type: "u8".to_string(), val: 300 }).message(),
        "Value 300 does not fit into a u8"
    );
    assert_eq!(
        AsmError::Binary(BinaryError::IllegalWrite(MemoryLocation { physical: 0x1234, logical: 0xABC }))
            .message(),
        "Write to read only memory: physical: $01234 logical: $0ABC"
    );
    assert_eq!(
        AsmError::Binary(BinaryError::DoesNotMatchReference {
            addr: 0x10,
            logical_addr: 0x10,
            val: 0xa,
            expected: 0xff
        })
        .message(),
        "$0010 ($00010)(expected $FF, found $0A)"
    );
    assert_eq!(
        AsmError::Binary(BinaryError::InvalidWriteAddress(0x1FFFF)).message(),
        "Tried to write to 1FFFF"
    );
}

#[test]
fn plan_stays_contiguous_through_loops() {
    let mut s = Sizer::new(0);
    let prog = vec![
        org(0x1000),
        Stmt::Repeat(
            num(3),
            Some(I),
            vec![
                Stmt::Item(2, SizeItem::EmitWords(1)),
                Stmt::If(op(BinOp::Eq, Expr::Sym(I), num(1)), vec![Stmt::Continue]),
                fcb_index(),
            ],
        ),
        Stmt::While(op(BinOp::Lt, Expr::Pc, num(0x1010)), vec![Stmt::Item(3, SizeItem::ReserveBytes(4))]),
    ];
    s.size_program(&prog).unwrap();
    let next = |e: &PlanEntry| match e.kind {
        PlanKind::SetPc(p) => p,
        PlanKind::EmitWords(n) => e.pc + 2 * n,
        PlanKind::EmitBytes(n) => e.pc + n,
        PlanKind::Skip(n) => e.pc + n,
        _ => e.pc,
    };
    for w in s.plan.windows(2) {
        assert_eq!(w[1].pc, next(&w[0]));
    }
    assert_eq!(s.get_pc(), next(s.plan.last().unwrap()));
    assert_eq!(s.get_pc(), 0x1010);
}

#[test]
fn for_loop_emits_range() {
    let prog = vec![org(0x1000), Stmt::For(num(0), num(4), Some(I), vec![fcb_index()])];
    assert_eq!(assemble_bytes(prog, 0x1000, 4), vec![0, 1, 2, 3]);
    let mut s = Sizer::new(0);
    s.size_program(&vec![Stmt::For(num(5), num(2), Some(I), vec![fcb_index()])]).unwrap();
    assert!(s.plan.is_empty());
}

#[test]
fn for_loop_with_expression_bounds() {
    let prog = vec![
        org(0x1000),
        Stmt::For(num(2), op(BinOp::Add, num(3), num(2)), Some(I), vec![Stmt::Item(FCB_INDEX_TWICE, SizeItem::EmitBytes(1))]),
    ];
    assert_eq!(assemble_bytes(prog, 0x1000, 3), vec![4, 6, 8]);
}

#[test]
fn logical_operators_use_nonzero_truthiness() {
    let s = Sizer::new(0);
    assert_eq!(s.eval(&op(BinOp::And, num(5), num(3))), Ok(1));
    assert_eq!(s.eval(&op(BinOp::And, num(0), num(3))), Ok(0));
    assert_eq!(s.eval(&op(BinOp::Or, num(6), num(0))), Ok(1));
    assert_eq!(s.eval(&op(BinOp::Or, num(0), num(0))), Ok(0));
    assert_eq!(s.eval(&op(BinOp::Or, op(BinOp::And, num(1), num(2)), num(0))), Ok(1));
}

#[test]
fn labels_take_the_pc_and_are_read_by_conditions() {
    const END: u64 = 40;
    const TOP: u64 = 41;
    let prog = vec![
        Stmt::Item(1, SizeItem::Label(END, Some(0x1004))),
        org(0x1000),
        Stmt::Item(2, SizeItem::Label(TOP, None)),
        Stmt::While(op(BinOp::Lt, Expr::Pc, Expr::Sym(END)), vec![fcb_const(6)]),
    ];
    let mut s = Sizer::new(0);
    s.size_program(&prog).unwrap();
    assert_eq!(s.symbol_value(END), Some(0x1004));
    assert_eq!(s.symbol_value(TOP), Some(0x1000));
    assert_eq!(s.get_pc(), 0x1004);
    assert_eq!(s.plan[0].kind, PlanKind::AssignmentFromPc);
}

#[test]
fn operands_are_evaluated_with_the_entry_bindings() {
    let e = PlanEntry { scope_id: 0, node_id: 1, kind: PlanKind::EmitBytes(3), pc: 0x10, bindings: vec![(I, 4)] };
    let ops = vec![Expr::Sym(I), Expr::Pc, op(BinOp::Add, Expr::Sym(50), num(1))];
    assert_eq!(eval_operands(&e, &ops, &vec![(50, 9)]), Ok(vec![4, 0x10, 10]));
    assert_eq!(eval_operands(&e, &ops, &vec![]), Err(AsmError::SymbolNotFound(50)));
}

#[test]
fn directives_are_built_from_entries() {
    let e = |kind: PlanKind| PlanEntry { scope_id: 0, node_id: 1, kind, pc: 0x20, bindings: vec![(I, 2)] };
    let no_ops: Vec<Expr> = vec![];
    let none: Vec<u8> = vec![];
    let syms = vec![(60u64, 0x300i64)];
    assert!(matches!(
        directive_for(&e(PlanKind::EmitWords(2)), &vec![Expr::Sym(60), op(BinOp::Add, Expr::Pc, Expr::Sym(I))], &syms, &none),
        Ok(Directive::Fdb(v)) if v == vec![0x300, 0x22]
    ));
    assert!(matches!(
        directive_for(&e(PlanKind::EmitBytes(2)), &vec![num(1)], &syms, &none),
        Err(AsmError::MissingArgument)
    ));
    assert!(matches!(
        directive_for(&e(PlanKind::Fill(3)), &vec![num(3), num(0xaa)], &syms, &none),
        Ok(Directive::Fill(3, 0xaa))
    ));
    assert!(matches!(
        directive_for(&e(PlanKind::GrabMem(4)), &vec![Expr::Sym(60), num(4)], &syms, &none),
        Ok(Directive::GrabMem(0x300, 4))
    ));
    assert!(matches!(directive_for(&e(PlanKind::Exec), &vec![Expr::Sym(61)], &syms, &none), Err(AsmError::SymbolNotFound(61))));
    assert!(matches!(
        directive_for(&e(PlanKind::EmitString(2)), &no_ops, &syms, &vec![b'h', b'i']),
        Ok(Directive::Fcc(t)) if t == vec![b'h', b'i']
    ));
    assert!(matches!(directive_for(&e(PlanKind::ZeroWords(5)), &no_ops, &syms, &none), Ok(Directive::Zmd(5))));
    assert!(matches!(directive_for(&e(PlanKind::SetPc(7)), &no_ops, &syms, &none), Ok(Directive::SetPc(7))));
    assert!(matches!(directive_for(&e(PlanKind::Comment), &no_ops, &syms, &none), Ok(Directive::Nothing)));
    assert!(matches!(directive_for(&e(PlanKind::TargetSpecific(2)), &no_ops, &syms, &none), Err(AsmError::UnableToSize)));
}

#[test]
fn emission_maps_data_ranges_and_addresses() {
    let mut s = Sizer::new(0);
    let prog = vec![org(0x1000), Stmt::Repeat(num(2), Some(I), vec![fcb_index()]), Stmt::Item(9, SizeItem::Label(70, None))];
    s.size_program(&prog).unwrap();
    let mut out = AsmOut::new(Binary::new(0x10000, ReadWrite));
    for e in &s.plan {
        compile_entry(&mut out, e, &directive(e)).unwrap();
    }
    assert_eq!(out.data_map.len(), 2);
    assert_eq!((out.data_map[1].node_id, out.data_map[1].start, out.data_map[1].end), (FCB_INDEX, 0x1001, 0x1002));
    assert_eq!(out.addr_map, vec![(1, 0), (FCB_INDEX, 0x1000), (FCB_INDEX, 0x1001), (9, 0x1002)]);
}
