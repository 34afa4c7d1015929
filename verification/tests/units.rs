use chorus::ast::{Ast, Node, NodeVal};
use chorus::config::Config;
use chorus::generator::Generator;
use chorus::interpreter::{Fault, Interpreter, Output, RunEnd, Step};
use chorus::ir::{IRline, IRop, IRval};
use chorus::parser::{parse_int, Action, Outcome, ParseError, Parser, Shaping};
use chorus::render::int_text;
use chorus::tokens::Tok;
use chorus::traverse::GenError;

fn leaf(token: Tok, id: usize, val: Option<NodeVal>) -> Node {
    Node { token, id, children: vec![], val }
}

fn run_code(code: Vec<IRline>, fuel: usize) -> (Interpreter, Vec<Output>, RunEnd) {
    let mut generator = Generator::init();
    generator.code = code;
    let mut machine = Interpreter::init();
    let report = machine.run(&generator, fuel);
    (machine, report.outputs, report.end)
}

#[test]
fn symbol_ids_are_stable_and_grow_by_one() {
    let mut ast = Ast::init();
    assert_eq!(ast.get_sym_id("print"), 0);
    assert_eq!(ast.get_sym_id("a"), 1);
    assert_eq!(ast.get_sym_id("b"), 2);
    assert_eq!(ast.get_sym_id("a"), 1);
    assert_eq!(ast.get_sym_id("c"), 3);
    assert_eq!(ast.get_sym_id("b"), 2);
    assert_eq!(ast.get_sym_id(""), 4);
    assert_eq!(ast.symbol_table, vec!["print", "a", "b", "c", ""]);
}

#[test]
fn symbol_ids_restart_after_a_clear() {
    let mut ast = Ast::init();
    ast.get_sym_id("a");
    ast.push_node(Tok::Var, Some(NodeVal::Sym(1)));
    ast.clear();
    assert!(ast.node_stack.is_empty());
    assert!(ast.symbol_table.is_empty());
    assert_eq!(ast.get_sym_id("a"), 0);
    ast.push_node(Tok::Var, Some(NodeVal::Sym(0)));
    assert_eq!(ast.node_stack[0].id, 3);
}

#[test]
fn node_ids_start_at_two_and_grow() {
    let mut ast = Ast::init();
    let first = ast.new_node(Tok::ExprList, None);
    assert_eq!(first.id, 2);
    assert_eq!(first.token, Tok::ExprList);
    assert!(first.children.is_empty());
    assert_eq!(first.val, None);
    assert!(ast.node_stack.is_empty());
    ast.push_node(Tok::Int, Some(NodeVal::Int(7)));
    assert_eq!(ast.node_stack.len(), 1);
    assert_eq!(ast.node_stack[0].id, 3);
    assert_eq!(ast.node_stack[0].val, Some(NodeVal::Int(7)));
    let plain = Node::new(Tok::Stmts);
    assert_eq!(plain.id, 0);
    assert_eq!(plain.val, None);
}

#[test]
fn only_literals_count_as_constant() {
    assert!(leaf(Tok::Int, 1, Some(NodeVal::Int(0))).has_const_val());
    assert!(leaf(Tok::String, 1, Some(NodeVal::String("s".to_string()))).has_const_val());
    assert!(leaf(Tok::Var, 1, Some(NodeVal::Bool(false))).has_const_val());
    assert!(leaf(Tok::Var, 1, Some(NodeVal::Float(0))).has_const_val());
    assert!(!leaf(Tok::Var, 1, Some(NodeVal::Sym(0))).has_const_val());
    assert!(!leaf(Tok::Plus, 1, None).has_const_val());
}

#[test]
fn folding_is_defined_for_two_integers_only() {
    let mut ast = Ast::init();
    ast.synthesize_expr(Tok::Plus, NodeVal::Int(40), NodeVal::Int(2));
    ast.synthesize_expr(Tok::Minus, NodeVal::Int(40), NodeVal::Int(2));
    ast.synthesize_expr(Tok::Minus, NodeVal::Int(-2147483648), NodeVal::Int(1));
    assert_eq!(ast.node_stack.len(), 3);
    assert_eq!(ast.node_stack[0].val, Some(NodeVal::Int(42)));
    assert_eq!(ast.node_stack[1].val, Some(NodeVal::Int(38)));
    assert_eq!(ast.node_stack[2].val, Some(NodeVal::Int(2147483647)));
    assert_eq!(ast.node_stack[2].token, Tok::Int);
    ast.synthesize_expr(Tok::Eq, NodeVal::Int(1), NodeVal::Int(2));
    ast.synthesize_expr(Tok::Plus, NodeVal::Int(1), NodeVal::Bool(true));
    ast.synthesize_expr(
        Tok::Plus,
        NodeVal::String("a".to_string()),
        NodeVal::String("b".to_string()),
    );
    assert_eq!(ast.node_stack.len(), 3);
    assert_eq!(ast.node_counter, 4);
}

#[test]
fn literal_operands_of_other_kinds_vanish() {
    let parser = Parser::init();
    let mut ast = Ast::init();
    ast.push_node(Tok::Var, Some(NodeVal::Sym(0)));
    assert_eq!(parser.shift_node(Tok::String, Some("a"), &mut ast), Ok(()));
    assert_eq!(parser.shift_node(Tok::Plus, None, &mut ast), Ok(()));
    assert_eq!(parser.shift_node(Tok::String, Some("b"), &mut ast), Ok(()));
    assert_eq!(parser.reduce_node(12, &mut ast), Ok(()));
    assert_eq!(ast.node_stack.len(), 1);
    assert_eq!(ast.node_stack[0].token, Tok::Var);
}

#[test]
fn decimal_text_of_an_integer_token() {
    assert_eq!(parse_int("0"), Some(0));
    assert_eq!(parse_int("007"), Some(7));
    assert_eq!(parse_int("1234567890"), Some(1234567890));
    assert_eq!(parse_int("2147483647"), Some(2147483647));
    assert_eq!(parse_int("2147483648"), None);
    assert_eq!(parse_int("99999999999999999999"), None);
    assert_eq!(parse_int("-1"), None);
    assert_eq!(parse_int("+1"), None);
    assert_eq!(parse_int("1 "), None);
    assert_eq!(parse_int(""), None);
}

#[test]
fn grammar_is_installed_in_the_order_of_the_ids() {
    let parser = Parser::init();
    assert_eq!(parser.productions.len(), 25);
    assert_eq!(parser.productions[0].head, Tok::Start);
    assert_eq!(parser.productions[0].body, vec![Tok::Stmts, Tok::End]);
    assert_eq!(parser.productions[0].action, None);
    assert_eq!(parser.productions[1].action, Some(Shaping::Append));
    assert_eq!(parser.productions[2].body, Vec::<Tok>::new());
    assert_eq!(parser.productions[2].action, Some(Shaping::Empty(Tok::Stmts)));
    assert_eq!(parser.productions[7].action, Some(Shaping::Return));
    assert_eq!(parser.productions[8].action, Some(Shaping::VarDecl));
    assert_eq!(parser.productions[9].action, Some(Shaping::FuncDecl));
    assert_eq!(parser.productions[9].body.len(), 6);
    assert_eq!(parser.productions[12].action, Some(Shaping::BinOp));
    assert_eq!(parser.productions[16].body, vec![Tok::Plus]);
    assert_eq!(parser.productions[17].body, vec![Tok::Minus]);
    assert_eq!(parser.productions[18].action, Some(Shaping::Call));
    assert_eq!(parser.productions[20].action, Some(Shaping::Single(Tok::ExprList)));
    assert_eq!(parser.productions[24].action, Some(Shaping::Empty(Tok::VarList)));
    let mut own = Parser::new();
    assert!(own.productions.is_empty());
    own.install_control_if();
    own.install_prod(Tok::Expr, &vec![Tok::Int], None);
    assert_eq!(own.productions[0].head, Tok::Control);
    assert_eq!(own.productions[0].body, vec![Tok::IfKW, Tok::Expr, Tok::Block]);
    assert_eq!(own.productions[1].body, vec![Tok::Int]);
}

#[test]
fn shapings_build_the_tree_of_a_declaration() {
    let parser = Parser::init();
    let mut ast = Ast::init();
    // fn f ( p , q ) { g ( ) ; }
    for (tok, text) in [(Tok::Var, "f"), (Tok::Var, "p"), (Tok::Var, "q")] {
        assert_eq!(parser.shift_node(tok, Some(text), &mut ast), Ok(()));
    }
    assert_eq!(parser.reduce_node(23, &mut ast), Ok(()));
    assert_eq!(parser.reduce_node(22, &mut ast), Ok(()));
    assert_eq!(parser.shift_node(Tok::Var, Some("g"), &mut ast), Ok(()));
    assert_eq!(parser.reduce_node(21, &mut ast), Ok(()));
    assert_eq!(parser.reduce_node(18, &mut ast), Ok(()));
    assert_eq!(parser.reduce_node(2, &mut ast), Ok(()));
    assert_eq!(parser.reduce_node(1, &mut ast), Ok(()));
    assert_eq!(parser.reduce_node(9, &mut ast), Ok(()));
    assert_eq!(ast.node_stack.len(), 1);
    let decl = &ast.node_stack[0];
    assert_eq!(decl.token, Tok::FuncDecl);
    assert_eq!(decl.id, 2);
    assert_eq!(decl.val, Some(NodeVal::Sym(1)));
    assert_eq!(decl.children.len(), 2);
    let call = &decl.children[0];
    assert_eq!(call.token, Tok::FuncCall);
    assert_eq!(call.val, Some(NodeVal::Sym(4)));
    assert!(call.children.is_empty());
    let params = &decl.children[1];
    assert_eq!(params.token, Tok::VarList);
    assert_eq!(params.val, None);
    assert_eq!(params.children.len(), 2);
    assert_eq!(params.children[0].val, Some(NodeVal::Sym(3)));
    assert_eq!(params.children[1].val, Some(NodeVal::Sym(2)));
}

#[test]
fn assignment_node_takes_the_symbol_of_the_variable() {
    let parser = Parser::init();
    let mut ast = Ast::init();
    assert_eq!(parser.shift_node(Tok::Var, Some("x"), &mut ast), Ok(()));
    assert_eq!(parser.shift_node(Tok::Eq, None, &mut ast), Ok(()));
    assert_eq!(parser.shift_node(Tok::Var, Some("y"), &mut ast), Ok(()));
    assert_eq!(parser.reduce_node(8, &mut ast), Ok(()));
    assert_eq!(ast.node_stack.len(), 1);
    let eq = &ast.node_stack[0];
    assert_eq!(eq.token, Tok::Eq);
    assert_eq!(eq.id, 3);
    assert_eq!(eq.val, Some(NodeVal::Sym(1)));
    assert_eq!(eq.children.len(), 1);
    assert_eq!(eq.children[0].val, Some(NodeVal::Sym(2)));
}

#[test]
fn operator_node_keeps_its_operands_last_first() {
    let parser = Parser::init();
    let mut ast = Ast::init();
    assert_eq!(parser.shift_node(Tok::Var, Some("a"), &mut ast), Ok(()));
    assert_eq!(parser.shift_node(Tok::Minus, None, &mut ast), Ok(()));
    assert_eq!(parser.shift_node(Tok::Int, Some("1"), &mut ast), Ok(()));
    assert_eq!(parser.reduce_node(12, &mut ast), Ok(()));
    let op = &ast.node_stack[0];
    assert_eq!(op.token, Tok::Minus);
    assert_eq!(op.children.len(), 2);
    assert_eq!(op.children[0].val, Some(NodeVal::Int(1)));
    assert_eq!(op.children[1].val, Some(NodeVal::Sym(1)));
}

#[test]
fn no_node_is_made_when_the_ids_are_spent() {
    let parser = Parser::init();
    let mut ast = Ast::init();
    ast.push_node(Tok::Int, Some(NodeVal::Int(1)));
    ast.node_counter = usize::MAX;
    assert_eq!(parser.shift_node(Tok::Int, Some("1"), &mut ast), Err(ParseError::NodeLimit));
    assert_eq!(parser.shift_node(Tok::Var, Some("x"), &mut ast), Err(ParseError::NodeLimit));
    assert_eq!(ast.symbol_table.len(), 1);
    assert_eq!(parser.reduce_node(2, &mut ast), Err(ParseError::NodeLimit));
    assert_eq!(parser.reduce_node(20, &mut ast), Err(ParseError::NodeLimit));
    assert_eq!(parser.shift_node(Tok::Comma, None, &mut ast), Ok(()));
    assert_eq!(ast.node_stack.len(), 1);
    let run = vec![Action::Reduce(7), Action::Shift];
    assert_eq!(
        parser.parse_until_shift(&run, Some(Tok::Int), Some("1"), &mut ast),
        Err(ParseError::NodeLimit)
    );
}

#[test]
fn accept_ends_the_run_of_answers() {
    let parser = Parser::init();
    let mut ast = Ast::init();
    let answers = vec![Action::Reduce(2), Action::Accept, Action::Reduce(2)];
    assert_eq!(
        parser.parse_until_shift(&answers, None, None, &mut ast),
        Ok(Outcome::Accepted)
    );
    assert_eq!(ast.node_stack.len(), 1);
    assert_eq!(
        parser.parse_end(&vec![Action::Error], &vec![Action::Accept], &mut ast),
        Err(ParseError::Syntax)
    );
    assert_eq!(
        parser.parse_end(&vec![Action::Shift], &vec![Action::Reduce(0), Action::Accept], &mut ast),
        Ok(Outcome::Accepted)
    );
    assert_eq!(ast.node_stack.len(), 1);
}

#[test]
fn generation_starts_with_the_builtin() {
    let generator = Generator::init();
    assert_eq!(generator.code, vec![IRline::Load(IRval::Fn(0), IRval::Sym(0))]);
    assert_eq!(generator.funcs.len(), 1);
    assert_eq!(
        generator.funcs[0].code,
        vec![IRline::Label(0), IRline::Print(IRval::Arg), IRline::Return(IRval::Nil)]
    );
    assert!(generator.func_stack.is_empty());
}

#[test]
fn empty_program_is_the_builtin_alone() {
    let mut generator = Generator::init();
    generator.complete_generation();
    assert_eq!(
        generator.code,
        vec![
            IRline::Load(IRval::Fn(2), IRval::Sym(0)),
            IRline::End,
            IRline::Print(IRval::Arg),
            IRline::Return(IRval::Nil),
        ]
    );
}

#[test]
fn hooks_emit_into_the_innermost_function() {
    let mut generator = Generator::init();
    let mut decl = leaf(Tok::FuncDecl, 11, Some(NodeVal::Sym(3)));
    decl.children.push(leaf(Tok::VarList, 12, None));
    generator.gen_func_enter(&decl);
    assert_eq!(generator.func_stack, vec![1]);
    assert_eq!(generator.code.last(), Some(&IRline::Load(IRval::Fn(11), IRval::Sym(3))));
    let mut ret = leaf(Tok::ReturnKW, 14, None);
    ret.children.push(leaf(Tok::String, 13, Some(NodeVal::String("s".to_string()))));
    generator.gen_return(&ret);
    generator.gen_func_leave();
    assert!(generator.func_stack.is_empty());
    assert_eq!(
        generator.funcs[1].code,
        vec![IRline::Label(11), IRline::Return(IRval::String("s".to_string()))]
    );
    generator.gen_end();
    assert_eq!(generator.code.last(), Some(&IRline::End));
    assert_eq!(generator.code.len(), 3);
}

#[test]
fn hooks_of_the_other_kinds() {
    let mut generator = Generator::init();
    let mut minus = leaf(Tok::Minus, 5, None);
    minus.children.push(leaf(Tok::Int, 4, Some(NodeVal::Int(2))));
    minus.children.push(leaf(Tok::Var, 3, Some(NodeVal::Sym(1))));
    generator.gen_expr(&minus);
    let mut eq = leaf(Tok::Eq, 6, Some(NodeVal::Sym(2)));
    eq.children.push(minus);
    generator.gen_decl(&eq);
    let mut call = leaf(Tok::FuncCall, 9, Some(NodeVal::Sym(0)));
    call.children.push(leaf(Tok::Int, 7, Some(NodeVal::Int(8))));
    call.children.push(leaf(Tok::FuncCall, 8, Some(NodeVal::Sym(4))));
    generator.gen_func_call(&call);
    let mut params = leaf(Tok::VarList, 10, None);
    params.children.push(leaf(Tok::Var, 11, Some(NodeVal::Sym(6))));
    params.children.push(leaf(Tok::Var, 12, None));
    params.children.push(leaf(Tok::Var, 13, Some(NodeVal::Sym(5))));
    generator.gen_var_list(&params);
    generator.gen_decl(&leaf(Tok::Eq, 14, None));
    assert_eq!(
        generator.code[1..],
        vec![
            IRline::Op(IRval::Temp(5), IRop::Minus, IRval::Sym(1), IRval::Int(2)),
            IRline::Load(IRval::Temp(5), IRval::Sym(2)),
            IRline::Load(IRval::Int(8), IRval::Arg),
            IRline::Load(IRval::Temp(8), IRval::Arg),
            IRline::Call(IRval::Temp(9), IRval::Sym(0)),
            IRline::Load(IRval::Arg, IRval::Sym(5)),
            IRline::Load(IRval::Arg, IRval::Sym(6)),
        ]
    );
}

#[test]
fn tree_without_root_or_shape_is_refused() {
    let mut generator = Generator::init();
    let mut ast = Ast::init();
    assert_eq!(ast.traverse(&mut generator), Err(GenError::EmptyTree));
    let mut stmts = leaf(Tok::Stmts, 3, None);
    stmts.children.push(leaf(Tok::Plus, 2, None));
    assert!(!stmts.is_well_shaped());
    ast.node_stack.push(stmts);
    assert_eq!(ast.traverse(&mut generator), Err(GenError::Malformed));
    assert_eq!(generator.code.len(), 1);
    let mut ret = leaf(Tok::ReturnKW, 5, None);
    ret.children.push(leaf(Tok::Var, 4, Some(NodeVal::Bool(true))));
    assert!(!ret.is_well_shaped());
    let mut call = leaf(Tok::ReturnKW, 7, None);
    call.children.push(leaf(Tok::FuncCall, 6, Some(NodeVal::Bool(true))));
    assert!(call.is_well_shaped());
    assert!(leaf(Tok::Eq, 8, None).is_well_shaped());
    assert!(!leaf(Tok::Eq, 8, Some(NodeVal::Sym(1))).is_well_shaped());
}

#[test]
fn nested_declarations_are_registered_outer_first() {
    let mut inner = leaf(Tok::FuncDecl, 20, Some(NodeVal::Sym(2)));
    inner.children.push(leaf(Tok::VarList, 21, None));
    let mut outer = leaf(Tok::FuncDecl, 10, Some(NodeVal::Sym(1)));
    outer.children.push(inner);
    outer.children.push(leaf(Tok::VarList, 11, None));
    let mut generator = Generator::init();
    outer.traverse(&mut generator);
    assert_eq!(generator.code[1..], vec![IRline::Load(IRval::Fn(10), IRval::Sym(1))]);
    assert_eq!(generator.funcs.len(), 3);
    assert_eq!(
        generator.funcs[1].code,
        vec![
            IRline::Label(10),
            IRline::Load(IRval::Fn(20), IRval::Sym(2)),
            IRline::Return(IRval::Nil)
        ]
    );
    assert_eq!(generator.funcs[2].code, vec![IRline::Label(20), IRline::Return(IRval::Nil)]);
    generator.complete_generation();
    assert_eq!(
        generator.code,
        vec![
            IRline::Load(IRval::Fn(3), IRval::Sym(0)),
            IRline::Load(IRval::Fn(5), IRval::Sym(1)),
            IRline::End,
            IRline::Print(IRval::Arg),
            IRline::Return(IRval::Nil),
            IRline::Load(IRval::Fn(7), IRval::Sym(2)),
            IRline::Return(IRval::Nil),
            IRline::Return(IRval::Nil),
        ]
    );
}

#[test]
fn machine_starts_with_one_empty_frame() {
    let machine = Interpreter::init();
    assert_eq!(machine.position, 0);
    assert_eq!(machine.stack.len(), 1);
    assert_eq!(machine.stack[0].return_loc, 0);
    assert!(machine.stack[0].syms.is_empty());
    assert!(machine.stack[0].temps.is_empty());
    assert!(machine.args.is_empty());
    assert!(machine.strings.is_empty());
}

#[test]
fn steps_of_loads_and_operations() {
    let code = vec![
        IRline::Load(IRval::Int(7), IRval::Sym(3)),
        IRline::Load(IRval::Int(9), IRval::Sym(3)),
        IRline::Op(IRval::Temp(1), IRop::Minus, IRval::Sym(3), IRval::Int(10)),
        IRline::Op(IRval::Temp(1), IRop::Plus, IRval::Temp(1), IRval::Int(2147483647)),
        IRline::Op(IRval::Temp(2), IRop::Plus, IRval::Nil, IRval::Int(1)),
        IRline::Op(IRval::Sym(9), IRop::Plus, IRval::Int(1), IRval::Int(1)),
        IRline::Jump(0),
        IRline::JumpIf(0, IRval::Int(1)),
        IRline::Load(IRval::Temp(1), IRval::Temp(5)),
        IRline::Op(IRval::Temp(6), IRop::Plus, IRval::Int(2147483647), IRval::Int(1)),
        IRline::Op(IRval::Temp(7), IRop::Minus, IRval::Int(-2147483648), IRval::Int(1)),
        IRline::End,
    ];
    let mut machine = Interpreter::init();
    for at in 0..11 {
        assert_eq!(machine.position, at);
        assert_eq!(machine.step(&code), Ok(Step::Next));
    }
    assert_eq!(machine.step(&code), Ok(Step::Halted));
    assert_eq!(machine.position, 11);
    assert_eq!(machine.step(&code), Ok(Step::Halted));
    assert_eq!(machine.stack[0].syms, vec![(3, IRval::Int(9))]);
    assert_eq!(
        machine.stack[0].temps,
        vec![
            (1, IRval::Int(2147483646)),
            (5, IRval::Int(2147483646)),
            (6, IRval::Int(-2147483648)),
            (7, IRval::Int(2147483647)),
        ]
    );
}

#[test]
fn operands_of_an_operation_come_off_the_channel_left_first() {
    let (machine, outs, end) = run_code(
        vec![
            IRline::Load(IRval::Int(1), IRval::Arg),
            IRline::Load(IRval::Int(10), IRval::Arg),
            IRline::Op(IRval::Temp(0), IRop::Minus, IRval::Arg, IRval::Arg),
            IRline::Print(IRval::Temp(0)),
            IRline::End,
        ],
        10,
    );
    assert_eq!(end, RunEnd::Halted);
    assert_eq!(outs, vec![Output::Int(9)]);
    assert!(machine.args.is_empty());
}

#[test]
fn print_shows_every_kind_of_value() {
    let (machine, outs, end) = run_code(
        vec![
            IRline::Print(IRval::Nil),
            IRline::Print(IRval::Int(-4)),
            IRline::Print(IRval::String("a b".to_string())),
            IRline::Print(IRval::StrID(0)),
            IRline::Print(IRval::Fn(1)),
            IRline::Load(IRval::Int(5), IRval::Arg),
            IRline::Load(IRval::Int(6), IRval::Arg),
            IRline::Print(IRval::Arg),
            IRline::Print(IRval::Arg),
            IRline::End,
        ],
        100,
    );
    assert_eq!(end, RunEnd::Halted);
    assert_eq!(
        outs,
        vec![
            Output::Nil,
            Output::Int(-4),
            Output::Text("a b".to_string()),
            Output::Text("a b".to_string()),
            Output::Int(6),
            Output::Int(5),
        ]
    );
    assert_eq!(machine.get_str(0), "a b");
    assert_eq!(machine.strings.len(), 1);
    assert!(machine.args.is_empty());
}

#[test]
fn each_fault_terminates_the_run() {
    let (_, _, end) = run_code(vec![IRline::Print(IRval::Arg)], 10);
    assert_eq!(end, RunEnd::Faulted(Fault::NoArgument));
    let (_, _, end) = run_code(vec![IRline::Load(IRval::Int(1), IRval::Int(2))], 10);
    assert_eq!(end, RunEnd::Faulted(Fault::BadDestination));
    let (_, _, end) = run_code(vec![IRline::Label(3), IRline::End], 10);
    assert_eq!(end, RunEnd::Faulted(Fault::LabelInStream));
    let (_, _, end) = run_code(vec![IRline::Jump(0)], 10);
    assert_eq!(end, RunEnd::Faulted(Fault::OutOfCode));
    let (_, _, end) = run_code(vec![], 10);
    assert_eq!(end, RunEnd::Faulted(Fault::OutOfCode));
    let (machine, _, end) = run_code(vec![IRline::Return(IRval::Nil), IRline::End], 10);
    assert_eq!(end, RunEnd::Faulted(Fault::ReturnAtTopLevel));
    assert_eq!(machine.stack.len(), 1);
    let (_, _, end) = run_code(vec![IRline::Print(IRval::StrID(0))], 10);
    assert_eq!(end, RunEnd::Faulted(Fault::UnknownString(0)));
    let (_, _, end) = run_code(vec![IRline::Print(IRval::Sym(4))], 10);
    assert_eq!(end, RunEnd::Faulted(Fault::UnboundSymbol(4)));
    let (_, _, end) = run_code(vec![IRline::Print(IRval::Temp(4))], 10);
    assert_eq!(end, RunEnd::Faulted(Fault::UnboundTemp(4)));
    let (_, _, end) = run_code(vec![IRline::Call(IRval::Temp(0), IRval::Fn(9))], 10);
    assert_eq!(end, RunEnd::Faulted(Fault::OutOfCode));
    let (_, _, end) = run_code(vec![IRline::End], 0);
    assert_eq!(end, RunEnd::OutOfFuel);
}

#[test]
fn call_and_return_move_the_frames() {
    let code = vec![
        IRline::Load(IRval::Int(1), IRval::Temp(4)),
        IRline::Call(IRval::Temp(4), IRval::Fn(3)),
        IRline::End,
        IRline::Return(IRval::Int(8)),
    ];
    let mut machine = Interpreter::init();
    assert_eq!(machine.step(&code), Ok(Step::Next));
    assert_eq!(machine.step(&code), Ok(Step::Next));
    assert_eq!(machine.position, 3);
    assert_eq!(machine.stack.len(), 2);
    assert_eq!(machine.stack[1].return_loc, 1);
    assert_eq!(machine.step(&code), Ok(Step::Next));
    assert_eq!(machine.position, 2);
    assert_eq!(machine.stack.len(), 1);
    // the returned value is bound behind the temporaries that the caller has
    assert_eq!(machine.stack[0].temps, vec![(4, IRval::Int(1)), (4, IRval::Int(8))]);
    assert_eq!(machine.step(&code), Ok(Step::Halted));
}

#[test]
fn return_binds_nothing_when_the_call_names_no_temporary() {
    let (machine, outs, end) = run_code(
        vec![
            IRline::Call(IRval::Nil, IRval::Fn(2)),
            IRline::End,
            IRline::Return(IRval::Int(8)),
        ],
        10,
    );
    assert_eq!(end, RunEnd::Halted);
    assert!(outs.is_empty());
    assert!(machine.stack[0].temps.is_empty());
}

#[test]
fn command_line_takes_exactly_one_file() {
    let none = vec!["chorus".to_string()];
    assert_eq!(Config::build(&none).err(), Some("No filename passed"));
    let one = vec!["chorus".to_string(), "a.ch".to_string()];
    assert_eq!(Config::build(&one).map(|c| c.filename), Ok("a.ch"));
    let two = vec!["chorus".to_string(), "a.ch".to_string(), "b.ch".to_string()];
    assert_eq!(Config::build(&two).err(), Some("Too many args"));
}

#[test]
fn invariants_can_be_checked_at_run_time() {
    let mut ast = Ast::init();
    assert!(ast.is_wf());
    ast.get_sym_id("a");
    assert!(ast.is_wf());
    ast.symbol_table.push("print".to_string());
    assert!(!ast.is_wf());

    let mut generator = Generator::init();
    assert!(generator.is_wf());
    let decl = leaf(Tok::FuncDecl, 11, Some(NodeVal::Sym(3)));
    generator.gen_func_enter(&decl);
    assert!(generator.is_wf());
    generator.gen_func_leave();
    assert!(generator.is_wf());
    // a reference to a function that has no label
    generator.code.push(IRline::Load(IRval::Fn(12), IRval::Sym(4)));
    assert!(!generator.is_wf());
    generator.code.pop();
    assert!(generator.is_wf());
    // a function reference that is no source of a load
    generator.code.push(IRline::Print(IRval::Fn(11)));
    assert!(!generator.is_wf());
    generator.code.pop();
    // a closed function that does not end with a return
    generator.funcs[1].code.push(IRline::End);
    assert!(!generator.is_wf());
    generator.funcs[1].code.pop();
    // a context that is no function of the table
    generator.func_stack.push(7);
    assert!(!generator.is_wf());
    generator.func_stack.pop();
    // contexts out of order
    generator.func_stack.push(1);
    generator.func_stack.push(0);
    assert!(!generator.is_wf());
    generator.func_stack.pop();
    generator.func_stack.pop();
    assert!(generator.is_wf());

    let mut machine = Interpreter::init();
    assert!(machine.is_wf());
    machine.stack.clear();
    assert!(!machine.is_wf());
}

#[test]
fn outputs_are_written_as_lines_of_text() {
    assert_eq!(Output::Nil.text(), "nil");
    assert_eq!(Output::Int(0).text(), "0");
    assert_eq!(Output::Int(3).text(), "3");
    assert_eq!(Output::Int(-40).text(), "-40");
    assert_eq!(Output::Text("a \"b\"".to_string()).text(), "a \"b\"");
    assert_eq!(Output::Text(String::new()).text(), "");
    assert_eq!(
        Output::NotCallable.text(),
        "INTERPRETER ERROR: non function value was called!"
    );
}

#[test]
fn decimal_text_of_every_size_of_integer() {
    assert_eq!(int_text(0), "0");
    assert_eq!(int_text(9), "9");
    assert_eq!(int_text(10), "10");
    assert_eq!(int_text(1234567890), "1234567890");
    assert_eq!(int_text(2147483647), "2147483647");
    assert_eq!(int_text(-1), "-1");
    assert_eq!(int_text(-1000), "-1000");
    assert_eq!(int_text(-2147483648), "-2147483648");
    for i in [-2147483648, -99, -10, -9, 0, 7, 10, 11, 99, 100, 101, 65536, 2147483647] {
        assert_eq!(int_text(i), i.to_string());
    }
    for text in ["0", "12", "2147483647"] {
        assert_eq!(int_text(parse_int(text).unwrap()), text);
    }
}
