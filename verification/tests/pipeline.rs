use chorus::ast::Ast;
use chorus::generator::Generator;
use chorus::interpreter::{Fault, Interpreter, Output, RunEnd, RunReport};
use chorus::ir::{IRline, IRop, IRval};
use chorus::parser::{Action, Outcome, ParseError, Parser};
use chorus::tokens::Tok;

// A scanner and a table oracle for the tests: they stand for the two
// collaborators that the driver is given from outside.

#[derive(Debug, Clone)]
struct Lexeme {
    kind: Tok,
    text: Option<String>,
}

fn scan(src: &str) -> Vec<Lexeme> {
    let chars: Vec<char> = src.chars().collect();
    let mut out = Vec::new();
    let mut i = 0;
    while i < chars.len() {
        let c = chars[i];
        if c.is_whitespace() {
            i += 1;
        } else if c.is_ascii_alphabetic() {
            let start = i;
            while i < chars.len() && (chars[i].is_ascii_alphanumeric() || chars[i] == '_') {
                i += 1;
            }
            out.push(Lexeme { kind: Tok::Var, text: Some(chars[start..i].iter().collect()) });
        } else if c.is_ascii_digit() {
            let start = i;
            while i < chars.len() && chars[i].is_ascii_digit() {
                i += 1;
            }
            out.push(Lexeme { kind: Tok::Int, text: Some(chars[start..i].iter().collect()) });
        } else if c == '"' {
            let start = i + 1;
            i += 1;
            while chars[i] != '"' {
                i += 1;
            }
            out.push(Lexeme { kind: Tok::String, text: Some(chars[start..i].iter().collect()) });
            i += 1;
        } else {
            let kind = match c {
                '{' => Tok::LeftCurly,
                '}' => Tok::RightCurly,
                '(' => Tok::LeftParen,
                ')' => Tok::RightParen,
                ';' => Tok::SemiColon,
                ',' => Tok::Comma,
                '=' => Tok::Eq,
                '+' => Tok::Plus,
                '-' => Tok::Minus,
                other => panic!("unexpected character {}", other),
            };
            out.push(Lexeme { kind, text: None });
            i += 1;
        }
    }
    out
}

#[derive(Debug, Clone, Copy, PartialEq)]
enum Event {
    Shift,
    Reduce(usize),
}

struct Oracle {
    toks: Vec<Lexeme>,
    pos: usize,
    events: Vec<Event>,
}

impl Oracle {
    fn word(&self, ahead: usize) -> Option<&str> {
        match self.toks.get(self.pos + ahead) {
            Some(Lexeme { kind: Tok::Var, text: Some(t) }) => Some(t.as_str()),
            _ => None,
        }
    }

    fn kind(&self, ahead: usize) -> Option<Tok> {
        self.toks.get(self.pos + ahead).map(|l| l.kind)
    }

    fn shift(&mut self) {
        assert!(self.pos < self.toks.len(), "input ended early");
        self.events.push(Event::Shift);
        self.pos += 1;
    }

    fn expect(&mut self, kind: Tok) {
        assert_eq!(self.kind(0), Some(kind));
        self.shift();
    }

    fn stmts(&mut self) {
        if self.kind(0).is_none() || self.kind(0) == Some(Tok::RightCurly) {
            self.events.push(Event::Reduce(2));
        } else {
            self.stmt();
            self.stmts();
            self.events.push(Event::Reduce(1));
        }
    }

    fn stmt(&mut self) {
        if self.word(0) == Some("fn") {
            self.shift();
            self.expect(Tok::Var);
            self.expect(Tok::LeftParen);
            self.var_list();
            self.expect(Tok::RightParen);
            self.expect(Tok::LeftCurly);
            self.stmts();
            self.expect(Tok::RightCurly);
            self.events.push(Event::Reduce(3));
            self.events.push(Event::Reduce(9));
            self.events.push(Event::Reduce(4));
        } else if self.word(0) == Some("return") {
            self.shift();
            self.expr();
            self.expect(Tok::SemiColon);
            self.events.push(Event::Reduce(7));
        } else if self.kind(0) == Some(Tok::Var) && self.kind(1) == Some(Tok::Eq) {
            self.shift();
            self.shift();
            self.expr();
            self.expect(Tok::SemiColon);
            self.events.push(Event::Reduce(8));
            self.events.push(Event::Reduce(4));
        } else {
            self.expr();
            self.expect(Tok::SemiColon);
            self.events.push(Event::Reduce(6));
        }
    }

    fn var_list(&mut self) {
        if self.kind(0) == Some(Tok::RightParen) {
            self.events.push(Event::Reduce(24));
        } else {
            self.expect(Tok::Var);
            if self.kind(0) == Some(Tok::Comma) {
                self.shift();
                self.var_list();
                self.events.push(Event::Reduce(22));
            } else {
                self.events.push(Event::Reduce(23));
            }
        }
    }

    fn expr_list(&mut self) {
        if self.kind(0) == Some(Tok::RightParen) {
            self.events.push(Event::Reduce(21));
        } else {
            self.expr();
            if self.kind(0) == Some(Tok::Comma) {
                self.shift();
                self.expr_list();
                self.events.push(Event::Reduce(19));
            } else {
                self.events.push(Event::Reduce(20));
            }
        }
    }

    fn expr(&mut self) {
        self.primary();
        while self.kind(0) == Some(Tok::Plus) || self.kind(0) == Some(Tok::Minus) {
            let pid = if self.kind(0) == Some(Tok::Plus) { 16 } else { 17 };
            self.shift();
            self.events.push(Event::Reduce(pid));
            self.primary();
            self.events.push(Event::Reduce(12));
        }
    }

    fn primary(&mut self) {
        match self.kind(0) {
            Some(Tok::Int) => {
                self.shift();
                self.events.push(Event::Reduce(14));
            }
            Some(Tok::String) => {
                self.shift();
                self.events.push(Event::Reduce(13));
            }
            Some(Tok::LeftParen) => {
                self.shift();
                self.expr();
                self.expect(Tok::RightParen);
                self.events.push(Event::Reduce(11));
            }
            Some(Tok::Var) => {
                if self.kind(1) == Some(Tok::LeftParen) {
                    self.shift();
                    self.shift();
                    self.expr_list();
                    self.expect(Tok::RightParen);
                    self.events.push(Event::Reduce(18));
                    self.events.push(Event::Reduce(10));
                } else {
                    self.shift();
                    self.events.push(Event::Reduce(15));
                }
            }
            other => panic!("unexpected token {:?}", other),
        }
    }
}

/// Parses `src` through the driver, answering for the parse table.
fn build(src: &str) -> Ast {
    let toks = scan(src);
    let mut oracle = Oracle { toks: toks.clone(), pos: 0, events: Vec::new() };
    oracle.stmts();
    assert_eq!(oracle.pos, toks.len());
    let parser = Parser::init();
    let mut ast = Ast::init();
    let mut answers: Vec<Action> = Vec::new();
    let mut next = 0;
    for ev in oracle.events.iter() {
        match ev {
            Event::Reduce(pid) => answers.push(Action::Reduce(*pid)),
            Event::Shift => {
                answers.push(Action::Shift);
                let lex = &toks[next];
                let got = parser.parse(&answers, lex.kind, lex.text.as_deref(), &mut ast);
                assert_eq!(got, Ok(Outcome::Shifted));
                answers.clear();
                next += 1;
            }
        }
    }
    answers.push(Action::Shift);
    let flush = vec![Action::Reduce(0), Action::Accept];
    assert_eq!(parser.parse_end(&answers, &flush, &mut ast), Ok(Outcome::Accepted));
    ast
}

fn compile(src: &str) -> Generator {
    let mut ast = build(src);
    assert_eq!(ast.node_stack.len(), 1);
    let mut generator = Generator::init();
    assert_eq!(ast.traverse(&mut generator), Ok(()));
    generator.complete_generation();
    ast.clear();
    generator
}

fn execute(src: &str) -> (Interpreter, RunReport) {
    let generator = compile(src);
    let mut machine = Interpreter::init();
    let report = machine.run(&generator, 10_000);
    (machine, report)
}

fn global(machine: &Interpreter, sym: usize) -> Option<IRval> {
    machine.stack[0].syms.iter().find(|b| b.0 == sym).map(|b| b.1.clone())
}

#[test]
fn stream_of_a_call_and_a_return() {
    let generator = compile("fn f(){ return 5; } x = f();");
    // symbols: print 0, f 1, x 2; nodes: f 2, the list of parameters 3,
    // the literal 4, the return 5, the body's list 6, x 7, the assignment 8,
    // the callee 9.
    let want = vec![
        IRline::Load(IRval::Fn(5), IRval::Sym(0)),
        IRline::Load(IRval::Fn(7), IRval::Sym(1)),
        IRline::Call(IRval::Temp(9), IRval::Sym(1)),
        IRline::Load(IRval::Temp(9), IRval::Sym(2)),
        IRline::End,
        IRline::Print(IRval::Arg),
        IRline::Return(IRval::Nil),
        IRline::Return(IRval::Int(5)),
    ];
    assert_eq!(generator.code, want);
}

#[test]
fn returned_value_reaches_the_variable() {
    let (machine, report) = execute("fn f(){ return 5; } x = f();");
    assert_eq!(report.end, RunEnd::Halted);
    assert!(report.outputs.is_empty());
    assert_eq!(global(&machine, 2), Some(IRval::Int(5)));
    assert_eq!(machine.stack.len(), 1);
}

#[test]
fn sum_of_two_arguments_is_printed() {
    let (_, report) = execute("fn add(a,b){ return a + b; } x = add(1,2); print(x);");
    assert_eq!(report.end, RunEnd::Halted);
    assert_eq!(report.outputs, vec![Output::Int(3)]);
    let printed: Vec<String> = report.outputs.iter().map(|o| o.text()).collect();
    assert_eq!(printed, vec!["3".to_string()]);
}

#[test]
fn difference_takes_left_minus_right() {
    let (_, report) = execute("fn sub(a,b){ return a - b; } print(sub(10,4));");
    assert_eq!(report.end, RunEnd::Halted);
    assert_eq!(report.outputs, vec![Output::Int(6)]);
}

#[test]
fn arguments_pair_with_parameters_in_source_order() {
    let (_, report) = execute("fn f(p,q){ print(p); print(q); } f(1,2);");
    assert_eq!(report.end, RunEnd::Halted);
    assert_eq!(report.outputs, vec![Output::Int(1), Output::Int(2)]);
}

#[test]
fn arguments_are_pushed_last_first_and_popped_first_first() {
    let generator = compile("fn f(p,q){ } f(1,2);");
    // symbols: print 0, f 1, p 2, q 3
    let code = &generator.code;
    let pushes: Vec<&IRline> =
        code.iter().filter(|l| matches!(l, IRline::Load(_, IRval::Arg))).collect();
    assert_eq!(
        pushes,
        vec![
            &IRline::Load(IRval::Int(2), IRval::Arg),
            &IRline::Load(IRval::Int(1), IRval::Arg)
        ]
    );
    let pops: Vec<&IRline> =
        code.iter().filter(|l| matches!(l, IRline::Load(IRval::Arg, _))).collect();
    assert_eq!(
        pops,
        vec![
            &IRline::Load(IRval::Arg, IRval::Sym(2)),
            &IRline::Load(IRval::Arg, IRval::Sym(3))
        ]
    );
}

#[test]
fn callee_sees_the_unshadowed_symbol_of_its_caller() {
    let (_, report) =
        execute("fn inner(){ print(v); } fn outer(){ v = 9; inner(); } outer();");
    assert_eq!(report.end, RunEnd::Halted);
    assert_eq!(report.outputs, vec![Output::Int(9)]);
}

#[test]
fn callee_binding_shadows_and_does_not_leak() {
    let (machine, report) = execute("v = 1; fn f(){ v = 2; print(v); } f(); print(v);");
    assert_eq!(report.end, RunEnd::Halted);
    assert_eq!(report.outputs, vec![Output::Int(2), Output::Int(1)]);
    // symbols: print 0, v 1, f 2
    assert_eq!(global(&machine, 1), Some(IRval::Int(1)));
}

#[test]
fn callee_never_sees_a_temporary_of_its_caller() {
    let mut generator = Generator::init();
    generator.code = vec![
        IRline::Load(IRval::Fn(5), IRval::Sym(0)),
        IRline::Op(IRval::Temp(7), IRop::Plus, IRval::Int(1), IRval::Int(2)),
        IRline::Print(IRval::Temp(7)),
        IRline::Call(IRval::Temp(9), IRval::Sym(0)),
        IRline::End,
        IRline::Print(IRval::Temp(7)),
        IRline::Return(IRval::Nil),
    ];
    let mut machine = Interpreter::init();
    let report = machine.run(&generator, 100);
    assert_eq!(report.outputs, vec![Output::Int(3)]);
    assert_eq!(report.end, RunEnd::Faulted(Fault::UnboundTemp(7)));
}

#[test]
fn call_of_a_non_function_is_reported_and_skipped() {
    let (machine, report) = execute("y = 1; y(); print(y);");
    assert_eq!(report.end, RunEnd::Halted);
    assert_eq!(report.outputs, vec![Output::NotCallable, Output::Int(1)]);
    assert_eq!(machine.stack.len(), 1);
}

#[test]
fn unbound_symbol_terminates_the_run() {
    let (_, report) = execute("print(1); print(z); print(2);");
    // symbols: print 0, z 1
    assert_eq!(report.outputs, vec![Output::Int(1)]);
    assert_eq!(report.end, RunEnd::Faulted(Fault::UnboundSymbol(1)));
}

#[test]
fn literal_pair_is_folded_while_parsing() {
    let ast = build("x = 2 + 3; y = 7 - 10;");
    let root = &ast.node_stack[0];
    assert_eq!(root.token, Tok::Stmts);
    assert_eq!(root.children.len(), 2);
    // children are stored in reverse of source order
    let second = &root.children[0];
    let first = &root.children[1];
    assert_eq!(first.token, Tok::Eq);
    assert_eq!(first.children.len(), 1);
    assert_eq!(first.children[0].token, Tok::Int);
    assert_eq!(first.children[0].val, Some(chorus::ast::NodeVal::Int(5)));
    assert!(first.children[0].children.is_empty());
    assert_eq!(second.children[0].token, Tok::Int);
    assert_eq!(second.children[0].val, Some(chorus::ast::NodeVal::Int(-3)));
}

#[test]
fn folded_literals_reach_the_stream_as_literals() {
    let generator = compile("x = 2 + 3;");
    assert_eq!(generator.code[1], IRline::Load(IRval::Int(5), IRval::Sym(1)));
    assert!(generator.code.iter().all(|l| !matches!(l, IRline::Op(_, _, _, _))));
}

#[test]
fn folding_wraps_around() {
    let ast = build("x = 2147483647 + 1;");
    let eq = &ast.node_stack[0].children[0];
    assert_eq!(eq.children[0].val, Some(chorus::ast::NodeVal::Int(-2147483648)));
}

#[test]
fn symbol_and_literal_are_not_folded() {
    let generator = compile("a = 4; b = a + 1; print(b);");
    let ops: Vec<&IRline> =
        generator.code.iter().filter(|l| matches!(l, IRline::Op(_, _, _, _))).collect();
    assert_eq!(ops.len(), 1);
    match ops[0] {
        IRline::Op(IRval::Temp(_), IRop::Plus, left, right) => {
            assert_eq!(left, &IRval::Sym(1));
            assert_eq!(right, &IRval::Int(1));
        }
        other => panic!("unexpected line {:?}", other),
    }
    let mut machine = Interpreter::init();
    let report = machine.run(&generator, 1000);
    assert_eq!(report.outputs, vec![Output::Int(5)]);
}

#[test]
fn operands_are_evaluated_left_to_right() {
    let (_, report) = execute(
        "fn l(){ print(1); return 10; } fn r(){ print(2); return 3; } print(l() - r());",
    );
    assert_eq!(report.end, RunEnd::Halted);
    assert_eq!(report.outputs, vec![Output::Int(1), Output::Int(2), Output::Int(7)]);
}

#[test]
fn finalized_stream_has_no_label_and_only_valid_addresses() {
    let generator = compile(
        "fn a(){ fn b(){ return 1; } return b(); } fn c(p){ } x = a(); c(x); print(\"done\");",
    );
    let code = &generator.code;
    let mut refs = 0;
    for line in code.iter() {
        assert!(!matches!(line, IRline::Label(_)));
        if let IRline::Load(IRval::Fn(addr), _) = line {
            assert!(*addr < code.len());
            refs += 1;
        }
    }
    assert_eq!(refs, 4);
    let mut machine = Interpreter::init();
    let report = machine.run(&generator, 1000);
    assert_eq!(report.end, RunEnd::Halted);
    assert_eq!(report.outputs, vec![Output::Text("done".to_string())]);
}

#[test]
fn function_without_return_gets_one() {
    let generator = compile("fn f(){ } f();");
    assert_eq!(generator.code.last(), Some(&IRline::Return(IRval::Nil)));
    let returns = generator.code.iter().filter(|l| matches!(l, IRline::Return(_))).count();
    assert_eq!(returns, 2);
}

#[test]
fn every_string_load_makes_a_new_table_entry() {
    let (machine, report) = execute("a = \"hi\"; b = \"hi\"; print(a); print(b);");
    assert_eq!(report.end, RunEnd::Halted);
    assert_eq!(machine.strings, vec!["hi".to_string(), "hi".to_string()]);
    assert_eq!(global(&machine, 1), Some(IRval::StrID(0)));
    assert_eq!(global(&machine, 2), Some(IRval::StrID(1)));
    assert_eq!(
        report.outputs,
        vec![Output::Text("hi".to_string()), Output::Text("hi".to_string())]
    );
}

#[test]
fn run_stops_when_the_fuel_is_spent() {
    let generator = compile("fn loop_(){ loop_(); } loop_();");
    let mut machine = Interpreter::init();
    let report = machine.run(&generator, 500);
    assert_eq!(report.end, RunEnd::OutOfFuel);
    assert!(machine.stack.len() > 100);
}

#[test]
fn table_error_is_fatal() {
    let parser = Parser::init();
    let mut ast = Ast::init();
    let got = parser.parse(&vec![Action::Error], Tok::Int, Some("1"), &mut ast);
    assert_eq!(got, Err(ParseError::Syntax));
    assert!(ast.node_stack.is_empty());
}

#[test]
fn reduction_on_a_short_stack_is_refused() {
    let parser = Parser::init();
    let mut ast = Ast::init();
    assert_eq!(parser.reduce_node(12, &mut ast), Err(ParseError::StackUnderflow));
    assert_eq!(parser.reduce_node(99, &mut ast), Err(ParseError::UnknownProduction));
    assert_eq!(parser.reduce_node(0, &mut ast), Ok(()));
    assert!(ast.node_stack.is_empty());
}

#[test]
fn shift_needs_the_text_of_a_literal() {
    let parser = Parser::init();
    let mut ast = Ast::init();
    assert_eq!(parser.shift_node(Tok::Int, None, &mut ast), Err(ParseError::MissingAttribute));
    assert_eq!(parser.shift_node(Tok::Var, None, &mut ast), Err(ParseError::MissingAttribute));
    assert_eq!(parser.shift_node(Tok::String, None, &mut ast), Err(ParseError::MissingAttribute));
    assert_eq!(
        parser.shift_node(Tok::Int, Some("2147483648"), &mut ast),
        Err(ParseError::BadInteger)
    );
    assert_eq!(parser.shift_node(Tok::Int, Some("12a"), &mut ast), Err(ParseError::BadInteger));
    assert_eq!(parser.shift_node(Tok::Int, Some(""), &mut ast), Err(ParseError::BadInteger));
    assert!(ast.node_stack.is_empty());
    assert_eq!(parser.shift_node(Tok::Int, Some("2147483647"), &mut ast), Ok(()));
    assert_eq!(ast.node_stack[0].val, Some(chorus::ast::NodeVal::Int(2147483647)));
    assert_eq!(ast.node_stack[0].id, 2);
    assert_eq!(parser.shift_node(Tok::SemiColon, None, &mut ast), Ok(()));
    assert_eq!(ast.node_stack.len(), 1);
}

#[test]
fn answers_without_a_shift_leave_the_token_pending() {
    let parser = Parser::init();
    let mut ast = Ast::init();
    let got = parser.parse_until_shift(&vec![Action::Reduce(2)], Some(Tok::End), None, &mut ast);
    assert_eq!(got, Ok(Outcome::Pending));
    assert_eq!(ast.node_stack.len(), 1);
    assert_eq!(ast.node_stack[0].token, Tok::Stmts);
    let none = parser.parse_until_shift(&vec![Action::Shift], None, None, &mut ast);
    assert_eq!(none, Err(ParseError::ShiftWithoutToken));
}

#[test]
fn keyword_is_reclassified_before_the_table_sees_it() {
    let parser = Parser::init();
    assert_eq!(parser.process_raw_tid(Tok::Var, Some("fn")), Tok::FnKW);
    assert_eq!(parser.process_raw_tid(Tok::Var, Some("return")), Tok::ReturnKW);
    assert_eq!(parser.process_raw_tid(Tok::Var, Some("fnord")), Tok::Var);
    assert_eq!(parser.process_raw_tid(Tok::String, Some("fn")), Tok::String);
    assert_eq!(parser.process_raw_tid(Tok::Var, None), Tok::Var);
    let mut ast = Ast::init();
    assert_eq!(
        parser.parse(&vec![Action::Shift], Tok::Var, Some("fn"), &mut ast),
        Ok(Outcome::Shifted)
    );
    assert!(ast.node_stack.is_empty());
    assert_eq!(ast.symbol_table.len(), 1);
}
