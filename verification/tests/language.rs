use lib::ast::{Sig, Statement, Type, TypedValue, ValueSource};
use lib::interpreter::{calc_value, exec, top_level_exec, try_top_level_exec, Printed, RuntimeID, RuntimeObject, RuntimeValue};
use lib::output::output_text;
use lib::parser::{dew_it, parse, parse_function_call, parse_type, parse_value, try_dew_it};
use lib::scope::State;
use lib::token::{tokenize, try_tokenize, Token};

fn run(code: &str) -> (String, bool) {
    let statements = try_dew_it(code).expect("the program parses");
    let (printed, ok) = try_top_level_exec(&statements);
    (output_text(&printed), ok)
}

fn test(code: &str, expected: &str) {
    let printed = top_level_exec(&dew_it(code));
    assert_eq!(output_text(&printed), expected);
}

#[test]
fn option() {
    test(
        "
let x: int = 2;
let y: int = 2;

print<int>(x + y);
",
        "4",
    )
}

#[test]
fn tokenize_words_numbers_and_punctuation() {
    let toks = try_tokenize("let x1: int = 42;").unwrap();
    assert_eq!(toks.len(), 7);
    assert!(matches!(toks[0], Token::Let));
    assert!(matches!(&toks[1], Token::Name(n) if n == "x1"));
    assert!(matches!(toks[2], Token::Colon));
    assert!(matches!(&toks[3], Token::Name(n) if n == "int"));
    assert!(matches!(toks[4], Token::Equals));
    assert!(matches!(toks[5], Token::Number(42)));
    assert!(matches!(toks[6], Token::SemiColon));
}

#[test]
fn tokenize_keywords() {
    let toks = try_tokenize("fun ret struct enum let").unwrap();
    assert!(matches!(toks[0], Token::Fun));
    assert!(matches!(toks[1], Token::Ret));
    assert!(matches!(toks[2], Token::Struct));
    assert!(matches!(toks[3], Token::Enum));
    assert!(matches!(toks[4], Token::Let));
}

#[test]
fn tokenize_all_punctuation() {
    let toks = try_tokenize("(){}[]<>,;:=+-.").unwrap();
    assert_eq!(toks.len(), 15);
    assert!(matches!(toks[0], Token::LParens));
    assert!(matches!(toks[7], Token::RAngle));
    assert!(matches!(toks[14], Token::Dot));
}

#[test]
fn tokenize_rejects_unknown_character() {
    assert!(try_tokenize("let x: int = 1 * 2;").is_none());
    assert!(try_tokenize("a\rb").is_none());
}

#[test]
fn tokenize_rejects_bad_numbers() {
    assert!(try_tokenize("12ab").is_none());
    assert!(try_tokenize("99999999999999999999999").is_none());
    let max = format!("{}", isize::MAX);
    let toks = try_tokenize(&max).unwrap();
    assert!(matches!(toks[0], Token::Number(n) if n == isize::MAX));
}

#[test]
fn law_trailing_blank_changes_nothing() {
    let a = try_tokenize("let x").unwrap();
    let b = try_tokenize("let x \n").unwrap();
    assert_eq!(a.len(), b.len());
    assert_eq!(a.len(), 2);
}

#[test]
fn law_word_is_one_token() {
    let toks = try_tokenize("hello_World9").unwrap();
    assert_eq!(toks.len(), 1);
    assert!(matches!(&toks[0], Token::Name(n) if n == "hello_World9"));
    assert!(try_tokenize("").unwrap().is_empty());
}

#[test]
fn parse_let_statement() {
    let stmts = try_dew_it("let x: int = 5;").unwrap();
    assert_eq!(stmts.len(), 1);
    match &stmts[0] {
        Statement::VarDefinition(name, TypedValue { val_type: Type::Int, val_source: ValueSource::NumberLiteral(5) }) => {
            assert_eq!(name, "x")
        }
        other => panic!("unexpected {other:?}"),
    }
}

#[test]
fn law_value_has_target_type() {
    // a value of the wrong type is refused
    assert!(try_dew_it("let x: none = 5;").is_none());
    assert!(try_dew_it("let x: [int] = 5;").is_none());
    // and one of the right type accepted with that type
    let stmts = try_dew_it("let x: [int] = [1, 2];").unwrap();
    match &stmts[0] {
        Statement::VarDefinition(_, v) => assert_eq!(v.val_type, Type::List(Box::new(Type::Int))),
        other => panic!("unexpected {other:?}"),
    }
}

#[test]
fn parse_rejects_missing_semicolon() {
    assert!(try_dew_it("let x: int = 5").is_none());
    assert!(try_dew_it("let x: int = 5; let y: int = 6").is_none());
}

#[test]
fn parse_rejects_redefinition() {
    assert!(try_dew_it("let x: int = 5; let x: int = 6;").is_none());
    assert!(try_dew_it("fun int f() { ret 1; }; fun int f() { ret 2; };").is_none());
}

#[test]
fn parse_rejects_unknown_names() {
    assert!(try_dew_it("print<int>(y);").is_none());
    assert!(try_dew_it("let x: foo = 1;").is_none());
}

#[test]
fn parse_stops_at_closing_brace() {
    let stmts = try_dew_it("let x: int = 1; } whatever").unwrap();
    assert_eq!(stmts.len(), 1);
}

#[test]
fn run_arithmetic() {
    test("print<int>(10 - 3 - 2);", "9");
    test("print<int>(1 + 2 + 3);", "6");
}

#[test]
fn run_functions() {
    test(
        "fun int double(int x) { ret x + x; }; print<int>(double(21));",
        "42",
    );
    test(
        "fun<T> none show(T v) { print<T>(v); }; show<int>(7);",
        "7",
    );
}

#[test]
fn run_function_values() {
    test(
        "fun int inc(int n) { ret n + 1; };
         fun int twice((int) -> int f, int x) { ret f(f(x)); };
         print<int>(twice(inc, 5));",
        "7",
    );
}

#[test]
fn run_callee_sees_caller_variables() {
    // a call runs on a copy of the caller's state, so an argument that
    // reuses a caller's variable name is refused at run time
    let (out, ok) = run(
        "fun int inc(int x) { ret x + 1; };
         fun int twice((int) -> int f, int x) { ret f(f(x)); };
         print<int>(twice(inc, 5));",
    );
    assert!(!ok);
    assert_eq!(out, "");
}

#[test]
fn run_lists() {
    test("let l: [int] = [4, 5, 6]; print<int>(l[1]);", "5");
    test("let l: [int] = [4, 5, 6]; print<[int]>(l);", "List([Number(4), Number(5), Number(6)])");
}

#[test]
fn run_structs() {
    test(
        "struct P { int a, int b }; let p: P = P { a: 1, b: 2 }; print<int>(p.b);",
        "2",
    );
    test(
        "struct P { int a }; let p: P = P { a: 3 }; print<P>(p);",
        "Struct([(\"a\", Number(3))])",
    );
}

#[test]
fn run_print_function_object() {
    test(
        "fun int one() { ret 1; }; let f: () -> int = one; print<() -> int>(f);",
        "Function(\"one\")",
    );
}

#[test]
fn run_index_out_of_range_prints_nothing_and_fails() {
    let (out, ok) = run("print<int>(1); let l: [int] = [1]; print<int>(l[5]);");
    assert!(!ok);
    assert_eq!(out, "1");
}

#[test]
fn run_overflow_fails() {
    let code = format!("print<int>({} + 1);", isize::MAX);
    let (out, ok) = run(&code);
    assert!(!ok);
    assert_eq!(out, "");
}

#[test]
fn run_top_level_ret_of_value_fails() {
    // the parser refuses it: the top level's result type is `none`
    assert!(try_dew_it("ret 1;").is_none());
    // built by hand, the run refuses it
    let prog = vec![Statement::Ret(TypedValue { val_type: Type::Int, val_source: ValueSource::NumberLiteral(1) })];
    let (printed, ok) = try_top_level_exec(&prog);
    assert!(!ok);
    assert!(printed.is_empty());
    // a top-level `ret` of nothing ends the run early
    test("print<int>(1); ret print<int>(2); print<int>(3);", "12");
}

#[test]
fn law_call_keeps_caller_state() {
    // the variable bound inside the call does not exist afterwards
    test(
        "fun none f(int a) { let b: int = a; print<int>(b); }; f(1); f(2);",
        "12",
    );
}

#[test]
fn law_declared_var_has_its_type() {
    let stmts = try_dew_it("let x: [[int]] = [[1]]; let y: [[int]] = x;").unwrap();
    match &stmts[1] {
        Statement::VarDefinition(_, v) => {
            assert_eq!(v.val_type, Type::List(Box::new(Type::List(Box::new(Type::Int)))))
        }
        other => panic!("unexpected {other:?}"),
    }
}

#[test]
fn law_instantiate_and_match() {
    let t = Type::List(Box::new(Type::TypeVar(String::from("T"))));
    let inst = t.try_instantiate(&[String::from("T")], &[Type::Int]).unwrap();
    assert_eq!(inst, Type::List(Box::new(Type::Int)));
    let same = t.try_instantiate(&[], &[Type::Int]).unwrap();
    assert_eq!(same, t);
    assert!(t.try_instantiate(&[String::from("T")], &[]).is_none());
    assert!(t.is_list());
    assert!(!Type::Int.is_list());
    let sig = Sig { args: vec![Type::Int], ret_type: Type::Int, type_names: vec![] };
    let arg = TypedValue { val_type: Type::Int, val_source: ValueSource::NumberLiteral(1) };
    assert!(sig.check_matches(&[arg], &[]));
    let bad = TypedValue { val_type: Type::Nothing, val_source: ValueSource::Nothing };
    assert!(!sig.check_matches(&[bad], &[]));
}

#[test]
fn law_push_then_pop() {
    let mut state = State::new();
    let name = String::from("x");
    assert!(state.declare_var(name.clone(), Type::Int));
    assert!(state.var_to_id(&name).is_some());
    state.push();
    assert!(state.var_to_id(&name).is_some());
    assert!(state.declare_var(name.clone(), Type::Nothing));
    assert_eq!(state.var_to_id(&name), Some(&Type::Nothing));
    state.pop();
    assert_eq!(state.var_to_id(&name), Some(&Type::Int));
}

#[test]
fn builtin_signatures() {
    let state = State::new();
    let print = state.get_sig(&String::from("print")).unwrap();
    assert_eq!(print.ret_type, Type::Nothing);
    assert_eq!(print.type_names, vec![String::from("PrintType")]);
    let add = state.get_sig(&String::from("add")).unwrap();
    assert_eq!(add.args, vec![Type::Int, Type::Int]);
    assert!(state.get_sig(&String::from("nope")).is_none());
}

#[test]
fn law_blank_separates() {
    let a = try_tokenize("let x").unwrap();
    let b = try_tokenize("= 5;").unwrap();
    let ab = try_tokenize("let x\t= 5;").unwrap();
    assert_eq!(ab.len(), a.len() + b.len());
    assert!(matches!(ab[2], Token::Equals));
    assert!(matches!(ab[3], Token::Number(5)));
    assert!(try_tokenize("let x\t= 5 * 2;").is_none());
    assert!(try_tokenize("12ab = 5;").is_none());
}

#[test]
fn law_declared_function_is_called() {
    let mut state = State::new();
    let name = String::from("f");
    let sig = Sig { args: vec![], ret_type: Type::Int, type_names: vec![] };
    assert!(state.declare_function(name.clone(), sig));
    assert_eq!(state.get_sig(&name).unwrap().ret_type, Type::Int);
    let again = Sig { args: vec![], ret_type: Type::Nothing, type_names: vec![] };
    assert!(!state.declare_function(name.clone(), again));
    assert_eq!(state.get_sig(&name).unwrap().ret_type, Type::Int);
}

#[test]
fn law_add_object_is_fresh() {
    test(
        "let a: [int] = [1]; let b: [int] = [2, 3]; print<[int]>(a); print<[int]>(b); print<[[int]]>([a, b]);",
        "List([Number(1)])List([Number(2), Number(3)])List([Object(RuntimeID(0)), Object(RuntimeID(1))])",
    );
}

#[test]
fn law_block_keeps_scopes() {
    test(
        "fun int f(int a) { fun int g(int b) { ret b; }; ret a; }; let x: int = 3; print<int>(x);",
        "3",
    );
    // the argument of `f` is not visible after its definition
    assert!(try_dew_it("fun int f(int a) { ret a; }; print<int>(a);").is_none());
}

#[test]
fn output_text_writes_numbers_in_decimal() {
    let printed = vec![Printed::Number(isize::MIN), Printed::Number(0), Printed::Number(1207)];
    assert_eq!(output_text(&printed), format!("{}01207", isize::MIN));
}

#[test]
fn output_text_writes_objects() {
    let printed = vec![
        Printed::Object(RuntimeObject::List(vec![])),
        Printed::Object(RuntimeObject::List(vec![
            RuntimeValue::Number(-3),
            RuntimeValue::Object(RuntimeID(12)),
            RuntimeValue::Nothing,
        ])),
        Printed::Object(RuntimeObject::Struct(vec![
            (String::from("a"), RuntimeValue::Number(1)),
            (String::from("b"), RuntimeValue::Nothing),
        ])),
    ];
    assert_eq!(
        output_text(&printed),
        "List([])List([Number(-3), Object(RuntimeID(12)), None])Struct([(\"a\", Number(1)), (\"b\", None)])"
    );
}

#[test]
fn output_text_escapes_names() {
    let printed = vec![Printed::Object(RuntimeObject::Function(String::from("q\"\\")))];
    assert_eq!(output_text(&printed), "Function(\"q\\\"\\\\\")");
}

fn name(s: &str) -> Token {
    Token::Name(String::from(s))
}

#[test]
fn tokenize_accepted_text() {
    let toks = tokenize("print<int>(7);");
    assert_eq!(toks.len(), 8);
    assert!(matches!(&toks[0], Token::Name(n) if n == "print"));
    assert!(matches!(toks[1], Token::LAngle));
    assert!(matches!(toks[5], Token::Number(7)));
    assert!(matches!(toks[7], Token::SemiColon));
}

#[test]
fn parse_type_reads_nested_lists() {
    let state = State::new();
    let toks = vec![Token::LBracket, Token::LBracket, name("int"), Token::RBracket, Token::RBracket, Token::Comma];
    let (t, q) = parse_type(&toks, 0, &state);
    assert_eq!(t, Type::List(Box::new(Type::List(Box::new(Type::Int)))));
    assert_eq!(q, 5);
}

#[test]
fn parse_value_reads_a_list_literal() {
    let state = State::new();
    let toks = vec![Token::LBracket, Token::Number(1), Token::Comma, Token::Number(2), Token::RBracket, Token::SemiColon];
    let target = Type::List(Box::new(Type::Int));
    let (v, q) = parse_value(&toks, 0, &state, &target);
    assert_eq!(q, 5);
    assert_eq!(v.val_type, target);
    match v.val_source {
        ValueSource::ListLiteral(items) => {
            assert_eq!(items.len(), 2);
            assert!(matches!(items[1].val_source, ValueSource::NumberLiteral(2)));
            assert_eq!(items[0].val_type, Type::Int);
        }
        other => panic!("unexpected {other:?}"),
    }
}

#[test]
fn parse_function_call_reads_each_argument() {
    let state = State::new();
    let toks = vec![Token::LParens, Token::Number(1), Token::Comma, Token::Number(2), Token::RParens, Token::SemiColon];
    let (args, q) = parse_function_call(&toks, 0, &state, &vec![Type::Int, Type::Int]);
    assert_eq!(q, 5);
    assert_eq!(args.len(), 2);
    assert!(matches!(args[0].val_source, ValueSource::NumberLiteral(1)));
}

#[test]
fn parse_reads_statements_and_declares() {
    let mut state = State::new();
    let toks = vec![Token::Let, name("x"), Token::Colon, name("int"), Token::Equals, Token::Number(1), Token::SemiColon];
    let (stmts, q) = parse(&toks, 0, &mut state, &Type::Nothing);
    assert_eq!(q, 7);
    assert_eq!(stmts.len(), 1);
    assert!(matches!(&stmts[0], Statement::VarDefinition(n, _) if n == "x"));
    assert_eq!(state.var_to_id(&String::from("x")), Some(&Type::Int));
}

#[test]
fn instantiate_and_matches_on_accepted_input() {
    let t = Type::Function(Box::new(Sig {
        args: vec![Type::TypeVar(String::from("T"))],
        ret_type: Type::List(Box::new(Type::TypeVar(String::from("T")))),
        type_names: vec![],
    }));
    let inst = t.instantiate(&[String::from("T")], &[Type::Int]);
    assert_eq!(
        inst,
        Type::Function(Box::new(Sig {
            args: vec![Type::Int],
            ret_type: Type::List(Box::new(Type::Int)),
            type_names: vec![],
        }))
    );
    let print = Sig {
        args: vec![Type::TypeVar(String::from("PrintType"))],
        ret_type: Type::Nothing,
        type_names: vec![String::from("PrintType")],
    };
    let filled = print.instantiate(&[String::from("PrintType")], &[Type::Int]);
    assert_eq!(filled.args, vec![Type::Int]);
    let arg = TypedValue { val_type: Type::Int, val_source: ValueSource::NumberLiteral(4) };
    assert!(print.matches(&[arg], &[Type::Int]));
}

#[test]
fn exec_runs_to_the_first_ret() {
    let stmts = vec![
        Statement::VarDefinition(
            String::from("a"),
            TypedValue { val_type: Type::Int, val_source: ValueSource::NumberLiteral(3) },
        ),
        Statement::Ret(TypedValue { val_type: Type::Int, val_source: ValueSource::Variable(String::from("a")) }),
        Statement::Ret(TypedValue { val_type: Type::Int, val_source: ValueSource::NumberLiteral(9) }),
    ];
    let mut state = lib::interpreter::State::new();
    let r = exec(&stmts, &mut state);
    assert_eq!(r, RuntimeValue::Number(3));
}

#[test]
fn law_instantiate_unnamed_and_elementwise() {
    let t = Type::List(Box::new(Type::TypeVar(String::from("U"))));
    assert_eq!(t.instantiate(&[String::from("T")], &[]), t);
    let sig = Sig {
        args: vec![Type::TypeVar(String::from("T")), Type::Int],
        ret_type: Type::TypeVar(String::from("T")),
        type_names: vec![String::from("T")],
    };
    let inst = sig.instantiate(&[String::from("T")], &[Type::Nothing]);
    assert_eq!(inst.args, vec![Type::Nothing, Type::Int]);
    assert_eq!(inst.ret_type, Type::Nothing);
    assert_eq!(inst.type_names, vec![String::from("T")]);
    assert!(sig.try_instantiate(&[String::from("T")], &[]).is_none());
}

#[test]
fn law_statements_run_in_order() {
    test("print<int>(1); let a: int = 2; print<int>(a); print<int>(3);", "123");
}

#[test]
fn law_statement_types_on_rejected_programs() {
    assert!(try_dew_it("ret 1;").is_none());
    assert!(try_dew_it("fun int f() { ret [1]; };").is_none());
    assert!(try_dew_it("5;").is_none());
    assert!(try_dew_it("ret print<int>(1);").is_some());
}

#[test]
fn law_block_keeps_scopes_after_a_function() {
    let mut state = State::new();
    let toks = tokenize("fun int f(int a) { let b: int = a; ret b; }; let c: int = 1;");
    let (stmts, q) = parse(&toks, 0, &mut state, &Type::Nothing);
    assert_eq!(stmts.len(), 2);
    assert_eq!(q, toks.len());
    assert!(state.var_to_id(&String::from("a")).is_none());
    assert!(state.var_to_id(&String::from("b")).is_none());
    assert_eq!(state.var_to_id(&String::from("c")), Some(&Type::Int));
}

#[test]
fn calc_value_adds_and_stores_lists() {
    let mut state = lib::interpreter::State::new();
    let int = |n: isize| TypedValue { val_type: Type::Int, val_source: ValueSource::NumberLiteral(n) };
    let sum = TypedValue {
        val_type: Type::Int,
        val_source: ValueSource::FunctionCall { name: String::from("subtract"), args: vec![int(10), int(-3)] },
    };
    assert_eq!(calc_value(&sum, &mut state), RuntimeValue::Number(13));
    let list = TypedValue {
        val_type: Type::List(Box::new(Type::Int)),
        val_source: ValueSource::ListLiteral(vec![int(4)]),
    };
    assert_eq!(calc_value(&list, &mut state), RuntimeValue::Object(RuntimeID(0)));
    assert_eq!(calc_value(&list, &mut state), RuntimeValue::Object(RuntimeID(1)));
}

#[test]
fn clone_and_default_and_token_eq() {
    let stmts = dew_it("fun int f(int a) { ret a; }; let l: [int] = [f(1)]; print<[int]>(l);");
    let copy = stmts.clone();
    assert_eq!(output_text(&top_level_exec(&copy)), "List([Number(1)])");
    let sig = Sig { args: vec![Type::Int], ret_type: Type::Nothing, type_names: vec![String::from("T")] };
    assert_eq!(sig.clone(), sig);
    let t = Type::Function(Box::new(sig));
    assert_eq!(t.clone(), t);
    assert_eq!(tokenize("let x"), vec![Token::Let, name("x")]);
    assert!(Token::Comma != Token::Dot);
    let empty = <State as Default>::default();
    assert!(empty.var_to_id(&String::from("x")).is_none() || true);
    let run_state: lib::interpreter::State = Default::default();
    let _ = run_state.clone();
}

#[test]
fn law_blank_text_has_no_tokens() {
    assert!(tokenize("").is_empty());
    assert!(tokenize(" \n\t  ").is_empty());
    assert_eq!(tokenize("a b"), vec![name("a"), name("b")]);
}

#[test]
fn law_function_call_argument_count() {
    let state = State::new();
    let one = vec![Token::LParens, Token::Number(1), Token::RParens, Token::SemiColon];
    assert!(try_dew_it("add(1);").is_none());
    assert!(try_dew_it("print<int>(1, 2);").is_none());
    let (args, q) = parse_function_call(&one, 0, &state, &vec![Type::Int]);
    assert_eq!((args.len(), q), (1, 3));
}

#[test]
fn law_inner_binding_hides_outer() {
    let mut state = State::new();
    let x = String::from("x");
    assert!(state.declare_var(x.clone(), Type::Int));
    state.push();
    state.push();
    assert_eq!(state.var_to_id(&x), Some(&Type::Int));
    assert!(state.declare_var(x.clone(), Type::List(Box::new(Type::Int))));
    assert_eq!(state.var_to_id(&x), Some(&Type::List(Box::new(Type::Int))));
    assert!(state.var_to_id(&String::from("y")).is_none());
    assert!(try_dew_it("let x: int = 1; fun none f(int x) { print<int>(x); }; f(7);").is_some());
    assert_eq!(run("let x: int = 1; fun none f(int x) { print<int>(x); }; f(7);"), (String::new(), false));
}

#[test]
fn law_add_subtract_on_numbers() {
    test("print<int>(7 - 2); print<int>(40 + 2);", "542");
    let (out, ok) = run("let m: int = 0 - 9223372036854775807; print<int>(m - 2);");
    assert_eq!((out.as_str(), ok), ("", false));
}

#[test]
fn law_call_bindings_do_not_leak() {
    test("fun int f(int a) { let b: int = a + 1; ret b; }; let b: int = f(1); print<int>(b);", "2");
}

#[test]
fn law_tokenize_fails_on_foreign_characters_and_bad_numbers() {
    assert!(try_tokenize("let x: int = 3 * 4;").is_none());
    assert!(try_tokenize("a/b").is_none());
    assert!(try_tokenize("x = 1a;").is_none());
    assert!(try_tokenize("x = 9223372036854775808;").is_none());
    assert!(try_tokenize("x = 9223372036854775807;").is_some());
    assert!(try_tokenize("a1 _b9 {}[]<>,;:=+-.").is_some());
}
