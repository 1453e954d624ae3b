use lia::ast::{LiaExpr, LiaFn, LiaOp, LiaStmt};
use lia::ident::Ident;
use lia::interp::Interp;
use lia::parser::parse_program;
use lia::runtime::{LiaAny, LiaError, NativeTable, _lia_external_fun};

const FUEL: u64 = 10_000;

struct Host;

impl NativeTable for Host {
    fn call_native(&self, name: &Ident, args: Vec<LiaAny>) -> Result<LiaAny, LiaError> {
        if name.as_str() == "external_fun" {
            _lia_external_fun(args)
        } else {
            Err(LiaError::UnknownNative)
        }
    }
}

fn id(s: &str) -> Ident {
    Ident::new(s)
}

fn var(s: &str) -> LiaExpr {
    LiaExpr::Var(id(s))
}

fn num(n: i32) -> LiaExpr {
    LiaExpr::Integer(n)
}

fn string(s: &str) -> LiaExpr {
    LiaExpr::String(s.to_string())
}

fn bin(op: LiaOp, l: LiaExpr, r: LiaExpr) -> LiaExpr {
    LiaExpr::BinOp(op, Box::new(l), Box::new(r))
}

fn call(f: LiaExpr, args: Vec<LiaExpr>) -> LiaExpr {
    LiaExpr::Call(Box::new(f), args)
}

fn index(b: LiaExpr, k: LiaExpr) -> LiaExpr {
    LiaExpr::Index(Box::new(b), Box::new(k))
}

fn object(entries: Vec<(&str, LiaExpr)>) -> LiaExpr {
    LiaExpr::Object(entries.into_iter().map(|(k, v)| (string(k), v)).collect())
}

fn assign(target: LiaExpr, e: LiaExpr) -> LiaStmt {
    LiaStmt::Assign(target, e)
}

fn function(name: &str, args: Vec<&str>, body: Vec<LiaStmt>) -> LiaFn {
    LiaFn { name: id(name), args: args.into_iter().map(id).collect(), body }
}

const SOURCE: &str = r#"
    function add_test() {
        return 1 + 2;
    }

    function string_test() {
        return "Hello world!";
    }

    function extern_test() {
        return @external_fun(3);
    }

    function by_ref_test() {
        var x = {"foo": 0};
        var y = x;
        y["foo"] = 1;
        return x["foo"];
    }

    function by_val_test() {
        var x = 3;
        var y = x;
        y = 2;
        return x;
    }

    function closure_test() {
        var x = 0;
        (function() { x = x + 1; })();
        return x;
    }

    function fib_test(n) {
        var fib_fn = function(n) {
            if (n == 0) { return 0; }
            if (n == 1) { return 1; }
            return fib_fn(n - 1) + fib_fn(n - 2);
        };
        return fib_fn(n);
    }

    function nested_object_test() {
        var x = {foo: {bar: 3}};
        return x.foo.bar;
    }

    function while_test() {
        var x = 0;
        while (x < 10) {
            x = x + 1;
        }
        return x;
    }

    function for_test() {
        for (var x = 0; x < 10; x = x + 1) {}
        return x;
    }

    function foreach_test() {
        var x = {foo: 1, bar: 2};
        var z = 0;
        for (var y : x) {
            z = z + x[y];
        }
        return z;
    }
"#;

fn program() -> Vec<LiaFn> {
    parse_program(SOURCE).unwrap()
}

fn run(name: &str, args: Vec<LiaAny>) -> Result<LiaAny, LiaError> {
    let mut interp = Interp::new(program());
    interp.call(name, args, &Host, FUEL)
}

fn run_int(name: &str) -> i32 {
    run(name, vec![]).unwrap().as_int().unwrap()
}

#[test]
fn lia_add_test() {
    assert_eq!(run_int("add_test"), 3);
}

#[test]
fn lia_string_test() {
    let r = run("string_test", vec![]).unwrap().as_string().unwrap();
    assert_eq!(r, "Hello world!");
}

#[test]
fn lia_extern_test() {
    assert_eq!(run_int("extern_test"), 4);
}

#[test]
fn lia_by_ref_test() {
    assert_eq!(run_int("by_ref_test"), 1);
}

#[test]
fn lia_by_val_test() {
    assert_eq!(run_int("by_val_test"), 3);
}

#[test]
fn lia_closure_test() {
    assert_eq!(run_int("closure_test"), 1);
}

#[test]
fn lia_nested_object_test() {
    assert_eq!(run_int("nested_object_test"), 3);
}

#[test]
fn lia_while_test() {
    assert_eq!(run_int("while_test"), 10);
}

#[test]
fn lia_for_test() {
    assert_eq!(run_int("for_test"), 10);
}

#[test]
fn lia_foreach_test() {
    assert_eq!(run_int("foreach_test"), 3);
}

#[test]
fn lia_fib_test() {
    let num = run("fib_test", vec![LiaAny::Int(10)]).unwrap().as_int().unwrap();
    assert!(num == 55);
}

#[test]
fn unknown_function_is_unbound() {
    assert!(matches!(run("missing", vec![]), Err(LiaError::Unbound)));
}

#[test]
fn fib_runs_out_of_fuel_on_small_budget() {
    let mut interp = Interp::new(program());
    let r = interp.call("fib_test", vec![LiaAny::Int(10)], &Host, 5);
    assert!(matches!(r, Err(LiaError::OutOfFuel)));
}

#[test]
fn wrong_argument_count_is_rejected() {
    assert!(matches!(run("fib_test", vec![]), Err(LiaError::ArityMismatch)));
}

#[test]
fn missing_key_is_an_error() {
    let prog = vec![function(
        "f",
        vec![],
        vec![
            LiaStmt::Declare(id("x")),
            assign(var("x"), object(vec![("foo", num(0))])),
            LiaStmt::Return(index(var("x"), string("bar"))),
        ],
    )];
    let mut interp = Interp::new(prog);
    assert!(matches!(interp.call("f", vec![], &Host, FUEL), Err(LiaError::KeyNotFound)));
}

#[test]
fn array_index_is_bounds_checked() {
    let arr = || LiaExpr::Array(vec![num(5), num(6)]);
    let prog = vec![
        function("ok", vec![], vec![LiaStmt::Return(index(arr(), num(1)))]),
        function("bad", vec![], vec![LiaStmt::Return(index(arr(), num(2)))]),
    ];
    let mut interp = Interp::new(prog);
    assert_eq!(interp.call("ok", vec![], &Host, FUEL).unwrap().as_int().unwrap(), 6);
    assert!(matches!(interp.call("bad", vec![], &Host, FUEL), Err(LiaError::IndexOutOfRange)));
}

#[test]
fn array_shares_on_assign() {
    let prog = vec![function(
        "f",
        vec![],
        vec![
            LiaStmt::Declare(id("a")),
            assign(var("a"), LiaExpr::Array(vec![num(1), num(2)])),
            LiaStmt::Declare(id("b")),
            assign(var("b"), var("a")),
            assign(index(var("b"), num(0)), num(9)),
            LiaStmt::Return(index(var("a"), num(0))),
        ],
    )];
    let mut interp = Interp::new(prog);
    assert_eq!(interp.call("f", vec![], &Host, FUEL).unwrap().as_int().unwrap(), 9);
}

#[test]
fn comparing_string_to_integer_is_a_type_mismatch() {
    let prog = vec![function(
        "f",
        vec![],
        vec![LiaStmt::Return(bin(LiaOp::Eq, string("a"), num(1)))],
    )];
    let mut interp = Interp::new(prog);
    assert!(matches!(interp.call("f", vec![], &Host, FUEL), Err(LiaError::TypeMismatch)));
}

#[test]
fn unknown_native_is_reported() {
    let prog = vec![function(
        "f",
        vec![],
        vec![LiaStmt::Return(call(LiaExpr::RsVar(vec![id("nope")]), vec![]))],
    )];
    let mut interp = Interp::new(prog);
    assert!(matches!(interp.call("f", vec![], &Host, FUEL), Err(LiaError::UnknownNative)));
}

#[test]
fn quoted_code_is_not_evaluated() {
    let prog = vec![function("f", vec![], vec![LiaStmt::Return(LiaExpr::Quote("1 + 1".to_string()))])];
    let mut interp = Interp::new(prog);
    assert!(matches!(interp.call("f", vec![], &Host, FUEL), Err(LiaError::Quoted)));
}

#[test]
fn block_declarations_go_out_of_scope() {
    let prog = vec![function(
        "f",
        vec![],
        vec![
            LiaStmt::If(LiaExpr::Bool(true), vec![LiaStmt::Declare(id("t"))], None),
            LiaStmt::Return(var("t")),
        ],
    )];
    let mut interp = Interp::new(prog);
    assert!(matches!(interp.call("f", vec![], &Host, FUEL), Err(LiaError::Unbound)));
}

#[test]
fn non_boolean_guard_is_a_type_mismatch() {
    let prog = vec![function(
        "f",
        vec![],
        vec![LiaStmt::While(num(1), vec![]), LiaStmt::Return(num(0))],
    )];
    let mut interp = Interp::new(prog);
    assert!(matches!(interp.call("f", vec![], &Host, FUEL), Err(LiaError::TypeMismatch)));
}

#[test]
fn assigning_to_a_literal_is_rejected() {
    let prog = vec![function("f", vec![], vec![assign(num(1), num(2))])];
    let mut interp = Interp::new(prog);
    assert!(matches!(interp.call("f", vec![], &Host, FUEL), Err(LiaError::InvalidTarget)));
}

#[test]
fn calling_an_integer_is_not_callable() {
    let prog = vec![function("f", vec![], vec![LiaStmt::Return(call(num(1), vec![]))])];
    let mut interp = Interp::new(prog);
    assert!(matches!(interp.call("f", vec![], &Host, FUEL), Err(LiaError::NotCallable)));
}

#[test]
fn function_without_return_gives_undefined() {
    let prog = vec![function("f", vec![], vec![])];
    let mut interp = Interp::new(prog);
    assert!(matches!(interp.call("f", vec![], &Host, FUEL), Ok(LiaAny::Undefined)));
}
