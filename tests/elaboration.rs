use lia::ast::{LiaExpr, LiaOp, LiaStmt};
use lia::elaborate::{get_mapping, BoundSet, FreeMap};
use lia::ident::{prefix_ident, Ident};
use lia::parser::parse_program;
use lia::runtime::{apply_op, Env, Heap, LiaAny, LiaError, _lia_external_fun};

fn id(s: &str) -> Ident {
    Ident::new(s)
}

fn var(s: &str) -> LiaExpr {
    LiaExpr::Var(id(s))
}

fn var_name(e: &LiaExpr) -> String {
    match e {
        LiaExpr::Var(i) => i.as_str().to_string(),
        _ => panic!("not a variable"),
    }
}

#[test]
fn prefix_ident_prepends() {
    assert_eq!(prefix_ident(&id("x"), "_copy").as_str(), "_copyx");
    assert_eq!(prefix_ident(&id(""), "p").as_str(), "p");
}

#[test]
fn get_mapping_creates_once() {
    let mut m = FreeMap::new();
    let a = get_mapping(&mut m, &id("x"));
    assert_eq!(a.as_str(), "_copyx");
    let b = get_mapping(&mut m, &id("x"));
    assert_eq!(b.as_str(), "_copyx");
    assert_eq!(m.len(), 1);
    assert_eq!(m.get(&id("x")).unwrap().as_str(), "_copyx");
    assert!(m.get(&id("y")).is_none());
}

#[test]
fn free_variable_is_renamed_and_bound_one_is_not() {
    // var a; a = b + a;
    let mut st = LiaStmt::Assign(
        var("a"),
        LiaExpr::BinOp(LiaOp::Add, Box::new(var("b")), Box::new(var("a"))),
    );
    let mut bound = BoundSet::new();
    bound.insert(id("a"));
    let mut m = FreeMap::new();
    st.remap_free_vars_aux(&mut bound, &mut m);
    match &st {
        LiaStmt::Assign(l, LiaExpr::BinOp(_, x, y)) => {
            assert_eq!(var_name(l), "a");
            assert_eq!(var_name(x), "_copyb");
            assert_eq!(var_name(y), "a");
        },
        _ => panic!("shape changed"),
    }
    assert_eq!(m.len(), 1);
    assert_eq!(m.get(&id("b")).unwrap().as_str(), "_copyb");
}

#[test]
fn closure_parameters_shadow_free_names() {
    // function(n) { return n + k; }
    let mut e = LiaExpr::Closure(
        vec![id("n")],
        vec![LiaStmt::Return(LiaExpr::BinOp(
            LiaOp::Add,
            Box::new(var("n")),
            Box::new(var("k")),
        ))],
    );
    let mut bound = BoundSet::new();
    let mut m = FreeMap::new();
    e.remap_free_vars(&mut bound, &mut m);
    assert!(bound.contains(&id("n")));
    assert_eq!(m.len(), 1);
    assert!(m.get(&id("n")).is_none());
    match &e {
        LiaExpr::Closure(_, body) => match &body[0] {
            LiaStmt::Return(LiaExpr::BinOp(_, l, r)) => {
                assert_eq!(var_name(l), "n");
                assert_eq!(var_name(r), "_copyk");
            },
            _ => panic!("shape changed"),
        },
        _ => panic!("shape changed"),
    }
}

#[test]
fn nested_capture_gets_one_alias() {
    // x; (function() { (function() { x; })(); })
    let inner = LiaExpr::Closure(vec![], vec![LiaStmt::Expr(var("x"))]);
    let outer = LiaExpr::Closure(
        vec![],
        vec![LiaStmt::Expr(var("x")), LiaStmt::Expr(LiaExpr::Call(Box::new(inner), vec![]))],
    );
    let mut st = LiaStmt::Expr(outer);
    let m = st.remap_free_vars();
    assert_eq!(m.len(), 1);
    assert_eq!(m.get(&id("x")).unwrap().as_str(), "_copyx");
}

#[test]
fn distinct_free_variables_get_distinct_aliases() {
    let mut st = LiaStmt::Expr(LiaExpr::Call(Box::new(var("f")), vec![var("a"), var("b")]));
    let m = st.remap_free_vars();
    assert_eq!(m.len(), 3);
    let f = m.get(&id("f")).unwrap();
    let a = m.get(&id("a")).unwrap();
    let b = m.get(&id("b")).unwrap();
    assert_ne!(f.as_str(), a.as_str());
    assert_ne!(a.as_str(), b.as_str());
    assert_ne!(f.as_str(), b.as_str());
}

#[test]
fn closed_statement_elaborates_to_empty_map() {
    // while (i < 3) { var j; j = i; }, with i declared by a foreach
    let mut st = LiaStmt::ForObj(
        id("i"),
        LiaExpr::Object(vec![]),
        vec![
            LiaStmt::Declare(id("j")),
            LiaStmt::Assign(var("j"), var("i")),
            LiaStmt::While(
                LiaExpr::BinOp(LiaOp::Lt, Box::new(var("j")), Box::new(LiaExpr::Integer(3))),
                vec![],
            ),
        ],
    );
    let m = st.remap_free_vars();
    assert_eq!(m.len(), 0);
    let m2 = st.remap_free_vars();
    assert_eq!(m2.len(), 0);
    match &st {
        LiaStmt::ForObj(k, _, body) => {
            assert_eq!(k.as_str(), "i");
            match &body[1] {
                LiaStmt::Assign(l, r) => {
                    assert_eq!(var_name(l), "j");
                    assert_eq!(var_name(r), "i");
                },
                _ => panic!("shape changed"),
            }
        },
        _ => panic!("shape changed"),
    }
}

#[test]
fn declaration_in_branch_binds_later_statements() {
    let mut st = LiaStmt::If(
        LiaExpr::Bool(true),
        vec![LiaStmt::Declare(id("t"))],
        Some(vec![LiaStmt::Expr(var("t")), LiaStmt::Expr(var("u"))]),
    );
    let m = st.remap_free_vars();
    assert_eq!(m.len(), 1);
    assert!(m.get(&id("u")).is_some());
}

#[test]
fn integer_arithmetic() {
    let r = apply_op(LiaOp::Mul, &LiaAny::Int(6), &LiaAny::Int(-7)).unwrap();
    assert_eq!(r.as_int().unwrap(), -42);
    let r = apply_op(LiaOp::Div, &LiaAny::Int(-7), &LiaAny::Int(2)).unwrap();
    assert_eq!(r.as_int().unwrap(), -3);
    let r = apply_op(LiaOp::Sub, &LiaAny::Int(1), &LiaAny::Int(3)).unwrap();
    assert_eq!(r.as_int().unwrap(), -2);
    let r = apply_op(LiaOp::Lt, &LiaAny::Int(1), &LiaAny::Int(3)).unwrap();
    assert_eq!(r.as_bool().unwrap(), true);
    let r = apply_op(LiaOp::Gt, &LiaAny::Int(1), &LiaAny::Int(3)).unwrap();
    assert_eq!(r.as_bool().unwrap(), false);
}

#[test]
fn arithmetic_errors() {
    assert!(matches!(
        apply_op(LiaOp::Add, &LiaAny::Int(i32::MAX), &LiaAny::Int(1)),
        Err(LiaError::Overflow)
    ));
    assert!(matches!(
        apply_op(LiaOp::Div, &LiaAny::Int(i32::MIN), &LiaAny::Int(-1)),
        Err(LiaError::Overflow)
    ));
    assert!(matches!(
        apply_op(LiaOp::Div, &LiaAny::Int(1), &LiaAny::Int(0)),
        Err(LiaError::DivideByZero)
    ));
    assert!(matches!(
        apply_op(LiaOp::Lt, &LiaAny::Str("a".to_string()), &LiaAny::Str("b".to_string())),
        Err(LiaError::TypeMismatch)
    ));
}

#[test]
fn string_concatenation_and_equality() {
    let r = apply_op(LiaOp::Add, &LiaAny::Str("ab".to_string()), &LiaAny::Str("cd".to_string()));
    assert_eq!(r.unwrap().as_string().unwrap(), "abcd");
    let r = apply_op(LiaOp::Eq, &LiaAny::Str("ab".to_string()), &LiaAny::Str("ab".to_string()));
    assert_eq!(r.unwrap().as_bool().unwrap(), true);
    let r = apply_op(LiaOp::Eq, &LiaAny::Object(0), &LiaAny::Object(1));
    assert_eq!(r.unwrap().as_bool().unwrap(), false);
}

#[test]
fn casts_fail_on_other_tags() {
    assert!(matches!(LiaAny::Bool(true).as_int(), Err(LiaError::CastError)));
    assert!(matches!(LiaAny::Int(1).as_string(), Err(LiaError::CastError)));
    assert!(matches!(LiaAny::Undefined.as_bool(), Err(LiaError::CastError)));
}

#[test]
fn external_fun_adds_one() {
    assert_eq!(_lia_external_fun(vec![LiaAny::Int(3)]).unwrap().as_int().unwrap(), 4);
    assert!(matches!(_lia_external_fun(vec![]), Err(LiaError::ArityMismatch)));
    assert!(matches!(_lia_external_fun(vec![LiaAny::Bool(true)]), Err(LiaError::CastError)));
    assert!(matches!(_lia_external_fun(vec![LiaAny::Int(i32::MAX)]), Err(LiaError::Overflow)));
}

#[test]
fn object_keys_keep_insertion_order() {
    let mut h = Heap::new();
    let o = h.alloc_object();
    h.object_set(o, "foo".to_string(), LiaAny::Int(1)).unwrap();
    h.object_set(o, "bar".to_string(), LiaAny::Int(2)).unwrap();
    h.object_set(o, "foo".to_string(), LiaAny::Int(3)).unwrap();
    let ks = h.object_keys(o).unwrap();
    assert_eq!(ks, vec!["foo".to_string(), "bar".to_string()]);
    assert_eq!(h.object_get(o, &"foo".to_string()).unwrap().as_int().unwrap(), 3);
    assert!(matches!(h.object_get(o, &"baz".to_string()), Err(LiaError::KeyNotFound)));
    assert!(matches!(h.object_get(o + 1, &"foo".to_string()), Err(LiaError::DanglingReference)));
}

#[test]
fn env_lookup_finds_last_binding() {
    let mut env = Env::new();
    env.bind(id("x"), 0);
    env.bind(id("y"), 1);
    env.bind(id("x"), 2);
    assert_eq!(env.lookup(&id("x")), Some(2));
    assert_eq!(env.lookup(&id("y")), Some(1));
    assert_eq!(env.lookup(&id("z")), None);
}

#[test]
fn function_parameters_start_bound() {
    let mut fns = parse_program("function f(a) { return a + b; }").unwrap();
    let m = fns[0].remap_free_vars();
    assert_eq!(m.len(), 1);
    assert_eq!(m.get(&id("b")).unwrap().as_str(), "_copyb");
    assert!(m.get(&id("a")).is_none());
}

#[test]
fn recursive_closure_names_itself_as_free() {
    let src = "function fib_test(n) {
        var fib_fn = function(n) {
            if (n == 0) { return 0; }
            return fib_fn(n - 1);
        };
        return fib_fn(n);
    }";
    let mut fns = parse_program(src).unwrap();
    // Within the whole function, every name is bound.
    let m = fns[0].remap_free_vars();
    assert_eq!(m.len(), 0);
    // The closure body on its own refers to `fib_fn` as a free variable.
    let mut closure = match &mut fns[0].body[1] {
        LiaStmt::Assign(_, e) => std::mem::replace(e, LiaExpr::Bool(false)),
        _ => panic!("wrong tree"),
    };
    let mut bound = BoundSet::new();
    let mut m = FreeMap::new();
    closure.remap_free_vars(&mut bound, &mut m);
    assert_eq!(m.len(), 1);
    assert_eq!(m.get(&id("fib_fn")).unwrap().as_str(), "_copyfib_fn");
}

#[test]
fn nested_property_access_is_walked() {
    // return x.foo.bar; with x free
    let mut st = LiaStmt::Return(LiaExpr::Index(
        Box::new(LiaExpr::Index(Box::new(var("x")), Box::new(LiaExpr::String("foo".to_string())))),
        Box::new(LiaExpr::String("bar".to_string())),
    ));
    let m = st.remap_free_vars();
    assert_eq!(m.len(), 1);
    assert_eq!(m.get(&id("x")).unwrap().as_str(), "_copyx");
    match &st {
        LiaStmt::Return(LiaExpr::Index(inner, k)) => {
            assert!(matches!(&**k, LiaExpr::String(s) if s == "bar"));
            match &**inner {
                LiaExpr::Index(b, k2) => {
                    assert_eq!(var_name(b), "_copyx");
                    assert!(matches!(&**k2, LiaExpr::String(s) if s == "foo"));
                },
                _ => panic!("shape changed"),
            }
        },
        _ => panic!("shape changed"),
    }
}

#[test]
fn foreach_body_index_is_renamed() {
    // for (var y : x) { z = z + x[y]; }
    let mut st = LiaStmt::ForObj(
        id("y"),
        var("x"),
        vec![LiaStmt::Assign(
            var("z"),
            LiaExpr::BinOp(
                LiaOp::Add,
                Box::new(var("z")),
                Box::new(LiaExpr::Index(Box::new(var("x")), Box::new(var("y")))),
            ),
        )],
    );
    let m = st.remap_free_vars();
    assert_eq!(m.len(), 2);
    assert!(m.get(&id("y")).is_none());
    match &st {
        LiaStmt::ForObj(_, _, body) => match &body[0] {
            LiaStmt::Assign(_, LiaExpr::BinOp(_, _, r)) => match &**r {
                LiaExpr::Index(b, k) => {
                    assert_eq!(var_name(b), "_copyx");
                    assert_eq!(var_name(k), "y");
                },
                _ => panic!("shape changed"),
            },
            _ => panic!("shape changed"),
        },
        _ => panic!("shape changed"),
    }
}

#[test]
fn object_and_array_literals_are_walked() {
    // {a: v, "b": [w, function(p) { return p; }]}
    let mut e = LiaExpr::Object(vec![
        (LiaExpr::String("a".to_string()), var("v")),
        (
            LiaExpr::String("b".to_string()),
            LiaExpr::Array(vec![
                var("w"),
                LiaExpr::Closure(vec![id("p")], vec![LiaStmt::Return(var("p"))]),
            ]),
        ),
    ]);
    let mut bound = BoundSet::new();
    let mut m = FreeMap::new();
    e.remap_free_vars(&mut bound, &mut m);
    assert_eq!(m.len(), 2);
    assert!(bound.contains(&id("p")));
    assert!(m.get(&id("p")).is_none());
    match &e {
        LiaExpr::Object(entries) => {
            assert_eq!(var_name(&entries[0].1), "_copyv");
            match &entries[1].1 {
                LiaExpr::Array(items) => assert_eq!(var_name(&items[0]), "_copyw"),
                _ => panic!("shape changed"),
            }
        },
        _ => panic!("shape changed"),
    }
}
