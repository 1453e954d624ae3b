use vstd::prelude::*;
use crate::ident::Ident;
use crate::ast::{LiaExpr, LiaStmt, LiaFn, duplicate_idents, duplicate_stmts};
use crate::runtime::{LiaAny, LiaError, Env, Heap, ClosureData, NativeTable, apply_op, op_result};

verus! {

/// How a statement finished: on to the next one, or out of the function with
/// a value.
pub enum Flow {
    Normal,
    Return(LiaAny),
}

/// A program's top-level functions together with the heap they run on.
///
/// Every evaluation step takes a `fuel` budget: nested evaluation and each
/// loop iteration spend it, and running out ends the call with `OutOfFuel`.
pub struct Interp {
    pub heap: Heap,
    pub functions: Vec<LiaFn>,
}

impl Interp {
    pub fn new(functions: Vec<LiaFn>) -> (r: Interp)
        ensures
            r.heap.wf(),
            r.functions == functions,
            r.heap.cells@.len() == 0,
            r.heap.objects@.len() == 0,
            r.heap.arrays@.len() == 0,
            r.heap.closures@.len() == 0,
    {
        Interp { heap: Heap::new(), functions }
    }

    /// The position of the top-level function called `name`.
    pub fn find_function(&self, name: &Ident) -> (r: Option<usize>)
        ensures
            match r {
                Some(i) => i < self.functions@.len() && self.functions@[i as int].name@ == name@
                    && forall|j: int| 0 <= j < i ==> self.functions@[j].name@ != name@,
                None => forall|i: int|
                    0 <= i < self.functions@.len() ==> self.functions@[i].name@ != name@,
            },
    {
        let mut i: usize = 0;
        while i < self.functions.len()
            invariant
                i <= self.functions@.len(),
                forall|j: int| 0 <= j < i ==> self.functions@[j].name@ != name@,
            decreases self.functions@.len() - i,
        {
            if self.functions[i].name.same(name) {
                return Some(i);
            }
            i = i + 1;
        }
        None
    }

    /// Calls the top-level function `name` with `args`.
    pub fn call<N: NativeTable>(&mut self, name: &str, args: Vec<LiaAny>, natives: &N, fuel: u64) -> (r: Result<LiaAny, LiaError>)
        requires
            old(self).heap.wf(),
        ensures
            final(self).heap.wf(),
            (forall|i: int|
                0 <= i < old(self).functions@.len() ==> old(self).functions@[i].name@ != name@)
                ==> r == Err::<LiaAny, LiaError>(LiaError::Unbound),
            fuel == 0 ==> r is Err,
            forall|i: int|
                0 <= i < old(self).functions@.len() && old(self).functions@[i].name@ == name@
                    && (forall|j: int| 0 <= j < i ==> old(self).functions@[j].name@ != name@)
                    ==> {
                    let f = #[trigger] old(self).functions@[i];
                    &&& fuel > 0 && args@.len() != f.args@.len() ==> r == Err::<LiaAny, LiaError>(
                        LiaError::ArityMismatch,
                    )
                    &&& args@.len() == f.args@.len() && f.body@.len() == 0 && fuel > 1 ==> r
                        == Ok::<LiaAny, LiaError>(LiaAny::Undefined)
                },
    {
        let id = Ident::new(name);
        match self.find_function(&id) {
            Some(i) => self.invoke(LiaAny::Func(i), args, natives, fuel),
            None => Err(LiaError::Unbound),
        }
    }

    /// `base[key]`: a string key of an object or an integer position of an
    /// array.
    pub fn index(&self, base: &LiaAny, key: &LiaAny) -> (r: Result<LiaAny, LiaError>)
        ensures
            match (*base, *key) {
                (LiaAny::Object(o), LiaAny::Str(k)) => o < self.heap.objects@.len() ==> match r {
                    Ok(v) => exists|i: int|
                        crate::runtime::key_at(self.heap.objects@[o as int]@, k@, i)
                            && self.heap.objects@[o as int]@[i].1 == v,
                    Err(e) => e == LiaError::KeyNotFound && !crate::runtime::has_key(
                        self.heap.objects@[o as int]@,
                        k@,
                    ),
                },
                (LiaAny::Array(a), LiaAny::Int(i)) => a < self.heap.arrays@.len() ==> if 0 <= i
                    < self.heap.arrays@[a as int]@.len() {
                    r == Ok::<LiaAny, LiaError>(self.heap.arrays@[a as int]@[i as int])
                } else {
                    r == Err::<LiaAny, LiaError>(LiaError::IndexOutOfRange)
                },
                _ => r == Err::<LiaAny, LiaError>(LiaError::TypeMismatch),
            },
    {
        match (base, key) {
            (LiaAny::Object(o), LiaAny::Str(k)) => self.heap.object_get(*o, k),
            (LiaAny::Array(a), LiaAny::Int(i)) => self.heap.array_get(*a, *i),
            _ => Err(LiaError::TypeMismatch),
        }
    }

    /// Calls a closure, a top-level function or a native with `args`, each
    /// bound to a fresh cell of the callee's scope.
    #[verifier::loop_isolation(false)]
    pub fn invoke<N: NativeTable>(&mut self, callee: LiaAny, args: Vec<LiaAny>, natives: &N, fuel: u64) -> (r: Result<LiaAny, LiaError>)
        requires
            old(self).heap.wf(),
        ensures
            final(self).heap.wf(),
            fuel == 0 ==> r == Err::<LiaAny, LiaError>(LiaError::OutOfFuel),
            fuel > 0 ==> match callee {
                LiaAny::Closure(k) => if k >= old(self).heap.closures@.len() {
                    r == Err::<LiaAny, LiaError>(LiaError::DanglingReference)
                } else {
                    let c = old(self).heap.closures@[k as int];
                    &&& args@.len() != c.params@.len() ==> r == Err::<LiaAny, LiaError>(
                        LiaError::ArityMismatch,
                    )
                    &&& args@.len() == c.params@.len() && c.body@.len() == 0 && fuel > 1 ==> r
                        == Ok::<LiaAny, LiaError>(LiaAny::Undefined)
                },
                LiaAny::Func(i) => if i >= old(self).functions@.len() {
                    r == Err::<LiaAny, LiaError>(LiaError::DanglingReference)
                } else {
                    let f = old(self).functions@[i as int];
                    &&& args@.len() != f.args@.len() ==> r == Err::<LiaAny, LiaError>(
                        LiaError::ArityMismatch,
                    )
                    &&& args@.len() == f.args@.len() && f.body@.len() == 0 && fuel > 1 ==> r
                        == Ok::<LiaAny, LiaError>(LiaAny::Undefined)
                },
                LiaAny::Native(_) => true,
                _ => r == Err::<LiaAny, LiaError>(LiaError::NotCallable),
            },
        decreases fuel,
    {
        if fuel == 0 {
            return Err(LiaError::OutOfFuel);
        }
        let (params, body, mut env) = match callee {
            LiaAny::Closure(k) => {
                if k >= self.heap.closures.len() {
                    return Err(LiaError::DanglingReference);
                }
                let c = &self.heap.closures[k];
                (duplicate_idents(&c.params), duplicate_stmts(&c.body), c.env.share())
            },
            LiaAny::Func(i) => {
                if i >= self.functions.len() {
                    return Err(LiaError::DanglingReference);
                }
                let f = &self.functions[i];
                (duplicate_idents(&f.args), duplicate_stmts(&f.body), Env::new())
            },
            LiaAny::Native(name) => {
                return natives.call_native(&name, args);
            },
            _ => {
                return Err(LiaError::NotCallable);
            },
        };
        if params.len() != args.len() {
            return Err(LiaError::ArityMismatch);
        }
        let mut i: usize = 0;
        while i < params.len()
            invariant
                self.heap.wf(),
                i <= params@.len(),
                params@.len() == args@.len(),
            decreases params@.len() - i,
        {
            let c = self.heap.alloc_cell(args[i].copy());
            env.bind(params[i].duplicate(), c);
            i = i + 1;
        }
        match self.exec_block(&body, &mut env, natives, fuel - 1) {
            Ok(Flow::Return(v)) => Ok(v),
            Ok(Flow::Normal) => Ok(LiaAny::Undefined),
            Err(e) => Err(e),
        }
    }

    /// Evaluates an expression.
    #[verifier::loop_isolation(false)]
    pub fn eval<N: NativeTable>(&mut self, e: &LiaExpr, env: &Env, natives: &N, fuel: u64) -> (r: Result<LiaAny, LiaError>)
        requires
            old(self).heap.wf(),
        ensures
            final(self).heap.wf(),
            fuel == 0 ==> r == Err::<LiaAny, LiaError>(LiaError::OutOfFuel),
            fuel > 0 ==> match *e {
                LiaExpr::Integer(n) => r == Ok::<LiaAny, LiaError>(LiaAny::Int(n))
                    && final(self).heap.cells == old(self).heap.cells,
                LiaExpr::Bool(b) => r == Ok::<LiaAny, LiaError>(LiaAny::Bool(b)),
                LiaExpr::String(s) => r matches Ok(LiaAny::Str(t)) && t@ == s@,
                LiaExpr::Var(id) => match env.lookup_spec(id@) {
                    Some(c) => c < old(self).heap.cells@.len() ==> r == Ok::<LiaAny, LiaError>(
                        old(self).heap.cells@[c as int],
                    ) && final(self).heap.cells == old(self).heap.cells,
                    None => (forall|i: int|
                        0 <= i < old(self).functions@.len() ==> old(self).functions@[i].name@
                            != id@) ==> r == Err::<LiaAny, LiaError>(LiaError::Unbound),
                },
                LiaExpr::BinOp(op, l, rr) => fuel > 1 && (*l is Integer) && (*rr is Integer) ==> op_result(
                    op,
                    LiaAny::Int(l->Integer_0),
                    LiaAny::Int(rr->Integer_0),
                    r,
                ),
                LiaExpr::Array(items) => fuel > 2 && (forall|i: int|
                    0 <= i < items@.len() ==> (#[trigger] items@[i] is Integer)) ==> (r matches Ok(
                    LiaAny::Array(a),
                ) && a < final(self).heap.arrays@.len() && final(self).heap.arrays@[a as int]@.len()
                    == items@.len() && forall|i: int|
                    0 <= i < items@.len() ==> final(self).heap.arrays@[a as int]@[i] == LiaAny::Int(
                        items@[i]->Integer_0,
                    )),
                LiaExpr::RsVar(path) => path@.len() > 0 ==> (r matches Ok(LiaAny::Native(n))
                    && n == path@.last()),
                LiaExpr::Quote(_) => r == Err::<LiaAny, LiaError>(LiaError::Quoted),
                LiaExpr::Closure(_, _) => r matches Ok(LiaAny::Closure(k)) && k
                    < final(self).heap.closures@.len() && final(self).heap.closures@[k as int].env.slots@
                    == env.slots@,
                _ => true,
            },
        decreases fuel,
    {
        if fuel == 0 {
            return Err(LiaError::OutOfFuel);
        }
        let f = fuel - 1;
        match e {
            LiaExpr::Integer(n) => Ok(LiaAny::Int(*n)),
            LiaExpr::String(s) => Ok(LiaAny::Str(s.clone())),
            LiaExpr::Bool(b) => Ok(LiaAny::Bool(*b)),
            LiaExpr::Var(id) => match env.lookup(id) {
                Some(c) => self.heap.read_cell(c),
                None => match self.find_function(id) {
                    Some(i) => Ok(LiaAny::Func(i)),
                    None => Err(LiaError::Unbound),
                },
            },
            LiaExpr::RsVar(path) => {
                if path.len() == 0 {
                    Err(LiaError::Unbound)
                } else {
                    Ok(LiaAny::Native(path[path.len() - 1].duplicate()))
                }
            },
            LiaExpr::BinOp(op, l, r) => {
                let a = self.eval(l, env, natives, f)?;
                let b = self.eval(r, env, natives, f)?;
                apply_op(*op, &a, &b)
            },
            LiaExpr::Call(callee, args) => {
                let c = self.eval(callee, env, natives, f)?;
                let vs = self.eval_list(args, env, natives, f)?;
                self.invoke(c, vs, natives, f)
            },
            LiaExpr::Closure(ps, body) => {
                let data = ClosureData {
                    params: duplicate_idents(ps),
                    body: duplicate_stmts(body),
                    env: env.share(),
                };
                let k = self.heap.alloc_closure(data);
                Ok(LiaAny::Closure(k))
            },
            LiaExpr::Object(entries) => {
                let o = self.heap.alloc_object();
                let mut i: usize = 0;
                while i < entries.len()
                    invariant
                        self.heap.wf(),
                        i <= entries@.len(),
                    decreases entries@.len() - i,
                {
                    let k = self.eval(&entries[i].0, env, natives, f)?;
                    let key = match k {
                        LiaAny::Str(s) => s,
                        _ => {
                            return Err(LiaError::TypeMismatch);
                        },
                    };
                    let v = self.eval(&entries[i].1, env, natives, f)?;
                    self.heap.object_set(o, key, v)?;
                    i = i + 1;
                }
                Ok(LiaAny::Object(o))
            },
            LiaExpr::Index(b, k) => {
                let base = self.eval(b, env, natives, f)?;
                let key = self.eval(k, env, natives, f)?;
                self.index(&base, &key)
            },
            LiaExpr::Array(items) => {
                let vs = self.eval_list(items, env, natives, f)?;
                let a = self.heap.alloc_array(vs);
                Ok(LiaAny::Array(a))
            },
            LiaExpr::Quote(_) => Err(LiaError::Quoted),
        }
    }

    /// Evaluates expressions left to right.
    #[verifier::loop_isolation(false)]
    pub fn eval_list<N: NativeTable>(&mut self, es: &Vec<LiaExpr>, env: &Env, natives: &N, fuel: u64) -> (r: Result<Vec<LiaAny>, LiaError>)
        requires
            old(self).heap.wf(),
        ensures
            final(self).heap.wf(),
            fuel == 0 ==> r == Err::<Vec<LiaAny>, LiaError>(LiaError::OutOfFuel),
            r matches Ok(vs) ==> vs@.len() == es@.len(),
            fuel > 1 && (forall|i: int| 0 <= i < es@.len() ==> (#[trigger] es@[i] is Integer)) ==> (
            r matches Ok(vs) && vs@.len() == es@.len() && forall|i: int|
                0 <= i < es@.len() ==> vs@[i] == LiaAny::Int(es@[i]->Integer_0)),
        decreases fuel,
    {
        if fuel == 0 {
            return Err(LiaError::OutOfFuel);
        }
        let mut out: Vec<LiaAny> = Vec::new();
        let mut i: usize = 0;
        while i < es.len()
            invariant
                self.heap.wf(),
                i <= es@.len(),
                out@.len() == i,
                fuel > 1 && (forall|j: int| 0 <= j < es@.len() ==> (#[trigger] es@[j] is Integer))
                    ==> forall|j: int| 0 <= j < i ==> out@[j] == LiaAny::Int(es@[j]->Integer_0),
            decreases es@.len() - i,
        {
            let v = self.eval(&es[i], env, natives, fuel - 1)?;
            out.push(v);
            i = i + 1;
        }
        Ok(out)
    }

    /// Stores `v` into what `target` names: a variable's cell, an object's
    /// key or an array's element.
    pub fn assign<N: NativeTable>(&mut self, target: &LiaExpr, v: LiaAny, env: &Env, natives: &N, fuel: u64) -> (r: Result<(), LiaError>)
        requires
            old(self).heap.wf(),
        ensures
            final(self).heap.wf(),
            fuel == 0 ==> r == Err::<(), LiaError>(LiaError::OutOfFuel),
            fuel > 0 ==> match *target {
                LiaExpr::Var(id) => match env.lookup_spec(id@) {
                    Some(c) => c < old(self).heap.cells@.len() ==> r is Ok && final(self).heap.cells@
                        == old(self).heap.cells@.update(c as int, v),
                    None => r == Err::<(), LiaError>(LiaError::Unbound),
                },
                LiaExpr::Index(_, _) => true,
                _ => r == Err::<(), LiaError>(LiaError::InvalidTarget),
            },
        decreases fuel,
    {
        if fuel == 0 {
            return Err(LiaError::OutOfFuel);
        }
        match target {
            LiaExpr::Var(id) => match env.lookup(id) {
                Some(c) => self.heap.write_cell(c, v),
                None => Err(LiaError::Unbound),
            },
            LiaExpr::Index(b, k) => {
                let base = self.eval(b, env, natives, fuel - 1)?;
                let key = self.eval(k, env, natives, fuel - 1)?;
                match (base, key) {
                    (LiaAny::Object(o), LiaAny::Str(s)) => self.heap.object_set(o, s, v),
                    (LiaAny::Array(a), LiaAny::Int(i)) => self.heap.array_set(a, i, v),
                    _ => Err(LiaError::TypeMismatch),
                }
            },
            _ => Err(LiaError::InvalidTarget),
        }
    }

    /// Runs statements in order until one returns; names declared among them
    /// go out of scope at the end.
    #[verifier::loop_isolation(false)]
    pub fn exec_block<N: NativeTable>(&mut self, stmts: &Vec<LiaStmt>, env: &mut Env, natives: &N, fuel: u64) -> (r: Result<Flow, LiaError>)
        requires
            old(self).heap.wf(),
        ensures
            final(self).heap.wf(),
            fuel == 0 ==> r == Err::<Flow, LiaError>(LiaError::OutOfFuel),
            fuel > 0 && stmts@.len() == 0 ==> r == Ok::<Flow, LiaError>(Flow::Normal),
            final(env).slots@ == old(env).slots@,
        decreases fuel,
    {
        if fuel == 0 {
            return Err(LiaError::OutOfFuel);
        }
        let ghost start = env.slots@;
        let mark = env.slots.len();
        let mut i: usize = 0;
        while i < stmts.len()
            invariant
                self.heap.wf(),
                i <= stmts@.len(),
                mark == start.len(),
                env.slots@.len() >= mark,
                env.slots@.subrange(0, mark as int) == start,
            decreases stmts@.len() - i,
        {
            let ghost before = env.slots@;
            let res = self.exec(&stmts[i], env, natives, fuel - 1);
            assert(env.slots@.subrange(0, mark as int) =~= before.subrange(0, mark as int));
            let flow = match res {
                Ok(flow) => flow,
                Err(e) => {
                    env.slots.truncate(mark);
                    assert(env.slots@ =~= start);
                    return Err(e);
                },
            };
            match flow {
                Flow::Normal => {},
                Flow::Return(v) => {
                    env.slots.truncate(mark);
                    assert(env.slots@ =~= start);
                    return Ok(Flow::Return(v));
                },
            }
            i = i + 1;
        }
        env.slots.truncate(mark);
        assert(env.slots@ =~= start);
        Ok(Flow::Normal)
    }

    /// Runs one statement.
    #[verifier::loop_isolation(false)]
    pub fn exec<N: NativeTable>(&mut self, st: &LiaStmt, env: &mut Env, natives: &N, fuel: u64) -> (r: Result<Flow, LiaError>)
        requires
            old(self).heap.wf(),
        ensures
            final(self).heap.wf(),
            fuel == 0 ==> r == Err::<Flow, LiaError>(LiaError::OutOfFuel),
            final(env).slots@.len() >= old(env).slots@.len(),
            final(env).slots@.subrange(0, old(env).slots@.len() as int) == old(env).slots@,
            fuel > 0 ==> match *st {
                LiaStmt::Declare(id) => r == Ok::<Flow, LiaError>(Flow::Normal)
                    && final(env).slots@ == old(env).slots@.push(
                    (id, old(self).heap.cells@.len() as usize),
                ) && final(self).heap.cells@ == old(self).heap.cells@.push(LiaAny::Undefined),
                _ => true,
            },
            fuel > 1 ==> match *st {
                LiaStmt::Return(LiaExpr::Integer(n)) => r == Ok::<Flow, LiaError>(
                    Flow::Return(LiaAny::Int(n)),
                ),
                LiaStmt::If(LiaExpr::Bool(false), _, None) => r == Ok::<Flow, LiaError>(
                    Flow::Normal,
                ),
                LiaStmt::If(LiaExpr::Integer(_), _, _) => r == Err::<Flow, LiaError>(
                    LiaError::TypeMismatch,
                ),
                LiaStmt::While(LiaExpr::Bool(false), _) => r == Ok::<Flow, LiaError>(Flow::Normal),
                LiaStmt::While(LiaExpr::Integer(_), _) => r == Err::<Flow, LiaError>(
                    LiaError::TypeMismatch,
                ),
                LiaStmt::Assign(LiaExpr::Var(y), LiaExpr::Integer(n)) => match old(env).lookup_spec(
                    y@,
                ) {
                    Some(cy) => cy < old(self).heap.cells@.len() ==> r == Ok::<Flow, LiaError>(
                        Flow::Normal,
                    ) && final(self).heap.cells@ == old(self).heap.cells@.update(
                        cy as int,
                        LiaAny::Int(n),
                    ),
                    None => r == Err::<Flow, LiaError>(LiaError::Unbound),
                },
                LiaStmt::Assign(LiaExpr::Var(y), LiaExpr::Var(x)) => match (
                    old(env).lookup_spec(x@),
                    old(env).lookup_spec(y@),
                ) {
                    (Some(cx), Some(cy)) => cx < old(self).heap.cells@.len() && cy < old(
                        self,
                    ).heap.cells@.len() ==> r == Ok::<Flow, LiaError>(Flow::Normal)
                        && final(self).heap.cells@ == old(self).heap.cells@.update(
                        cy as int,
                        old(self).heap.cells@[cx as int],
                    ),
                    _ => true,
                },
                _ => true,
            },
        decreases fuel,
    {
        if fuel == 0 {
            return Err(LiaError::OutOfFuel);
        }
        let f = fuel - 1;
        match st {
            LiaStmt::Declare(id) => {
                let c = self.heap.alloc_cell(LiaAny::Undefined);
                env.bind(id.duplicate(), c);
                assert(env.slots@.subrange(0, old(env).slots@.len() as int) =~= old(env).slots@);
                Ok(Flow::Normal)
            },
            LiaStmt::Assign(target, e) => {
                let v = self.eval(e, env, natives, f)?;
                self.assign(target, v, env, natives, f)?;
                Ok(Flow::Normal)
            },
            LiaStmt::Return(e) => {
                let v = self.eval(e, env, natives, f)?;
                Ok(Flow::Return(v))
            },
            LiaStmt::Expr(e) => {
                self.eval(e, env, natives, f)?;
                Ok(Flow::Normal)
            },
            LiaStmt::If(g, t, el) => {
                let c = self.eval(g, env, natives, f)?;
                match c {
                    LiaAny::Bool(true) => self.exec_block(t, env, natives, f),
                    LiaAny::Bool(false) => match el {
                        Some(v) => self.exec_block(v, env, natives, f),
                        None => Ok(Flow::Normal),
                    },
                    _ => Err(LiaError::TypeMismatch),
                }
            },
            LiaStmt::While(g, body) => {
                let mut budget: u64 = f;
                loop
                    invariant
                        self.heap.wf(),
                        env.slots@ == old(env).slots@,
                        (*g is Integer || *g == LiaExpr::Bool(false)) ==> budget == f,
                    decreases budget,
                {
                    if budget == 0 {
                        return Err(LiaError::OutOfFuel);
                    }
                    budget = budget - 1;
                    let c = self.eval(g, env, natives, f)?;
                    match c {
                        LiaAny::Bool(true) => {},
                        LiaAny::Bool(false) => {
                            return Ok(Flow::Normal);
                        },
                        _ => {
                            return Err(LiaError::TypeMismatch);
                        },
                    }
                    match self.exec_block(body, env, natives, f)? {
                        Flow::Normal => {},
                        Flow::Return(v) => {
                            return Ok(Flow::Return(v));
                        },
                    }
                }
            },
            LiaStmt::ForObj(id, e, body) => {
                let v = self.eval(e, env, natives, f)?;
                let o = match v {
                    LiaAny::Object(o) => o,
                    _ => {
                        return Err(LiaError::TypeMismatch);
                    },
                };
                let keys = self.heap.object_keys(o)?;
                let c = self.heap.alloc_cell(LiaAny::Undefined);
                env.bind(id.duplicate(), c);
                let ghost bound = env.slots@;
                assert(bound.subrange(0, old(env).slots@.len() as int) =~= old(env).slots@);
                let mut i: usize = 0;
                while i < keys.len()
                    invariant
                        self.heap.wf(),
                        i <= keys@.len(),
                        env.slots@ == bound,
                    decreases keys@.len() - i,
                {
                    self.heap.write_cell(c, LiaAny::Str(keys[i].clone()))?;
                    match self.exec_block(body, env, natives, f)? {
                        Flow::Normal => {},
                        Flow::Return(v) => {
                            return Ok(Flow::Return(v));
                        },
                    }
                    i = i + 1;
                }
                Ok(Flow::Normal)
            },
        }
    }
}

/// Copy on assignment: `exec` of `y = x` turns the cells `c0` into `c1`
/// (`y`'s cell updated with `x`'s value), and `exec` of `y = n` turns `c1`
/// into `c2`. When `x` and `y` name different cells, `x`'s cell in `c2` still
/// holds what it held in `c0`, while `y` received a copy of it in `c1`.
pub proof fn lemma_copy_then_overwrite(env: Env, c0: Seq<LiaAny>, c1: Seq<LiaAny>, c2: Seq<LiaAny>, x: Seq<char>, y: Seq<char>, n: i32)
    requires
        env.lookup_spec(x) is Some,
        env.lookup_spec(y) is Some,
        env.lookup_spec(x) != env.lookup_spec(y),
        env.lookup_spec(x)->0 < c0.len(),
        env.lookup_spec(y)->0 < c0.len(),
        c1 == c0.update(env.lookup_spec(y)->0 as int, c0[env.lookup_spec(x)->0 as int]),
        c2 == c1.update(env.lookup_spec(y)->0 as int, LiaAny::Int(n)),
    ensures
        c1[env.lookup_spec(y)->0 as int] == c0[env.lookup_spec(x)->0 as int],
        c2[env.lookup_spec(x)->0 as int] == c0[env.lookup_spec(x)->0 as int],
{
}

/// Share on assignment: when `x` holds an object, `exec` of `y = x` (cells
/// `c0` to `c1`) leaves both naming that same object, so a change made to it
/// through `y` (`object_set` on it) is read through `x`.
pub proof fn lemma_assign_shares(env: Env, c0: Seq<LiaAny>, c1: Seq<LiaAny>, x: Seq<char>, y: Seq<char>, o: usize)
    requires
        env.lookup_spec(x) is Some,
        env.lookup_spec(y) is Some,
        env.lookup_spec(x)->0 < c0.len(),
        env.lookup_spec(y)->0 < c0.len(),
        c0[env.lookup_spec(x)->0 as int] == LiaAny::Object(o),
        c1 == c0.update(env.lookup_spec(y)->0 as int, c0[env.lookup_spec(x)->0 as int]),
    ensures
        c1[env.lookup_spec(y)->0 as int] == LiaAny::Object(o),
        c1[env.lookup_spec(x)->0 as int] == LiaAny::Object(o),
{
}

/// Capture by cell: a closure keeps the scope it was made in (see `eval`),
/// so each name in its body refers to the very cell that the name refers to
/// outside, and writes through either are seen through the other.
pub proof fn lemma_capture_shares_cells(outer: Env, captured: Env, k: Seq<char>)
    requires
        captured.slots@ == outer.slots@,
    ensures
        captured.lookup_spec(k) == outer.lookup_spec(k),
{
}

} // verus!
