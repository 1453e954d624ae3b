use vstd::prelude::*;
use crate::ident::Ident;
use crate::ast::{LiaOp, LiaStmt};

verus! {

/// A dynamic value. Integers, strings and booleans are held by value and
/// copied on assignment; objects, arrays and closures are references into a
/// `Heap`, so that assignment shares them.
#[derive(Debug)]
pub enum LiaAny {
    Undefined,
    Int(i32),
    Str(String),
    Bool(bool),
    Object(usize),
    Array(usize),
    Closure(usize),
    /// A top-level function of the program, by position.
    Func(usize),
    /// A function supplied by the host, by name.
    Native(Ident),
}

#[derive(Debug, PartialEq, Eq, Structural, Clone, Copy)]
pub enum LiaError {
    TypeMismatch,
    CastError,
    KeyNotFound,
    IndexOutOfRange,
    Overflow,
    DivideByZero,
    Unbound,
    NotCallable,
    ArityMismatch,
    InvalidTarget,
    DanglingReference,
    UnknownNative,
    /// Raw host code cannot be evaluated by this runtime.
    Quoted,
    OutOfFuel,
}

impl LiaAny {
    /// The value an assignment stores: primitives by value, references as the
    /// same reference.
    pub fn copy(&self) -> (r: LiaAny)
        ensures
            r == *self,
    {
        match self {
            LiaAny::Undefined => LiaAny::Undefined,
            LiaAny::Int(n) => LiaAny::Int(*n),
            LiaAny::Str(s) => LiaAny::Str(s.clone()),
            LiaAny::Bool(b) => LiaAny::Bool(*b),
            LiaAny::Object(o) => LiaAny::Object(*o),
            LiaAny::Array(a) => LiaAny::Array(*a),
            LiaAny::Closure(c) => LiaAny::Closure(*c),
            LiaAny::Func(f) => LiaAny::Func(*f),
            LiaAny::Native(id) => LiaAny::Native(id.duplicate()),
        }
    }

    pub fn as_int(&self) -> (r: Result<i32, LiaError>)
        ensures
            match *self {
                LiaAny::Int(n) => r == Ok::<i32, LiaError>(n),
                _ => r == Err::<i32, LiaError>(LiaError::CastError),
            },
    {
        match self {
            LiaAny::Int(n) => Ok(*n),
            _ => Err(LiaError::CastError),
        }
    }

    pub fn as_bool(&self) -> (r: Result<bool, LiaError>)
        ensures
            match *self {
                LiaAny::Bool(b) => r == Ok::<bool, LiaError>(b),
                _ => r == Err::<bool, LiaError>(LiaError::CastError),
            },
    {
        match self {
            LiaAny::Bool(b) => Ok(*b),
            _ => Err(LiaError::CastError),
        }
    }

    pub fn as_string(&self) -> (r: Result<String, LiaError>)
        ensures
            match *self {
                LiaAny::Str(s) => r matches Ok(t) && t@ == s@,
                _ => r == Err::<String, LiaError>(LiaError::CastError),
            },
    {
        match self {
            LiaAny::Str(s) => Ok(s.clone()),
            _ => Err(LiaError::CastError),
        }
    }
}

pub open spec fn fits_i32(n: int) -> bool {
    i32::MIN <= n <= i32::MAX
}

pub open spec fn int_op(op: LiaOp, x: int, y: int) -> Result<LiaAny, LiaError> {
    match op {
        LiaOp::Add => if fits_i32(x + y) {
            Ok(LiaAny::Int((x + y) as i32))
        } else {
            Err(LiaError::Overflow)
        },
        LiaOp::Sub => if fits_i32(x - y) {
            Ok(LiaAny::Int((x - y) as i32))
        } else {
            Err(LiaError::Overflow)
        },
        LiaOp::Mul => if fits_i32(x * y) {
            Ok(LiaAny::Int((x * y) as i32))
        } else {
            Err(LiaError::Overflow)
        },
        LiaOp::Div => if y == 0 {
            Err(LiaError::DivideByZero)
        } else if fits_i32(trunc_div(x, y)) {
            Ok(LiaAny::Int(trunc_div(x, y) as i32))
        } else {
            Err(LiaError::Overflow)
        },
        LiaOp::Eq => Ok(LiaAny::Bool(x == y)),
        LiaOp::Lt => Ok(LiaAny::Bool(x < y)),
        LiaOp::Gt => Ok(LiaAny::Bool(x > y)),
    }
}

/// Division rounded toward zero.
pub open spec fn trunc_div(x: int, y: int) -> int {
    let q = abs(x) / abs(y);
    if (x >= 0) == (y >= 0) {
        q
    } else {
        -q
    }
}

pub open spec fn abs(x: int) -> int {
    if x >= 0 {
        x
    } else {
        -x
    }
}

/// `r` is what the operator `op` gives on `a` and `b`: arithmetic and
/// ordering on integers, concatenation for `+` on strings, equality on any
/// two values of one tag (references compare by identity); anything else is
/// a type mismatch.
pub open spec fn op_result(op: LiaOp, a: LiaAny, b: LiaAny, r: Result<LiaAny, LiaError>) -> bool {
    match (a, b) {
        (LiaAny::Int(x), LiaAny::Int(y)) => r == int_op(op, x as int, y as int),
        (LiaAny::Str(x), LiaAny::Str(y)) => match op {
            LiaOp::Add => r matches Ok(LiaAny::Str(t)) && t@ == x@ + y@,
            LiaOp::Eq => r == Ok::<LiaAny, LiaError>(LiaAny::Bool(x@ == y@)),
            _ => r == Err::<LiaAny, LiaError>(LiaError::TypeMismatch),
        },
        (LiaAny::Native(x), LiaAny::Native(y)) => if op == LiaOp::Eq {
            r == Ok::<LiaAny, LiaError>(LiaAny::Bool(x@ == y@))
        } else {
            r == Err::<LiaAny, LiaError>(LiaError::TypeMismatch)
        },
        _ => if op == LiaOp::Eq && same_tag(a, b) {
            r == Ok::<LiaAny, LiaError>(LiaAny::Bool(a == b))
        } else {
            r == Err::<LiaAny, LiaError>(LiaError::TypeMismatch)
        },
    }
}

pub open spec fn same_tag(a: LiaAny, b: LiaAny) -> bool {
    match (a, b) {
        (LiaAny::Undefined, LiaAny::Undefined) => true,
        (LiaAny::Bool(_), LiaAny::Bool(_)) => true,
        (LiaAny::Object(_), LiaAny::Object(_)) => true,
        (LiaAny::Array(_), LiaAny::Array(_)) => true,
        (LiaAny::Closure(_), LiaAny::Closure(_)) => true,
        (LiaAny::Func(_), LiaAny::Func(_)) => true,
        _ => false,
    }
}

fn int_apply(op: LiaOp, x: i32, y: i32) -> (r: Result<LiaAny, LiaError>)
    ensures
        r == int_op(op, x as int, y as int),
{
    let a = x as i64;
    let b = y as i64;
    let v: i64 = match op {
        LiaOp::Add => a + b,
        LiaOp::Sub => a - b,
        LiaOp::Mul => {
            assert(-0x8000_0000 * 0x8000_0000 <= a * b <= 0x8000_0000 * 0x8000_0000)
                by (nonlinear_arith)
                requires
                    -0x8000_0000 <= a <= 0x7fff_ffff,
                    -0x8000_0000 <= b <= 0x7fff_ffff,
            ;
            a * b
        },
        LiaOp::Div => {
            if b == 0 {
                return Err(LiaError::DivideByZero);
            }
            let ua: i64 = if a >= 0 { a } else { -a };
            let ub: i64 = if b >= 0 { b } else { -b };
            let q: i64 = ua / ub;
            assert(q <= ua) by (nonlinear_arith)
                requires
                    ua >= 0,
                    ub >= 1,
                    q == ua / ub,
            ;
            if (a >= 0) == (b >= 0) {
                q
            } else {
                -q
            }
        },
        LiaOp::Eq => {
            return Ok(LiaAny::Bool(x == y));
        },
        LiaOp::Lt => {
            return Ok(LiaAny::Bool(x < y));
        },
        LiaOp::Gt => {
            return Ok(LiaAny::Bool(x > y));
        },
    };
    if v < i32::MIN as i64 || v > i32::MAX as i64 {
        Err(LiaError::Overflow)
    } else {
        Ok(LiaAny::Int(v as i32))
    }
}

/// Applies a binary operator to two values.
pub fn apply_op(op: LiaOp, a: &LiaAny, b: &LiaAny) -> (r: Result<LiaAny, LiaError>)
    ensures
        op_result(op, *a, *b, r),
{
    match (a, b) {
        (LiaAny::Int(x), LiaAny::Int(y)) => int_apply(op, *x, *y),
        (LiaAny::Str(x), LiaAny::Str(y)) => match op {
            LiaOp::Add => Ok(LiaAny::Str(x.clone().concat(y.as_str()))),
            LiaOp::Eq => Ok(LiaAny::Bool(*x == *y)),
            _ => Err(LiaError::TypeMismatch),
        },
        _ => {
            if op != LiaOp::Eq {
                return Err(LiaError::TypeMismatch);
            }
            match (a, b) {
                (LiaAny::Undefined, LiaAny::Undefined) => Ok(LiaAny::Bool(true)),
                (LiaAny::Bool(x), LiaAny::Bool(y)) => Ok(LiaAny::Bool(*x == *y)),
                (LiaAny::Object(x), LiaAny::Object(y)) => Ok(LiaAny::Bool(*x == *y)),
                (LiaAny::Array(x), LiaAny::Array(y)) => Ok(LiaAny::Bool(*x == *y)),
                (LiaAny::Closure(x), LiaAny::Closure(y)) => Ok(LiaAny::Bool(*x == *y)),
                (LiaAny::Func(x), LiaAny::Func(y)) => Ok(LiaAny::Bool(*x == *y)),
                (LiaAny::Native(x), LiaAny::Native(y)) => Ok(LiaAny::Bool(x.same(y))),
                _ => Err(LiaError::TypeMismatch),
            }
        },
    }
}

/// Names in scope, each bound to a storage cell of the heap. Later entries
/// shadow earlier ones.
pub struct Env {
    pub slots: Vec<(Ident, usize)>,
}

/// The position of the last slot that binds `k`, if any.
pub open spec fn last_slot(slots: Seq<(Ident, usize)>, k: Seq<char>, i: int) -> bool {
    &&& 0 <= i < slots.len()
    &&& slots[i].0@ == k
    &&& forall|j: int| i < j < slots.len() ==> slots[j].0@ != k
}

impl Env {
    pub fn new() -> (r: Env)
        ensures
            r.slots@.len() == 0,
    {
        Env { slots: Vec::new() }
    }

    /// The cell that the name `k` refers to: that of its last binding.
    pub open spec fn lookup_spec(&self, k: Seq<char>) -> Option<usize> {
        if exists|i: int| last_slot(self.slots@, k, i) {
            Some(self.slots@[choose|i: int| last_slot(self.slots@, k, i)].1)
        } else {
            None
        }
    }

    /// The cell that `id` names here.
    pub fn lookup(&self, id: &Ident) -> (r: Option<usize>)
        ensures
            r == self.lookup_spec(id@),
            match r {
                Some(c) => exists|i: int| last_slot(self.slots@, id@, i) && self.slots@[i].1 == c,
                None => forall|i: int| 0 <= i < self.slots@.len() ==> self.slots@[i].0@ != id@,
            },
    {
        let mut i: usize = self.slots.len();
        while i > 0
            invariant
                i <= self.slots@.len(),
                forall|j: int| i <= j < self.slots@.len() ==> self.slots@[j].0@ != id@,
            decreases i,
        {
            i = i - 1;
            if self.slots[i].0.same(id) {
                assert(last_slot(self.slots@, id@, i as int));
                assert forall|j: int| last_slot(self.slots@, id@, j) implies j == i by {
                    if j < i {
                        assert(self.slots@[i as int].0@ == id@);
                    }
                }
                return Some(self.slots[i].1);
            }
        }
        assert(!exists|j: int| last_slot(self.slots@, id@, j));
        None
    }

    pub fn bind(&mut self, id: Ident, cell: usize)
        ensures
            final(self).slots@ == old(self).slots@.push((id, cell)),
    {
        self.slots.push((id, cell));
    }

    /// A copy of the scope that refers to the same cells.
    pub fn share(&self) -> (r: Env)
        ensures
            r.slots@ == self.slots@,
    {
        let mut out: Vec<(Ident, usize)> = Vec::new();
        let mut i: usize = 0;
        while i < self.slots.len()
            invariant
                i <= self.slots@.len(),
                out@ == self.slots@.subrange(0, i as int),
            decreases self.slots@.len() - i,
        {
            out.push((self.slots[i].0.duplicate(), self.slots[i].1));
            i = i + 1;
            assert(out@ =~= self.slots@.subrange(0, i as int));
        }
        assert(out@ =~= self.slots@);
        Env { slots: out }
    }
}

/// A closure: its parameters, its body, and the scope it was made in.
pub struct ClosureData {
    pub params: Vec<Ident>,
    pub body: Vec<LiaStmt>,
    pub env: Env,
}

/// The storage that values refer to: variable cells, objects (string keys to
/// values, in insertion order), arrays and closures.
pub struct Heap {
    pub cells: Vec<LiaAny>,
    pub objects: Vec<Vec<(String, LiaAny)>>,
    pub arrays: Vec<Vec<LiaAny>>,
    pub closures: Vec<ClosureData>,
}

/// `i` is the position of the entry with key `k` in an object.
pub open spec fn key_at(entries: Seq<(String, LiaAny)>, k: Seq<char>, i: int) -> bool {
    &&& 0 <= i < entries.len()
    &&& entries[i].0@ == k
    &&& forall|j: int| 0 <= j < i ==> entries[j].0@ != k
}

/// No two entries of an object have the same key.
pub open spec fn keys_distinct(entries: Seq<(String, LiaAny)>) -> bool {
    forall|i: int, j: int| 0 <= i < j < entries.len() ==> entries[i].0@ != entries[j].0@
}

pub open spec fn has_key(entries: Seq<(String, LiaAny)>, k: Seq<char>) -> bool {
    exists|i: int| 0 <= i < entries.len() && entries[i].0@ == k
}

fn find_key(entries: &Vec<(String, LiaAny)>, key: &String) -> (r: Option<usize>)
    ensures
        match r {
            Some(i) => key_at(entries@, key@, i as int),
            None => !has_key(entries@, key@),
        },
{
    let mut i: usize = 0;
    while i < entries.len()
        invariant
            i <= entries@.len(),
            forall|j: int| 0 <= j < i ==> entries@[j].0@ != key@,
        decreases entries@.len() - i,
    {
        if entries[i].0 == *key {
            return Some(i);
        }
        i = i + 1;
    }
    None
}

impl Heap {
    /// Every object holds each key at most once.
    pub open spec fn wf(&self) -> bool {
        forall|o: int| 0 <= o < self.objects@.len() ==> keys_distinct(#[trigger] self.objects@[o]@)
    }

    pub fn new() -> (r: Heap)
        ensures
            r.wf(),
            r.cells@.len() == 0,
            r.objects@.len() == 0,
            r.arrays@.len() == 0,
            r.closures@.len() == 0,
    {
        Heap { cells: Vec::new(), objects: Vec::new(), arrays: Vec::new(), closures: Vec::new() }
    }

    /// A fresh cell holding `v`.
    pub fn alloc_cell(&mut self, v: LiaAny) -> (r: usize)
        ensures
            r == old(self).cells@.len(),
            final(self).cells@ == old(self).cells@.push(v),
            final(self).objects == old(self).objects,
            final(self).arrays == old(self).arrays,
            final(self).closures == old(self).closures,
    {
        let r = self.cells.len();
        self.cells.push(v);
        r
    }

    pub fn read_cell(&self, c: usize) -> (r: Result<LiaAny, LiaError>)
        ensures
            c < self.cells@.len() ==> r == Ok::<LiaAny, LiaError>(self.cells@[c as int]),
            c >= self.cells@.len() ==> r == Err::<LiaAny, LiaError>(LiaError::DanglingReference),
    {
        if c < self.cells.len() {
            Ok(self.cells[c].copy())
        } else {
            Err(LiaError::DanglingReference)
        }
    }

    pub fn write_cell(&mut self, c: usize, v: LiaAny) -> (r: Result<(), LiaError>)
        ensures
            c < old(self).cells@.len() ==> r is Ok && final(self).cells@ == old(
                self,
            ).cells@.update(c as int, v),
            c >= old(self).cells@.len() ==> r == Err::<(), LiaError>(LiaError::DanglingReference)
                && final(self).cells@ == old(self).cells@,
            final(self).objects == old(self).objects,
            final(self).arrays == old(self).arrays,
            final(self).closures == old(self).closures,
    {
        if c < self.cells.len() {
            self.cells.set(c, v);
            Ok(())
        } else {
            Err(LiaError::DanglingReference)
        }
    }

    /// A fresh, empty object.
    pub fn alloc_object(&mut self) -> (r: usize)
        ensures
            r == old(self).objects@.len(),
            final(self).objects@.len() == old(self).objects@.len() + 1,
            final(self).objects@[r as int]@.len() == 0,
            forall|o: int| 0 <= o < r ==> final(self).objects@[o] == old(self).objects@[o],
            old(self).wf() ==> final(self).wf(),
            final(self).cells == old(self).cells,
    {
        let r = self.objects.len();
        self.objects.push(Vec::new());
        assert(forall|o: int| 0 <= o < r ==> self.objects@[o] == old(self).objects@[o]);
        r
    }

    /// The value under `key` in object `o`.
    pub fn object_get(&self, o: usize, key: &String) -> (r: Result<LiaAny, LiaError>)
        ensures
            o >= self.objects@.len() ==> r == Err::<LiaAny, LiaError>(
                LiaError::DanglingReference,
            ),
            o < self.objects@.len() ==> match r {
                Ok(v) => exists|i: int|
                    key_at(self.objects@[o as int]@, key@, i) && self.objects@[o as int]@[i].1
                        == v,
                Err(e) => e == LiaError::KeyNotFound && !has_key(self.objects@[o as int]@, key@),
            },
    {
        if o >= self.objects.len() {
            return Err(LiaError::DanglingReference);
        }
        match find_key(&self.objects[o], key) {
            Some(i) => Ok(self.objects[o][i].1.copy()),
            None => Err(LiaError::KeyNotFound),
        }
    }

    /// Stores `v` under `key` in object `o`: in place when the key is there,
    /// as a new last entry when it is not.
    pub fn object_set(&mut self, o: usize, key: String, v: LiaAny) -> (r: Result<(), LiaError>)
        ensures
            o >= old(self).objects@.len() ==> r == Err::<(), LiaError>(
                LiaError::DanglingReference,
            ) && final(self).objects == old(self).objects,
            o < old(self).objects@.len() ==> {
                let before = old(self).objects@[o as int]@;
                let after = final(self).objects@[o as int]@;
                &&& r is Ok
                &&& final(self).objects@.len() == old(self).objects@.len()
                &&& forall|p: int|
                    0 <= p < old(self).objects@.len() && p != o ==> final(self).objects@[p]
                        == old(self).objects@[p]
                &&& has_key(before, key@) ==> exists|i: int|
                    key_at(before, key@, i) && after == before.update(i, (key, v))
                &&& !has_key(before, key@) ==> after == before.push((key, v))
            },
            old(self).wf() ==> final(self).wf(),
            final(self).cells == old(self).cells,
            final(self).arrays == old(self).arrays,
            final(self).closures == old(self).closures,
    {
        if o >= self.objects.len() {
            return Err(LiaError::DanglingReference);
        }
        let mut entries: Vec<(String, LiaAny)> = Vec::new();
        std::mem::swap(&mut entries, &mut self.objects[o]);
        let ghost before = entries@;
        match find_key(&entries, &key) {
            Some(i) => {
                entries.set(i, (key, v));
            },
            None => {
                entries.push((key, v));
            },
        }
        assert(keys_distinct(before) ==> keys_distinct(entries@));
        std::mem::swap(&mut entries, &mut self.objects[o]);
        assert(old(self).wf() ==> self.wf()) by {
            if old(self).wf() {
                assert forall|q: int| 0 <= q < self.objects@.len() implies keys_distinct(
                    #[trigger] self.objects@[q]@,
                ) by {
                    if q != o {
                        assert(self.objects@[q] == old(self).objects@[q]);
                    }
                }
            }
        }
        Ok(())
    }

    /// The keys of object `o`, in insertion order.
    pub fn object_keys(&self, o: usize) -> (r: Result<Vec<String>, LiaError>)
        ensures
            o >= self.objects@.len() ==> r == Err::<Vec<String>, LiaError>(
                LiaError::DanglingReference,
            ),
            o < self.objects@.len() ==> (r matches Ok(ks) && ks@.len()
                == self.objects@[o as int]@.len() && forall|i: int|
                0 <= i < ks@.len() ==> ks@[i]@ == self.objects@[o as int]@[i].0@),
            self.wf() && o < self.objects@.len() ==> (r matches Ok(ks) && forall|i: int, j: int|
                0 <= i < j < ks@.len() ==> ks@[i]@ != ks@[j]@),
    {
        if o >= self.objects.len() {
            return Err(LiaError::DanglingReference);
        }
        let entries = &self.objects[o];
        assert(self.wf() ==> keys_distinct(entries@));
        let mut ks: Vec<String> = Vec::new();
        let mut i: usize = 0;
        while i < entries.len()
            invariant
                i <= entries@.len(),
                ks@.len() == i,
                forall|j: int| 0 <= j < i ==> ks@[j]@ == entries@[j].0@,
            decreases entries@.len() - i,
        {
            ks.push(entries[i].0.clone());
            i = i + 1;
        }
        Ok(ks)
    }

    /// A fresh array holding `items`.
    pub fn alloc_array(&mut self, items: Vec<LiaAny>) -> (r: usize)
        ensures
            r == old(self).arrays@.len(),
            final(self).arrays@ == old(self).arrays@.push(items),
            final(self).cells == old(self).cells,
            final(self).objects == old(self).objects,
            final(self).closures == old(self).closures,
    {
        let r = self.arrays.len();
        self.arrays.push(items);
        r
    }

    /// Element `i` of array `a`, counting from 0.
    pub fn array_get(&self, a: usize, i: i32) -> (r: Result<LiaAny, LiaError>)
        ensures
            a >= self.arrays@.len() ==> r == Err::<LiaAny, LiaError>(LiaError::DanglingReference),
            a < self.arrays@.len() && 0 <= i < self.arrays@[a as int]@.len() ==> r == Ok::<
                LiaAny,
                LiaError,
            >(self.arrays@[a as int]@[i as int]),
            a < self.arrays@.len() && !(0 <= i < self.arrays@[a as int]@.len()) ==> r == Err::<
                LiaAny,
                LiaError,
            >(LiaError::IndexOutOfRange),
    {
        if a >= self.arrays.len() {
            return Err(LiaError::DanglingReference);
        }
        if i < 0 || i as usize >= self.arrays[a].len() {
            return Err(LiaError::IndexOutOfRange);
        }
        Ok(self.arrays[a][i as usize].copy())
    }

    /// Replaces element `i` of array `a` with `v`.
    pub fn array_set(&mut self, a: usize, i: i32, v: LiaAny) -> (r: Result<(), LiaError>)
        ensures
            a >= old(self).arrays@.len() ==> r == Err::<(), LiaError>(LiaError::DanglingReference)
                && final(self).arrays == old(self).arrays,
            a < old(self).arrays@.len() && 0 <= i < old(self).arrays@[a as int]@.len() ==> r is Ok
                && final(self).arrays@.len() == old(self).arrays@.len()
                && final(self).arrays@[a as int]@ == old(self).arrays@[a as int]@.update(
                i as int,
                v,
            ) && forall|p: int|
                0 <= p < old(self).arrays@.len() && p != a ==> final(self).arrays@[p] == old(
                    self,
                ).arrays@[p],
            a < old(self).arrays@.len() && !(0 <= i < old(self).arrays@[a as int]@.len()) ==> r
                == Err::<(), LiaError>(LiaError::IndexOutOfRange) && final(self).arrays == old(
                self,
            ).arrays,
            final(self).cells == old(self).cells,
            final(self).objects == old(self).objects,
            final(self).closures == old(self).closures,
    {
        if a >= self.arrays.len() {
            return Err(LiaError::DanglingReference);
        }
        if i < 0 || i as usize >= self.arrays[a].len() {
            return Err(LiaError::IndexOutOfRange);
        }
        let mut items: Vec<LiaAny> = Vec::new();
        std::mem::swap(&mut items, &mut self.arrays[a]);
        items.set(i as usize, v);
        std::mem::swap(&mut items, &mut self.arrays[a]);
        Ok(())
    }

    pub fn alloc_closure(&mut self, c: ClosureData) -> (r: usize)
        ensures
            r == old(self).closures@.len(),
            final(self).closures@ == old(self).closures@.push(c),
            final(self).cells == old(self).cells,
            final(self).objects == old(self).objects,
            final(self).arrays == old(self).arrays,
    {
        let r = self.closures.len();
        self.closures.push(c);
        r
    }
}

/// The keys that `object_keys` lists for a foreach are, on a well-formed
/// heap, every key of the object, each exactly once.
pub proof fn lemma_foreach_keys_once(h: Heap, o: usize, ks: Seq<Seq<char>>)
    requires
        h.wf(),
        o < h.objects@.len(),
        ks.len() == h.objects@[o as int]@.len(),
        forall|i: int| 0 <= i < ks.len() ==> ks[i] == h.objects@[o as int]@[i].0@,
    ensures
        ks.no_duplicates(),
        forall|k: Seq<char>| has_key(h.objects@[o as int]@, k) <==> ks.contains(k),
{
    let entries = h.objects@[o as int]@;
    assert(keys_distinct(entries));
    assert forall|k: Seq<char>| has_key(entries, k) implies ks.contains(k) by {
        let i = choose|i: int| 0 <= i < entries.len() && entries[i].0@ == k;
        assert(ks[i] == k);
    }
}

/// Functions that the host supplies to extern calls (`@name(args)`). Each
/// takes the evaluated arguments in order and gives back one value.
pub trait NativeTable {
    fn call_native(&self, name: &Ident, args: Vec<LiaAny>) -> Result<LiaAny, LiaError>;
}

/// A native function: its integer argument plus one.
pub fn _lia_external_fun(args: Vec<LiaAny>) -> (r: Result<LiaAny, LiaError>)
    ensures
        args@.len() == 0 ==> r == Err::<LiaAny, LiaError>(LiaError::ArityMismatch),
        args@.len() > 0 ==> match args@[0] {
            LiaAny::Int(n) => if n < i32::MAX {
                r == Ok::<LiaAny, LiaError>(LiaAny::Int((n + 1) as i32))
            } else {
                r == Err::<LiaAny, LiaError>(LiaError::Overflow)
            },
            _ => r == Err::<LiaAny, LiaError>(LiaError::CastError),
        },
{
    if args.len() == 0 {
        return Err(LiaError::ArityMismatch);
    }
    let num = args[0].as_int()?;
    if num == i32::MAX {
        return Err(LiaError::Overflow);
    }
    Ok(LiaAny::Int(num + 1))
}

} // verus!
