use vstd::prelude::*;
use crate::ident::{Ident, prefix_ident};
use crate::ast::{LiaExpr, LiaFn, LiaStmt};

verus! {

/// The text put before a free variable's name to form its alias.
pub open spec fn alias_prefix() -> Seq<char> {
    seq!['_', 'c', 'o', 'p', 'y']
}

/// The alias that elaboration gives the free variable `k`.
pub open spec fn alias_of(k: Seq<char>) -> Seq<char> {
    alias_prefix() + k
}

/// The names of a list of identifiers.
pub open spec fn names_of(ps: Seq<Ident>) -> Set<Seq<char>> {
    Set::new(|s: Seq<char>| exists|i: int| 0 <= i < ps.len() && ps[i]@ == s)
}

/// The names that are bound once `e` has been walked from the bound set `b`.
pub open spec fn bound_after_expr(e: LiaExpr, b: Set<Seq<char>>) -> Set<Seq<char>>
    decreases e, 0nat,
{
    match e {
        LiaExpr::Closure(ps, body) => bound_after_stmts(body@, body@.len(), b + names_of(ps@)),
        LiaExpr::BinOp(_, l, r) => bound_after_expr(*r, bound_after_expr(*l, b)),
        LiaExpr::Call(f, args) => bound_after_exprs(args@, args@.len(), bound_after_expr(*f, b)),
        LiaExpr::Index(base, k) => bound_after_expr(*k, bound_after_expr(*base, b)),
        LiaExpr::Array(items) => bound_after_exprs(items@, items@.len(), b),
        LiaExpr::Object(entries) => bound_after_entries(entries@, entries@.len(), b),
        _ => b,
    }
}

/// The bound set after the first `n` entries of an object literal, each key
/// walked before its value.
pub open spec fn bound_after_entries(s: Seq<(LiaExpr, LiaExpr)>, n: nat, b: Set<Seq<char>>) -> Set<Seq<char>>
    decreases s, n,
{
    if n == 0 || n > s.len() {
        b
    } else {
        let b1 = bound_after_entries(s, (n - 1) as nat, b);
        bound_after_expr(s[n - 1].1, bound_after_expr(s[n - 1].0, b1))
    }
}

/// The bound set after the first `n` expressions of `s`, walked in order.
pub open spec fn bound_after_exprs(s: Seq<LiaExpr>, n: nat, b: Set<Seq<char>>) -> Set<Seq<char>>
    decreases s, n,
{
    if n == 0 || n > s.len() {
        b
    } else {
        bound_after_expr(s[n - 1], bound_after_exprs(s, (n - 1) as nat, b))
    }
}

pub open spec fn bound_after_stmt(st: LiaStmt, b: Set<Seq<char>>) -> Set<Seq<char>>
    decreases st, 0nat,
{
    match st {
        LiaStmt::Declare(id) => b.insert(id@),
        LiaStmt::Assign(l, r) => bound_after_expr(r, bound_after_expr(l, b)),
        LiaStmt::Return(e) => bound_after_expr(e, b),
        LiaStmt::Expr(e) => bound_after_expr(e, b),
        LiaStmt::If(g, t, el) => {
            let b2 = bound_after_stmts(t@, t@.len(), bound_after_expr(g, b));
            match el {
                Some(v) => bound_after_stmts(v@, v@.len(), b2),
                None => b2,
            }
        },
        LiaStmt::While(g, body) => bound_after_stmts(body@, body@.len(), bound_after_expr(g, b)),
        LiaStmt::ForObj(id, e, body) => bound_after_stmts(
            body@,
            body@.len(),
            bound_after_expr(e, b.insert(id@)),
        ),
    }
}

pub open spec fn bound_after_stmts(s: Seq<LiaStmt>, n: nat, b: Set<Seq<char>>) -> Set<Seq<char>>
    decreases s, n,
{
    if n == 0 || n > s.len() {
        b
    } else {
        bound_after_stmt(s[n - 1], bound_after_stmts(s, (n - 1) as nat, b))
    }
}

/// The free variables that walking `e` from the bound set `b` meets: those
/// that receive an alias.
pub open spec fn free_expr(e: LiaExpr, b: Set<Seq<char>>) -> Set<Seq<char>>
    decreases e, 0nat,
{
    match e {
        LiaExpr::Var(id) => if b.contains(id@) {
            Set::empty()
        } else {
            set![id@]
        },
        LiaExpr::Closure(ps, body) => free_stmts(body@, body@.len(), b + names_of(ps@)),
        LiaExpr::BinOp(_, l, r) => free_expr(*l, b) + free_expr(*r, bound_after_expr(*l, b)),
        LiaExpr::Call(f, args) => free_expr(*f, b) + free_exprs(
            args@,
            args@.len(),
            bound_after_expr(*f, b),
        ),
        LiaExpr::Index(base, k) => free_expr(*base, b) + free_expr(*k, bound_after_expr(*base, b)),
        LiaExpr::Array(items) => free_exprs(items@, items@.len(), b),
        LiaExpr::Object(entries) => free_entries(entries@, entries@.len(), b),
        _ => Set::empty(),
    }
}

pub open spec fn free_entries(s: Seq<(LiaExpr, LiaExpr)>, n: nat, b: Set<Seq<char>>) -> Set<Seq<char>>
    decreases s, n,
{
    if n == 0 || n > s.len() {
        Set::empty()
    } else {
        let b1 = bound_after_entries(s, (n - 1) as nat, b);
        free_entries(s, (n - 1) as nat, b) + free_expr(s[n - 1].0, b1) + free_expr(
            s[n - 1].1,
            bound_after_expr(s[n - 1].0, b1),
        )
    }
}

pub open spec fn free_exprs(s: Seq<LiaExpr>, n: nat, b: Set<Seq<char>>) -> Set<Seq<char>>
    decreases s, n,
{
    if n == 0 || n > s.len() {
        Set::empty()
    } else {
        free_exprs(s, (n - 1) as nat, b) + free_expr(
            s[n - 1],
            bound_after_exprs(s, (n - 1) as nat, b),
        )
    }
}

pub open spec fn free_stmt(st: LiaStmt, b: Set<Seq<char>>) -> Set<Seq<char>>
    decreases st, 0nat,
{
    match st {
        LiaStmt::Declare(_) => Set::empty(),
        LiaStmt::Assign(l, r) => free_expr(l, b) + free_expr(r, bound_after_expr(l, b)),
        LiaStmt::Return(e) => free_expr(e, b),
        LiaStmt::Expr(e) => free_expr(e, b),
        LiaStmt::If(g, t, el) => {
            let b1 = bound_after_expr(g, b);
            let b2 = bound_after_stmts(t@, t@.len(), b1);
            free_expr(g, b) + free_stmts(t@, t@.len(), b1) + match el {
                Some(v) => free_stmts(v@, v@.len(), b2),
                None => Set::empty(),
            }
        },
        LiaStmt::While(g, body) => free_expr(g, b) + free_stmts(
            body@,
            body@.len(),
            bound_after_expr(g, b),
        ),
        LiaStmt::ForObj(id, e, body) => free_expr(e, b.insert(id@)) + free_stmts(
            body@,
            body@.len(),
            bound_after_expr(e, b.insert(id@)),
        ),
    }
}

pub open spec fn free_stmts(s: Seq<LiaStmt>, n: nat, b: Set<Seq<char>>) -> Set<Seq<char>>
    decreases s, n,
{
    if n == 0 || n > s.len() {
        Set::empty()
    } else {
        free_stmts(s, (n - 1) as nat, b) + free_stmt(
            s[n - 1],
            bound_after_stmts(s, (n - 1) as nat, b),
        )
    }
}

/// `r` is `e` with every variable that is free under the bound set `b` (as
/// the walk threads it) replaced by its alias, and nothing else changed.
pub open spec fn renamed_expr(e: LiaExpr, r: LiaExpr, b: Set<Seq<char>>) -> bool
    decreases e, 0nat,
{
    match e {
        LiaExpr::Var(id) => r is Var && if b.contains(id@) {
            r->Var_0@ == id@
        } else {
            r->Var_0@ == alias_of(id@)
        },
        LiaExpr::Closure(ps, body) => r is Closure && r->Closure_0 == ps && renamed_stmts(
            body@,
            r->Closure_1@,
            b + names_of(ps@),
        ) && r->Closure_1@.len() == body@.len(),
        LiaExpr::BinOp(op, l, rr) => r is BinOp && r->BinOp_0 == op && renamed_expr(
            *l,
            *r->BinOp_1,
            b,
        ) && renamed_expr(*rr, *r->BinOp_2, bound_after_expr(*l, b)),
        LiaExpr::Call(f, args) => r is Call && renamed_expr(*f, *r->Call_0, b) && renamed_exprs(
            args@,
            r->Call_1@,
            bound_after_expr(*f, b),
        ) && r->Call_1@.len() == args@.len(),
        LiaExpr::Index(base, k) => r is Index && renamed_expr(*base, *r->Index_0, b) && renamed_expr(
            *k,
            *r->Index_1,
            bound_after_expr(*base, b),
        ),
        LiaExpr::Array(items) => r is Array && r->Array_0@.len() == items@.len() && renamed_exprs(
            items@,
            r->Array_0@,
            b,
        ),
        LiaExpr::Object(entries) => r is Object && r->Object_0@.len() == entries@.len()
            && renamed_entries(entries@, r->Object_0@, b),
        _ => r == e,
    }
}

/// Each of the first `t.len()` entries of `s` is renamed into the matching
/// entry of `t`, key then value, the bound set threaded from `b`.
pub open spec fn renamed_entries(s: Seq<(LiaExpr, LiaExpr)>, t: Seq<(LiaExpr, LiaExpr)>, b: Set<Seq<char>>) -> bool
    decreases s, t.len(),
{
    if t.len() == 0 {
        true
    } else if t.len() > s.len() {
        false
    } else {
        let b1 = bound_after_entries(s, (t.len() - 1) as nat, b);
        renamed_entries(s, t.drop_last(), b) && renamed_expr(s[t.len() - 1].0, t.last().0, b1)
            && renamed_expr(s[t.len() - 1].1, t.last().1, bound_after_expr(s[t.len() - 1].0, b1))
    }
}

/// Each of the first `t.len()` expressions of `s` is renamed into the
/// matching one of `t`, the bound set threaded from `b`.
pub open spec fn renamed_exprs(s: Seq<LiaExpr>, t: Seq<LiaExpr>, b: Set<Seq<char>>) -> bool
    decreases s, t.len(),
{
    if t.len() == 0 {
        true
    } else if t.len() > s.len() {
        false
    } else {
        renamed_exprs(s, t.drop_last(), b) && renamed_expr(
            s[t.len() - 1],
            t.last(),
            bound_after_exprs(s, (t.len() - 1) as nat, b),
        )
    }
}

pub open spec fn renamed_stmt(st: LiaStmt, r: LiaStmt, b: Set<Seq<char>>) -> bool
    decreases st, 0nat,
{
    match st {
        LiaStmt::Declare(_) => r == st,
        LiaStmt::Assign(l, rr) => r is Assign && renamed_expr(l, r->Assign_0, b) && renamed_expr(
            rr,
            r->Assign_1,
            bound_after_expr(l, b),
        ),
        LiaStmt::Return(e) => r is Return && renamed_expr(e, r->Return_0, b),
        LiaStmt::Expr(e) => r is Expr && renamed_expr(e, r->Expr_0, b),
        LiaStmt::If(g, t, el) => {
            let b1 = bound_after_expr(g, b);
            let b2 = bound_after_stmts(t@, t@.len(), b1);
            r is If && renamed_expr(g, r->If_0, b) && r->If_1@.len() == t@.len() && renamed_stmts(
                t@,
                r->If_1@,
                b1,
            ) && match (el, r->If_2) {
                (Some(v), Some(w)) => w@.len() == v@.len() && renamed_stmts(v@, w@, b2),
                (None, None) => true,
                _ => false,
            }
        },
        LiaStmt::While(g, body) => r is While && renamed_expr(g, r->While_0, b)
            && r->While_1@.len() == body@.len() && renamed_stmts(
            body@,
            r->While_1@,
            bound_after_expr(g, b),
        ),
        LiaStmt::ForObj(id, e, body) => r is ForObj && r->ForObj_0 == id && renamed_expr(
            e,
            r->ForObj_1,
            b.insert(id@),
        ) && r->ForObj_2@.len() == body@.len() && renamed_stmts(
            body@,
            r->ForObj_2@,
            bound_after_expr(e, b.insert(id@)),
        ),
    }
}

pub open spec fn renamed_stmts(s: Seq<LiaStmt>, t: Seq<LiaStmt>, b: Set<Seq<char>>) -> bool
    decreases s, t.len(),
{
    if t.len() == 0 {
        true
    } else if t.len() > s.len() {
        false
    } else {
        renamed_stmts(s, t.drop_last(), b) && renamed_stmt(
            s[t.len() - 1],
            t.last(),
            bound_after_stmts(s, (t.len() - 1) as nat, b),
        )
    }
}

/// The names bound so far in one walk: declarations, parameters and foreach
/// keys.
pub struct BoundSet {
    pub names: Vec<Ident>,
}

impl View for BoundSet {
    type V = Set<Seq<char>>;

    open spec fn view(&self) -> Set<Seq<char>> {
        names_of(self.names@)
    }
}

impl BoundSet {
    pub fn new() -> (r: BoundSet)
        ensures
            r@ == Set::<Seq<char>>::empty(),
    {
        let r = BoundSet { names: Vec::new() };
        assert(r@ =~= Set::<Seq<char>>::empty());
        r
    }

    pub fn contains(&self, id: &Ident) -> (r: bool)
        ensures
            r == self@.contains(id@),
    {
        let mut i: usize = 0;
        while i < self.names.len()
            invariant
                i <= self.names@.len(),
                forall|j: int| 0 <= j < i ==> self.names@[j]@ != id@,
            decreases self.names@.len() - i,
        {
            if self.names[i].same(id) {
                return true;
            }
            i = i + 1;
        }
        false
    }

    pub fn insert(&mut self, id: Ident)
        ensures
            final(self)@ == old(self)@.insert(id@),
            old(self)@.contains(id@) ==> final(self).names@ == old(self).names@,
    {
        if self.contains(&id) {
            assert(self@ =~= old(self)@.insert(id@));
            return;
        }
        let ghost prev = self.names@;
        self.names.push(id);
        assert(self.names@[prev.len() as int] == id);
        assert forall|s: Seq<char>| old(self)@.insert(id@).contains(s) implies self@.contains(s) by {
            if old(self)@.contains(s) {
                let j = choose|j: int| 0 <= j < prev.len() && prev[j]@ == s;
                assert(self.names@[j] == prev[j]);
            }
        }
        assert(self@ =~= old(self)@.insert(id@));
    }
}

/// The aliases given to free variables: pairs of a name and its alias, each
/// name once.
pub struct FreeMap {
    pub entries: Vec<(Ident, Ident)>,
}

impl View for FreeMap {
    type V = Map<Seq<char>, Seq<char>>;

    open spec fn view(&self) -> Map<Seq<char>, Seq<char>> {
        Map::new(|k: Seq<char>| self.has_key(k), |k: Seq<char>| alias_of(k))
    }
}

impl FreeMap {
    pub open spec fn has_key(&self, k: Seq<char>) -> bool {
        exists|i: int| 0 <= i < self.entries@.len() && self.entries@[i].0@ == k
    }

    /// Each name appears once, and each alias is the alias of its name.
    pub open spec fn wf(&self) -> bool {
        &&& forall|i: int|
            0 <= i < self.entries@.len() ==> #[trigger] self.entries@[i].1@ == alias_of(
                self.entries@[i].0@,
            )
        &&& forall|i: int, j: int|
            0 <= i < j < self.entries@.len() ==> self.entries@[i].0@ != self.entries@[j].0@
    }

    pub fn new() -> (r: FreeMap)
        ensures
            r.wf(),
            r@ == Map::<Seq<char>, Seq<char>>::empty(),
    {
        let r = FreeMap { entries: Vec::new() };
        assert(r@ =~= Map::<Seq<char>, Seq<char>>::empty());
        r
    }

    pub fn len(&self) -> (r: usize)
        requires
            self.wf(),
        ensures
            r == self@.dom().len(),
    {
        proof {
            self.lemma_dom_len();
        }
        self.entries.len()
    }

    proof fn lemma_dom_len(&self)
        requires
            self.wf(),
        ensures
            self@.dom().len() == self.entries@.len(),
            self@.dom().finite(),
        decreases self.entries@.len(),
    {
        let keys = self.entries@.map_values(|p: (Ident, Ident)| p.0@);
        assert(self@.dom() =~= keys.to_set()) by {
            assert forall|k: Seq<char>| self@.dom().contains(k) implies keys.to_set().contains(k) by {
                let i = choose|i: int| 0 <= i < self.entries@.len() && self.entries@[i].0@ == k;
                assert(keys[i] == k);
            }
        }
        assert(keys.no_duplicates());
        keys.unique_seq_to_set();
    }

    /// The position of `id`'s entry, if it has one.
    fn find(&self, id: &Ident) -> (r: Option<usize>)
        ensures
            match r {
                Some(i) => i < self.entries@.len() && self.entries@[i as int].0@ == id@,
                None => !self.has_key(id@),
            },
    {
        let mut i: usize = 0;
        while i < self.entries.len()
            invariant
                i <= self.entries@.len(),
                forall|j: int| 0 <= j < i ==> self.entries@[j].0@ != id@,
            decreases self.entries@.len() - i,
        {
            if self.entries[i].0.same(id) {
                return Some(i);
            }
            i = i + 1;
        }
        None
    }

    /// The alias of `id`, if it has one.
    pub fn get(&self, id: &Ident) -> (r: Option<Ident>)
        requires
            self.wf(),
        ensures
            match r {
                Some(a) => self@.contains_key(id@) && a@ == self@[id@],
                None => !self@.contains_key(id@),
            },
    {
        match self.find(id) {
            Some(i) => Some(self.entries[i].1.duplicate()),
            None => None,
        }
    }
}

/// The alias of `id`, made and recorded in `mapping` the first time it is
/// asked for.
pub fn get_mapping(mapping: &mut FreeMap, id: &Ident) -> (r: Ident)
    requires
        old(mapping).wf(),
    ensures
        final(mapping).wf(),
        final(mapping)@ == old(mapping)@.insert(id@, alias_of(id@)),
        r@ == alias_of(id@),
{
    proof {
        reveal_strlit("_copy");
    }
    match mapping.find(id) {
        Some(i) => {
            let r = mapping.entries[i].1.duplicate();
            assert(mapping@ =~= old(mapping)@.insert(id@, alias_of(id@)));
            r
        },
        None => {
            let alias = prefix_ident(id, "_copy");
            assert(alias@ == alias_of(id@));
            let r = alias.duplicate();
            let ghost prev = mapping.entries@;
            mapping.entries.push((id.duplicate(), alias));
            assert(mapping.entries@[prev.len() as int].0@ == id@);
            assert forall|k: Seq<char>|
                old(mapping)@.insert(id@, alias_of(id@)).contains_key(k) implies mapping.has_key(
                    k,
                ) by {
                if old(mapping).has_key(k) {
                    let j = choose|j: int| 0 <= j < prev.len() && prev[j].0@ == k;
                    assert(mapping.entries@[j] == prev[j]);
                }
            }
            assert(mapping@ =~= old(mapping)@.insert(id@, alias_of(id@)));
            r
        },
    }
}

fn remap_expr(e: LiaExpr, bound: &mut BoundSet, mapping: &mut FreeMap) -> (r: LiaExpr)
    requires
        old(mapping).wf(),
    ensures
        final(mapping).wf(),
        final(bound)@ == bound_after_expr(e, old(bound)@),
        final(mapping)@.dom() == old(mapping)@.dom() + free_expr(e, old(bound)@),
        renamed_expr(e, r, old(bound)@),
    decreases e,
{
    let ghost e0 = e;
    let ghost b0 = bound@;
    let ghost m0 = mapping@.dom();
    match e {
        LiaExpr::Var(id) => {
            if bound.contains(&id) {
                assert(mapping@.dom() =~= m0 + free_expr(e0, b0));
                LiaExpr::Var(id)
            } else {
                let a = get_mapping(mapping, &id);
                assert(mapping@.dom() =~= m0 + free_expr(e0, b0));
                LiaExpr::Var(a)
            }
        },
        LiaExpr::Closure(ps, body) => {
            let mut i: usize = 0;
            while i < ps.len()
                invariant
                    i <= ps@.len(),
                    forall|s: Seq<char>|
                        #![trigger bound@.contains(s)]
                        bound@.contains(s) <==> (b0.contains(s) || exists|j: int|
                            0 <= j < i && ps@[j]@ == s),
                decreases ps@.len() - i,
            {
                bound.insert(ps[i].duplicate());
                i = i + 1;
            }
            assert(bound@ =~= b0 + names_of(ps@));
            let body2 = remap_stmts(body, bound, mapping);
            LiaExpr::Closure(ps, body2)
        },
        LiaExpr::BinOp(op, l, rr) => {
            let l2 = remap_expr(*l, bound, mapping);
            let r2 = remap_expr(*rr, bound, mapping);
            assert(mapping@.dom() =~= m0 + free_expr(e0, b0));
            LiaExpr::BinOp(op, Box::new(l2), Box::new(r2))
        },
        LiaExpr::Call(f, args) => {
            let f2 = remap_expr(*f, bound, mapping);
            let args2 = remap_exprs(args, bound, mapping);
            assert(mapping@.dom() =~= m0 + free_expr(e0, b0));
            LiaExpr::Call(Box::new(f2), args2)
        },
        LiaExpr::Index(base, k) => {
            let base2 = remap_expr(*base, bound, mapping);
            let k2 = remap_expr(*k, bound, mapping);
            assert(mapping@.dom() =~= m0 + free_expr(e0, b0));
            LiaExpr::Index(Box::new(base2), Box::new(k2))
        },
        LiaExpr::Array(items) => LiaExpr::Array(remap_exprs(items, bound, mapping)),
        LiaExpr::Object(entries) => LiaExpr::Object(remap_entries(entries, bound, mapping)),
        other => {
            assert(mapping@.dom() =~= m0 + free_expr(e0, b0));
            other
        },
    }
}

fn remap_exprs(v: Vec<LiaExpr>, bound: &mut BoundSet, mapping: &mut FreeMap) -> (r: Vec<LiaExpr>)
    requires
        old(mapping).wf(),
    ensures
        final(mapping).wf(),
        final(bound)@ == bound_after_exprs(v@, v@.len(), old(bound)@),
        final(mapping)@.dom() == old(mapping)@.dom() + free_exprs(v@, v@.len(), old(bound)@),
        renamed_exprs(v@, r@, old(bound)@),
        r@.len() == v@.len(),
    decreases v,
{
    let ghost s = v@;
    let ghost b0 = bound@;
    let ghost m0 = mapping@.dom();
    let mut work = v;
    let mut out: Vec<LiaExpr> = Vec::new();
    let mut i: usize = 0;
    assert(mapping@.dom() =~= m0 + free_exprs(s, 0, b0));
    while i < work.len()
        invariant
            work@.len() == s.len(),
            i <= s.len(),
            forall|j: int| i <= j < s.len() ==> work@[j] == s[j],
            out@.len() == i,
            renamed_exprs(s, out@, b0),
            bound@ == bound_after_exprs(s, i as nat, b0),
            mapping.wf(),
            mapping@.dom() == m0 + free_exprs(s, i as nat, b0),
            s == v@,
        decreases s.len() - i,
    {
        let mut x = LiaExpr::Bool(false);
        std::mem::swap(&mut x, &mut work[i]);
        assert(decreases_to!(v => v@[i as int]));
        let ghost prev = out@;
        let y = remap_expr(x, bound, mapping);
        out.push(y);
        assert(out@.drop_last() =~= prev);
        assert(mapping@.dom() =~= m0 + free_exprs(s, (i + 1) as nat, b0));
        i = i + 1;
    }
    out
}

fn remap_entries(v: Vec<(LiaExpr, LiaExpr)>, bound: &mut BoundSet, mapping: &mut FreeMap) -> (r: Vec<(LiaExpr, LiaExpr)>)
    requires
        old(mapping).wf(),
    ensures
        final(mapping).wf(),
        final(bound)@ == bound_after_entries(v@, v@.len(), old(bound)@),
        final(mapping)@.dom() == old(mapping)@.dom() + free_entries(v@, v@.len(), old(bound)@),
        renamed_entries(v@, r@, old(bound)@),
        r@.len() == v@.len(),
    decreases v,
{
    let ghost s = v@;
    let ghost b0 = bound@;
    let ghost m0 = mapping@.dom();
    let mut work = v;
    let mut out: Vec<(LiaExpr, LiaExpr)> = Vec::new();
    let mut i: usize = 0;
    assert(mapping@.dom() =~= m0 + free_entries(s, 0, b0));
    while i < work.len()
        invariant
            work@.len() == s.len(),
            i <= s.len(),
            forall|j: int| i <= j < s.len() ==> work@[j] == s[j],
            out@.len() == i,
            renamed_entries(s, out@, b0),
            bound@ == bound_after_entries(s, i as nat, b0),
            mapping.wf(),
            mapping@.dom() == m0 + free_entries(s, i as nat, b0),
            s == v@,
        decreases s.len() - i,
    {
        let mut x = (LiaExpr::Bool(false), LiaExpr::Bool(false));
        std::mem::swap(&mut x, &mut work[i]);
        assert(decreases_to!(v => v@[i as int]));
        let ghost prev = out@;
        let (k, val) = x;
        let k2 = remap_expr(k, bound, mapping);
        let val2 = remap_expr(val, bound, mapping);
        out.push((k2, val2));
        assert(out@.drop_last() =~= prev);
        assert(mapping@.dom() =~= m0 + free_entries(s, (i + 1) as nat, b0));
        i = i + 1;
    }
    out
}

fn remap_stmt(st: LiaStmt, bound: &mut BoundSet, mapping: &mut FreeMap) -> (r: LiaStmt)
    requires
        old(mapping).wf(),
    ensures
        final(mapping).wf(),
        final(bound)@ == bound_after_stmt(st, old(bound)@),
        final(mapping)@.dom() == old(mapping)@.dom() + free_stmt(st, old(bound)@),
        renamed_stmt(st, r, old(bound)@),
    decreases st,
{
    let ghost s0 = st;
    let ghost b0 = bound@;
    let ghost m0 = mapping@.dom();
    match st {
        LiaStmt::Declare(id) => {
            bound.insert(id.duplicate());
            assert(mapping@.dom() =~= m0 + free_stmt(s0, b0));
            LiaStmt::Declare(id)
        },
        LiaStmt::Assign(l, rr) => {
            let l2 = remap_expr(l, bound, mapping);
            let r2 = remap_expr(rr, bound, mapping);
            assert(mapping@.dom() =~= m0 + free_stmt(s0, b0));
            LiaStmt::Assign(l2, r2)
        },
        LiaStmt::Return(e) => LiaStmt::Return(remap_expr(e, bound, mapping)),
        LiaStmt::Expr(e) => LiaStmt::Expr(remap_expr(e, bound, mapping)),
        LiaStmt::If(g, t, el) => {
            let g2 = remap_expr(g, bound, mapping);
            let t2 = remap_stmts(t, bound, mapping);
            let el2 = match el {
                Some(v) => Some(remap_stmts(v, bound, mapping)),
                None => None,
            };
            assert(mapping@.dom() =~= m0 + free_stmt(s0, b0));
            LiaStmt::If(g2, t2, el2)
        },
        LiaStmt::While(g, body) => {
            let g2 = remap_expr(g, bound, mapping);
            let body2 = remap_stmts(body, bound, mapping);
            assert(mapping@.dom() =~= m0 + free_stmt(s0, b0));
            LiaStmt::While(g2, body2)
        },
        LiaStmt::ForObj(id, e, body) => {
            bound.insert(id.duplicate());
            let e2 = remap_expr(e, bound, mapping);
            let body2 = remap_stmts(body, bound, mapping);
            assert(mapping@.dom() =~= m0 + free_stmt(s0, b0));
            LiaStmt::ForObj(id, e2, body2)
        },
    }
}

fn remap_stmts(v: Vec<LiaStmt>, bound: &mut BoundSet, mapping: &mut FreeMap) -> (r: Vec<LiaStmt>)
    requires
        old(mapping).wf(),
    ensures
        final(mapping).wf(),
        final(bound)@ == bound_after_stmts(v@, v@.len(), old(bound)@),
        final(mapping)@.dom() == old(mapping)@.dom() + free_stmts(v@, v@.len(), old(bound)@),
        renamed_stmts(v@, r@, old(bound)@),
        r@.len() == v@.len(),
    decreases v,
{
    let ghost s = v@;
    let ghost b0 = bound@;
    let ghost m0 = mapping@.dom();
    let mut work = v;
    let mut out: Vec<LiaStmt> = Vec::new();
    let mut i: usize = 0;
    assert(mapping@.dom() =~= m0 + free_stmts(s, 0, b0));
    while i < work.len()
        invariant
            work@.len() == s.len(),
            i <= s.len(),
            forall|j: int| i <= j < s.len() ==> work@[j] == s[j],
            out@.len() == i,
            renamed_stmts(s, out@, b0),
            bound@ == bound_after_stmts(s, i as nat, b0),
            mapping.wf(),
            mapping@.dom() == m0 + free_stmts(s, i as nat, b0),
            s == v@,
        decreases s.len() - i,
    {
        let mut x = LiaStmt::Declare(Ident::new(""));
        std::mem::swap(&mut x, &mut work[i]);
        assert(decreases_to!(v => v@[i as int]));
        let ghost prev = out@;
        let y = remap_stmt(x, bound, mapping);
        out.push(y);
        assert(out@.drop_last() =~= prev);
        assert(mapping@.dom() =~= m0 + free_stmts(s, (i + 1) as nat, b0));
        i = i + 1;
    }
    out
}

impl LiaExpr {
    /// Rewrites each variable that is free under `bound` into its alias,
    /// recording the alias in `mapping`; closure parameters join `bound`
    /// before the closure's body is walked.
    pub fn remap_free_vars(&mut self, bound: &mut BoundSet, mapping: &mut FreeMap)
        requires
            old(mapping).wf(),
        ensures
            final(mapping).wf(),
            final(bound)@ == bound_after_expr(*old(self), old(bound)@),
            final(mapping)@.dom() == old(mapping)@.dom() + free_expr(*old(self), old(bound)@),
            renamed_expr(*old(self), *final(self), old(bound)@),
    {
        let mut e = LiaExpr::Bool(false);
        std::mem::swap(self, &mut e);
        *self = remap_expr(e, bound, mapping);
    }
}

impl LiaStmt {
    /// Elaborates a whole statement from an empty bound set, and returns the
    /// aliases of its free variables.
    pub fn remap_free_vars(&mut self) -> (r: FreeMap)
        ensures
            r.wf(),
            r@.dom() == free_stmt(*old(self), Set::empty()),
            renamed_stmt(*old(self), *final(self), Set::empty()),
    {
        let mut bound = BoundSet::new();
        let mut mapping = FreeMap::new();
        self.remap_free_vars_aux(&mut bound, &mut mapping);
        assert(mapping@.dom() =~= free_stmt(*old(self), Set::empty()));
        mapping
    }

    pub fn remap_free_vars_aux(&mut self, bound: &mut BoundSet, mapping: &mut FreeMap)
        requires
            old(mapping).wf(),
        ensures
            final(mapping).wf(),
            final(bound)@ == bound_after_stmt(*old(self), old(bound)@),
            final(mapping)@.dom() == old(mapping)@.dom() + free_stmt(*old(self), old(bound)@),
            renamed_stmt(*old(self), *final(self), old(bound)@),
    {
        let mut st = LiaStmt::Declare(Ident::new(""));
        std::mem::swap(self, &mut st);
        *self = remap_stmt(st, bound, mapping);
    }
}

impl LiaFn {
    /// Elaborates the function's body with its parameters bound, and returns
    /// the aliases of the body's free variables.
    pub fn remap_free_vars(&mut self) -> (r: FreeMap)
        ensures
            r.wf(),
            r@.dom() == free_stmts(
                old(self).body@,
                old(self).body@.len(),
                names_of(old(self).args@),
            ),
            renamed_stmts(old(self).body@, final(self).body@, names_of(old(self).args@)),
            final(self).body@.len() == old(self).body@.len(),
            final(self).name == old(self).name,
            final(self).args == old(self).args,
    {
        let mut bound = BoundSet::new();
        let mut i: usize = 0;
        while i < self.args.len()
            invariant
                i <= self.args@.len(),
                self.args == old(self).args,
                self.body == old(self).body,
                self.name == old(self).name,
                forall|s: Seq<char>|
                    #![trigger bound@.contains(s)]
                    bound@.contains(s) <==> exists|j: int| 0 <= j < i && self.args@[j]@ == s,
            decreases self.args@.len() - i,
        {
            bound.insert(self.args[i].duplicate());
            i = i + 1;
        }
        assert(bound@ =~= names_of(self.args@));
        let mut mapping = FreeMap::new();
        let mut body: Vec<LiaStmt> = Vec::new();
        std::mem::swap(&mut body, &mut self.body);
        self.body = remap_stmts(body, &mut bound, &mut mapping);
        assert(mapping@.dom() =~= free_stmts(
            old(self).body@,
            old(self).body@.len(),
            names_of(old(self).args@),
        ));
        mapping
    }
}

/// Distinct free variables receive distinct aliases.
pub proof fn lemma_aliases_distinct(m: FreeMap, a: Seq<char>, b: Seq<char>)
    requires
        m.wf(),
        m@.contains_key(a),
        m@.contains_key(b),
        a != b,
    ensures
        m@[a] != m@[b],
{
    let n = alias_prefix().len() as int;
    assert(alias_of(a).subrange(n, alias_of(a).len() as int) =~= a);
    assert(alias_of(b).subrange(n, alias_of(b).len() as int) =~= b);
}

proof fn lemma_closed_expr(e: LiaExpr, b: Set<Seq<char>>)
    requires
        free_expr(e, b) =~= Set::empty(),
    ensures
        renamed_expr(e, e, b),
    decreases e, 0nat,
{
    match e {
        LiaExpr::Var(id) => {
            assert(!free_expr(e, b).contains(id@));
        },
        LiaExpr::Closure(ps, body) => {
            lemma_closed_stmts(body@, body@.len(), b + names_of(ps@));
            assert(body@.subrange(0, body@.len() as int) =~= body@);
        },
        LiaExpr::BinOp(_, l, r) => {
            assert(free_expr(*l, b) =~= Set::empty());
            assert(free_expr(*r, bound_after_expr(*l, b)) =~= Set::empty());
            lemma_closed_expr(*l, b);
            lemma_closed_expr(*r, bound_after_expr(*l, b));
        },
        LiaExpr::Call(f, args) => {
            assert(free_expr(*f, b) =~= Set::empty());
            lemma_closed_expr(*f, b);
            lemma_closed_exprs(args@, args@.len(), bound_after_expr(*f, b));
            assert(args@.subrange(0, args@.len() as int) =~= args@);
        },
        LiaExpr::Index(base, k) => {
            assert(free_expr(*base, b) =~= Set::empty());
            assert(free_expr(*k, bound_after_expr(*base, b)) =~= Set::empty());
            lemma_closed_expr(*base, b);
            lemma_closed_expr(*k, bound_after_expr(*base, b));
        },
        LiaExpr::Array(items) => {
            lemma_closed_exprs(items@, items@.len(), b);
            assert(items@.subrange(0, items@.len() as int) =~= items@);
        },
        LiaExpr::Object(entries) => {
            lemma_closed_entries(entries@, entries@.len(), b);
            assert(entries@.subrange(0, entries@.len() as int) =~= entries@);
        },
        _ => {},
    }
}

proof fn lemma_closed_entries(s: Seq<(LiaExpr, LiaExpr)>, n: nat, b: Set<Seq<char>>)
    requires
        n <= s.len(),
        free_entries(s, n, b) =~= Set::empty(),
    ensures
        renamed_entries(s, s.subrange(0, n as int), b),
    decreases s, n,
{
    if n > 0 {
        let b1 = bound_after_entries(s, (n - 1) as nat, b);
        assert(free_entries(s, (n - 1) as nat, b) =~= Set::empty());
        assert(free_expr(s[n - 1].0, b1) =~= Set::empty());
        assert(free_expr(s[n - 1].1, bound_after_expr(s[n - 1].0, b1)) =~= Set::empty());
        lemma_closed_entries(s, (n - 1) as nat, b);
        lemma_closed_expr(s[n - 1].0, b1);
        lemma_closed_expr(s[n - 1].1, bound_after_expr(s[n - 1].0, b1));
        assert(s.subrange(0, n as int).drop_last() =~= s.subrange(0, n - 1));
    }
}

proof fn lemma_closed_exprs(s: Seq<LiaExpr>, n: nat, b: Set<Seq<char>>)
    requires
        n <= s.len(),
        free_exprs(s, n, b) =~= Set::empty(),
    ensures
        renamed_exprs(s, s.subrange(0, n as int), b),
    decreases s, n,
{
    if n > 0 {
        let bn = bound_after_exprs(s, (n - 1) as nat, b);
        assert(free_exprs(s, (n - 1) as nat, b) =~= Set::empty());
        assert(free_expr(s[n - 1], bn) =~= Set::empty());
        lemma_closed_exprs(s, (n - 1) as nat, b);
        lemma_closed_expr(s[n - 1], bn);
        assert(s.subrange(0, n as int).drop_last() =~= s.subrange(0, n - 1));
    }
}

proof fn lemma_closed_stmt(st: LiaStmt, b: Set<Seq<char>>)
    requires
        free_stmt(st, b) =~= Set::empty(),
    ensures
        renamed_stmt(st, st, b),
    decreases st, 0nat,
{
    match st {
        LiaStmt::Declare(_) => {},
        LiaStmt::Assign(l, r) => {
            assert(free_expr(l, b) =~= Set::empty());
            assert(free_expr(r, bound_after_expr(l, b)) =~= Set::empty());
            lemma_closed_expr(l, b);
            lemma_closed_expr(r, bound_after_expr(l, b));
        },
        LiaStmt::Return(e) => lemma_closed_expr(e, b),
        LiaStmt::Expr(e) => lemma_closed_expr(e, b),
        LiaStmt::If(g, t, el) => {
            let b1 = bound_after_expr(g, b);
            let b2 = bound_after_stmts(t@, t@.len(), b1);
            assert(free_expr(g, b) =~= Set::empty());
            assert(free_stmts(t@, t@.len(), b1) =~= Set::empty());
            lemma_closed_expr(g, b);
            lemma_closed_stmts(t@, t@.len(), b1);
            assert(t@.subrange(0, t@.len() as int) =~= t@);
            match el {
                Some(v) => {
                    assert(free_stmts(v@, v@.len(), b2) =~= Set::empty());
                    lemma_closed_stmts(v@, v@.len(), b2);
                    assert(v@.subrange(0, v@.len() as int) =~= v@);
                },
                None => {},
            }
        },
        LiaStmt::While(g, body) => {
            assert(free_expr(g, b) =~= Set::empty());
            lemma_closed_expr(g, b);
            lemma_closed_stmts(body@, body@.len(), bound_after_expr(g, b));
            assert(body@.subrange(0, body@.len() as int) =~= body@);
        },
        LiaStmt::ForObj(id, e, body) => {
            assert(free_expr(e, b.insert(id@)) =~= Set::empty());
            lemma_closed_expr(e, b.insert(id@));
            lemma_closed_stmts(body@, body@.len(), bound_after_expr(e, b.insert(id@)));
            assert(body@.subrange(0, body@.len() as int) =~= body@);
        },
    }
}

proof fn lemma_closed_stmts(s: Seq<LiaStmt>, n: nat, b: Set<Seq<char>>)
    requires
        n <= s.len(),
        free_stmts(s, n, b) =~= Set::empty(),
    ensures
        renamed_stmts(s, s.subrange(0, n as int), b),
    decreases s, n,
{
    if n > 0 {
        let bn = bound_after_stmts(s, (n - 1) as nat, b);
        assert(free_stmts(s, (n - 1) as nat, b) =~= Set::empty());
        assert(free_stmt(s[n - 1], bn) =~= Set::empty());
        lemma_closed_stmts(s, (n - 1) as nat, b);
        lemma_closed_stmt(s[n - 1], bn);
        assert(s.subrange(0, n as int).drop_last() =~= s.subrange(0, n - 1));
    }
}

/// Elaborating an expression with no free variables changes nothing: the
/// expression is its own renaming, and no alias is added (its free set is
/// empty).
pub proof fn lemma_elaborate_closed_expr(e: LiaExpr, b: Set<Seq<char>>)
    requires
        free_expr(e, b) =~= Set::empty(),
    ensures
        renamed_expr(e, e, b),
{
    lemma_closed_expr(e, b);
}

/// Renaming never merges two variables: when neither name starts with the
/// alias prefix, two different names stay different whether each is kept or
/// replaced by its alias.
pub proof fn lemma_renaming_keeps_names_apart(v: Seq<char>, w: Seq<char>, rv: Seq<char>, rw: Seq<char>)
    requires
        v != w,
        !alias_prefix().is_prefix_of(v),
        !alias_prefix().is_prefix_of(w),
        rv == v || rv == alias_of(v),
        rw == w || rw == alias_of(w),
    ensures
        rv != rw,
{
    let n = alias_prefix().len() as int;
    assert(alias_of(v).subrange(n, alias_of(v).len() as int) =~= v);
    assert(alias_of(w).subrange(n, alias_of(w).len() as int) =~= w);
    if rv == alias_of(v) && rw == w {
        assert(alias_prefix().is_prefix_of(alias_of(v))) by {
            assert(alias_of(v).subrange(0, n) =~= alias_prefix());
        }
    }
    if rw == alias_of(w) && rv == v {
        assert(alias_prefix().is_prefix_of(alias_of(w))) by {
            assert(alias_of(w).subrange(0, n) =~= alias_prefix());
        }
    }
}

/// Elaborating a statement with no free variables changes nothing: the
/// statement is its own renaming, and the alias map that comes back is empty.
pub proof fn lemma_elaborate_closed(st: LiaStmt, m: FreeMap)
    requires
        free_stmt(st, Set::empty()) =~= Set::empty(),
        m.wf(),
        m@.dom() == free_stmt(st, Set::empty()),
    ensures
        renamed_stmt(st, st, Set::empty()),
        m@ == Map::<Seq<char>, Seq<char>>::empty(),
{
    lemma_closed_stmt(st, Set::empty());
    assert(m@ =~= Map::<Seq<char>, Seq<char>>::empty());
}

} // verus!
