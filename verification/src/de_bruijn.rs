use vstd::prelude::*;

verus! {

use std::rc::Rc;
use crate::church::{Church, ChurchView};
use crate::rc_dup;

/// A de Bruijn index: the number of binders strictly between a bound
/// variable and the abstraction that binds it.
pub type Idx = usize;

/// A term with names resolved. `Bound` and `Abs` keep the original name only
/// as a cosmetic hint; binding is decided by the index alone.
#[derive(Debug, PartialEq, Eq)]
pub enum DeBruijn {
    Bound(String, Idx),
    Free(String),
    Abs(String, Rc<DeBruijn>),
    App(Rc<DeBruijn>, Rc<DeBruijn>),
}

/// The mathematical form of a resolved term. Indices are unbounded integers
/// so that the reduction rules can be stated without machine limits.
pub enum DbView {
    Bound(Seq<char>, int),
    Free(Seq<char>),
    Abs(Seq<char>, Box<DbView>),
    App(Box<DbView>, Box<DbView>),
}

pub open spec fn db_view(t: DeBruijn) -> DbView
    decreases t,
{
    match t {
        DeBruijn::Bound(n, i) => DbView::Bound(n@, i as int),
        DeBruijn::Free(n) => DbView::Free(n@),
        DeBruijn::Abs(n, b) => DbView::Abs(n@, Box::new(db_view(*b))),
        DeBruijn::App(l, r) => DbView::App(Box::new(db_view(*l)), Box::new(db_view(*r))),
    }
}

impl View for DeBruijn {
    type V = DbView;

    open spec fn view(&self) -> DbView {
        db_view(*self)
    }
}

impl DeBruijn {
    pub fn bound(name: String, idx: Idx) -> (r: Rc<DeBruijn>)
        ensures
            r@ == DbView::Bound(name@, idx as int),
    {
        Rc::new(DeBruijn::Bound(name, idx))
    }

    pub fn free(name: String) -> (r: Rc<DeBruijn>)
        ensures
            r@ == DbView::Free(name@),
    {
        Rc::new(DeBruijn::Free(name))
    }

    pub fn abs(name: String, body: Rc<DeBruijn>) -> (r: Rc<DeBruijn>)
        ensures
            r@ == DbView::Abs(name@, Box::new(body@)),
    {
        Rc::new(DeBruijn::Abs(name, body))
    }

    pub fn app(l: Rc<DeBruijn>, r: Rc<DeBruijn>) -> (res: Rc<DeBruijn>)
        ensures
            res@ == DbView::App(Box::new(l@), Box::new(r@)),
    {
        Rc::new(DeBruijn::App(l, r))
    }
}

/// Name resolution. `env` maps a name to the depth at which it was most
/// recently bound, and `lvl` is the current depth (the number of enclosing
/// abstractions). A name bound at depth `L`, used at depth `D`, resolves to
/// the index `D - 1 - L`; a name not in the environment stays free.
pub open spec fn rename_view(c: ChurchView, env: Map<Seq<char>, int>, lvl: int) -> DbView
    decreases c,
{
    match c {
        ChurchView::Var(n) => if env.dom().contains(n) {
            DbView::Bound(n, lvl - 1 - env[n])
        } else {
            DbView::Free(n)
        },
        ChurchView::Abs(n, b) => DbView::Abs(
            n,
            Box::new(rename_view(*b, env.insert(n, lvl), lvl + 1)),
        ),
        ChurchView::App(l, r) => DbView::App(
            Box::new(rename_view(*l, env, lvl)),
            Box::new(rename_view(*r, env, lvl)),
        ),
    }
}

/// The binder stack as an environment: each name maps to the position of its
/// innermost (rightmost) occurrence on the stack.
pub open spec fn env_map(s: Seq<Seq<char>>) -> Map<Seq<char>, int>
    decreases s.len(),
{
    if s.len() == 0 {
        Map::empty()
    } else {
        env_map(s.drop_last()).insert(s.last(), s.len() - 1)
    }
}

proof fn lemma_env_map_last(s: Seq<Seq<char>>, n: Seq<char>)
    ensures
        env_map(s).dom().contains(n) <==> exists|j: int| 0 <= j < s.len() && s[j] == n,
        env_map(s).dom().contains(n) ==> 0 <= env_map(s)[n] < s.len() && s[env_map(s)[n]] == n,
        env_map(s).dom().contains(n) ==> forall|j: int| env_map(s)[n] < j < s.len() ==> s[j] != n,
    decreases s.len(),
{
    if s.len() > 0 {
        let s0 = s.drop_last();
        lemma_env_map_last(s0, n);
        if s.last() == n {
            assert(s[s.len() - 1] == n);
        } else {
            if env_map(s0).dom().contains(n) {
                let p = env_map(s0)[n];
                assert(s[p] == s0[p]);
                assert(forall|j: int| p < j < s.len() - 1 ==> s[j] == s0[j] && s0[j] != n);
            } else {
                assert(forall|j: int| 0 <= j < s.len() - 1 ==> s[j] == s0[j]);
            }
        }
    }
}

fn rename_impl(exp: &Rc<Church>, env: &mut Vec<String>) -> (r: Rc<DeBruijn>)
    ensures
        final(env)@ == old(env)@,
        r@ == rename_view(exp@, env_map(old(env).deep_view()), old(env)@.len() as int),
    decreases **exp,
{
    match &**exp {
        Church::Var(name) => {
            let ghost s = env.deep_view();
            proof {
                assert forall|k: int| 0 <= k < env@.len() implies s[k] == env@[k]@ by {
                    assert(s[k] == env@[k].deep_view());
                }
            }
            let mut j: usize = env.len();
            while j > 0
                invariant
                    exp@ == ChurchView::Var(name@),
                    j <= env@.len(),
                    env@ == old(env)@,
                    s == env.deep_view(),
                    s.len() == env@.len(),
                    forall|k: int| 0 <= k < s.len() ==> s[k] == env@[k]@,
                    forall|k: int| j <= k < s.len() ==> s[k] != name@,
                decreases j,
            {
                j = j - 1;
                if env[j] == *name {
                    let idx: usize = env.len() - 1 - j;
                    proof {
                        lemma_env_map_last(s, name@);
                        assert(0 <= (j as int) && (j as int) < s.len() && s[j as int] == name@);
                        assert(exists|k: int| 0 <= k < s.len() && s[k] == name@);
                        assert(env_map(s).dom().contains(name@));
                        let p = env_map(s)[name@];
                        assert(p <= j) by {
                            if p > j {
                                assert(s[p] != name@);
                            }
                        };
                        assert(p >= j) by {
                            if p < j {
                                assert(s[j as int] != name@);
                            }
                        };
                    }
                    return DeBruijn::bound(name.clone(), idx);
                }
            }
            proof {
                lemma_env_map_last(s, name@);
            }
            DeBruijn::free(name.clone())
        }
        Church::Abs(name, body) => {
            let ghost s = env.deep_view();
            env.push(name.clone());
            proof {
                assert(env.deep_view() =~= s.push(name@));
                assert(s.push(name@).drop_last() =~= s);
            }
            let b = rename_impl(body, env);
            let _ = env.pop();
            proof {
                assert(env@ =~= old(env)@);
            }
            DeBruijn::abs(name.clone(), b)
        }
        Church::App(l, r) => {
            let l2 = rename_impl(l, env);
            let r2 = rename_impl(r, env);
            DeBruijn::app(l2, r2)
        }
    }
}

/// Resolve every name in a Church term, starting from an empty environment
/// at depth zero. Total: an unbound name becomes `Free`, never an error.
pub fn rename(exp: &Rc<Church>) -> (r: Rc<DeBruijn>)
    ensures
        r@ == rename_view(exp@, Map::empty(), 0),
{
    let mut env: Vec<String> = Vec::new();
    proof {
        assert(env.deep_view() =~= Seq::<Seq<char>>::empty());
    }
    rename_impl(exp, &mut env)
}

/// Substitution of `with` for the bound variable at index `target`: the
/// index grows by one for each abstraction crossed, matching occurrences are
/// replaced by `with` as it is, and everything else is rebuilt unchanged.
pub open spec fn subst_view(body: DbView, target: int, with: DbView) -> DbView
    decreases body,
{
    match body {
        DbView::Bound(n, i) => if i == target {
            with
        } else {
            DbView::Bound(n, i)
        },
        DbView::Free(n) => DbView::Free(n),
        DbView::Abs(n, inner) => DbView::Abs(n, Box::new(subst_view(*inner, target + 1, with))),
        DbView::App(l, r) => DbView::App(
            Box::new(subst_view(*l, target, with)),
            Box::new(subst_view(*r, target, with)),
        ),
    }
}

/// Every bound index occurring in `t` is strictly below `k`.
pub open spec fn idx_below(t: DbView, k: int) -> bool
    decreases t,
{
    match t {
        DbView::Bound(_n, i) => i < k,
        DbView::Free(_n) => true,
        DbView::Abs(_n, inner) => idx_below(*inner, k),
        DbView::App(l, r) => idx_below(*l, k) && idx_below(*r, k),
    }
}

/// Indices stored in a machine term are machine integers.
proof fn lemma_view_idx_below(t: &DeBruijn)
    ensures
        idx_below(t@, usize::MAX as int + 1),
    decreases *t,
{
    match t {
        DeBruijn::Bound(_n, _i) => {}
        DeBruijn::Free(_n) => {}
        DeBruijn::Abs(_n, b) => {
            lemma_view_idx_below(&**b);
        }
        DeBruijn::App(l, r) => {
            lemma_view_idx_below(&**l);
            lemma_view_idx_below(&**r);
        }
    }
}

/// Substituting for a target at or above every index in the term changes
/// nothing.
proof fn lemma_subst_above(t: DbView, k: int, target: int, with: DbView)
    requires
        idx_below(t, k),
        k <= target,
    ensures
        subst_view(t, target, with) == t,
    decreases t,
{
    match t {
        DbView::Bound(_n, _i) => {}
        DbView::Free(_n) => {}
        DbView::Abs(_n, inner) => {
            lemma_subst_above(*inner, k, target + 1, with);
        }
        DbView::App(l, r) => {
            lemma_subst_above(*l, k, target, with);
            lemma_subst_above(*r, k, target, with);
        }
    }
}

/// Substitute `with` for the bound occurrences of `target` inside `body`.
/// The replacement is shared, not copied, and is inserted as it is.
pub fn subst(target: Idx, body: &Rc<DeBruijn>, with: &Rc<DeBruijn>) -> (r: Rc<DeBruijn>)
    ensures
        r@ == subst_view(body@, target as int, with@),
    decreases **body,
{
    match &**body {
        DeBruijn::Bound(_name, idx) => {
            if *idx == target {
                rc_dup(with)
            } else {
                rc_dup(body)
            }
        }
        DeBruijn::Free(_name) => rc_dup(body),
        DeBruijn::Abs(name, inner) => {
            let new_inner = if target == usize::MAX {
                // no index stored in a term can match `target + 1`, so the
                // abstraction body is untouched
                proof {
                    lemma_view_idx_below(&**inner);
                    lemma_subst_above((**inner)@, usize::MAX as int + 1, target as int + 1, (**with)@);
                }
                rc_dup(inner)
            } else {
                subst(target + 1, inner, with)
            };
            DeBruijn::abs(name.clone(), new_inner)
        }
        DeBruijn::App(l, r) => {
            let l2 = subst(target, l, with);
            let r2 = subst(target, r, with);
            DeBruijn::app(l2, r2)
        }
    }
}

/// One call-by-name head reduction step; `None` when the term is already in
/// weak head normal form. An application whose head is an abstraction takes
/// one beta step, substituting the unevaluated argument; otherwise the step
/// happens inside the head, and a stuck head makes the whole term stuck.
pub open spec fn head_step(t: DbView) -> Option<DbView>
    decreases t,
{
    match t {
        DbView::App(l, r) => match *l {
            DbView::Abs(_n, body) => Some(subst_view(*body, 0, *r)),
            _ => match head_step(*l) {
                Some(l2) => Some(DbView::App(Box::new(l2), Box::new(*r))),
                None => None,
            },
        },
        _ => None,
    }
}

/// The term after at most `n` head steps; reduction stops as soon as weak
/// head normal form is reached.
pub open spec fn run(t: DbView, n: nat) -> DbView
    decreases n,
{
    if n == 0 {
        t
    } else {
        match head_step(t) {
            Some(t2) => run(t2, (n - 1) as nat),
            None => t,
        }
    }
}

/// Perform one head reduction step, or report weak head normal form.
pub fn step(exp: &Rc<DeBruijn>) -> (r: Option<Rc<DeBruijn>>)
    ensures
        match r {
            Some(t2) => head_step(exp@) == Some(t2@),
            None => head_step(exp@) is None,
        },
    decreases **exp,
{
    match &**exp {
        DeBruijn::App(l, r) => {
            proof {
                assert(exp@ == DbView::App(Box::new((**l)@), Box::new((**r)@)));
            }
            match &**l {
                DeBruijn::Abs(_name, body) => {
                    proof {
                        assert((**l)@ is Abs);
                    }
                    Some(subst(0, body, r))
                }
                DeBruijn::Bound(_name, _idx) => {
                    proof {
                        assert(head_step((**l)@) is None);
                    }
                    None
                }
                DeBruijn::Free(_name) => {
                    proof {
                        assert(head_step((**l)@) is None);
                    }
                    None
                }
                DeBruijn::App(_il, _ir) => {
                    match step(l) {
                        Some(l2) => Some(DeBruijn::app(l2, rc_dup(r))),
                        None => None,
                    }
                }
            }
        }
        DeBruijn::Bound(_name, _idx) => None,
        DeBruijn::Free(_name) => None,
        DeBruijn::Abs(_name, _body) => None,
    }
}

/// Reduce towards weak head normal form, taking at most `steps` head steps.
/// The first component is exactly the term after `steps` call-by-name head
/// steps (stopping early at weak head normal form); the second reports
/// whether that term is in weak head normal form. Reduction of a divergent
/// term simply exhausts the budget; the budget is the caller's, since the
/// calculus itself imposes no bound.
pub fn eval(exp: Rc<DeBruijn>, steps: u64) -> (r: (Rc<DeBruijn>, bool))
    ensures
        r.0@ == run(exp@, steps as nat),
        r.1 == (head_step(r.0@) is None),
{
    let ghost t0 = exp@;
    let mut cur = exp;
    let mut left = steps;
    let mut done = false;
    while left > 0 && !done
        invariant
            run(t0, steps as nat) == run(cur@, left as nat),
            done ==> head_step(cur@) is None,
            done ==> left == 0,
        decreases left,
    {
        match step(&cur) {
            Some(t2) => {
                proof {
                    assert(run(cur@, left as nat) == run(t2@, (left - 1) as nat));
                }
                cur = t2;
                left = left - 1;
            }
            None => {
                proof {
                    assert(run(cur@, left as nat) == cur@);
                    assert(run(cur@, 0) == cur@);
                }
                left = 0;
                done = true;
            }
        }
    }
    let fin = match step(&cur) {
        Some(_) => false,
        None => true,
    };
    proof {
        assert(run(cur@, 0) == cur@);
    }
    (cur, fin)
}

proof fn lemma_run_whnf(t: DbView, n: nat)
    requires
        head_step(t) is None,
    ensures
        run(t, n) == t,
{
}

/// The step budget does not matter once weak head normal form is reached:
/// any larger budget yields the same term. With `eval`'s contract this says
/// that a result reported as normal is THE weak head normal form of the
/// input, whatever budget found it.
pub proof fn lemma_whnf_budget_irrelevant(t: DbView, n: nat, m: nat)
    requires
        head_step(run(t, n)) is None,
        m >= n,
    ensures
        run(t, m) == run(t, n),
    decreases n,
{
    if n == 0 {
        lemma_run_whnf(t, m);
    } else {
        match head_step(t) {
            Some(t2) => {
                lemma_whnf_budget_irrelevant(t2, (n - 1) as nat, (m - 1) as nat);
            }
            None => {
                lemma_run_whnf(t, m);
            }
        }
    }
}

/// The lazy-argument law: a constant function applied to ANY argument —
/// including one whose own reduction would never end — reaches its body,
/// a free variable, in a single head step, and that body is in weak head
/// normal form. The argument is substituted but never reduced.
pub proof fn lemma_lazy_argument(h: Seq<char>, y: Seq<char>, arg: DbView)
    ensures
        head_step(
            DbView::App(Box::new(DbView::Abs(h, Box::new(DbView::Free(y)))), Box::new(arg)),
        ) == Some(DbView::Free(y)),
        forall|n: nat|
            n >= 1 ==> run(
                DbView::App(Box::new(DbView::Abs(h, Box::new(DbView::Free(y)))), Box::new(arg)),
                n,
            ) == DbView::Free(y),
{
    let t = DbView::App(Box::new(DbView::Abs(h, Box::new(DbView::Free(y)))), Box::new(arg));
    assert(subst_view(DbView::Free(y), 0, arg) == DbView::Free(y));
    assert forall|n: nat| n >= 1 implies run(t, n) == DbView::Free(y) by {
        assert(head_step(DbView::Free(y)) is None);
        assert(run(DbView::Free(y), (n - 1) as nat) == DbView::Free(y));
    }
}

} // verus!
