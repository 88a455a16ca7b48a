//! Terminal nodes, one per rule, and the boolean guards over alpha results.
use vstd::prelude::*;

use crate::grl::ast::Stmt;

verus! {

/// Index of an alpha node.
pub type AlphaId = usize;

/// Boolean combination of alpha-node results.
#[derive(Debug)]
pub enum Guard {
    True,
    False,
    Alpha(AlphaId),
    And(Vec<Guard>),
    Or(Vec<Guard>),
    Not(Box<Guard>),
}

/// A compiled rule: its guard, salience and actions.
#[derive(Debug)]
pub struct Terminal {
    pub rule_name: String,
    pub salience: i32,
    pub guard: Guard,
    pub actions: Vec<Stmt>,
}

/// What a guard evaluates to on the alpha truth values (a missing alpha is false).
pub open spec fn spec_guard(g: Guard, alphas: Seq<bool>) -> bool
    decreases g,
{
    match g {
        Guard::True => true,
        Guard::False => false,
        Guard::Alpha(id) => id < alphas.len() && alphas[id as int],
        Guard::And(gs) => {
            proof {
                assert(decreases_to!(gs => gs@));
            }
            all_guards(gs@, alphas)
        },
        Guard::Or(gs) => {
            proof {
                assert(decreases_to!(gs => gs@));
            }
            any_guard(gs@, alphas)
        },
        Guard::Not(inner) => !spec_guard(*inner, alphas),
    }
}

pub open spec fn all_guards(gs: Seq<Guard>, alphas: Seq<bool>) -> bool
    decreases gs,
{
    if gs.len() == 0 {
        true
    } else {
        proof {
            assert(gs.drop_first() =~= gs.subrange(1, gs.len() as int));
        }
        spec_guard(gs[0], alphas) && all_guards(gs.drop_first(), alphas)
    }
}

pub open spec fn any_guard(gs: Seq<Guard>, alphas: Seq<bool>) -> bool
    decreases gs,
{
    if gs.len() == 0 {
        false
    } else {
        proof {
            assert(gs.drop_first() =~= gs.subrange(1, gs.len() as int));
        }
        spec_guard(gs[0], alphas) || any_guard(gs.drop_first(), alphas)
    }
}

impl Guard {
    /// Evaluate against the pre-computed alpha truth values.
    #[verifier::loop_isolation(false)]
    pub fn eval(&self, alphas: &[bool]) -> (r: bool)
        ensures
            r == spec_guard(*self, alphas@),
        decreases self,
    {
        match self {
            Guard::True => true,
            Guard::False => false,
            Guard::Alpha(id) => *id < alphas.len() && alphas[*id],
            Guard::And(gs) => {
                let mut i: usize = 0;
                let mut all = true;
                assert(gs@.skip(0) =~= gs@);
                while all && i < gs.len()
                    invariant
                        i <= gs@.len(),
                        all ==> all_guards(gs@, alphas@) == all_guards(gs@.skip(i as int), alphas@),
                        !all ==> !all_guards(gs@, alphas@),
                    decreases gs.len() - i,
                {
                    proof {
                        assert(decreases_to!(*self => *gs));
                        assert(decreases_to!(*gs => gs@));
                        assert(decreases_to!(gs@ => gs@[i as int]));
                        assert(gs@.skip(i as int).drop_first() =~= gs@.skip(i + 1));
                    }
                    if !gs[i].eval(alphas) {
                        all = false;
                    }
                    i += 1;
                }
                proof {
                    if all {
                        assert(gs@.skip(i as int).len() == 0);
                    }
                }
                all
            },
            Guard::Or(gs) => {
                let mut i: usize = 0;
                let mut any = false;
                assert(gs@.skip(0) =~= gs@);
                while !any && i < gs.len()
                    invariant
                        i <= gs@.len(),
                        !any ==> any_guard(gs@, alphas@) == any_guard(gs@.skip(i as int), alphas@),
                        any ==> any_guard(gs@, alphas@),
                    decreases gs.len() - i,
                {
                    proof {
                        assert(decreases_to!(*self => *gs));
                        assert(decreases_to!(*gs => gs@));
                        assert(decreases_to!(gs@ => gs@[i as int]));
                        assert(gs@.skip(i as int).drop_first() =~= gs@.skip(i + 1));
                    }
                    if gs[i].eval(alphas) {
                        any = true;
                    }
                    i += 1;
                }
                proof {
                    if !any {
                        assert(gs@.skip(i as int).len() == 0);
                    }
                }
                any
            },
            Guard::Not(inner) => !inner.eval(alphas),
        }
    }
}

proof fn lemma_all_concat(a: Seq<Guard>, b: Seq<Guard>, alphas: Seq<bool>)
    ensures
        all_guards(a + b, alphas) == (all_guards(a, alphas) && all_guards(b, alphas)),
    decreases a.len(),
{
    if a.len() > 0 {
        assert((a + b).drop_first() =~= a.drop_first() + b);
        lemma_all_concat(a.drop_first(), b, alphas);
    } else {
        assert(a + b =~= b);
    }
}

proof fn lemma_any_concat(a: Seq<Guard>, b: Seq<Guard>, alphas: Seq<bool>)
    ensures
        any_guard(a + b, alphas) == (any_guard(a, alphas) || any_guard(b, alphas)),
    decreases a.len(),
{
    if a.len() > 0 {
        assert((a + b).drop_first() =~= a.drop_first() + b);
        lemma_any_concat(a.drop_first(), b, alphas);
    } else {
        assert(a + b =~= b);
    }
}

proof fn lemma_all_single(x: Guard, alphas: Seq<bool>)
    ensures
        all_guards(seq![x], alphas) == spec_guard(x, alphas),
{
    reveal_with_fuel(all_guards, 2);
    assert(seq![x].drop_first() =~= Seq::<Guard>::empty());
}

proof fn lemma_any_single(x: Guard, alphas: Seq<bool>)
    ensures
        any_guard(seq![x], alphas) == spec_guard(x, alphas),
{
    reveal_with_fuel(any_guard, 2);
    assert(seq![x].drop_first() =~= Seq::<Guard>::empty());
}

/// Every alpha id in the guard is below `n`.
pub open spec fn guard_bounded(g: Guard, n: int) -> bool
    decreases g,
{
    match g {
        Guard::True => true,
        Guard::False => true,
        Guard::Alpha(id) => id < n,
        Guard::And(gs) => {
            proof {
                assert(decreases_to!(gs => gs@));
            }
            all_bounded(gs@, n)
        },
        Guard::Or(gs) => {
            proof {
                assert(decreases_to!(gs => gs@));
            }
            all_bounded(gs@, n)
        },
        Guard::Not(inner) => guard_bounded(*inner, n),
    }
}

pub open spec fn all_bounded(gs: Seq<Guard>, n: int) -> bool
    decreases gs,
{
    if gs.len() == 0 {
        true
    } else {
        proof {
            assert(gs.drop_first() =~= gs.subrange(1, gs.len() as int));
        }
        guard_bounded(gs[0], n) && all_bounded(gs.drop_first(), n)
    }
}

/// A bounded guard reads only the alpha values below its bound.
pub proof fn lemma_guard_ext(g: Guard, a: Seq<bool>, b: Seq<bool>)
    requires
        guard_bounded(g, a.len() as int),
        a.len() <= b.len(),
        forall|i: int| 0 <= i < a.len() ==> a[i] == b[i],
    ensures
        spec_guard(g, a) == spec_guard(g, b),
    decreases g,
{
    match g {
        Guard::And(gs) => {
            assert(decreases_to!(g => gs));
            lemma_all_ext(gs@, a, b);
        },
        Guard::Or(gs) => {
            assert(decreases_to!(g => gs));
            lemma_all_ext(gs@, a, b);
        },
        Guard::Not(inner) => {
            lemma_guard_ext(*inner, a, b);
        },
        _ => {},
    }
}

proof fn lemma_all_ext(gs: Seq<Guard>, a: Seq<bool>, b: Seq<bool>)
    requires
        all_bounded(gs, a.len() as int),
        a.len() <= b.len(),
        forall|i: int| 0 <= i < a.len() ==> a[i] == b[i],
    ensures
        all_guards(gs, a) == all_guards(gs, b),
        any_guard(gs, a) == any_guard(gs, b),
    decreases gs,
{
    if gs.len() > 0 {
        assert(decreases_to!(gs => gs[0]));
        lemma_guard_ext(gs[0], a, b);
        assert(gs.drop_first() =~= gs.subrange(1, gs.len() as int));
        lemma_all_ext(gs.drop_first(), a, b);
    }
}

proof fn lemma_bounded_concat(a: Seq<Guard>, b: Seq<Guard>, n: int)
    ensures
        all_bounded(a + b, n) == (all_bounded(a, n) && all_bounded(b, n)),
    decreases a.len(),
{
    if a.len() > 0 {
        assert((a + b).drop_first() =~= a.drop_first() + b);
        lemma_bounded_concat(a.drop_first(), b, n);
    } else {
        assert(a + b =~= b);
    }
}

proof fn lemma_bounded_single(x: Guard, n: int)
    ensures
        all_bounded(seq![x], n) == guard_bounded(x, n),
{
    reveal_with_fuel(all_bounded, 2);
    assert(seq![x].drop_first() =~= Seq::<Guard>::empty());
}

/// The conjunction of two guards, flattening nested `And`s.
pub fn merge_and(l: Guard, r: Guard) -> (g: Guard)
    ensures
        forall|alphas: Seq<bool>| #[trigger] spec_guard(g, alphas) == (spec_guard(l, alphas)
            && spec_guard(r, alphas)),
        forall|n: int| guard_bounded(l, n) && guard_bounded(r, n) ==> #[trigger] guard_bounded(g, n),
{
    let ghost gl = l;
    let ghost gr = r;
    match (l, r) {
        (Guard::And(mut a), Guard::And(mut b)) => {
            let ghost a0 = a@;
            let ghost b0 = b@;
            a.append(&mut b);
            proof {
                assert forall|alphas: Seq<bool>| #[trigger] spec_guard(Guard::And(a), alphas) == (
                spec_guard(gl, alphas) && spec_guard(gr, alphas)) by {
                    lemma_all_concat(a0, b0, alphas);
                }
            }
            proof {
                assert forall|n: int| guard_bounded(gl, n) && guard_bounded(gr, n) implies #[trigger] guard_bounded(Guard::And(a), n) by {
                    lemma_bounded_concat(a0, b0, n);
                }
            }
            Guard::And(a)
        },
        (Guard::And(mut a), b) => {
            let ghost a0 = a@;
            let ghost gb = b;
            a.push(b);
            proof {
                assert forall|alphas: Seq<bool>| #[trigger] spec_guard(Guard::And(a), alphas) == (
                spec_guard(gl, alphas) && spec_guard(gr, alphas)) by {
                    lemma_all_concat(a0, seq![gb], alphas);
                    lemma_all_single(gb, alphas);
                    assert(a0.push(gb) =~= a0 + seq![gb]);
                }
            }
            proof {
                assert forall|n: int| guard_bounded(gl, n) && guard_bounded(gr, n) implies #[trigger] guard_bounded(Guard::And(a), n) by {
                    lemma_bounded_concat(a0, seq![gb], n); lemma_bounded_single(gb, n); assert(a0.push(gb) =~= a0 + seq![gb]);
                }
            }
            Guard::And(a)
        },
        (a, Guard::And(mut b)) => {
            let ghost b0 = b@;
            let ghost ga = a;
            b.insert(0, a);
            proof {
                assert forall|alphas: Seq<bool>| #[trigger] spec_guard(Guard::And(b), alphas) == (
                spec_guard(gl, alphas) && spec_guard(gr, alphas)) by {
                    lemma_all_concat(seq![ga], b0, alphas);
                    lemma_all_single(ga, alphas);
                    assert(b0.insert(0, ga) =~= seq![ga] + b0);
                }
            }
            proof {
                assert forall|n: int| guard_bounded(gl, n) && guard_bounded(gr, n) implies #[trigger] guard_bounded(Guard::And(b), n) by {
                    lemma_bounded_concat(seq![ga], b0, n); lemma_bounded_single(ga, n); assert(b0.insert(0, ga) =~= seq![ga] + b0);
                }
            }
            Guard::And(b)
        },
        (a, b) => {
            let ghost ga = a;
            let ghost gb = b;
            let v = vec![a, b];
            proof {
                assert forall|alphas: Seq<bool>| #[trigger] spec_guard(Guard::And(v), alphas) == (
                spec_guard(gl, alphas) && spec_guard(gr, alphas)) by {
                    lemma_all_concat(seq![ga], seq![gb], alphas);
                    lemma_all_single(ga, alphas);
                    lemma_all_single(gb, alphas);
                    assert(v@ =~= seq![ga] + seq![gb]);
                }
            }
            proof {
                assert forall|n: int| guard_bounded(gl, n) && guard_bounded(gr, n) implies #[trigger] guard_bounded(Guard::And(v), n) by {
                    lemma_bounded_concat(seq![ga], seq![gb], n); lemma_bounded_single(ga, n); lemma_bounded_single(gb, n); assert(v@ =~= seq![ga] + seq![gb]);
                }
            }
            Guard::And(v)
        },
    }
}

/// The disjunction of two guards, flattening nested `Or`s.
pub fn merge_or(l: Guard, r: Guard) -> (g: Guard)
    ensures
        forall|alphas: Seq<bool>| #[trigger] spec_guard(g, alphas) == (spec_guard(l, alphas)
            || spec_guard(r, alphas)),
        forall|n: int| guard_bounded(l, n) && guard_bounded(r, n) ==> #[trigger] guard_bounded(g, n),
{
    let ghost gl = l;
    let ghost gr = r;
    match (l, r) {
        (Guard::Or(mut a), Guard::Or(mut b)) => {
            let ghost a0 = a@;
            let ghost b0 = b@;
            a.append(&mut b);
            proof {
                assert forall|alphas: Seq<bool>| #[trigger] spec_guard(Guard::Or(a), alphas) == (
                spec_guard(gl, alphas) || spec_guard(gr, alphas)) by {
                    lemma_any_concat(a0, b0, alphas);
                }
            }
            proof {
                assert forall|n: int| guard_bounded(gl, n) && guard_bounded(gr, n) implies #[trigger] guard_bounded(Guard::Or(a), n) by {
                    lemma_bounded_concat(a0, b0, n);
                }
            }
            Guard::Or(a)
        },
        (Guard::Or(mut a), b) => {
            let ghost a0 = a@;
            let ghost gb = b;
            a.push(b);
            proof {
                assert forall|alphas: Seq<bool>| #[trigger] spec_guard(Guard::Or(a), alphas) == (
                spec_guard(gl, alphas) || spec_guard(gr, alphas)) by {
                    lemma_any_concat(a0, seq![gb], alphas);
                    lemma_any_single(gb, alphas);
                    assert(a0.push(gb) =~= a0 + seq![gb]);
                }
            }
            proof {
                assert forall|n: int| guard_bounded(gl, n) && guard_bounded(gr, n) implies #[trigger] guard_bounded(Guard::Or(a), n) by {
                    lemma_bounded_concat(a0, seq![gb], n); lemma_bounded_single(gb, n); assert(a0.push(gb) =~= a0 + seq![gb]);
                }
            }
            Guard::Or(a)
        },
        (a, Guard::Or(mut b)) => {
            let ghost b0 = b@;
            let ghost ga = a;
            b.insert(0, a);
            proof {
                assert forall|alphas: Seq<bool>| #[trigger] spec_guard(Guard::Or(b), alphas) == (
                spec_guard(gl, alphas) || spec_guard(gr, alphas)) by {
                    lemma_any_concat(seq![ga], b0, alphas);
                    lemma_any_single(ga, alphas);
                    assert(b0.insert(0, ga) =~= seq![ga] + b0);
                }
            }
            proof {
                assert forall|n: int| guard_bounded(gl, n) && guard_bounded(gr, n) implies #[trigger] guard_bounded(Guard::Or(b), n) by {
                    lemma_bounded_concat(seq![ga], b0, n); lemma_bounded_single(ga, n); assert(b0.insert(0, ga) =~= seq![ga] + b0);
                }
            }
            Guard::Or(b)
        },
        (a, b) => {
            let ghost ga = a;
            let ghost gb = b;
            let v = vec![a, b];
            proof {
                assert forall|alphas: Seq<bool>| #[trigger] spec_guard(Guard::Or(v), alphas) == (
                spec_guard(gl, alphas) || spec_guard(gr, alphas)) by {
                    lemma_any_concat(seq![ga], seq![gb], alphas);
                    lemma_any_single(ga, alphas);
                    lemma_any_single(gb, alphas);
                    assert(v@ =~= seq![ga] + seq![gb]);
                }
            }
            proof {
                assert forall|n: int| guard_bounded(gl, n) && guard_bounded(gr, n) implies #[trigger] guard_bounded(Guard::Or(v), n) by {
                    lemma_bounded_concat(seq![ga], seq![gb], n); lemma_bounded_single(ga, n); lemma_bounded_single(gb, n); assert(v@ =~= seq![ga] + seq![gb]);
                }
            }
            Guard::Or(v)
        },
    }
}

} // verus!
