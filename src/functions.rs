use vstd::prelude::*;

verus! {

/// `f` accepts every argument and gives one result for each: it computes a
/// function of its argument.
pub open spec fn is_function<A, B, F: Fn(A) -> B>(f: F) -> bool {
    &&& forall|a: A| #[trigger] f.requires((a,))
    &&& forall|a: A, b1: B, b2: B|
        #[trigger] f.ensures((a,), b1) && #[trigger] f.ensures((a,), b2) ==> b1 == b2
}

/// The result of `f` on `a`.
pub open spec fn apply<A, B, F: Fn(A) -> B>(f: F, a: A) -> B {
    choose|b: B| f.ensures((a,), b)
}

/// `f` accepts every pair of arguments and gives one result for each.
pub open spec fn is_function2<A, X, B, F: Fn(A, X) -> B>(f: F) -> bool {
    &&& forall|a: A, x: X| #[trigger] f.requires((a, x))
    &&& forall|a: A, x: X, b1: B, b2: B|
        #[trigger] f.ensures((a, x), b1) && #[trigger] f.ensures((a, x), b2) ==> b1 == b2
}

/// The result of `f` on `a` and `x`.
pub open spec fn apply2<A, X, B, F: Fn(A, X) -> B>(f: F, a: A, x: X) -> B {
    choose|b: B| f.ensures((a, x), b)
}

/// Calls `f`, whose result is then the one that `apply` names.
pub fn call<A, B, F: Fn(A) -> B>(f: &F, a: A) -> (r: B)
    requires
        is_function(*f),
    ensures
        r == apply(*f, a),
{
    let ghost a0 = a;
    let r = f(a);
    proof {
        let b = apply(*f, a0);
        assert(f.ensures((a0,), b));
    }
    r
}

/// Calls `f`, whose result is then the one that `apply2` names.
pub fn call2<A, X, B, F: Fn(A, X) -> B>(f: &F, a: A, x: X) -> (r: B)
    requires
        is_function2(*f),
    ensures
        r == apply2(*f, a, x),
{
    let ghost a0 = a;
    let ghost x0 = x;
    let r = f(a, x);
    proof {
        let b = apply2(*f, a0, x0);
        assert(f.ensures((a0, x0), b));
    }
    r
}

} // verus!
