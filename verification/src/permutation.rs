//! Products over `1..=n`, and the fact that rearranging the factors keeps
//! the product: an injective map of `1..=n` into itself multiplies out to
//! `n!`.

use vstd::prelude::*;

verus! {

/// `f(1) * f(2) * ... * f(n)`.
pub open spec fn product_to(f: spec_fn(int) -> int, n: nat) -> int
    decreases n,
{
    if n == 0 {
        1
    } else {
        f(n as int) * product_to(f, (n - 1) as nat)
    }
}

/// `n!`.
pub open spec fn factorial(n: nat) -> int {
    product_to(|i: int| i, n)
}

/// `f` maps `1..=n` into itself.
pub open spec fn maps_into(f: spec_fn(int) -> int, n: nat) -> bool {
    forall|i: int| 1 <= i <= n ==> 1 <= #[trigger] f(i) <= n
}

/// `f` takes no value twice on `1..=n`.
pub open spec fn injective_on(f: spec_fn(int) -> int, n: nat) -> bool {
    forall|i: int, j: int|
        1 <= i <= n && 1 <= j <= n && #[trigger] f(i) == #[trigger] f(j) ==> i == j
}

/// `f` takes the value `y` somewhere on `1..=n`.
pub open spec fn reaches(f: spec_fn(int) -> int, n: nat, y: int) -> bool {
    exists|i: int| 1 <= i <= n && #[trigger] f(i) == y
}

/// `f` reaches every number of `1..=n` from within `1..=n`.
pub open spec fn reaches_all(f: spec_fn(int) -> int, n: nat) -> bool {
    forall|y: int| 1 <= y <= n ==> #[trigger] reaches(f, n, y)
}

/// Maps that agree on `1..=n` have the same product.
pub proof fn lemma_product_agrees(f: spec_fn(int) -> int, g: spec_fn(int) -> int, n: nat)
    requires
        forall|i: int| 1 <= i <= n ==> #[trigger] f(i) == g(i),
    ensures
        product_to(f, n) == product_to(g, n),
    decreases n,
{
    if n > 0 {
        lemma_product_agrees(f, g, (n - 1) as nat);
    }
}

/// Maps that agree on `1..=n` but at `at` have products in the ratio of
/// their values there.
proof fn lemma_product_differs_once(
    f: spec_fn(int) -> int,
    g: spec_fn(int) -> int,
    n: nat,
    at: int,
)
    requires
        1 <= at <= n,
        forall|i: int| 1 <= i <= n && i != at ==> #[trigger] f(i) == g(i),
    ensures
        product_to(f, n) * g(at) == product_to(g, n) * f(at),
    decreases n,
{
    let m = (n - 1) as nat;
    if at == n {
        lemma_product_agrees(f, g, m);
        assert((f(at) * product_to(f, m)) * g(at) == (g(at) * product_to(f, m)) * f(at))
            by (nonlinear_arith);
    } else {
        lemma_product_differs_once(f, g, m, at);
        assert(f(n as int) == g(n as int));
        assert((g(n as int) * product_to(f, m)) * g(at) == (g(n as int) * product_to(g, m)) * f(
            at,
        )) by (nonlinear_arith)
            requires
                product_to(f, m) * g(at) == product_to(g, m) * f(at),
        {
        }
    }
}

/// An injective map of `1..=n` into itself reaches every number there, and
/// its values multiply out to `n!`.
pub proof fn lemma_rearranged_product(f: spec_fn(int) -> int, n: nat)
    requires
        maps_into(f, n),
        injective_on(f, n),
    ensures
        reaches_all(f, n),
        product_to(f, n) == factorial(n),
    decreases n,
{
    if n > 0 {
        let m = (n - 1) as nat;
        let last = f(n as int);
        // `g` is `f` on `1..=n-1`, except that where `f` takes the value
        // `n` it takes the value that `f` has at `n`.
        let g = |i: int|
            if f(i) == n {
                last
            } else {
                f(i)
            };
        assert(maps_into(g, m)) by {
            assert forall|i: int| 1 <= i <= m implies 1 <= #[trigger] g(i) <= m by {
                assert(1 <= f(i) <= n);
                assert(f(i) != f(n as int));
            }
        }
        assert(injective_on(g, m)) by {
            assert forall|i: int, j: int|
                1 <= i <= m && 1 <= j <= m && #[trigger] g(i) == #[trigger] g(j) implies i
                == j by {
                assert(f(i) != f(n as int));
                assert(f(j) != f(n as int));
                assert(f(i) == f(j));
            }
        }
        lemma_rearranged_product(g, m);
        let id = |i: int| i;
        assert(factorial(n) == n * factorial(m)) by {
            assert(id(n as int) == n);
        }
        let hit = reaches(f, m, n as int);
        if last == n {
            assert(!hit) by {
                if hit {
                    let i = choose|i: int| 1 <= i <= m && #[trigger] f(i) == n;
                    assert(f(i) == f(n as int));
                }
            }
        } else {
            assert(hit) by {
                if !hit {
                    // Then `g` is `f` on `1..=n-1` and reaches `last` there,
                    // which `f` takes at `n` already.
                    assert(1 <= last <= m);
                    assert(reaches(g, m, last));
                    let i = choose|i: int| 1 <= i <= m && #[trigger] g(i) == last;
                    assert(f(i) != n);
                    assert(f(i) == f(n as int));
                }
            }
        }
        if hit {
            let at = choose|i: int| 1 <= i <= m && #[trigger] f(i) == n;
            assert forall|i: int| 1 <= i <= m && i != at implies #[trigger] f(i) == g(i) by {
                if f(i) == n {
                    assert(f(i) == f(at));
                }
            }
            lemma_product_differs_once(f, g, m, at);
            assert(g(at) == last);
            assert(last * product_to(f, m) == n * product_to(g, m)) by (nonlinear_arith)
                requires
                    product_to(f, m) * last == product_to(g, m) * n,
            {
            }
        } else {
            assert forall|i: int| 1 <= i <= m implies #[trigger] f(i) == g(i) by {
                assert(f(i) != n);
            }
            lemma_product_agrees(f, g, m);
        }
        assert forall|y: int| 1 <= y <= n implies #[trigger] reaches(f, n, y) by {
            if y == last {
                assert(f(n as int) == y);
            } else if y == n {
                let at = choose|i: int| 1 <= i <= m && #[trigger] f(i) == n;
                assert(1 <= at <= n && f(at) == y);
            } else {
                assert(reaches(g, m, y));
                let i = choose|i: int| 1 <= i <= m && #[trigger] g(i) == y;
                assert(1 <= i <= n && f(i) == y);
            }
        }
    }
}

} // verus!
