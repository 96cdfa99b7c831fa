use vstd::prelude::*;

use crate::error::IcoError;

verus! {

/// Runs the `n` steps `f(0), ..., f(n - 1)` in order and gathers their values;
/// the first step that fails decides the error.
pub open spec fn collect<T>(n: nat, f: spec_fn(int) -> Result<T, IcoError>) -> Result<
    Seq<T>,
    IcoError,
>
    decreases n,
{
    if n == 0 {
        Ok(Seq::empty())
    } else {
        match collect((n - 1) as nat, f) {
            Err(e) => Err(e),
            Ok(s) => match f(n - 1) {
                Err(e) => Err(e),
                Ok(x) => Ok(s.push(x)),
            },
        }
    }
}

/// Once a prefix of the steps has failed, running more steps keeps that error.
pub proof fn lemma_collect_err<T>(n: nat, m: nat, f: spec_fn(int) -> Result<T, IcoError>)
    requires
        n <= m,
        collect(n, f) is Err,
    ensures
        collect(m, f) == collect(n, f),
    decreases m,
{
    if m > n {
        lemma_collect_err(n, (m - 1) as nat, f);
    }
}

/// A successful run of `n` steps holds `n` values, the `i`-th being the value of `f(i)`.
pub proof fn lemma_collect_ok<T>(n: nat, f: spec_fn(int) -> Result<T, IcoError>)
    ensures
        collect(n, f) matches Ok(s) ==> s.len() == n && forall|i: int|
            0 <= i < n ==> f(i) == Ok::<T, IcoError>(#[trigger] s[i]),
    decreases n,
{
    if n > 0 {
        lemma_collect_ok((n - 1) as nat, f);
    }
}

/// When every one of the `n` steps succeeds, so does the whole run.
pub proof fn lemma_collect_all_ok<T>(n: nat, f: spec_fn(int) -> Result<T, IcoError>)
    requires
        forall|i: int| 0 <= i < n ==> (#[trigger] f(i)) is Ok,
    ensures
        collect(n, f) is Ok,
    decreases n,
{
    if n > 0 {
        lemma_collect_all_ok((n - 1) as nat, f);
        assert(f(n - 1) is Ok);
    }
}

/// The value of a vector result: its contents, or its error.
pub open spec fn vec_result<T>(r: Result<Vec<T>, IcoError>) -> Result<Seq<T>, IcoError> {
    match r {
        Ok(v) => Ok(v@),
        Err(e) => Err(e),
    }
}

} // verus!
