//! Calls into itertools.
use vstd::prelude::*;
use itertools::Itertools;

verus! {

/// Relies on `itertools::Itertools::cartesian_product` over `0..n` and `0..m`:
/// every pair once, the first component major.
#[verifier::external_body]
pub(crate) fn index_pairs(n: usize, m: usize) -> (r: Vec<(usize, usize)>)
    requires
        n * m <= usize::MAX,
    ensures
        r@.len() == n * m,
        forall|k: int|
            0 <= k < n * m ==> #[trigger] r@[k] == ((k / m as int) as usize, (k % m as int) as usize),
{
    (0..n).cartesian_product(0..m).collect()
}

/// Relies on `itertools::Itertools::all_equal`: true exactly when no two
/// elements differ (so also when there are none).
#[verifier::external_body]
pub(crate) fn all_equal_signs(v: &Vec<crate::basis::Sign>) -> (r: bool)
    ensures
        r == (forall|a: int, b: int| 0 <= a < v@.len() && 0 <= b < v@.len() ==> v@[a] == v@[b]),
{
    v.iter().all_equal()
}

} // verus!

verus! {

/// The parts joined into one sequence, with `sep` between neighbours.
pub open spec fn joined(parts: Seq<Seq<char>>, sep: Seq<char>) -> Seq<char>
    decreases parts.len(),
{
    if parts.len() == 0 {
        seq![]
    } else if parts.len() == 1 {
        parts[0]
    } else {
        joined(parts.drop_last(), sep) + sep + parts.last()
    }
}

/// Relies on `itertools::Itertools::join`: the strings in order, with `sep`
/// between neighbours.
#[verifier::external_body]
pub(crate) fn join_strings(parts: &Vec<String>, sep: &str) -> (r: String)
    ensures
        r@ == joined(parts@.map_values(|p: String| p@), sep@),
{
    parts.iter().join(sep)
}

} // verus!
