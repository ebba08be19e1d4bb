//! Helpers for stating contracts over views.

use vstd::prelude::*;

verus! {

/// The views of the items of a sequence, in the same order.
pub open spec fn views<T: View>(items: Seq<T>) -> Seq<T::V> {
    items.map_values(|item: T| item@)
}

/// Viewing commutes with appending an item.
pub proof fn lemma_views_push<T: View>(items: Seq<T>, item: T)
    ensures
        views(items.push(item)) == views(items).push(item@),
{
    assert(views(items.push(item)) =~= views(items).push(item@));
}

/// A fallible result `res` is the outcome that the model `want` describes:
/// the same error, or a value with the modelled view.
pub open spec fn agrees<T: View, E>(res: Result<T, E>, want: Result<T::V, E>) -> bool {
    match (res, want) {
        (Ok(v), Ok(m)) => v@ == m,
        (Err(e), Err(f)) => e == f,
        _ => false,
    }
}

/// As [`agrees`], for a result whose error has a view too.
pub open spec fn agrees_in_view<T: View, E: View>(
    res: Result<T, E>,
    want: Result<T::V, E::V>,
) -> bool {
    match (res, want) {
        (Ok(v), Ok(m)) => v@ == m,
        (Err(e), Err(f)) => e@ == f,
        _ => false,
    }
}

} // verus!
