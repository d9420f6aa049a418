//! Keeping the candidates that a checker accepted.
use crate::path::views;
use vstd::prelude::*;

verus! {

/// The candidates of `c` whose verdict in `v` (same position) is `true`, in order.
pub open spec fn kept(c: Seq<Seq<char>>, v: Seq<bool>) -> Seq<Seq<char>>
    decreases c.len(),
{
    if c.len() == 0 || v.len() == 0 {
        Seq::empty()
    } else {
        let rest = kept(c.drop_last(), v.drop_last());
        if v.last() {
            rest.push(c.last())
        } else {
            rest
        }
    }
}

/// `out` is read off `c` at the strictly increasing positions `idx`, each of
/// whose verdict in `v` is `true`.
pub open spec fn selects(idx: Seq<int>, c: Seq<Seq<char>>, v: Seq<bool>, out: Seq<Seq<char>>) -> bool {
    &&& idx.len() == out.len()
    &&& forall|j: int| 0 <= j < idx.len() ==> 0 <= #[trigger] idx[j] < c.len()
    &&& forall|j: int| 0 <= j < idx.len() ==> #[trigger] out[j] == c[idx[j]] && v[idx[j]]
    &&& forall|j: int, l: int| 0 <= j < l < idx.len() ==> #[trigger] idx[j] < #[trigger] idx[l]
}

proof fn selection_of_kept(c: Seq<Seq<char>>, v: Seq<bool>) -> (idx: Seq<int>)
    requires
        c.len() == v.len(),
    ensures
        selects(idx, c, v, kept(c, v)),
    decreases c.len(),
{
    if c.len() == 0 {
        Seq::empty()
    } else {
        let n = c.len() - 1;
        let rest = selection_of_kept(c.drop_last(), v.drop_last());
        if v.last() {
            let idx = rest.push(n);
            assert forall|j: int| 0 <= j < idx.len() implies kept(c, v)[j] == c[idx[j]]
                && v[idx[j]] by {
                if j < rest.len() {
                    assert(kept(c, v)[j] == kept(c.drop_last(), v.drop_last())[j]);
                }
            }
            idx
        } else {
            rest
        }
    }
}

/// Filtering keeps the order of its input and holds no candidate that the
/// checker refused: the result is read off the candidates at increasing
/// positions whose verdict is `true`.
pub proof fn kept_is_an_ordered_selection(c: Seq<Seq<char>>, v: Seq<bool>)
    requires
        c.len() == v.len(),
    ensures
        exists|idx: Seq<int>| selects(idx, c, v, kept(c, v)),
{
    let idx = selection_of_kept(c, v);
    assert(selects(idx, c, v, kept(c, v)));
}

/// Keeps the candidates whose verdict (same position) is `true`, in order.
pub fn filter_valid(candidates: &Vec<String>, verdicts: &Vec<bool>) -> (r: Vec<String>)
    requires
        candidates@.len() == verdicts@.len(),
    ensures
        views(r@) == kept(views(candidates@), verdicts@),
{
    let mut out: Vec<String> = Vec::new();
    let mut i: usize = 0;
    assert(views(out@) =~= Seq::<Seq<char>>::empty());
    while i < candidates.len()
        invariant
            i <= candidates@.len(),
            candidates@.len() == verdicts@.len(),
            views(out@) == kept(
                views(candidates@).subrange(0, i as int),
                verdicts@.subrange(0, i as int),
            ),
        decreases candidates@.len() - i,
    {
        let ghost before = views(out@);
        assert(views(candidates@).subrange(0, i as int + 1).drop_last() == views(
            candidates@,
        ).subrange(0, i as int));
        assert(verdicts@.subrange(0, i as int + 1).drop_last() == verdicts@.subrange(0, i as int));
        if verdicts[i] {
            out.push(candidates[i].clone());
            assert(views(out@) =~= before.push(candidates@[i as int]@));
        }
        i = i + 1;
    }
    assert(views(candidates@).subrange(0, i as int) == views(candidates@));
    assert(verdicts@.subrange(0, i as int) == verdicts@);
    out
}

} // verus!
