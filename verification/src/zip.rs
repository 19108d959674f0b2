use vstd::prelude::*;

verus! {

/// Pairs the items of two slices position by position, up to the shorter of
/// the two, and numbers each pair by its position.
pub fn iter_zip_enum<'s, 't, S, T>(s: &'s [S], t: &'t [T]) -> (res: Vec<(usize, (&'s S, &'t T))>)
    ensures
        res.len() == if s.len() <= t.len() { s.len() } else { t.len() },
        forall|i: int|
            0 <= i < res.len() ==> (#[trigger] res@[i]).0 == i && *res@[i].1.0 == s@[i]
                && *res@[i].1.1 == t@[i],
{
    let n: usize = if s.len() <= t.len() { s.len() } else { t.len() };
    let mut res: Vec<(usize, (&'s S, &'t T))> = Vec::new();
    let mut i: usize = 0;
    while i < n
        invariant
            n <= s.len(),
            n <= t.len(),
            i <= n,
            res.len() == i,
            forall|k: int|
                0 <= k < i ==> (#[trigger] res@[k]).0 == k && *res@[k].1.0 == s@[k]
                    && *res@[k].1.1 == t@[k],
        decreases n - i,
    {
        res.push((i, (&s[i], &t[i])));
        i = i + 1;
    }
    res
}

} // verus!
