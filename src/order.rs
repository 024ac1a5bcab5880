use vstd::prelude::*;

verus! {

/// Position of the first smallest first component among the first `n` items.
pub open spec fn min_pos_upto(s: Seq<(u64, u64, u64)>, n: int) -> int
    decreases n,
{
    if n <= 1 {
        0
    } else {
        let m = min_pos_upto(s, n - 1);
        if s[n - 1].0 < s[m].0 {
            n - 1
        } else {
            m
        }
    }
}

/// Position of the first item with the smallest first component.
pub open spec fn min_pos(s: Seq<(u64, u64, u64)>) -> int {
    min_pos_upto(s, s.len() as int)
}

/// `s` sorted by first component, ascending; items with equal first
/// components keep their relative order.
pub open spec fn sort_by_first(s: Seq<(u64, u64, u64)>) -> Seq<(u64, u64, u64)>
    decreases s.len(),
{
    let m = min_pos(s);
    if s.len() == 0 || m < 0 || m >= s.len() {
        s
    } else {
        seq![s[m]] + sort_by_first(s.remove(m))
    }
}

/// The position of the first item with the smallest first component.
fn min_position(s: &Vec<(u64, u64, u64)>) -> (r: usize)
    requires
        s@.len() > 0,
    ensures
        r as int == min_pos(s@),
        r < s@.len(),
{
    let mut best: usize = 0;
    let mut i: usize = 1;
    while i < s.len()
        invariant
            1 <= i <= s@.len(),
            best as int == min_pos_upto(s@, i as int),
            best < i,
        decreases s@.len() - i,
    {
        if s[i].0 < s[best].0 {
            best = i;
        }
        i = i + 1;
    }
    best
}

/// Sorts by first component, ascending and stable.
pub fn sort_triples(v: Vec<(u64, u64, u64)>) -> (r: Vec<(u64, u64, u64)>)
    ensures
        r@ == sort_by_first(v@),
{
    let ghost all = v@;
    let mut rest = v;
    let mut out: Vec<(u64, u64, u64)> = Vec::new();
    assert(out@ + sort_by_first(rest@) =~= sort_by_first(all));
    while rest.len() > 0
        invariant
            out@ + sort_by_first(rest@) == sort_by_first(all),
        decreases rest@.len(),
    {
        let m = min_position(&rest);
        let ghost before = rest@;
        let ghost done = out@;
        let x = rest.remove(m);
        out.push(x);
        proof {
            assert(sort_by_first(before) == seq![x] + sort_by_first(rest@));
            assert(out@ + sort_by_first(rest@) =~= done + sort_by_first(before));
        }
    }
    assert(sort_by_first(rest@) == rest@);
    assert(out@ =~= out@ + rest@);
    out
}

} // verus!
