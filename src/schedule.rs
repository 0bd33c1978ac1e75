use vstd::prelude::*;

verus! {

/// Steps from `c` (counting from `d`) to the first entry of `elig` that is
/// set, cyclically; `elig.len()` when none is.
pub open spec fn first_offset(elig: Seq<bool>, c: int, d: int) -> int
    decreases elig.len() - d,
{
    if d < 0 || d >= elig.len() {
        elig.len() as int
    } else if elig[(c + d) % (elig.len() as int)] {
        d
    } else {
        first_offset(elig, c, d + 1)
    }
}

/// Round-robin choice: the first set entry at or after `c`, wrapping around.
pub open spec fn next_pick(elig: Seq<bool>, c: int) -> Option<int> {
    let d = first_offset(elig, c, 0);
    if d < elig.len() {
        Some((c + d) % (elig.len() as int))
    } else {
        None
    }
}

proof fn lemma_first_offset(elig: Seq<bool>, c: int, d: int, t: int)
    requires
        0 <= d <= t,
        t <= elig.len(),
        t < elig.len() ==> elig[(c + t) % (elig.len() as int)],
    ensures
        d <= first_offset(elig, c, d) <= t,
        first_offset(elig, c, d) < elig.len() ==> elig[(c + first_offset(elig, c, d)) % (
        elig.len() as int)],
        forall|e: int| d <= e < first_offset(elig, c, d) ==> !elig[#[trigger] ((c + e) % (elig.len() as int))],
    decreases t - d,
{
    if d < t && !elig[(c + d) % (elig.len() as int)] {
        lemma_first_offset(elig, c, d + 1, t);
        assert forall|e: int| d <= e < first_offset(elig, c, d) implies !elig[#[trigger] ((c + e) % (
        elig.len() as int))] by {
            if e > d {
            }
        }
    }
}

proof fn lemma_mod_two_n(x: int, n: int)
    requires
        0 < n,
        0 <= x < 2 * n,
    ensures
        x % n == (if x < n { x } else { x - n }),
{
    if x < n {
        vstd::arithmetic::div_mod::lemma_small_mod(x as nat, n as nat);
    } else {
        vstd::arithmetic::div_mod::lemma_small_mod((x - n) as nat, n as nat);
        vstd::arithmetic::div_mod::lemma_mod_sub_multiples_vanish(x, n);
    }
}

/// Picks, round-robin from `cursor`, the first position whose entry is set.
pub fn pick(elig: &Vec<bool>, cursor: usize) -> (r: Option<usize>)
    requires
        cursor <= elig@.len(),
    ensures
        match next_pick(elig@, cursor as int) {
            Some(p) => r == Some(p as usize),
            None => r is None,
        },
        r matches Some(p) ==> p < elig@.len() && elig@[p as int],
{
    let n = elig.len();
    let ghost e = elig@;
    proof {
        lemma_first_offset(e, cursor as int, 0, n as int);
    }
    let mut d: usize = 0;
    while d < n
        invariant
            n == e.len(),
            e == elig@,
            cursor <= n,
            d <= n,
            forall|k: int| 0 <= k < d ==> !e[#[trigger] ((cursor + k) % (n as int))],
            0 <= first_offset(e, cursor as int, 0) <= n,
            first_offset(e, cursor as int, 0) < n ==> e[(cursor + first_offset(e, cursor as int, 0)) % (n as int)],
            forall|k: int| 0 <= k < first_offset(e, cursor as int, 0) ==> !e[#[trigger] ((cursor + k) % (n as int))],
        decreases n - d,
    {
        let idx: usize = if d < n - cursor { cursor + d } else { d - (n - cursor) };
        proof {
            lemma_mod_two_n(cursor + d, n as int);
        }
        if elig[idx] {
            assert(first_offset(e, cursor as int, 0) == d);
            return Some(idx);
        }
        d = d + 1;
    }
    assert(first_offset(e, cursor as int, 0) == n) by {
        if first_offset(e, cursor as int, 0) < n {
            let f = first_offset(e, cursor as int, 0);
            assert(!e[(cursor + f) % (n as int)]);
        }
    }
    None
}

/// After stream `i` was served (the scan then starts right after it), any
/// other stream `j` that is still waiting is served before `i` again: no
/// stream with data is passed over while another is served twice.
pub proof fn lemma_round_robin_no_starvation(elig: Seq<bool>, i: int, j: int)
    requires
        0 <= i < elig.len(),
        0 <= j < elig.len(),
        i != j,
        elig[i],
        elig[j],
    ensures
        next_pick(elig, i + 1) is Some,
        next_pick(elig, i + 1)->0 != i,
{
    let n = elig.len() as int;
    let c = i + 1;
    let dj = if j > i { j - i - 1 } else { j + n - i - 1 };
    lemma_mod_two_n(c + dj, n);
    lemma_first_offset(elig, c, 0, dj);
    let r = first_offset(elig, c, 0);
    lemma_mod_two_n(c + r, n);
}

} // verus!
