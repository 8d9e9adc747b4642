use vstd::prelude::*;

verus! {

/// Index of the sprite at pixel position `(x, y)` of a sheet of 8x8 cells laid
/// out 16 cells per row.
pub open spec fn sheet_index(x: nat, y: nat) -> nat {
    x / 8 + (y / 8) * 16
}

/// Spritesheet index of the cell holding pixel `(x, y)`.
pub fn ss_idx(x: u16, y: u16) -> (r: u16)
    requires
        sheet_index(x as nat, y as nat) <= u16::MAX,
    ensures
        r == sheet_index(x as nat, y as nat),
{
    x / 8 + y / 8 * 16
}

/// The sequence that holds each value of `items` as many times as its weight,
/// in the order of `items`.
pub open spec fn weighted_seq<T>(items: Seq<(T, usize)>) -> Seq<T>
    decreases items.len(),
{
    if items.len() == 0 {
        Seq::empty()
    } else {
        weighted_seq(items.drop_last()) + Seq::new(items.last().1 as nat, |_i: int| items.last().0)
    }
}

/// Expands `(value, weight)` pairs into a vector where each value appears
/// `weight` times, so that a uniform pick from it is a weighted pick.
pub fn make_weighted_vec<T: Copy>(items: &[(T, usize)]) -> (r: Vec<T>)
    requires
        items@.len() > 0,
    ensures
        r@ == weighted_seq(items@),
{
    let mut out: Vec<T> = Vec::new();
    let mut i: usize = 0;
    while i < items.len()
        invariant
            i <= items@.len(),
            out@ == weighted_seq(items@.subrange(0, i as int)),
        decreases items@.len() - i,
    {
        let (v, n) = items[i];
        let ghost before = out@;
        let mut j: usize = 0;
        while j < n
            invariant
                j <= n,
                out@ == before + Seq::new(j as nat, |_k: int| v),
            decreases n - j,
        {
            out.push(v);
            proof {
                assert(out@ =~= before + Seq::new((j + 1) as nat, |_k: int| v));
            }
            j = j + 1;
        }
        proof {
            let next = items@.subrange(0, i + 1);
            assert(next.drop_last() =~= items@.subrange(0, i as int));
            assert(next.last() == (v, n));
        }
        i = i + 1;
    }
    proof {
        assert(items@.subrange(0, items@.len() as int) =~= items@);
    }
    out
}

} // verus!
