//! Operations on rows of fixed-point numbers.
use crate::fixed::{fx_add, fx_div, fx_half, fx_mul, fx_neg, fx_sub, in_range, Fixed, SCALE};
use vstd::prelude::*;

verus! {

/// The raw values of a row.
pub open spec fn raws(v: Seq<Fixed>) -> Seq<int> {
    Seq::new(v.len(), |i: int| v[i]@)
}

/// The sum of the first `n` products `a[k] * b[k]`, accumulated in order.
pub open spec fn dot(a: Seq<int>, b: Seq<int>, n: nat) -> int
    decreases n,
{
    if n == 0 {
        0
    } else {
        fx_add(dot(a, b, (n - 1) as nat), fx_mul(a[n - 1], b[n - 1]))
    }
}

/// Whether no product and no partial sum of `dot(a, b, n)` was clipped.
pub open spec fn dot_in_range(a: Seq<int>, b: Seq<int>, n: nat) -> bool
    decreases n,
{
    n == 0 || (dot_in_range(a, b, (n - 1) as nat) && in_range(fx_mul(a[n - 1], b[n - 1]))
        && in_range(dot(a, b, n)))
}

/// Whether every entry of a row lies strictly inside the range.
pub open spec fn row_in_range(a: Seq<int>) -> bool {
    forall|j: int| 0 <= j < a.len() ==> in_range(#[trigger] a[j])
}

/// Whether entry `j` of `row_eliminate(a, f, p)` was computed without
/// clipping: neither the product nor the difference.
pub open spec fn eliminate_entry_in_range(a: Seq<int>, f: int, p: Seq<int>, j: int) -> bool {
    in_range(fx_mul(f, p[j])) && in_range(fx_sub(a[j], fx_mul(f, p[j])))
}

/// Whether `row_eliminate(a, f, p)` was computed without clipping.
pub open spec fn row_eliminate_in_range(a: Seq<int>, f: int, p: Seq<int>) -> bool {
    forall|j: int| 0 <= j < a.len() ==> #[trigger] eliminate_entry_in_range(a, f, p, j)
}

/// The entrywise sum of two rows of one length.
pub open spec fn row_add(a: Seq<int>, b: Seq<int>) -> Seq<int> {
    Seq::new(a.len(), |j: int| fx_add(a[j], b[j]))
}

/// The entrywise difference of two rows of one length.
pub open spec fn row_sub(a: Seq<int>, b: Seq<int>) -> Seq<int> {
    Seq::new(a.len(), |j: int| fx_sub(a[j], b[j]))
}

/// The row `a` with every entry multiplied by `c`.
pub open spec fn row_scale(a: Seq<int>, c: int) -> Seq<int> {
    Seq::new(a.len(), |j: int| fx_mul(a[j], c))
}

/// The row `a` with every entry divided by `c`, for `c != 0`.
pub open spec fn row_div(a: Seq<int>, c: int) -> Seq<int> {
    Seq::new(a.len(), |j: int| fx_div(a[j], c))
}

/// The row `a` less `f` times the row `p`.
pub open spec fn row_eliminate(a: Seq<int>, f: int, p: Seq<int>) -> Seq<int> {
    Seq::new(a.len(), |j: int| fx_sub(a[j], fx_mul(f, p[j])))
}

/// The row `a` with every entry halved.
pub open spec fn row_half(a: Seq<int>) -> Seq<int> {
    Seq::new(a.len(), |j: int| fx_half(a[j]))
}

/// The exact sum of `acc` and the squares of the first `n` entries of `a`,
/// in squares of billionths.
pub open spec fn sum_squares(acc: int, a: Seq<int>, n: nat) -> int
    decreases n,
{
    if n == 0 {
        acc
    } else {
        sum_squares(acc, a, (n - 1) as nat) + a[n - 1] * a[n - 1]
    }
}

/// The row `a` with every entry negated.
pub open spec fn row_neg(a: Seq<int>) -> Seq<int> {
    Seq::new(a.len(), |j: int| fx_neg(a[j]))
}

/// The row of `n` entries that holds one at place `i` and zero elsewhere.
pub open spec fn row_unit(n: nat, i: int) -> Seq<int> {
    Seq::new(
        n,
        |j: int|
            if j == i {
                SCALE as int
            } else {
                0
            },
    )
}

/// The sum of the first `n` products of the entries of two rows.
pub fn dot_prefix(a: &Vec<Fixed>, b: &Vec<Fixed>, n: usize) -> (r: Fixed)
    requires
        n <= a.len(),
        n <= b.len(),
    ensures
        r@ == dot(raws(a@), raws(b@), n as nat),
{
    let mut acc = Fixed::zero();
    let mut k: usize = 0;
    while k < n
        invariant
            k <= n <= a.len(),
            n <= b.len(),
            acc@ == dot(raws(a@), raws(b@), k as nat),
        decreases n - k,
    {
        acc = acc.sat_add(a[k].sat_mul(b[k]));
        k = k + 1;
    }
    acc
}

/// The entrywise sum of two rows of one length.
pub fn add_rows(a: &Vec<Fixed>, b: &Vec<Fixed>) -> (r: Vec<Fixed>)
    requires
        a.len() == b.len(),
    ensures
        raws(r@) == row_add(raws(a@), raws(b@)),
{
    let mut out: Vec<Fixed> = Vec::new();
    let mut j: usize = 0;
    while j < a.len()
        invariant
            j <= a.len() == b.len(),
            out.len() == j,
            forall|t: int| 0 <= t < j ==> out[t]@ == fx_add(a[t]@, b[t]@),
        decreases a.len() - j,
    {
        out.push(a[j].sat_add(b[j]));
        j = j + 1;
    }
    assert(raws(out@) =~= row_add(raws(a@), raws(b@)));
    out
}

/// The entrywise difference of two rows of one length.
pub fn sub_rows(a: &Vec<Fixed>, b: &Vec<Fixed>) -> (r: Vec<Fixed>)
    requires
        a.len() == b.len(),
    ensures
        raws(r@) == row_sub(raws(a@), raws(b@)),
{
    let mut out: Vec<Fixed> = Vec::new();
    let mut j: usize = 0;
    while j < a.len()
        invariant
            j <= a.len() == b.len(),
            out.len() == j,
            forall|t: int| 0 <= t < j ==> out[t]@ == fx_sub(a[t]@, b[t]@),
        decreases a.len() - j,
    {
        out.push(a[j].sat_sub(b[j]));
        j = j + 1;
    }
    assert(raws(out@) =~= row_sub(raws(a@), raws(b@)));
    out
}

/// The row `a` with every entry multiplied by `c`.
pub fn scale_row(a: &Vec<Fixed>, c: Fixed) -> (r: Vec<Fixed>)
    ensures
        raws(r@) == row_scale(raws(a@), c@),
{
    let mut out: Vec<Fixed> = Vec::new();
    let mut j: usize = 0;
    while j < a.len()
        invariant
            j <= a.len(),
            out.len() == j,
            forall|t: int| 0 <= t < j ==> out[t]@ == fx_mul(a[t]@, c@),
        decreases a.len() - j,
    {
        out.push(a[j].sat_mul(c));
        j = j + 1;
    }
    assert(raws(out@) =~= row_scale(raws(a@), c@));
    out
}

/// The row `a` with every entry divided by `c`.
pub fn div_row(a: &Vec<Fixed>, c: Fixed) -> (r: Vec<Fixed>)
    requires
        c@ != 0,
    ensures
        raws(r@) == row_div(raws(a@), c@),
{
    let mut out: Vec<Fixed> = Vec::new();
    let mut j: usize = 0;
    while j < a.len()
        invariant
            c@ != 0,
            j <= a.len(),
            out.len() == j,
            forall|t: int| 0 <= t < j ==> out[t]@ == fx_div(a[t]@, c@),
        decreases a.len() - j,
    {
        let q = match a[j].checked_div(c) {
            Some(q) => q,
            None => Fixed::zero(),
        };
        out.push(q);
        j = j + 1;
    }
    assert(raws(out@) =~= row_div(raws(a@), c@));
    out
}

/// The row `a` less `f` times the row `p`.
pub fn eliminate_row(a: &Vec<Fixed>, f: Fixed, p: &Vec<Fixed>) -> (r: Vec<Fixed>)
    requires
        a.len() == p.len(),
    ensures
        raws(r@) == row_eliminate(raws(a@), f@, raws(p@)),
{
    let mut out: Vec<Fixed> = Vec::new();
    let mut j: usize = 0;
    while j < a.len()
        invariant
            j <= a.len() == p.len(),
            out.len() == j,
            forall|t: int| 0 <= t < j ==> out[t]@ == fx_sub(a[t]@, fx_mul(f@, p[t]@)),
        decreases a.len() - j,
    {
        out.push(a[j].sat_sub(f.sat_mul(p[j])));
        j = j + 1;
    }
    assert(raws(out@) =~= row_eliminate(raws(a@), f@, raws(p@)));
    out
}

/// The row `a` with every entry halved.
pub fn halve_row(a: &Vec<Fixed>) -> (r: Vec<Fixed>)
    ensures
        raws(r@) == row_half(raws(a@)),
{
    let mut out: Vec<Fixed> = Vec::new();
    let mut j: usize = 0;
    while j < a.len()
        invariant
            j <= a.len(),
            out.len() == j,
            forall|t: int| 0 <= t < j ==> out[t]@ == fx_half(a[t]@),
        decreases a.len() - j,
    {
        out.push(a[j].half());
        j = j + 1;
    }
    assert(raws(out@) =~= row_half(raws(a@)));
    out
}

/// The row `a` with every entry negated.
pub fn neg_row(a: &Vec<Fixed>) -> (r: Vec<Fixed>)
    ensures
        raws(r@) == row_neg(raws(a@)),
{
    let mut out: Vec<Fixed> = Vec::new();
    let mut j: usize = 0;
    while j < a.len()
        invariant
            j <= a.len(),
            out.len() == j,
            forall|t: int| 0 <= t < j ==> out[t]@ == fx_neg(a[t]@),
        decreases a.len() - j,
    {
        out.push(a[j].neg());
        j = j + 1;
    }
    assert(raws(out@) =~= row_neg(raws(a@)));
    out
}

/// The row of `n` entries that holds one at place `i` and zero elsewhere.
pub fn unit_row(n: usize, i: usize) -> (r: Vec<Fixed>)
    ensures
        raws(r@) == row_unit(n as nat, i as int),
{
    let mut out: Vec<Fixed> = Vec::new();
    let mut j: usize = 0;
    while j < n
        invariant
            j <= n,
            out.len() == j,
            forall|t: int| 0 <= t < j ==> out[t]@ == (if t == i { SCALE as int } else { 0 }),
        decreases n - j,
    {
        if j == i {
            out.push(Fixed::one());
        } else {
            out.push(Fixed::zero());
        }
        j = j + 1;
    }
    assert(raws(out@) =~= row_unit(n as nat, i as int));
    out
}

/// The entries of `a` from place `lo` up to, not including, place `hi`.
pub fn copy_range(a: &Vec<Fixed>, lo: usize, hi: usize) -> (r: Vec<Fixed>)
    requires
        lo <= hi <= a.len(),
    ensures
        r@ == a@.subrange(lo as int, hi as int),
        raws(r@) == raws(a@).subrange(lo as int, hi as int),
{
    let mut out: Vec<Fixed> = Vec::new();
    let mut j: usize = lo;
    while j < hi
        invariant
            lo <= j <= hi <= a.len(),
            out.len() == j - lo,
            forall|t: int| 0 <= t < j - lo ==> out[t] == a[lo + t],
        decreases hi - j,
    {
        out.push(a[j]);
        j = j + 1;
    }
    assert(out@ =~= a@.subrange(lo as int, hi as int));
    assert(raws(out@) =~= raws(a@).subrange(lo as int, hi as int));
    out
}

/// The row `a` followed by the row `b`.
pub fn concat_rows(a: &Vec<Fixed>, b: &Vec<Fixed>) -> (r: Vec<Fixed>)
    ensures
        r@ == a@ + b@,
        raws(r@) == raws(a@) + raws(b@),
{
    let mut out: Vec<Fixed> = copy_range(a, 0, a.len());
    let mut j: usize = 0;
    while j < b.len()
        invariant
            j <= b.len(),
            out.len() == a.len() + j,
            forall|t: int| 0 <= t < a.len() ==> out[t] == a[t],
            forall|t: int| 0 <= t < j ==> out[a.len() + t] == b[t],
        decreases b.len() - j,
    {
        out.push(b[j]);
        j = j + 1;
    }
    assert(out@ =~= a@ + b@);
    assert(raws(out@) =~= raws(a@) + raws(b@));
    out
}

/// The row `a` with `v` at place `j`.
pub fn with_entry(a: &Vec<Fixed>, j: usize, v: Fixed) -> (r: Vec<Fixed>)
    requires
        j < a.len(),
    ensures
        r@ == a@.update(j as int, v),
        raws(r@) == raws(a@).update(j as int, v@),
{
    let mut out: Vec<Fixed> = copy_range(a, 0, a.len());
    out.set(j, v);
    assert(out@ =~= a@.update(j as int, v));
    assert(raws(out@) =~= raws(a@).update(j as int, v@));
    out
}

/// Whether no product and no partial sum of the first `n` products was
/// clipped.
pub fn dot_prefix_in_range(a: &Vec<Fixed>, b: &Vec<Fixed>, n: usize) -> (r: bool)
    requires
        n <= a.len(),
        n <= b.len(),
    ensures
        r == dot_in_range(raws(a@), raws(b@), n as nat),
{
    let mut acc = Fixed::zero();
    let mut k: usize = 0;
    while k < n
        invariant
            k <= n <= a.len(),
            n <= b.len(),
            acc@ == dot(raws(a@), raws(b@), k as nat),
            dot_in_range(raws(a@), raws(b@), k as nat),
        decreases n - k,
    {
        let product = a[k].sat_mul(b[k]);
        acc = acc.sat_add(product);
        if !product.is_in_range() || !acc.is_in_range() {
            proof {
                lemma_dot_stays_out_of_range(raws(a@), raws(b@), (k + 1) as nat, n as nat);
            }
            return false;
        }
        k = k + 1;
    }
    true
}

/// Once a product or a partial sum was clipped, the whole sum counts as
/// clipped.
pub proof fn lemma_dot_stays_out_of_range(a: Seq<int>, b: Seq<int>, k: nat, n: nat)
    requires
        k <= n,
        !dot_in_range(a, b, k),
    ensures
        !dot_in_range(a, b, n),
    decreases n,
{
    if k < n {
        lemma_dot_stays_out_of_range(a, b, k, (n - 1) as nat);
    }
}

/// Whether every entry of the row lies strictly inside the range.
pub fn row_is_in_range(a: &Vec<Fixed>) -> (r: bool)
    ensures
        r == row_in_range(raws(a@)),
{
    let mut j: usize = 0;
    while j < a.len()
        invariant
            j <= a.len(),
            forall|t: int| 0 <= t < j ==> in_range(#[trigger] raws(a@)[t]),
        decreases a.len() - j,
    {
        if !a[j].is_in_range() {
            assert(!in_range(raws(a@)[j as int]));
            return false;
        }
        j = j + 1;
    }
    true
}

/// Whether the row `a` less `f` times the row `p` is computed without
/// clipping.
pub fn eliminate_row_in_range(a: &Vec<Fixed>, f: Fixed, p: &Vec<Fixed>) -> (r: bool)
    requires
        a.len() == p.len(),
    ensures
        r == row_eliminate_in_range(raws(a@), f@, raws(p@)),
{
    let mut j: usize = 0;
    while j < a.len()
        invariant
            j <= a.len() == p.len(),
            forall|t: int|
                0 <= t < j ==> #[trigger] eliminate_entry_in_range(raws(a@), f@, raws(p@), t),
        decreases a.len() - j,
    {
        let product = f.sat_mul(p[j]);
        if !product.is_in_range() || !a[j].sat_sub(product).is_in_range() {
            assert(!eliminate_entry_in_range(raws(a@), f@, raws(p@), j as int));
            return false;
        }
        j = j + 1;
    }
    true
}

} // verus!
