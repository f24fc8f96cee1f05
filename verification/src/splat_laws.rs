//! What the operations on splats do, number by number: what comes out of them
//! in terms of what goes in, for any arithmetic on numbers, and how several of
//! them relate where the arithmetic has the usual properties.

use crate::gaussian_splats::{
    Coefficients, RasterPass, RenderInputs, SplatRenderMode, Splats, TextureMode,
};
use crate::matrix::{Matrix, Table};
use crate::min_scale::{fold_min_scale, foldable, Folding};
use crate::splat_math::{has_one_result, joint_len, keeps_shapes, repeatable, same_shape, SplatMath};
use vstd::prelude::*;

verus! {

/// Arithmetic on single numbers.
pub struct Numbers {
    pub plus: spec_fn(u32, u32) -> u32,
    pub minus: spec_fn(u32, u32) -> u32,
    pub times: spec_fn(u32, u32) -> u32,
    pub over: spec_fn(u32, u32) -> u32,
    pub neg: spec_fn(u32) -> u32,
    pub exp: spec_fn(u32) -> u32,
    pub log: spec_fn(u32) -> u32,
    pub sigmoid: spec_fn(u32) -> u32,
    pub clamp: spec_fn(u32, u32, u32) -> u32,
    pub sum: spec_fn(Seq<u32>) -> u32,
}

/// A table with each number replaced.
pub open spec fn mapped(table: Table, f: spec_fn(u32) -> u32) -> Table {
    Table {
        width: table.width,
        rows: Seq::new(table.rows.len(), |i: int| Seq::new(table.width, |j: int| f(table.rows[i][j]))),
    }
}

/// The number at `i` of a list, which may be a single number that is repeated.
pub open spec fn pick(list: Seq<u32>, i: int) -> u32 {
    if list.len() == 1 {
        list[0]
    } else {
        list[i]
    }
}

/// Two lists combined number by number.
pub open spec fn combined(a: Seq<u32>, b: Seq<u32>, f: spec_fn(u32, u32) -> u32) -> Seq<u32> {
    Seq::new(joint_len(a.len(), b.len()), |i: int| f(pick(a, i), pick(b, i)))
}

/// Whether arithmetic on tables and lists is this arithmetic on each of their
/// numbers.
pub open spec fn computes<M: SplatMath>(math: &M, n: Numbers) -> bool {
    &&& forall|x: Matrix, factor: u32, y: Matrix|
        x.wf() && #[trigger] call_ensures(M::times, (math, &x, factor), y) ==> y.wf() && y@ == mapped(
            x@,
            |c: u32| (n.times)(c, factor),
        )
    &&& forall|x: Matrix, offset: u32, y: Matrix|
        x.wf() && #[trigger] call_ensures(M::plus, (math, &x, offset), y) ==> y.wf() && y@ == mapped(
            x@,
            |c: u32| (n.plus)(c, offset),
        )
    &&& forall|x: Matrix, y: Matrix|
        x.wf() && #[trigger] call_ensures(M::exp, (math, &x), y) ==> y.wf() && y@ == mapped(x@, n.exp)
    &&& forall|x: Matrix, y: Matrix|
        x.wf() && #[trigger] call_ensures(M::log, (math, &x), y) ==> y.wf() && y@ == mapped(x@, n.log)
    &&& forall|x: Matrix, o: Vec<u32>, y: Matrix|
        x.wf() && #[trigger] call_ensures(M::plus_per_row, (math, &x, &o), y) ==> y.wf() && y@ == (Table {
            width: x@.width,
            rows: Seq::new(x@.rows.len(), |i: int| Seq::new(x@.width, |j: int| (n.plus)(x@.rows[i][j], o@[i]))),
        })
    &&& forall|x: Matrix, o: Matrix, y: Matrix|
        x.wf() && #[trigger] call_ensures(M::minus, (math, &x, &o), y) ==> y.wf() && y@ == (Table {
            width: x@.width,
            rows: Seq::new(
                x@.rows.len(),
                |i: int| Seq::new(x@.width, |j: int| (n.minus)(x@.rows[i][j], o@.rows[i][j])),
            ),
        })
    &&& forall|x: Matrix, y: Vec<u32>|
        x.wf() && #[trigger] call_ensures(M::row_sums, (math, &x), y) ==> y@ == Seq::new(
            x@.rows.len(),
            |i: int| (n.sum)(x@.rows[i]),
        )
    &&& forall|x: Vec<u32>, factor: u32, y: Vec<u32>|
        #[trigger] call_ensures(M::times_each, (math, &x, factor), y) ==> y@ == x@.map_values(
            |c: u32| (n.times)(c, factor),
        )
    &&& forall|x: Vec<u32>, offset: u32, y: Vec<u32>|
        #[trigger] call_ensures(M::plus_each, (math, &x, offset), y) ==> y@ == x@.map_values(
            |c: u32| (n.plus)(c, offset),
        )
    &&& forall|x: Vec<u32>, y: Vec<u32>|
        #[trigger] call_ensures(M::exp_each, (math, &x), y) ==> y@ == x@.map_values(n.exp)
    &&& forall|x: Vec<u32>, y: Vec<u32>|
        #[trigger] call_ensures(M::log_each, (math, &x), y) ==> y@ == x@.map_values(n.log)
    &&& forall|x: Vec<u32>, y: Vec<u32>|
        #[trigger] call_ensures(M::negated, (math, &x), y) ==> y@ == x@.map_values(n.neg)
    &&& forall|x: Vec<u32>, y: Vec<u32>|
        #[trigger] call_ensures(M::sigmoid, (math, &x), y) ==> y@ == x@.map_values(n.sigmoid)
    &&& forall|x: Vec<u32>, min: u32, max: u32, y: Vec<u32>|
        #[trigger] call_ensures(M::clamped, (math, &x, min, max), y) ==> y@ == x@.map_values(
            |c: u32| (n.clamp)(c, min, max),
        )
    &&& forall|x: Vec<u32>, o: Vec<u32>, y: Vec<u32>|
        repeatable(x@.len(), o@.len()) && #[trigger] call_ensures(M::product, (math, &x, &o), y) ==> y@ == combined(
            x@,
            o@,
            n.times,
        )
    &&& forall|x: Vec<u32>, o: Vec<u32>, y: Vec<u32>|
        repeatable(x@.len(), o@.len()) && #[trigger] call_ensures(M::quotient, (math, &x, &o), y) ==> y@ == combined(
            x@,
            o@,
            n.over,
        )
    &&& forall|value: u32, y: u32| #[trigger] call_ensures(M::ln, (math, value), y) ==> y == (n.log)(value)
}

/// Arithmetic on each number keeps shapes.
proof fn lemma_computes_keeps_shapes<M: SplatMath>(math: &M, n: Numbers)
    requires
        computes(math, n),
    ensures
        keeps_shapes(math),
{
    assert forall|x: Matrix, factor: u32, y: Matrix|
        x.wf() && #[trigger] call_ensures(M::times, (math, &x, factor), y) implies same_shape(&x, &y) by {
        assert(y@.rows.len() == x@.rows.len() && y@.width == x@.width);
    }
    assert forall|x: Matrix, offset: u32, y: Matrix|
        x.wf() && #[trigger] call_ensures(M::plus, (math, &x, offset), y) implies same_shape(&x, &y) by {
        assert(y@.rows.len() == x@.rows.len() && y@.width == x@.width);
    }
    assert forall|x: Matrix, y: Matrix|
        x.wf() && #[trigger] call_ensures(M::exp, (math, &x), y) implies same_shape(&x, &y) by {
        assert(y@.rows.len() == x@.rows.len() && y@.width == x@.width);
    }
    assert forall|x: Matrix, y: Matrix|
        x.wf() && #[trigger] call_ensures(M::log, (math, &x), y) implies same_shape(&x, &y) by {
        assert(y@.rows.len() == x@.rows.len() && y@.width == x@.width);
    }
    assert forall|x: Matrix, o: Vec<u32>, y: Matrix|
        x.wf() && #[trigger] call_ensures(M::plus_per_row, (math, &x, &o), y) implies same_shape(&x, &y) by {
        assert(y@.rows.len() == x@.rows.len() && y@.width == x@.width);
    }
    assert forall|x: Matrix, o: Matrix, y: Matrix|
        x.wf() && #[trigger] call_ensures(M::minus, (math, &x, &o), y) implies same_shape(&x, &y) by {
        assert(y@.rows.len() == x@.rows.len() && y@.width == x@.width);
    }
}

/// Folding in a floor, number by number. Each log scale becomes half the
/// logarithm of `exp(2 * log) + f * f`, where `f` is the floor of its splat,
/// and every other number of the transforms stays. The opacity of a splat, the
/// logistic function of its raw opacity, is multiplied by the exponential of
/// what its log scales lost in all and kept off zero and one by a millionth;
/// what comes out is raw again.
pub proof fn law_folding_number_by_number<M: SplatMath>(
    math: &M,
    n: Numbers,
    transforms: Matrix,
    raw_opac: Vec<u32>,
    f: Vec<u32>,
    result: (Matrix, Vec<u32>),
    i: int,
    q: int,
)
    requires
        computes(math, n),
        foldable(&transforms, &raw_opac, &f),
        call_ensures(fold_min_scale::<M>, (&transforms, &raw_opac, &f, math), result),
        0 <= q < joint_len(raw_opac@.len(), transforms.rows as nat),
        i == if transforms.rows == 1 {
            0
        } else {
            q
        },
    ensures
        result.0@.rows.len() == transforms.rows,
        result.0@.width == transforms.cols,
        result.1@.len() == joint_len(raw_opac@.len(), transforms.rows as nat),
        forall|k: int|
            0 <= k < transforms.cols && !(7 <= k < 10) ==> #[trigger] result.0@.rows[i][k] == transforms@.rows[i][k],
        forall|k: int|
            7 <= k < 10 && k < transforms.cols ==> #[trigger] result.0@.rows[i][k] == (n.times)(
                (n.log)(
                    (n.plus)(
                        (n.exp)((n.times)(transforms@.rows[i][k], 0x4000_0000)),
                        (n.times)(f@[i], f@[i]),
                    ),
                ),
                0x3f00_0000,
            ),
        result.1@[q] == ({
            let opacity = (n.clamp)(
                (n.times)((n.sigmoid)(pick(raw_opac@, q)), shrunk(n, transforms@.rows[i], result.0@.rows[i])),
                0x3586_37bd,
                0x3f7f_ffef,
            );
            (n.log)((n.over)(opacity, (n.plus)((n.neg)(opacity), 0x3f80_0000)))
        }),
{
    crate::matrix::lemma_rows_are_full(&transforms);
    lemma_computes_keeps_shapes(math, n);
    lemma_folded(math, n, transforms@, raw_opac@, f@, result.0@, result.1@, i, q);
}

/// What folding may give, number by number.
proof fn lemma_folded<M: SplatMath>(
    math: &M,
    n: Numbers,
    t: Table,
    raw_opac: Seq<u32>,
    f: Seq<u32>,
    new_t: Table,
    new_raw: Seq<u32>,
    i: int,
    q: int,
)
    requires
        computes(math, n),
        t.wf(),
        f.len() == t.rows.len(),
        repeatable(raw_opac.len(), t.rows.len()),
        crate::min_scale::folded(math, t, raw_opac, f, new_t, new_raw),
        0 <= q < joint_len(raw_opac.len(), t.rows.len()),
        i == if t.rows.len() == 1 {
            0
        } else {
            q
        },
    ensures
        new_t.wf(),
        new_t.rows.len() == t.rows.len(),
        new_t.width == t.width,
        new_raw.len() == joint_len(raw_opac.len(), t.rows.len()),
        forall|k: int| 0 <= k < t.width && !(7 <= k < 10) ==> #[trigger] new_t.rows[i][k] == t.rows[i][k],
        forall|k: int|
            7 <= k < 10 && k < t.width ==> #[trigger] new_t.rows[i][k] == (n.times)(
                (n.log)((n.plus)((n.exp)((n.times)(t.rows[i][k], 0x4000_0000)), (n.times)(f[i], f[i]))),
                0x3f00_0000,
            ),
        new_raw[q] == ({
            let opacity = (n.clamp)(
                (n.times)((n.sigmoid)(pick(raw_opac, q)), shrunk(n, t.rows[i], new_t.rows[i])),
                0x3586_37bd,
                0x3f7f_ffef,
            );
            (n.log)((n.over)(opacity, (n.plus)((n.neg)(opacity), 0x3f80_0000)))
        }),
{
    lemma_computes_keeps_shapes(math, n);
    crate::min_scale::law_folding_changes_scales_alone(math, t, raw_opac, f, new_t, new_raw);
    let by = choose|by: Folding|
        {
            &&& #[trigger] by.folds(math, t, raw_opac, f)
            &&& new_t == t.with_columns(7, by.new_log@)
            &&& new_raw == by.new_raw@
        };
    let (start, end) = (t.clip(7), t.clip(10));
    let log = by.log_scales@;
    assert(log.rows.len() == t.rows.len() && log.width == end - start);
    assert(by.log_scales.rows == t.rows.len());
    lemma_new_log_scales(math, n, by.log_scales, by.floor, by.new_log);
    let new_log = by.new_log@;
    crate::matrix::lemma_rows_are_full(&by.new_log);
    assert(t.rows[i].len() == t.width);
    assert(new_log.rows[i].len() == end - start);
    assert(log.rows[i] == t.rows[i].subrange(start, end));
    let row = new_t.rows[i];
    assert(row == t.rows[i].subrange(0, start) + new_log.rows[i] + t.rows[i].subrange(end, t.width as int));
    assert forall|k: int| 7 <= k < 10 && k < t.width implies #[trigger] row[k] == (n.times)(
        (n.log)((n.plus)((n.exp)((n.times)(t.rows[i][k], 0x4000_0000)), (n.times)(f[i], f[i]))),
        0x3f00_0000,
    ) by {
        assert(row[k] == new_log.rows[i][k - 7]);
        assert(log.rows[i][k - 7] == t.rows[i][k]);
    }
    lemma_new_opacity(math, n, by, raw_opac, i, q);
    assert(shrunk(n, t.rows[i], row) == (n.exp)(
        (n.sum)(Seq::new(log.width, |j: int| (n.minus)(log.rows[i][j], new_log.rows[i][j]))),
    )) by {
        assert(Seq::new(log.width, |j: int| (n.minus)(log.rows[i][j], new_log.rows[i][j])) == lost(
            n,
            t.rows[i],
            row,
        ));
    }
}

/// What each log scale of a row of transforms lost.
pub open spec fn lost(n: Numbers, before: Seq<u32>, after: Seq<u32>) -> Seq<u32> {
    let (start, end) = (if before.len() < 7 { before.len() } else { 7 }, if before.len() < 10 { before.len() } else { 10 });
    Seq::new((end - start) as nat, |j: int| (n.minus)(before[7 + j], after[7 + j]))
}

/// The ratio of the size of a splat before to its size after.
pub open spec fn shrunk(n: Numbers, before: Seq<u32>, after: Seq<u32>) -> u32 {
    (n.exp)((n.sum)(lost(n, before, after)))
}

proof fn lemma_new_log_scales<M: SplatMath>(math: &M, n: Numbers, log_scales: Matrix, floor: Vec<u32>, new_log: Matrix)
    requires
        computes(math, n),
        log_scales.wf(),
        floor@.len() == log_scales.rows,
        crate::min_scale::widened(math, log_scales, floor, new_log),
    ensures
        new_log.wf(),
        new_log.rows == log_scales.rows,
        new_log.cols == log_scales.cols,
        forall|i: int, j: int|
            0 <= i < log_scales.rows && 0 <= j < log_scales.cols ==> #[trigger] new_log@.rows[i][j] == (n.times)(
                (n.log)(
                    (n.plus)(
                        (n.exp)((n.times)(log_scales@.rows[i][j], 0x4000_0000)),
                        (n.times)(floor@[i], floor@[i]),
                    ),
                ),
                0x3f00_0000,
            ),
{
    lemma_computes_keeps_shapes(math, n);
    let (doubled, s2, f2, s2f, log) = choose|doubled: Matrix, s2: Matrix, f2: Vec<u32>, s2f: Matrix, log: Matrix|
        {
            &&& #[trigger] call_ensures(M::times, (math, &log_scales, crate::min_scale::TWO), doubled)
            &&& #[trigger] call_ensures(M::exp, (math, &doubled), s2)
            &&& #[trigger] call_ensures(M::product, (math, &floor, &floor), f2)
            &&& #[trigger] call_ensures(M::plus_per_row, (math, &s2, &f2), s2f)
            &&& #[trigger] call_ensures(M::log, (math, &s2f), log)
            &&& call_ensures(M::times, (math, &log, crate::min_scale::HALF), new_log)
        };
    assert(f2@ == combined(floor@, floor@, n.times));
    assert forall|i: int, j: int| 0 <= i < log_scales.rows && 0 <= j < log_scales.cols implies #[trigger] new_log@.rows[i][j]
        == (n.times)(
        (n.log)(
            (n.plus)(
                (n.exp)((n.times)(log_scales@.rows[i][j], 0x4000_0000)),
                (n.times)(floor@[i], floor@[i]),
            ),
        ),
        0x3f00_0000,
    ) by {
        assert(doubled@.rows[i][j] == (n.times)(log_scales@.rows[i][j], 0x4000_0000));
        assert(s2@.rows[i][j] == (n.exp)(doubled@.rows[i][j]));
        assert(f2@[i] == (n.times)(floor@[i], floor@[i]));
        assert(s2f@.rows[i][j] == (n.plus)(s2@.rows[i][j], f2@[i]));
        assert(log@.rows[i][j] == (n.log)(s2f@.rows[i][j]));
    }
}

proof fn lemma_new_opacity<M: SplatMath>(math: &M, n: Numbers, by: Folding, raw_opac: Seq<u32>, i: int, q: int)
    requires
        computes(math, n),
        by.raw@ == raw_opac,
        by.log_scales.wf(),
        by.new_log.wf(),
        by.new_log.rows == by.log_scales.rows,
        by.new_log.cols == by.log_scales.cols,
        repeatable(raw_opac.len(), by.log_scales.rows as nat),
        0 <= q < joint_len(raw_opac.len(), by.log_scales.rows as nat),
        i == if by.log_scales.rows == 1 {
            0
        } else {
            q
        },
        crate::min_scale::shrinkage(math, by.log_scales, by.new_log, by.coef),
        crate::min_scale::dimmed(math, by.raw, by.coef, by.opac),
        crate::min_scale::deactivated(math, by.opac, by.new_raw),
    ensures
        by.new_raw@.len() == joint_len(raw_opac.len(), by.log_scales.rows as nat),
        by.new_raw@[q] == ({
            let lost = Seq::new(
                by.log_scales@.width,
                |j: int| (n.minus)(by.log_scales@.rows[i][j], by.new_log@.rows[i][j]),
            );
            let opacity = (n.clamp)(
                (n.times)((n.sigmoid)(pick(raw_opac, q)), (n.exp)((n.sum)(lost))),
                0x3586_37bd,
                0x3f7f_ffef,
            );
            (n.log)((n.over)(opacity, (n.plus)((n.neg)(opacity), 0x3f80_0000)))
        }),
{
    lemma_computes_keeps_shapes(math, n);
    let (less, sums) = choose|less: Matrix, sums: Vec<u32>|
        {
            &&& #[trigger] call_ensures(M::minus, (math, &by.log_scales, &by.new_log), less)
            &&& #[trigger] call_ensures(M::row_sums, (math, &less), sums)
            &&& call_ensures(M::exp_each, (math, &sums), by.coef)
        };
    let (plain, product) = choose|plain: Vec<u32>, product: Vec<u32>|
        {
            &&& #[trigger] call_ensures(M::sigmoid, (math, &by.raw), plain)
            &&& #[trigger] call_ensures(M::product, (math, &plain, &by.coef), product)
            &&& call_ensures(
                M::clamped,
                (math, &product, crate::min_scale::LEAST_OPACITY, crate::min_scale::GREATEST_OPACITY),
                by.opac,
            )
        };
    let (negative, rest, odds) = choose|negative: Vec<u32>, rest: Vec<u32>, odds: Vec<u32>|
        {
            &&& #[trigger] call_ensures(M::negated, (math, &by.opac), negative)
            &&& #[trigger] call_ensures(M::plus_each, (math, &negative, crate::min_scale::ONE), rest)
            &&& #[trigger] call_ensures(M::quotient, (math, &by.opac, &rest), odds)
            &&& call_ensures(M::log_each, (math, &odds), by.new_raw)
        };
    let lost = Seq::new(
        by.log_scales@.width,
        |j: int| (n.minus)(by.log_scales@.rows[i][j], by.new_log@.rows[i][j]),
    );
    assert(less@.rows[i] == lost);
    assert(by.coef@[i] == (n.exp)((n.sum)(lost)));
    assert(product@ == combined(plain@, by.coef@, n.times));
    assert(pick(plain@, q) == (n.sigmoid)(pick(raw_opac, q)));
    assert(pick(by.coef@, q) == by.coef@[i]);
    assert(by.opac@[q] == (n.clamp)(product@[q], 0x3586_37bd, 0x3f7f_ffef));
    assert(rest@[q] == (n.plus)((n.neg)(by.opac@[q]), 0x3f80_0000));
    assert(odds@ == combined(by.opac@, rest@, n.over));
    assert(pick(by.opac@, q) == by.opac@[q]);
    assert(pick(rest@, q) == rest@[q]);
}

/// Without a floor, the opacities of splats are the logistic function of their
/// raw opacities, and their scales the exponential of their log scales.
pub proof fn law_plain_splats_number_by_number<M: SplatMath>(
    math: &M,
    n: Numbers,
    splats: Splats,
    opacities: Vec<u32>,
    scales: Matrix,
    log_scales: Matrix,
)
    requires
        computes(math, n),
        splats.wf(),
        splats.min_scale is None,
        call_ensures(Splats::opacities::<M>, (&splats, math), opacities),
        call_ensures(Splats::scales::<M>, (&splats, math), scales),
        call_ensures(Splats::log_scales, (&splats,), log_scales),
    ensures
        opacities@ == splats.raw_opacities.value@.map_values(n.sigmoid),
        scales@ == mapped(log_scales@, n.exp),
{
    lemma_computes_keeps_shapes(math, n);
}

/// Whether the exponential, the logarithm, one half and two are what their
/// names say: a number twice over has its exponential squared, halving undoes
/// doubling, and the exponential undoes the logarithm.
pub open spec fn halves_and_squares(n: Numbers) -> bool {
    &&& forall|x: u32| #[trigger] (n.exp)((n.times)(x, 0x4000_0000)) == (n.times)((n.exp)(x), (n.exp)(x))
    &&& forall|x: u32| #[trigger] (n.times)((n.times)(x, 0x3f00_0000), 0x4000_0000) == x
    &&& forall|x: u32| #[trigger] (n.exp)((n.log)(x)) == x
}

/// Under a floor, the square of each scale is the square that it is without
/// the floor plus the square of the floor.
pub proof fn law_floor_adds_to_squared_scales<M: SplatMath>(
    math: &M,
    n: Numbers,
    splats: Splats,
    floor: Vec<u32>,
    floored: Splats,
    plain_scales: Matrix,
    scales: Matrix,
    i: int,
    k: int,
)
    requires
        computes(math, n),
        halves_and_squares(n),
        splats.wf(),
        splats.min_scale is None,
        call_ensures(Splats::with_min_scale, (splats, floor), floored),
        foldable(&splats.transforms.value, &splats.raw_opacities.value, &floor),
        splats.raw_opacities.value@.len() > 0,
        call_ensures(Splats::scales::<M>, (&splats, math), plain_scales),
        call_ensures(Splats::scales::<M>, (&floored, math), scales),
        0 <= i < plain_scales.rows,
        0 <= k < plain_scales.cols,
    ensures
        scales.rows == plain_scales.rows,
        scales.cols == plain_scales.cols,
        (n.times)(scales@.rows[i][k], scales@.rows[i][k]) == (n.plus)(
            (n.times)(plain_scales@.rows[i][k], plain_scales@.rows[i][k]),
            (n.times)(floor@[i], floor@[i]),
        ),
{
    lemma_computes_keeps_shapes(math, n);
    crate::matrix::lemma_rows_are_full(&splats.transforms.value);
    let t = splats.transforms.value@;
    let raw = splats.raw_opacities.value@;
    let (new_t, new_raw) = choose|new_t: Table, new_raw: Seq<u32>|
        #[trigger] floored.comes_to(math, new_t, new_raw) && crate::splat_math::exponentiated(
            math,
            new_t.columns(7, 10),
            scales@,
        );
    lemma_folded(math, n, t, raw, floor@, new_t, new_raw, i, i);
    let x = t.rows[i][7 + k];
    let y = new_t.rows[i][7 + k];
    assert(new_t.columns(7, 10).rows[i][k] == y);
    assert(t.columns(7, 10).rows[i][k] == x);
    assert(scales@ == mapped(new_t.columns(7, 10), n.exp));
    assert(plain_scales@ == mapped(t.columns(7, 10), n.exp));
    assert(scales@.rows[i][k] == (n.exp)(y));
    assert(plain_scales@.rows[i][k] == (n.exp)(x));
    assert((n.exp)((n.times)(y, 0x4000_0000)) == (n.times)((n.exp)(y), (n.exp)(y)));
}

/// Whether making an opacity raw and activating it again gives it back.
pub open spec fn activation_is_undone(n: Numbers) -> bool {
    forall|x: u32|
        (n.sigmoid)((n.log)((n.over)(x, (n.plus)(#[trigger] (n.neg)(x), 0x3f80_0000)))) == x
}

/// Under a floor, the opacity of each splat is the opacity that it has without
/// the floor, times the ratio of its size before to its size after over the
/// three axes, kept off zero and one by a millionth. The size after is that of
/// the baked splats.
pub proof fn law_floor_dims_by_the_ratio_of_sizes<M: SplatMath>(
    math: &M,
    n: Numbers,
    splats: Splats,
    floor: Vec<u32>,
    floored: Splats,
    baked: Splats,
    plain_opacities: Vec<u32>,
    opacities: Vec<u32>,
    i: int,
    q: int,
)
    requires
        computes(math, n),
        activation_is_undone(n),
        splats.wf(),
        splats.min_scale is None,
        call_ensures(Splats::with_min_scale, (splats, floor), floored),
        foldable(&splats.transforms.value, &splats.raw_opacities.value, &floor),
        call_ensures(Splats::bake_min_scale::<M>, (floored, math), baked),
        call_ensures(Splats::opacities::<M>, (&splats, math), plain_opacities),
        call_ensures(Splats::opacities::<M>, (&floored, math), opacities),
        0 <= q < opacities@.len(),
        i == if splats.transforms.value.rows == 1 {
            0
        } else {
            q
        },
    ensures
        opacities@[q] == (n.clamp)(
            (n.times)(
                pick(plain_opacities@, q),
                shrunk(n, splats.transforms.value@.rows[i], baked.transforms.value@.rows[i]),
            ),
            0x3586_37bd,
            0x3f7f_ffef,
        ),
{
    lemma_computes_keeps_shapes(math, n);
    crate::matrix::lemma_rows_are_full(&splats.transforms.value);
    let t = splats.transforms.value@;
    let raw = splats.raw_opacities.value@;
    let (new_t, new_raw) = choose|new_t: Table, new_raw: Seq<u32>|
        #[trigger] floored.comes_to(math, new_t, new_raw) && crate::splat_math::activated(math, new_raw, opacities@);
    assert(opacities@ == new_raw.map_values(n.sigmoid));
    assert(plain_opacities@ == raw.map_values(n.sigmoid));
    lemma_folded(math, n, t, raw, floor@, new_t, new_raw, i, q);
    lemma_folded(math, n, t, raw, floor@, baked.transforms.value@, baked.raw_opacities.value@, i, q);
    assert(new_t.rows[i] == baked.transforms.value@.rows[i]);
    assert(pick(plain_opacities@, q) == (n.sigmoid)(pick(raw, q)));
    let opacity = (n.clamp)(
        (n.times)(pick(plain_opacities@, q), shrunk(n, t.rows[i], new_t.rows[i])),
        0x3586_37bd,
        0x3f7f_ffef,
    );
    assert((n.sigmoid)((n.log)((n.over)(opacity, (n.plus)((n.neg)(opacity), 0x3f80_0000)))) == opacity);
}

/// Whether a number less itself is zero, and multiplying by the exponential of
/// zeros in all leaves a number as it is.
pub open spec fn differences_cancel(n: Numbers) -> bool {
    &&& forall|x: u32| #[trigger] (n.minus)(x, x) == 0
    &&& forall|x: u32, numbers: Seq<u32>|
        (forall|j: int| 0 <= j < numbers.len() ==> numbers[j] == 0) ==> #[trigger] (n.times)(
            x,
            (n.exp)((n.sum)(numbers)),
        ) == x
}

/// A floor that leaves the scales of a splat as they are leaves its opacity as
/// it was, where that is a millionth away from zero and one.
pub proof fn law_neutral_floor_leaves_opacity<M: SplatMath>(
    math: &M,
    n: Numbers,
    splats: Splats,
    floor: Vec<u32>,
    floored: Splats,
    baked: Splats,
    plain_opacities: Vec<u32>,
    opacities: Vec<u32>,
    i: int,
    q: int,
)
    requires
        computes(math, n),
        activation_is_undone(n),
        differences_cancel(n),
        splats.wf(),
        splats.min_scale is None,
        call_ensures(Splats::with_min_scale, (splats, floor), floored),
        foldable(&splats.transforms.value, &splats.raw_opacities.value, &floor),
        call_ensures(Splats::bake_min_scale::<M>, (floored, math), baked),
        call_ensures(Splats::opacities::<M>, (&splats, math), plain_opacities),
        call_ensures(Splats::opacities::<M>, (&floored, math), opacities),
        0 <= q < opacities@.len(),
        i == if splats.transforms.value.rows == 1 {
            0
        } else {
            q
        },
        baked.transforms.value@.rows[i] == splats.transforms.value@.rows[i],
        (n.clamp)(pick(plain_opacities@, q), 0x3586_37bd, 0x3f7f_ffef) == pick(plain_opacities@, q),
    ensures
        opacities@[q] == pick(plain_opacities@, q),
{
    law_floor_dims_by_the_ratio_of_sizes(
        math,
        n,
        splats,
        floor,
        floored,
        baked,
        plain_opacities,
        opacities,
        i,
        q,
    );
    let row = splats.transforms.value@.rows[i];
    let numbers = lost(n, row, row);
    assert forall|j: int| 0 <= j < numbers.len() implies numbers[j] == 0 by {
        assert(numbers[j] == (n.minus)(row[7 + j], row[7 + j]));
    }
    assert((n.times)(pick(plain_opacities@, q), (n.exp)((n.sum)(numbers))) == pick(plain_opacities@, q));
}

/// A floor of nothing leaves the scales as they are, and with them all of the
/// transforms.
pub proof fn law_floor_of_nothing_leaves_scales<M: SplatMath>(
    math: &M,
    n: Numbers,
    splats: Splats,
    floor: Vec<u32>,
    floored: Splats,
    baked: Splats,
    i: int,
)
    requires
        computes(math, n),
        forall|x: u32| #[trigger] (n.log)((n.exp)(x)) == x,
        forall|x: u32| #[trigger] (n.times)((n.times)(x, 0x4000_0000), 0x3f00_0000) == x,
        splats.wf(),
        splats.min_scale is None,
        splats.raw_opacities.value@.len() > 0,
        call_ensures(Splats::with_min_scale, (splats, floor), floored),
        foldable(&splats.transforms.value, &splats.raw_opacities.value, &floor),
        call_ensures(Splats::bake_min_scale::<M>, (floored, math), baked),
        0 <= i < splats.transforms.value.rows,
        forall|x: u32| #[trigger] (n.plus)(x, (n.times)(floor@[i], floor@[i])) == x,
    ensures
        baked.transforms.value@.rows[i] == splats.transforms.value@.rows[i],
{
    lemma_computes_keeps_shapes(math, n);
    crate::matrix::lemma_rows_are_full(&splats.transforms.value);
    let t = splats.transforms.value@;
    let new_t = baked.transforms.value@;
    lemma_folded(math, n, t, splats.raw_opacities.value@, floor@, new_t, baked.raw_opacities.value@, i, i);
    assert forall|k: int| 0 <= k < t.width implies new_t.rows[i][k] == t.rows[i][k] by {
        if 7 <= k < 10 {
            let x = (n.exp)((n.times)(t.rows[i][k], 0x4000_0000));
            assert((n.plus)(x, (n.times)(floor@[i], floor@[i])) == x);
        }
    }
    assert(t.rows[i].len() == t.width && new_t.rows[i].len() == t.width);
}

/// Rescaling, number by number: means are multiplied by the factor, its
/// logarithm is added to log scales, a floor is multiplied, and all else stays.
pub proof fn law_rescaling_number_by_number<M: SplatMath>(
    math: &M,
    n: Numbers,
    splats: Splats,
    factor: u32,
    scaled: Splats,
)
    requires
        computes(math, n),
        splats.wf(),
        call_ensures(Splats::scaled::<M>, (splats, factor, math), scaled),
    ensures
        scaled.wf(),
        scaled.transforms.value.rows == splats.transforms.value.rows,
        scaled.transforms.value.cols == splats.transforms.value.cols,
        forall|i: int, k: int|
            0 <= i < splats.transforms.value.rows && 0 <= k < splats.transforms.value.cols
                ==> #[trigger] scaled.transforms.value@.rows[i][k] == (if k < 3 {
                (n.times)(splats.transforms.value@.rows[i][k], factor)
            } else if 7 <= k < 10 {
                (n.plus)(splats.transforms.value@.rows[i][k], (n.log)(factor))
            } else {
                splats.transforms.value@.rows[i][k]
            }),
        match (splats.min_scale, scaled.min_scale) {
            (None, None) => true,
            (Some(floor), Some(moved)) => moved@ == floor@.map_values(|c: u32| (n.times)(c, factor)),
            _ => false,
        },
        scaled.transforms.id == splats.transforms.id,
        scaled.transforms.trainable,
        scaled.sh_coeffs == splats.sh_coeffs,
        scaled.raw_opacities == splats.raw_opacities,
        scaled.render_mip == splats.render_mip,
{
    lemma_computes_keeps_shapes(math, n);
    crate::matrix::lemma_rows_are_full(&splats.transforms.value);
    let t = splats.transforms.value@;
    let out = scaled.transforms.value@;
    let (ln, means, log_scales) = choose|ln: u32, means: Table, log_scales: Table|
        call_ensures(M::ln, (math, factor), ln) && #[trigger] crate::splat_math::multiplied(
            math,
            t.columns(0, 3),
            factor,
            means,
        ) && #[trigger] crate::splat_math::shifted(math, t.columns(7, 10), ln, log_scales) && out == t.with_columns(
            0,
            means,
        ).with_columns(7, log_scales);
    assert(means == mapped(t.columns(0, 3), |c: u32| (n.times)(c, factor)));
    assert(log_scales == mapped(t.columns(7, 10), |c: u32| (n.plus)(c, (n.log)(factor))));
    let (a, b, c) = (t.clip(3), t.clip(7), t.clip(10));
    assert forall|i: int, k: int| 0 <= i < t.rows.len() && 0 <= k < t.width implies #[trigger] out.rows[i][k] == (if k < 3 {
        (n.times)(t.rows[i][k], factor)
    } else if 7 <= k < 10 {
        (n.plus)(t.rows[i][k], (n.log)(factor))
    } else {
        t.rows[i][k]
    }) by {
        assert(t.rows[i].len() == t.width);
        assert(means.rows[i].len() == a && log_scales.rows[i].len() == c - b);
        let middle = t.with_columns(0, means).rows[i];
        assert(middle == means.rows[i] + t.rows[i].subrange(a, t.width as int));
        assert(out.rows[i] == middle.subrange(0, b) + log_scales.rows[i] + middle.subrange(c, t.width as int));
        if k < 3 {
            assert(out.rows[i][k] == means.rows[i][k]);
        } else if 7 <= k < 10 {
            assert(out.rows[i][k] == log_scales.rows[i][k - 7]);
        }
    }
}

/// Rescaling twice is rescaling once by the product of the factors, where the
/// logarithm of a product is the sum of the logarithms and both operations can
/// be grouped at will.
pub proof fn law_rescaling_twice_is_rescaling_once<M: SplatMath>(
    math: &M,
    n: Numbers,
    splats: Splats,
    one: u32,
    other: u32,
    first: Splats,
    both: Splats,
    at_once: Splats,
)
    requires
        computes(math, n),
        forall|x: u32, y: u32, z: u32| #[trigger] (n.times)((n.times)(x, y), z) == (n.times)(x, (n.times)(y, z)),
        forall|x: u32, y: u32, z: u32| #[trigger] (n.plus)((n.plus)(x, y), z) == (n.plus)(x, (n.plus)(y, z)),
        forall|x: u32, y: u32| #[trigger] (n.log)((n.times)(x, y)) == (n.plus)((n.log)(x), (n.log)(y)),
        splats.wf(),
        call_ensures(Splats::scaled::<M>, (splats, one, math), first),
        call_ensures(Splats::scaled::<M>, (first, other, math), both),
        call_ensures(Splats::scaled::<M>, (splats, (n.times)(one, other), math), at_once),
    ensures
        both.transforms.value@ == at_once.transforms.value@,
        match (both.min_scale, at_once.min_scale) {
            (None, None) => true,
            (Some(a), Some(b)) => a@ == b@,
            _ => false,
        },
{
    law_rescaling_number_by_number(math, n, splats, one, first);
    law_rescaling_number_by_number(math, n, first, other, both);
    law_rescaling_number_by_number(math, n, splats, (n.times)(one, other), at_once);
    let (a, b) = (both.transforms.value@, at_once.transforms.value@);
    crate::matrix::lemma_rows_are_full(&both.transforms.value);
    crate::matrix::lemma_rows_are_full(&at_once.transforms.value);
    assert forall|i: int| 0 <= i < a.rows.len() implies a.rows[i] == b.rows[i] by {
        assert forall|k: int| 0 <= k < a.width implies a.rows[i][k] == b.rows[i][k] by {
            let x = splats.transforms.value@.rows[i][k];
            let y = first.transforms.value@.rows[i][k];
            assert((n.times)((n.times)(x, one), other) == (n.times)(x, (n.times)(one, other)));
            assert((n.plus)((n.plus)(x, (n.log)(one)), (n.log)(other)) == (n.plus)(
                x,
                (n.plus)((n.log)(one), (n.log)(other)),
            ));
        }
        assert(a.rows[i] =~= b.rows[i]);
    }
    assert(a == b);
    if let (Some(x), Some(y)) = (both.min_scale, at_once.min_scale) {
        assert(x@ == y@);
    }
}

/// Rescaling moves every mean and scale of plain splats by the factor alike,
/// where the exponential of a sum is the product of the exponentials.
pub proof fn law_rescaled_splats_are_scaled<M: SplatMath>(
    math: &M,
    n: Numbers,
    splats: Splats,
    factor: u32,
    scaled: Splats,
    scales: Matrix,
    new_scales: Matrix,
    opacities: Vec<u32>,
    new_opacities: Vec<u32>,
    i: int,
    k: int,
)
    requires
        computes(math, n),
        forall|x: u32| #[trigger] (n.exp)((n.plus)(x, (n.log)(factor))) == (n.times)((n.exp)(x), factor),
        splats.wf(),
        splats.min_scale is None,
        call_ensures(Splats::scaled::<M>, (splats, factor, math), scaled),
        call_ensures(Splats::scales::<M>, (&splats, math), scales),
        call_ensures(Splats::scales::<M>, (&scaled, math), new_scales),
        call_ensures(Splats::opacities::<M>, (&splats, math), opacities),
        call_ensures(Splats::opacities::<M>, (&scaled, math), new_opacities),
        0 <= i < scales.rows,
        0 <= k < scales.cols,
    ensures
        new_scales@.rows[i][k] == (n.times)(scales@.rows[i][k], factor),
        new_opacities@ == opacities@,
{
    lemma_computes_keeps_shapes(math, n);
    law_rescaling_number_by_number(math, n, splats, factor, scaled);
    let (t, u) = (splats.transforms.value@, scaled.transforms.value@);
    assert(scales@ == mapped(t.columns(7, 10), n.exp));
    assert(new_scales@ == mapped(u.columns(7, 10), n.exp));
    crate::matrix::lemma_rows_are_full(&splats.transforms.value);
    crate::matrix::lemma_rows_are_full(&scaled.transforms.value);
    assert(t.columns(7, 10).rows[i][k] == t.rows[i][7 + k]);
    assert(u.columns(7, 10).rows[i][k] == u.rows[i][7 + k]);
    assert(u.rows[i][7 + k] == (n.plus)(t.rows[i][7 + k], (n.log)(factor)));
}

/// What splats are made of is what is read of them.
pub proof fn law_splats_are_what_they_are_made_of(
    means: Matrix,
    rotation: Matrix,
    log_scales: Matrix,
    sh_coeffs: Coefficients,
    raw_opacity: Vec<u32>,
    mode: SplatRenderMode,
    splats: Splats,
    read: (Matrix, Matrix, Matrix),
    n: u32,
)
    requires
        means.wf() && rotation.wf() && log_scales.wf() && sh_coeffs.wf(),
        means.cols == 3 && rotation.cols == 4 && log_scales.cols == 3,
        means.rows == rotation.rows == log_scales.rows,
        call_ensures(
            Splats::from_tensor_data,
            (means, rotation, log_scales, sh_coeffs, raw_opacity, mode),
            splats,
        ),
        call_ensures(Splats::means, (&splats,), read.0),
        call_ensures(Splats::rotations, (&splats,), read.1),
        call_ensures(Splats::log_scales, (&splats,), read.2),
        call_ensures(Splats::num_splats, (&splats,), n),
    ensures
        read.0.cells@ == means.cells@ && read.0.rows == means.rows && read.0.cols == 3,
        read.1.cells@ == rotation.cells@ && read.1.rows == rotation.rows && read.1.cols == 4,
        read.2.cells@ == log_scales.cells@ && read.2.rows == log_scales.rows && read.2.cols == 3,
        splats.sh_coeffs.value == sh_coeffs,
        splats.raw_opacities.value == raw_opacity,
        splats.render_mip <==> mode is Mip,
        splats.min_scale is None,
        splats.transforms.trainable && splats.sh_coeffs.trainable && splats.raw_opacities.trainable,
        means.rows <= u32::MAX ==> n == means.rows,
{
    crate::matrix::lemma_rows_are_full(&means);
    crate::matrix::lemma_rows_are_full(&rotation);
    crate::matrix::lemma_rows_are_full(&log_scales);
    crate::gaussian_splats::law_parts_are_read_back(means@, rotation@, log_scales@);
    crate::matrix::law_tables_that_show_the_same_hold_the_same(&read.0, &means);
    crate::matrix::law_tables_that_show_the_same_hold_the_same(&read.1, &rotation);
    crate::matrix::law_tables_that_show_the_same_hold_the_same(&read.2, &log_scales);
    assert(splats.transforms.value@.rows.len() == means.rows);
}

/// The runs of numbers that splats are made of are what is read of them.
pub proof fn law_splats_are_the_runs_they_are_made_of(
    pos_data: Vec<u32>,
    rot_data: Vec<u32>,
    scale_data: Vec<u32>,
    coeffs_data: Vec<u32>,
    opac_data: Vec<u32>,
    mode: SplatRenderMode,
    splats: Splats,
    read: (Matrix, Matrix, Matrix),
)
    requires
        opac_data@.len() > 0,
        pos_data@.len() == opac_data@.len() * 3,
        rot_data@.len() == opac_data@.len() * 4,
        scale_data@.len() == opac_data@.len() * 3,
        coeffs_data@.len() % (opac_data@.len() * 3) == 0,
        call_ensures(
            Splats::from_raw,
            (pos_data, rot_data, scale_data, coeffs_data, opac_data, mode),
            splats,
        ),
        call_ensures(Splats::means, (&splats,), read.0),
        call_ensures(Splats::rotations, (&splats,), read.1),
        call_ensures(Splats::log_scales, (&splats,), read.2),
    ensures
        read.0.cells@ == pos_data@,
        read.1.cells@ == rot_data@,
        read.2.cells@ == scale_data@,
        splats.transforms.value.rows == opac_data@.len(),
        splats.raw_opacities.value@ == opac_data@,
        splats.sh_coeffs.value.cells.cells@ == coeffs_data@,
        splats.sh_coeffs.value.channels == 3,
        splats.sh_coeffs.value.per_splat * (opac_data@.len() * 3) == coeffs_data@.len(),
        splats.transforms.trainable && splats.sh_coeffs.trainable && splats.raw_opacities.trainable,
        splats.render_mip <==> mode is Mip,
        splats.min_scale is None,
{
    // Each run is a table of its own.
    let n = opac_data@.len();
    assert(splats.transforms.value@.rows.len() == n);
    let rows = splats.transforms.value.rows;
    let means = Matrix { rows, cols: 3, cells: pos_data };
    let rotation = Matrix { rows, cols: 4, cells: rot_data };
    let log_scales = Matrix { rows, cols: 3, cells: scale_data };
    crate::matrix::lemma_rows_are_full(&means);
    crate::matrix::lemma_rows_are_full(&rotation);
    crate::matrix::lemma_rows_are_full(&log_scales);
    crate::gaussian_splats::law_parts_are_read_back(means@, rotation@, log_scales@);
    crate::matrix::law_tables_that_show_the_same_hold_the_same(&read.0, &means);
    crate::matrix::law_tables_that_show_the_same_hold_the_same(&read.1, &rotation);
    crate::matrix::law_tables_that_show_the_same_hold_the_same(&read.2, &log_scales);
    let sh = splats.sh_coeffs.value;
    vstd::arithmetic::div_mod::lemma_fundamental_div_mod(coeffs_data@.len() as int, (n * 3) as int);
    let k = sh.per_splat as int;
    assert((n * 3) * k == n * (k * 3) && k * (n * 3) == (n * 3) * k) by (nonlinear_arith);
    assert(sh.cells@.rows.len() == n);
    let coeffs = Matrix { rows, cols: sh.cells.cols, cells: coeffs_data };
    assert(coeffs.wf());
    crate::matrix::law_tables_that_show_the_same_hold_the_same(&sh.cells, &coeffs);
}

/// Setting the degree of the spherical harmonics, number by number: the
/// coefficients that there were before stay, the new ones are zero, and all
/// else stays. The degree is read back, and there are `(degree + 1)^2`
/// coefficients of each channel.
pub proof fn law_degree_number_by_number(splats: Splats, degree: u32, changed: Splats, read: u32)
    requires
        splats.wf(),
        call_requires(Splats::with_sh_degree, (splats, degree)),
        (degree + 1) * (degree + 1) <= u32::MAX,
        splats.sh_coeffs.value.per_splat < (degree + 1) * (degree + 1) ==> splats.sh_coeffs.value.channels == 3,
        call_ensures(Splats::with_sh_degree, (splats, degree), changed),
        call_ensures(Splats::sh_degree, (&changed,), read),
    ensures
        read == degree,
        changed.sh_coeffs.value.per_splat == (degree + 1) * (degree + 1),
        changed.sh_coeffs.value.channels == splats.sh_coeffs.value.channels,
        changed.sh_coeffs.value.cells.rows == splats.sh_coeffs.value.cells.rows,
        forall|i: int, j: int|
            0 <= i < splats.sh_coeffs.value.cells.rows && 0 <= j < changed.sh_coeffs.value.cells.cols
                ==> #[trigger] changed.sh_coeffs.value.cells@.rows[i][j] == (if j < splats.sh_coeffs.value.cells.cols {
                splats.sh_coeffs.value.cells@.rows[i][j]
            } else {
                0
            }),
        changed.transforms == splats.transforms,
        changed.raw_opacities == splats.raw_opacities,
        changed.min_scale == splats.min_scale,
        changed.render_mip == splats.render_mip,
        changed.sh_coeffs.id == splats.sh_coeffs.id,
        changed.sh_coeffs.trainable == splats.sh_coeffs.trainable,
{
    let (before, after) = (splats.sh_coeffs.value, changed.sh_coeffs.value);
    crate::matrix::lemma_rows_are_full(&before.cells);
    crate::gaussian_splats::law_set_degree_is_read(changed, degree, read);
    assert(after.cells@.rows.len() == before.cells@.rows.len());
    let count = (degree + 1) * (degree + 1);
    if before.per_splat >= count {
        vstd::arithmetic::mul::lemma_mul_inequality(count, before.per_splat as int, before.channels as int);
    }
    assert forall|i: int, j: int| 0 <= i < before.cells.rows && 0 <= j < after.cells.cols implies #[trigger] after.cells@.rows[i][j]
        == (if j < before.cells.cols {
        before.cells@.rows[i][j]
    } else {
        0
    }) by {
        assert(before.cells@.rows[i].len() == before.cells.cols);
    }
}

/// What is handed to the rasterizer, number by number: what the baked splats
/// hold, but that the logarithm of a splat scale is added to the log scales.
/// The mode is the one that the splats were made with, and images of floats
/// alone are rasterized with what a backward pass needs.
pub proof fn law_rendering_number_by_number<M: SplatMath>(
    math: &M,
    n: Numbers,
    splats: Splats,
    splat_scale: Option<u32>,
    texture_mode: TextureMode,
    inputs: RenderInputs,
    baked: Splats,
)
    requires
        computes(math, n),
        has_one_result(math),
        splats.wf(),
        splats.floor_fits(),
        call_ensures(Splats::render_inputs::<M>, (splats, splat_scale, texture_mode, math), inputs),
        call_ensures(Splats::bake_min_scale::<M>, (splats, math), baked),
    ensures
        inputs.raw_opacities@ == baked.raw_opacities.value@,
        inputs.transforms@.same_shape(baked.transforms.value@),
        forall|i: int, k: int|
            0 <= i < baked.transforms.value.rows && 0 <= k < baked.transforms.value.cols
                ==> #[trigger] inputs.transforms@.rows[i][k] == (match splat_scale {
                Some(scale) if 7 <= k < 10 => (n.plus)(baked.transforms.value@.rows[i][k], (n.log)(scale)),
                _ => baked.transforms.value@.rows[i][k],
            }),
        inputs.sh_coeffs == splats.sh_coeffs.value,
        inputs.render_mode is Mip <==> splats.render_mip,
        inputs.pass is Backward <==> texture_mode is Float,
        inputs.pass is Forward <==> texture_mode is Packed,
{
    lemma_computes_keeps_shapes(math, n);
    crate::matrix::lemma_rows_are_full(&baked.transforms.value);
    let t = choose|t: Table|
        #[trigger] splats.comes_to(math, t, inputs.raw_opacities@) && crate::gaussian_splats::drawn_as(
            math,
            t,
            splat_scale,
            inputs.transforms@,
        );
    let held = (baked.transforms.value@, baked.raw_opacities.value@);
    if let Some(floor) = splats.min_scale {
        crate::min_scale::law_folding_has_one_result(
            math,
            splats.transforms.value@,
            splats.raw_opacities.value@,
            floor@,
            (t, inputs.raw_opacities@),
            held,
        );
    }
    assert((t, inputs.raw_opacities@) == held);
    if let Some(scale) = splat_scale {
        let (ln, log_scales) = choose|ln: u32, log_scales: Table|
            call_ensures(M::ln, (math, scale), ln) && #[trigger] crate::splat_math::shifted(
                math,
                t.columns(7, 10),
                ln,
                log_scales,
            ) && inputs.transforms@ == t.with_columns(7, log_scales);
        assert(log_scales == mapped(t.columns(7, 10), |c: u32| (n.plus)(c, (n.log)(scale))));
        let (b, c) = (t.clip(7), t.clip(10));
        assert forall|i: int, k: int| 0 <= i < t.rows.len() && 0 <= k < t.width implies #[trigger] inputs.transforms@.rows[i][k]
            == (if 7 <= k < 10 {
            (n.plus)(t.rows[i][k], (n.log)(scale))
        } else {
            t.rows[i][k]
        }) by {
            assert(t.rows[i].len() == t.width && log_scales.rows[i].len() == c - b);
            let row = inputs.transforms@.rows[i];
            assert(row == t.rows[i].subrange(0, b) + log_scales.rows[i] + t.rows[i].subrange(c, t.width as int));
            if 7 <= k < 10 {
                assert(row[k] == log_scales.rows[i][k - 7]);
            }
        }
    }
}

/// The parts of the transforms, number by number: a row is the mean, then the
/// rotation, then the log scales of its splat, and there is one per splat.
pub proof fn law_parts_number_by_number(
    splats: Splats,
    means: Matrix,
    rotations: Matrix,
    log_scales: Matrix,
    n: u32,
    i: int,
    k: int,
)
    requires
        splats.wf(),
        splats.transforms.value.cols == 10,
        call_ensures(Splats::means, (&splats,), means),
        call_ensures(Splats::rotations, (&splats,), rotations),
        call_ensures(Splats::log_scales, (&splats,), log_scales),
        call_ensures(Splats::num_splats, (&splats,), n),
        0 <= i < splats.transforms.value.rows,
        0 <= k < 10,
    ensures
        means.rows == rotations.rows == log_scales.rows == splats.transforms.value.rows,
        splats.transforms.value.rows < 0x1_0000_0000 ==> n == means.rows,
        splats.transforms.value@.rows[i][k] == (if k < 3 {
            means@.rows[i][k]
        } else if k < 7 {
            rotations@.rows[i][k - 3]
        } else {
            log_scales@.rows[i][k - 7]
        }),
        means@.rows[i].len() == 3,
        rotations@.rows[i].len() == 4,
        log_scales@.rows[i].len() == 3,
{
    crate::matrix::lemma_rows_are_full(&splats.transforms.value);
    assert(splats.transforms.value@.rows[i].len() == 10);
}

/// A floor that is set is the floor, and nothing else changes.
pub proof fn law_floor_is_what_it_is_set_to(splats: Splats, floor: Vec<u32>, floored: Splats)
    requires
        call_ensures(Splats::with_min_scale, (splats, floor), floored),
    ensures
        floored.min_scale == Some(floor),
        floored.transforms == splats.transforms,
        floored.sh_coeffs == splats.sh_coeffs,
        floored.raw_opacities == splats.raw_opacities,
        floored.render_mip == splats.render_mip,
{
}

/// Baking folds the floor in and takes it off. The identities stay, as do the
/// colours and the mode, and what was folded into is to be trained; the scales
/// and opacities that the splats really have are those of the baked splats.
/// Without a floor, nothing changes.
pub proof fn law_baking_folds_the_floor_in<M: SplatMath>(
    math: &M,
    splats: Splats,
    baked: Splats,
    scales: (Matrix, Matrix),
    opacities: (Vec<u32>, Vec<u32>),
    folded: (Matrix, Vec<u32>),
)
    requires
        keeps_shapes(math),
        has_one_result(math),
        splats.wf(),
        splats.floor_fits(),
        call_ensures(Splats::bake_min_scale::<M>, (splats, math), baked),
        call_ensures(Splats::scales::<M>, (&splats, math), scales.0),
        call_ensures(Splats::scales::<M>, (&baked, math), scales.1),
        call_ensures(Splats::opacities::<M>, (&splats, math), opacities.0),
        call_ensures(Splats::opacities::<M>, (&baked, math), opacities.1),
        splats.min_scale matches Some(floor) ==> call_ensures(
            fold_min_scale::<M>,
            (&splats.transforms.value, &splats.raw_opacities.value, &floor, math),
            folded,
        ),
    ensures
        scales.0@ == scales.1@,
        opacities.0@ == opacities.1@,
        splats.min_scale is None ==> baked == splats,
        splats.min_scale is Some ==> {
            &&& baked.min_scale is None
            &&& baked.transforms.value@ == folded.0@
            &&& baked.raw_opacities.value@ == folded.1@
            &&& baked.transforms.id == splats.transforms.id
            &&& baked.raw_opacities.id == splats.raw_opacities.id
            &&& baked.transforms.trainable && baked.raw_opacities.trainable
            &&& baked.sh_coeffs == splats.sh_coeffs
            &&& baked.render_mip == splats.render_mip
        },
{
    crate::gaussian_splats::law_baked_splats_render_as_before(
        splats,
        baked,
        math,
        (scales.0@, scales.1@),
        (opacities.0@, opacities.1@),
        None,
        arbitrary(),
    );
    if let Some(floor) = splats.min_scale {
        crate::min_scale::law_folding_has_one_result(
            math,
            splats.transforms.value@,
            splats.raw_opacities.value@,
            floor@,
            (baked.transforms.value@, baked.raw_opacities.value@),
            (folded.0@, folded.1@),
        );
    }
}

/// A pass is a forward one unless asked otherwise, and images are of floats. A
/// forward pass keeps nothing for a backward one and cuts off hard; the others
/// keep what it needs, and of those one alone cuts off smoothly.
pub proof fn law_passes_keep_what_they_are_for(
    usual: RasterPass,
    mode: TextureMode,
    pass: RasterPass,
    kept: bool,
    smooth: bool,
)
    requires
        call_ensures(<RasterPass as Default>::default, (), usual),
        call_ensures(<TextureMode as Default>::default, (), mode),
        call_ensures(RasterPass::bwd_info, (pass,), kept),
        call_ensures(RasterPass::smooth_cutoff, (pass,), smooth),
    ensures
        usual is Forward,
        mode is Float,
        kept <==> pass is Backward || pass is BackwardSmoothCutoff,
        smooth <==> pass is BackwardSmoothCutoff,
        smooth ==> kept,
{
}

} // verus!
