//! The calibration algebra: affine 2x3 matrices stored row-major as
//! `[a, b, c, d, e, f]`, standing for
//!
//! ```text
//! [a b c]
//! [d e f]
//! [0 0 1]
//! ```
//!
//! Entries are integers here; the four rotations have entries in {-1, 0, 1}.

use vstd::prelude::*;

verus! {

/// The rotation applied to the touchscreen coordinates.
#[derive(Debug, Clone, Copy, PartialEq, Eq, Structural)]
pub enum RotationMode {
    Normal,
    Rotate90,
    Rotate180,
    Rotate270,
}

/// Largest magnitude of an entry that the product accepts, so that every
/// entry of the result fits in an `i64`.
pub const ENTRY_BOUND: i64 = 1073741824;

pub open spec fn abs(x: int) -> int {
    if x < 0 { -x } else { x }
}

/// The entries of a matrix, as integers.
pub open spec fn ints(m: [i64; 6]) -> Seq<int> {
    m@.map_values(|x: i64| x as int)
}

/// Every entry lies within `[-ENTRY_BOUND, ENTRY_BOUND]`.
pub open spec fn bounded(m: [i64; 6]) -> bool {
    forall|i: int| 0 <= i < 6 ==> abs(#[trigger] m[i] as int) <= ENTRY_BOUND
}

/// The largest magnitude among the entries.
pub open spec fn max_abs(m: Seq<int>) -> int {
    let x0 = abs(m[0]);
    let x1 = if abs(m[1]) > x0 { abs(m[1]) } else { x0 };
    let x2 = if abs(m[2]) > x1 { abs(m[2]) } else { x1 };
    let x3 = if abs(m[3]) > x2 { abs(m[3]) } else { x2 };
    let x4 = if abs(m[4]) > x3 { abs(m[4]) } else { x3 };
    if abs(m[5]) > x4 { abs(m[5]) } else { x4 }
}

/// Entry `i` of the product `a * b`, the third row of both being `(0, 0, 1)`.
pub open spec fn product_entry(a: Seq<int>, b: Seq<int>, i: int) -> int {
    if i == 0 {
        a[0] * b[0] + a[1] * b[3]
    } else if i == 1 {
        a[0] * b[1] + a[1] * b[4]
    } else if i == 2 {
        a[0] * b[2] + a[1] * b[5] + a[2]
    } else if i == 3 {
        a[3] * b[0] + a[4] * b[3]
    } else if i == 4 {
        a[3] * b[1] + a[4] * b[4]
    } else {
        a[3] * b[2] + a[4] * b[5] + a[5]
    }
}

/// `m` is the product `a * b` of two matrices of six entries.
pub open spec fn is_product(a: Seq<int>, b: Seq<int>, m: Seq<int>) -> bool {
    &&& m.len() == 6
    &&& forall|i: int| 0 <= i < 6 ==> #[trigger] m[i] == product_entry(a, b, i)
}

pub open spec fn rotation_of(mode: RotationMode) -> Seq<int> {
    match mode {
        RotationMode::Normal => seq![1, 0, 0, 0, 1, 0],
        RotationMode::Rotate90 => seq![0, -1, 1, 1, 0, 0],
        RotationMode::Rotate180 => seq![-1, 0, 1, 0, -1, 1],
        RotationMode::Rotate270 => seq![0, 1, 0, -1, 0, 1],
    }
}

/// The rotation matrix of a mode.
pub fn rotation_matrix(mode: RotationMode) -> (r: [i64; 6])
    ensures
        ints(r) == rotation_of(mode),
{
    let r: [i64; 6] = match mode {
        RotationMode::Normal => [1, 0, 0, 0, 1, 0],
        RotationMode::Rotate90 => [0, -1, 1, 1, 0, 0],
        RotationMode::Rotate180 => [-1, 0, 1, 0, -1, 1],
        RotationMode::Rotate270 => [0, 1, 0, -1, 0, 1],
    };
    assert(ints(r) =~= rotation_of(mode));
    r
}

/// The product `a * b` of two affine matrices.
pub fn calibration_matrix_product(a: [i64; 6], b: [i64; 6]) -> (r: [i64; 6])
    requires
        bounded(a),
        bounded(b),
    ensures
        is_product(ints(a), ints(b), ints(r)),
{
    assert(abs(a[0] as int) <= ENTRY_BOUND && abs(a[1] as int) <= ENTRY_BOUND);
    assert(abs(a[2] as int) <= ENTRY_BOUND && abs(a[3] as int) <= ENTRY_BOUND);
    assert(abs(a[4] as int) <= ENTRY_BOUND && abs(a[5] as int) <= ENTRY_BOUND);
    assert(abs(b[0] as int) <= ENTRY_BOUND && abs(b[1] as int) <= ENTRY_BOUND);
    assert(abs(b[2] as int) <= ENTRY_BOUND && abs(b[3] as int) <= ENTRY_BOUND);
    assert(abs(b[4] as int) <= ENTRY_BOUND && abs(b[5] as int) <= ENTRY_BOUND);
    proof {
        lemma_product_fits(a[0] as int, b[0] as int, a[1] as int, b[3] as int, 0);
        lemma_product_fits(a[0] as int, b[1] as int, a[1] as int, b[4] as int, 0);
        lemma_product_fits(a[0] as int, b[2] as int, a[1] as int, b[5] as int, a[2] as int);
        lemma_product_fits(a[3] as int, b[0] as int, a[4] as int, b[3] as int, 0);
        lemma_product_fits(a[3] as int, b[1] as int, a[4] as int, b[4] as int, 0);
        lemma_product_fits(a[3] as int, b[2] as int, a[4] as int, b[5] as int, a[5] as int);
    }
    let r = [
        a[0] * b[0] + a[1] * b[3],
        a[0] * b[1] + a[1] * b[4],
        a[0] * b[2] + a[1] * b[5] + a[2],
        a[3] * b[0] + a[4] * b[3],
        a[3] * b[1] + a[4] * b[4],
        a[3] * b[2] + a[4] * b[5] + a[5],
    ];
    assert(is_product(ints(a), ints(b), ints(r)));
    r
}

proof fn lemma_product_fits(x: int, y: int, z: int, w: int, c: int)
    requires
        abs(x) <= ENTRY_BOUND,
        abs(y) <= ENTRY_BOUND,
        abs(z) <= ENTRY_BOUND,
        abs(w) <= ENTRY_BOUND,
        abs(c) <= ENTRY_BOUND,
    ensures
        -9223372036854775808 <= x * y <= 9223372036854775807,
        -9223372036854775808 <= z * w <= 9223372036854775807,
        -9223372036854775808 <= x * y + z * w <= 9223372036854775807,
        -9223372036854775808 <= x * y + z * w + c <= 9223372036854775807,
{
    assert(abs(x * y) <= ENTRY_BOUND * ENTRY_BOUND) by (nonlinear_arith)
        requires
            abs(x) <= ENTRY_BOUND,
            abs(y) <= ENTRY_BOUND,
    ;
    assert(abs(z * w) <= ENTRY_BOUND * ENTRY_BOUND) by (nonlinear_arith)
        requires
            abs(z) <= ENTRY_BOUND,
            abs(w) <= ENTRY_BOUND,
    ;
}

/// `m` is the matrix applied to the touchscreen for `mode`: the factory
/// matrix composed with the rotation of the mode.
pub open spec fn calibrated(factory: Seq<int>, mode: RotationMode, m: Seq<int>) -> bool {
    is_product(factory, rotation_of(mode), m)
}

pub fn calibration_for(factory: [i64; 6], mode: RotationMode) -> (r: [i64; 6])
    requires
        bounded(factory),
    ensures
        calibrated(ints(factory), mode, ints(r)),
{
    let rot = rotation_matrix(mode);
    assert forall|i: int| 0 <= i < 6 implies abs(#[trigger] rot[i] as int) <= ENTRY_BOUND by {
        assert(rot[i] as int == ints(rot)[i]);
    }
    calibration_matrix_product(factory, rot)
}

/// The normal rotation is a left identity: `Normal * R == R` for each of the
/// four rotations.
pub proof fn lemma_normal_left_identity(mode: RotationMode)
    ensures
        is_product(rotation_of(RotationMode::Normal), rotation_of(mode), rotation_of(mode)),
{
}

/// The normal rotation is a right identity: `factory * Normal == factory`.
pub proof fn lemma_normal_right_identity(factory: Seq<int>)
    requires
        factory.len() == 6,
    ensures
        is_product(factory, rotation_of(RotationMode::Normal), factory),
{
    let n = rotation_of(RotationMode::Normal);
    assert(n[0] == 1 && n[1] == 0 && n[2] == 0 && n[3] == 0 && n[4] == 1 && n[5] == 0);
}

/// The entries of `factory * R` stay within twice the largest magnitude of
/// the factory entries, plus one. Under a half turn the offset entries
/// add up a whole row of the factory matrix, so there the law holds of the
/// factory matrices whose row sums obey the same bound.
pub proof fn lemma_calibration_magnitude(factory: Seq<int>, mode: RotationMode, m: Seq<int>)
    requires
        factory.len() == 6,
        calibrated(factory, mode, m),
        mode == RotationMode::Rotate180 ==> abs(factory[0] + factory[1] + factory[2])
            <= 2 * max_abs(factory) + 1,
        mode == RotationMode::Rotate180 ==> abs(factory[3] + factory[4] + factory[5])
            <= 2 * max_abs(factory) + 1,
    ensures
        forall|i: int| 0 <= i < 6 ==> abs(#[trigger] m[i]) <= 2 * max_abs(factory) + 1,
{
    let f = factory;
    let k = max_abs(f);
    assert(abs(f[0]) <= k && abs(f[1]) <= k && abs(f[2]) <= k);
    assert(abs(f[3]) <= k && abs(f[4]) <= k && abs(f[5]) <= k);
    let r = rotation_of(mode);
    match mode {
        RotationMode::Normal => {
            assert(r[0] == 1 && r[1] == 0 && r[2] == 0 && r[3] == 0 && r[4] == 1 && r[5] == 0);
        },
        RotationMode::Rotate90 => {
            assert(r[0] == 0 && r[1] == -1 && r[2] == 1 && r[3] == 1 && r[4] == 0 && r[5] == 0);
        },
        RotationMode::Rotate180 => {
            assert(r[0] == -1 && r[1] == 0 && r[2] == 1 && r[3] == 0 && r[4] == -1 && r[5] == 1);
        },
        RotationMode::Rotate270 => {
            assert(r[0] == 0 && r[1] == 1 && r[2] == 0 && r[3] == -1 && r[4] == 0 && r[5] == 1);
        },
    }
    assert(m[0] == f[0] * r[0] + f[1] * r[3]);
    assert(m[1] == f[0] * r[1] + f[1] * r[4]);
    assert(m[2] == f[0] * r[2] + f[1] * r[5] + f[2]);
    assert(m[3] == f[3] * r[0] + f[4] * r[3]);
    assert(m[4] == f[3] * r[1] + f[4] * r[4]);
    assert(m[5] == f[3] * r[2] + f[4] * r[5] + f[5]);
    assert(abs(m[0]) <= 2 * k + 1 && abs(m[1]) <= 2 * k + 1 && abs(m[2]) <= 2 * k + 1);
    assert(abs(m[3]) <= 2 * k + 1 && abs(m[4]) <= 2 * k + 1 && abs(m[5]) <= 2 * k + 1);
}

} // verus!
