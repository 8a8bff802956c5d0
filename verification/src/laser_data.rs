//! Per-ray bookkeeping of a laser scan that depends only on validity flags,
//! cluster labels, and the order of readings and bearings.
//!
//! Readings and bearings are floating-point values in the matcher. The jump
//! tables, the reading-interval filter and the visibility filter only ever
//! compare them with `<`, `<=` and `==`, so they are given here as
//! [`OrderKey`]s: `None` for a NaN value, otherwise an integer whose order is
//! the order of the values (with `-0.0` and `0.0` equal). A comparison that
//! involves a NaN is false, as it is for the values themselves. [`order_key`]
//! computes the key from a value's binary64 bit pattern, and
//! [`lemma_order_keys_follow_values`] shows that the keys compare as the
//! values do, over an integer model of binary64 values.

use vstd::prelude::*;

verus! {

/// Order-preserving integer stand-in for a floating-point value; `None`
/// stands for NaN.
pub type OrderKey = Option<u64>;

/// `a <= b` on the values the keys stand for.
pub open spec fn key_le(a: OrderKey, b: OrderKey) -> bool {
    match (a, b) {
        (Some(x), Some(y)) => x <= y,
        _ => false,
    }
}

/// `a < b` on the values the keys stand for.
pub open spec fn key_lt(a: OrderKey, b: OrderKey) -> bool {
    match (a, b) {
        (Some(x), Some(y)) => x < y,
        _ => false,
    }
}

/// `a == b` on the values the keys stand for (NaN equals nothing).
pub open spec fn key_eq(a: OrderKey, b: OrderKey) -> bool {
    match (a, b) {
        (Some(x), Some(y)) => x == y,
        _ => false,
    }
}

fn le(a: OrderKey, b: OrderKey) -> (r: bool)
    ensures
        r == key_le(a, b),
{
    match (a, b) {
        (Some(x), Some(y)) => x <= y,
        _ => false,
    }
}

fn lt(a: OrderKey, b: OrderKey) -> (r: bool)
    ensures
        r == key_lt(a, b),
{
    match (a, b) {
        (Some(x), Some(y)) => x < y,
        _ => false,
    }
}

fn eq(a: OrderKey, b: OrderKey) -> (r: bool)
    ensures
        r == key_eq(a, b),
{
    match (a, b) {
        (Some(x), Some(y)) => x == y,
        _ => false,
    }
}

/// The magnitude code of a binary64 bit pattern: the pattern without its
/// sign bit, the exponent field above the fraction field.
pub open spec fn magnitude_code(bits: u64) -> nat {
    (bits % 0x8000_0000_0000_0000) as nat
}

/// The sign bit of a binary64 bit pattern is set.
pub open spec fn sign_bit(bits: u64) -> bool {
    bits >= 0x8000_0000_0000_0000
}

/// The magnitude code of the infinities: all exponent bits set and a zero
/// fraction, the largest code that is not a NaN.
pub open spec fn infinity_code() -> nat {
    0x7FF0_0000_0000_0000
}

/// The bit pattern is a NaN: all exponent bits set and a nonzero fraction.
pub open spec fn is_nan_bits(bits: u64) -> bool {
    magnitude_code(bits) > infinity_code()
}

/// The magnitude a code stands for, times 2^1074, which makes every finite
/// magnitude a whole number: a subnormal's fraction, or a normal's
/// significand (the fraction below an implicit leading one) shifted by its
/// biased exponent less one. The code of the infinities gives 2^2098, beyond
/// every finite magnitude.
pub open spec fn scaled_magnitude(code: nat) -> nat {
    let exponent = code / 0x10_0000_0000_0000;
    let fraction = code % 0x10_0000_0000_0000;
    if exponent == 0 {
        fraction
    } else {
        (0x10_0000_0000_0000 + fraction) * vstd::arithmetic::power2::pow2((exponent - 1) as nat)
    }
}

/// The value of a binary64 bit pattern that is not a NaN, times 2^1074 (the
/// infinities at plus and minus 2^2098); both zeros are 0.
pub open spec fn scaled_value(bits: u64) -> int {
    if sign_bit(bits) {
        -scaled_magnitude(magnitude_code(bits))
    } else {
        scaled_magnitude(magnitude_code(bits)) as int
    }
}

/// The order key of a binary64 bit pattern: `None` for a NaN; otherwise
/// `2^63` plus the magnitude code for a non-negative value or a zero, and
/// `2^63 - 1` less the magnitude code for a negative value.
pub open spec fn order_key_of(bits: u64) -> OrderKey {
    let code = magnitude_code(bits);
    if is_nan_bits(bits) {
        None
    } else if !sign_bit(bits) || code == 0 {
        Some((0x8000_0000_0000_0000 + code) as u64)
    } else {
        Some((0x7FFF_FFFF_FFFF_FFFF - code) as u64)
    }
}

/// The order key of the floating-point value with bit pattern `bits`.
pub fn order_key(bits: u64) -> (key: OrderKey)
    ensures
        key == order_key_of(bits),
        key is None <==> is_nan_bits(bits),
{
    let code = bits % 0x8000_0000_0000_0000;
    if code > 0x7FF0_0000_0000_0000 {
        None
    } else if bits < 0x8000_0000_0000_0000 || code == 0 {
        Some(0x8000_0000_0000_0000 + code)
    } else {
        Some(0x7FFF_FFFF_FFFF_FFFF - code)
    }
}

proof fn lemma_scaled_magnitude_increases(c1: nat, c2: nat)
    requires
        c1 < c2 <= infinity_code(),
    ensures
        scaled_magnitude(c1) < scaled_magnitude(c2),
{
    let k: nat = 0x10_0000_0000_0000;
    let e1: nat = c1 / k;
    let f1: nat = c1 % k;
    let e2: nat = c2 / k;
    let f2: nat = c2 % k;
    assert(c1 == e1 * k + f1 && c2 == e2 * k + f2 && f1 < k && f2 < k);
    assert(e1 < e2 || (e1 == e2 && f1 < f2)) by (nonlinear_arith)
        requires
            c1 == e1 * k + f1,
            c2 == e2 * k + f2,
            f1 < k,
            f2 < k,
            c1 < c2,
    ;
    if e1 == e2 {
        if e1 > 0 {
            let p = vstd::arithmetic::power2::pow2((e1 - 1) as nat);
            vstd::arithmetic::power2::lemma_pow2_pos((e1 - 1) as nat);
            assert((k + f1) * p < (k + f2) * p) by (nonlinear_arith)
                requires
                    f1 < f2,
                    p > 0,
            ;
        }
    } else {
        // The magnitude of the first code lies below `k * 2^e1`, that of the
        // second at or above `k * 2^(e2 - 1)`.
        let p1 = vstd::arithmetic::power2::pow2(e1);
        let q = vstd::arithmetic::power2::pow2((e2 - 1) as nat);
        if e1 == 0 {
            vstd::arithmetic::power2::lemma2_to64();
            assert(scaled_magnitude(c1) < k * p1);
        } else {
            let p0 = vstd::arithmetic::power2::pow2((e1 - 1) as nat);
            vstd::arithmetic::power2::lemma_pow2_unfold(e1);
            vstd::arithmetic::power2::lemma_pow2_pos((e1 - 1) as nat);
            assert((k + f1) * p0 < k * p1) by (nonlinear_arith)
                requires
                    f1 < k,
                    p0 > 0,
                    p1 == 2 * p0,
            ;
        }
        if e1 < e2 - 1 {
            vstd::arithmetic::power2::lemma_pow2_strictly_increases(e1, (e2 - 1) as nat);
        }
        assert(k * p1 <= (k + f2) * q) by (nonlinear_arith)
            requires
                p1 <= q,
        ;
    }
}

/// Order keys follow the values: for two bit patterns that are not NaNs, one
/// key is below, at most, or equal to another exactly when its value is, so
/// the two zeros share a key.
pub proof fn lemma_order_keys_follow_values(a: u64, b: u64)
    requires
        !is_nan_bits(a),
        !is_nan_bits(b),
    ensures
        key_le(order_key_of(a), order_key_of(b)) <==> scaled_value(a) <= scaled_value(b),
        key_lt(order_key_of(a), order_key_of(b)) <==> scaled_value(a) < scaled_value(b),
        key_eq(order_key_of(a), order_key_of(b)) <==> scaled_value(a) == scaled_value(b),
{
    let ca = magnitude_code(a);
    let cb = magnitude_code(b);
    if ca < cb {
        lemma_scaled_magnitude_increases(ca, cb);
    } else if cb < ca {
        lemma_scaled_magnitude_increases(cb, ca);
    }
    if 0 < ca {
        lemma_scaled_magnitude_increases(0, ca);
    }
    if 0 < cb {
        lemma_scaled_magnitude_increases(0, cb);
    }
}

/// Point-to-point or point-to-line correspondence.
#[derive(Clone, Copy, Debug, PartialEq, Eq, Structural)]
pub enum CorrespondenceType {
    PointToPoint,
    PointToLine,
}

impl Default for CorrespondenceType {
    /// Point-to-point, as a freshly allocated correspondence.
    fn default() -> (t: Self)
        ensures
            t == CorrespondenceType::PointToPoint,
    {
        CorrespondenceType::PointToPoint
    }
}

/// Malformed scan input. A failed match is an outcome, not an error.
#[derive(Clone, Copy, Debug, PartialEq, Eq)]
pub enum LaserDataError {
    /// The number of rays is outside `[10, 10000]`.
    NraysOutOfRange,
    /// The first or last bearing is NaN.
    NanThetaBounds,
    /// The field of view is outside `[20 deg, 2.01 pi]`.
    FovOutOfRange,
    /// The stored bearing bounds do not match the first and last bearing.
    ThetaBoundsMismatch,
    /// A valid ray has a NaN or out-of-(0, 100) reading, or a ray has a NaN
    /// bearing.
    BadValidRay(usize),
    /// An invalid ray carries a cluster label, or a label is below -1.
    BadCluster(usize),
    /// A per-ray reading sigma is negative.
    NegativeSigma(usize),
    /// Fewer than 10% of the rays are valid.
    TooFewValidRays,
    /// A per-ray input does not have one entry per ray.
    InconsistentLengths { field: &'static str, expected: usize, actual: usize },
    /// The input is larger than the storage reserved for it.
    CapacityExceeded { capacity: usize, requested: usize },
    /// A valid point has a non-finite bearing.
    NonFiniteBearing(usize),
    /// Two consecutive valid points share a bearing.
    DuplicateBearing(usize),
    /// The initial pose is not finite.
    NonFiniteGuess,
}

/// The name under which the public scan types report [`LaserDataError`].
pub type ScanError = LaserDataError;

/// Check that a per-ray input has one entry per ray.
pub fn check_length(field: &'static str, expected: usize, actual: usize) -> (r: Result<
    (),
    LaserDataError,
>)
    ensures
        actual == expected ==> r is Ok,
        actual != expected ==> r == Err::<(), LaserDataError>(
            LaserDataError::InconsistentLengths { field, expected, actual },
        ),
{
    if actual != expected {
        Err(LaserDataError::InconsistentLengths { field, expected, actual })
    } else {
        Ok(())
    }
}

/// Shape check of a polar scan: readings, then validity flags, must have one
/// entry per bearing.
pub fn check_polar_lengths(angles: usize, readings: usize, valid: usize) -> (r: Result<
    (),
    LaserDataError,
>)
    ensures
        readings != angles ==> r == Err::<(), LaserDataError>(
            LaserDataError::InconsistentLengths {
                field: "readings",
                expected: angles,
                actual: readings,
            },
        ),
        readings == angles && valid != angles ==> r == Err::<(), LaserDataError>(
            LaserDataError::InconsistentLengths { field: "valid", expected: angles, actual: valid },
        ),
        readings == angles && valid == angles ==> r is Ok,
{
    check_length("readings", angles, readings)?;
    check_length("valid", angles, valid)
}

/// Check that a frame of `requested` rays fits the reserved `capacity`.
pub fn check_capacity(capacity: usize, requested: usize) -> (r: Result<(), LaserDataError>)
    ensures
        requested <= capacity ==> r is Ok,
        requested > capacity ==> r == Err::<(), LaserDataError>(
            LaserDataError::CapacityExceeded { capacity, requested },
        ),
{
    if requested > capacity {
        Err(LaserDataError::CapacityExceeded { capacity, requested })
    } else {
        Ok(())
    }
}

/// Shape check of an in-place update of a scan of `nrays` rays: the values
/// (named `field`), then the validity flags, must have one entry per ray. A
/// longer value buffer is reported as exceeding the scan's capacity.
pub fn check_update_lengths(
    field: &'static str,
    nrays: usize,
    values: usize,
    valid: usize,
) -> (r: Result<(), LaserDataError>)
    ensures
        values > nrays ==> r == Err::<(), LaserDataError>(
            LaserDataError::CapacityExceeded { capacity: nrays, requested: values },
        ),
        values < nrays ==> r == Err::<(), LaserDataError>(
            LaserDataError::InconsistentLengths { field, expected: nrays, actual: values },
        ),
        values == nrays && valid != nrays ==> r == Err::<(), LaserDataError>(
            LaserDataError::InconsistentLengths { field: "valid", expected: nrays, actual: valid },
        ),
        values == nrays && valid == nrays ==> r is Ok,
{
    if values != nrays {
        check_capacity(nrays, values)?;
        return check_length(field, nrays, values);
    }
    check_length("valid", nrays, valid)
}


/// The first valid ray after `i` (direction `1`) or before it (direction
/// `-1`), if any. Searching up from the last ray or beyond finds nothing;
/// searching down from one past the last ray starts at the last ray, and from
/// further beyond finds nothing.
pub fn next_valid(valid: &[bool], i: usize, direction: i32) -> (r: Option<usize>)
    requires
        direction == 1 || direction == -1,
    ensures
        direction == 1 ==> match r {
            Some(j) => i < j < valid@.len() && valid@[j as int] && forall|k: int|
                i < k < j ==> !#[trigger] valid@[k],
            None => forall|k: int| i < k < valid@.len() ==> !#[trigger] valid@[k],
        },
        direction == -1 && i > valid@.len() ==> r is None,
        direction == -1 && i <= valid@.len() ==> match r {
            Some(j) => j < i && valid@[j as int] && forall|k: int|
                j < k < i ==> !#[trigger] valid@[k],
            None => forall|k: int| 0 <= k < i ==> !#[trigger] valid@[k],
        },
{
    let n = valid.len();
    if direction == 1 {
        if i >= n {
            return None;
        }
        let mut j: usize = i + 1;
        while j < n && !valid[j]
            invariant
                n == valid@.len(),
                i < j <= n,
                forall|k: int| i < k < j ==> !#[trigger] valid@[k],
            decreases n - j,
        {
            j += 1;
        }
        if j < n {
            Some(j)
        } else {
            None
        }
    } else {
        if i > n {
            return None;
        }
        let mut j: usize = i;
        while j > 0 && !valid[j - 1]
            invariant
                j <= i,
                i <= valid@.len(),
                forall|k: int| j <= k < i ==> !#[trigger] valid@[k],
            decreases j,
        {
            j -= 1;
        }
        if j > 0 {
            Some(j - 1)
        } else {
            None
        }
    }
}

/// Ray `j` is valid and in the same cluster as ray `i`.
pub open spec fn same_cluster(valid: Seq<bool>, cluster: Seq<i32>, i: int, j: int) -> bool {
    0 <= j < valid.len() && valid[j] && cluster[j] == cluster[i]
}

/// Number of consecutive rays directly above ray `i` that are valid and in its
/// cluster, counting at most `m`.
pub open spec fn up_run(valid: Seq<bool>, cluster: Seq<i32>, i: int, m: nat) -> nat
    decreases m,
{
    if m == 0 {
        0
    } else {
        let r = up_run(valid, cluster, i, (m - 1) as nat);
        if r == m - 1 && same_cluster(valid, cluster, i, i + m) {
            m
        } else {
            r
        }
    }
}

/// Number of consecutive rays directly below ray `i` that are valid and in its
/// cluster, counting at most `m`.
pub open spec fn down_run(valid: Seq<bool>, cluster: Seq<i32>, i: int, m: nat) -> nat
    decreases m,
{
    if m == 0 {
        0
    } else {
        let r = down_run(valid, cluster, i, (m - 1) as nat);
        if r == m - 1 && same_cluster(valid, cluster, i, i - m) {
            m
        } else {
            r
        }
    }
}

/// The neighbours used to estimate the surface orientation at ray `i`: the
/// run of same-cluster valid rays above it (at most `max_num`, ascending),
/// then the run below it (at most `max_num + 1`, descending). No neighbours
/// when `max_num` is negative.
pub open spec fn neighbours_of(valid: Seq<bool>, cluster: Seq<i32>, i: int, max_num: int) -> Seq<
    usize,
> {
    let up_cap: nat = if max_num >= 0 { max_num as nat } else { 0 };
    let down_cap: nat = if max_num >= 0 { (max_num + 1) as nat } else { 0 };
    let u = up_run(valid, cluster, i, up_cap);
    let d = down_run(valid, cluster, i, down_cap);
    Seq::new(u, |k: int| (i + 1 + k) as usize) + Seq::new(d, |k: int| (i - 1 - k) as usize)
}

proof fn lemma_up_run_full(valid: Seq<bool>, cluster: Seq<i32>, i: int, c: nat)
    requires
        forall|k: int| 1 <= k <= c ==> #[trigger] same_cluster(valid, cluster, i, i + k),
    ensures
        up_run(valid, cluster, i, c) == c,
    decreases c,
{
    if c > 0 {
        lemma_up_run_full(valid, cluster, i, (c - 1) as nat);
        assert(same_cluster(valid, cluster, i, i + c));
    }
}

proof fn lemma_up_run_stops(valid: Seq<bool>, cluster: Seq<i32>, i: int, c: nat, m: nat)
    requires
        c <= m,
        up_run(valid, cluster, i, c) == c,
        c == m || !same_cluster(valid, cluster, i, i + c + 1),
    ensures
        up_run(valid, cluster, i, m) == c,
    decreases m,
{
    if m > c {
        lemma_up_run_stops(valid, cluster, i, c, (m - 1) as nat);
    }
}

proof fn lemma_down_run_full(valid: Seq<bool>, cluster: Seq<i32>, i: int, c: nat)
    requires
        forall|k: int| 1 <= k <= c ==> #[trigger] same_cluster(valid, cluster, i, i - k),
    ensures
        down_run(valid, cluster, i, c) == c,
    decreases c,
{
    if c > 0 {
        lemma_down_run_full(valid, cluster, i, (c - 1) as nat);
        assert(same_cluster(valid, cluster, i, i - c));
    }
}

proof fn lemma_down_run_stops(valid: Seq<bool>, cluster: Seq<i32>, i: int, c: nat, m: nat)
    requires
        c <= m,
        down_run(valid, cluster, i, c) == c,
        c == m || !same_cluster(valid, cluster, i, i - c - 1),
    ensures
        down_run(valid, cluster, i, m) == c,
    decreases m,
{
    if m > c {
        lemma_down_run_stops(valid, cluster, i, c, (m - 1) as nat);
    }
}

/// Neighbour ray indexes for orientation estimation at ray `i`: up to
/// `max_num` valid same-cluster rays ascending, then up to `max_num + 1`
/// descending.
pub fn find_neighbours(valid: &[bool], cluster: &[i32], i: usize, max_num: i32) -> (neighbours:
    Vec<usize>)
    requires
        valid@.len() == cluster@.len(),
        i < valid@.len(),
        valid@.len() <= i32::MAX,
        i + max_num <= i32::MAX,
        i - max_num >= i32::MIN,
    ensures
        neighbours@ == neighbours_of(valid@, cluster@, i as int, max_num as int),
{
    let ghost vs = valid@;
    let ghost cs = cluster@;
    let ghost up_cap: nat = if max_num >= 0 { max_num as nat } else { 0 };
    let ghost down_cap: nat = if max_num >= 0 { (max_num + 1) as nat } else { 0 };
    let n = valid.len();
    let mut indexes: Vec<usize> = Vec::new();
    let mut u: usize = 0;
    while (u as i64) < (max_num as i64) && i + u + 1 < n && valid[i + u + 1] && cluster[i + u
        + 1] == cluster[i]
        invariant
            n == vs.len(),
            vs == valid@,
            cs == cluster@,
            vs.len() == cs.len(),
            i < n,
            up_cap == (if max_num >= 0 { max_num as nat } else { 0nat }),
            u <= up_cap,
            i + u < n,
            forall|k: int| 1 <= k <= u ==> #[trigger] same_cluster(vs, cs, i as int, i + k),
            indexes@ == Seq::new(u as nat, |k: int| (i + 1 + k) as usize),
        decreases n - u,
    {
        u += 1;
        indexes.push(i + u);
        assert(same_cluster(vs, cs, i as int, i + u));
        assert(indexes@ =~= Seq::new(u as nat, |k: int| (i + 1 + k) as usize));
    }
    proof {
        lemma_up_run_full(vs, cs, i as int, u as nat);
        lemma_up_run_stops(vs, cs, i as int, u as nat, up_cap);
    }
    let ghost ups = indexes@;
    let mut d: usize = 0;
    while (d as i64) <= (max_num as i64) && d < i && valid[i - d - 1] && cluster[i - d - 1]
        == cluster[i]
        invariant
            n == vs.len(),
            vs == valid@,
            cs == cluster@,
            vs.len() == cs.len(),
            i < n,
            down_cap == (if max_num >= 0 { (max_num + 1) as nat } else { 0nat }),
            d <= down_cap,
            d <= i,
            forall|k: int| 1 <= k <= d ==> #[trigger] same_cluster(vs, cs, i as int, i - k),
            indexes@ == ups + Seq::new(d as nat, |k: int| (i - 1 - k) as usize),
        decreases i - d,
    {
        d += 1;
        indexes.push(i - d);
        assert(same_cluster(vs, cs, i as int, i - d));
        assert(indexes@ =~= ups + Seq::new(d as nat, |k: int| (i - 1 - k) as usize));
    }
    proof {
        lemma_down_run_full(vs, cs, i as int, d as nat);
        lemma_down_run_stops(vs, cs, i as int, d as nat, down_cap);
    }
    indexes
}


/// The comparison a jump-table walk continues on: with `walk_le`, while the
/// reading at `j` is `<=` the reading at `i`; otherwise while it is `>=`.
pub open spec fn walks_on(walk_le: bool, key_j: OrderKey, key_i: OrderKey) -> bool {
    if walk_le {
        key_le(key_j, key_i)
    } else {
        key_le(key_i, key_j)
    }
}

/// `d` is the upward jump from ray `i`: ray `i + d` is the first ray above `i`
/// that is past the end, invalid, or breaks the walk comparison.
pub open spec fn is_up_jump(
    valid: Seq<bool>,
    keys: Seq<OrderKey>,
    i: int,
    walk_le: bool,
    d: int,
) -> bool {
    &&& 1 <= d
    &&& i + d <= valid.len()
    &&& forall|k: int|
        i < k < i + d ==> #[trigger] valid[k] && walks_on(walk_le, keys[k], keys[i])
    &&& (i + d == valid.len() || !valid[i + d] || !walks_on(walk_le, keys[i + d], keys[i]))
}

/// `d` is the downward jump from ray `i`: ray `i + d` (with `d < 0`) is the
/// first ray below `i` that is before the start, invalid, or breaks the walk
/// comparison.
pub open spec fn is_down_jump(
    valid: Seq<bool>,
    keys: Seq<OrderKey>,
    i: int,
    walk_le: bool,
    d: int,
) -> bool {
    &&& d <= -1
    &&& i + d >= -1
    &&& forall|k: int|
        i + d < k < i ==> #[trigger] valid[k] && walks_on(walk_le, keys[k], keys[i])
    &&& (i + d == -1 || !valid[i + d] || !walks_on(walk_le, keys[i + d], keys[i]))
}

/// The four jump tables of the smart correspondence search.
pub struct JumpTables {
    /// Offset to the first ray above with a bigger reading (or invalid, or past the end).
    pub up_bigger: Vec<i32>,
    /// Offset to the first ray above with a smaller reading (or invalid, or past the end).
    pub up_smaller: Vec<i32>,
    /// Offset to the first ray below with a bigger reading (or invalid, or before the start).
    pub down_bigger: Vec<i32>,
    /// Offset to the first ray below with a smaller reading (or invalid, or before the start).
    pub down_smaller: Vec<i32>,
}

fn walk_le_or_ge(walk_le: bool, key_j: OrderKey, key_i: OrderKey) -> (r: bool)
    ensures
        r == walks_on(walk_le, key_j, key_i),
{
    if walk_le {
        le(key_j, key_i)
    } else {
        le(key_i, key_j)
    }
}

#[verifier::spinoff_prover]
fn jump_up(valid: &[bool], keys: &[OrderKey], i: usize, walk_le: bool) -> (d: i32)
    requires
        valid@.len() == keys@.len(),
        valid@.len() < i32::MAX,
        i < valid@.len(),
    ensures
        is_up_jump(valid@, keys@, i as int, walk_le, d as int),
{
    let n = valid.len();
    let mut j: usize = i + 1;
    while j < n && valid[j] && walk_le_or_ge(walk_le, keys[j], keys[i])
        invariant
            n == valid@.len(),
            n == keys@.len(),
            n < i32::MAX,
            i < j <= n,
            forall|k: int|
                i < k < j ==> #[trigger] valid@[k] && walks_on(walk_le, keys@[k], keys@[i as int]),
        decreases n - j,
    {
        let ghost passed = j as int;
        j += 1;
        assert forall|k: int| i < k < j implies #[trigger] valid@[k] && walks_on(
            walk_le,
            keys@[k],
            keys@[i as int],
        ) by {
            if k < passed {
                // an earlier ray, covered before this step
                assert(i < k < passed);
            } else {
                // the ray just passed, which met the loop condition
                assert(k == passed);
            }
        }
    }
    let d = (j - i) as i32;
    assert(is_up_jump(valid@, keys@, i as int, walk_le, d as int));
    d
}

#[verifier::spinoff_prover]
fn jump_down(valid: &[bool], keys: &[OrderKey], i: usize, walk_le: bool) -> (d: i32)
    requires
        valid@.len() == keys@.len(),
        valid@.len() < i32::MAX,
        i < valid@.len(),
    ensures
        is_down_jump(valid@, keys@, i as int, walk_le, d as int),
{
    // `j` is one past the ray under examination, so that it stays unsigned.
    let mut j: usize = i;
    while j > 0 && valid[j - 1] && walk_le_or_ge(walk_le, keys[j - 1], keys[i])
        invariant
            valid@.len() == keys@.len(),
            valid@.len() < i32::MAX,
            i < valid@.len(),
            j <= i,
            forall|k: int|
                j <= k < i ==> #[trigger] valid@[k] && walks_on(walk_le, keys@[k], keys@[i as int]),
        decreases j,
    {
        j -= 1;
        let ghost passed = j as int;
        assert forall|k: int| j <= k < i implies #[trigger] valid@[k] && walks_on(
            walk_le,
            keys@[k],
            keys@[i as int],
        ) by {
            if k > passed {
                // a later ray, covered before this step
                assert(passed < k < i);
            } else {
                // the ray just passed, which met the loop condition
                assert(k == passed);
            }
        }
    }
    let d = (j as i32) - 1 - (i as i32);
    // The walk stopped at ray `j - 1`: before the start, invalid, or off the
    // walk; every ray from `j` up to `i` was on it.
    assert(i + d == j - 1);
    assert(j == 0 || !valid@[j - 1] || !walks_on(walk_le, keys@[j - 1], keys@[i as int]));
    assert forall|k: int| i + d < k < i implies #[trigger] valid@[k] && walks_on(
        walk_le,
        keys@[k],
        keys@[i as int],
    ) by {
        assert(j <= k < i);
    }
    assert(is_down_jump(valid@, keys@, i as int, walk_le, d as int));
    d
}

/// Build the four jump tables used by the smart correspondence search from
/// the validity flags and the order keys of the readings.
pub fn create_jump_tables(valid: &[bool], readings: &[OrderKey]) -> (tables: JumpTables)
    requires
        valid@.len() == readings@.len(),
        valid@.len() < i32::MAX,
    ensures
        tables.up_bigger@.len() == valid@.len(),
        tables.up_smaller@.len() == valid@.len(),
        tables.down_bigger@.len() == valid@.len(),
        tables.down_smaller@.len() == valid@.len(),
        forall|i: int|
            0 <= i < valid@.len() ==> is_up_jump(
                valid@,
                readings@,
                i,
                true,
                #[trigger] tables.up_bigger@[i] as int,
            ),
        forall|i: int|
            0 <= i < valid@.len() ==> is_up_jump(
                valid@,
                readings@,
                i,
                false,
                #[trigger] tables.up_smaller@[i] as int,
            ),
        forall|i: int|
            0 <= i < valid@.len() ==> is_down_jump(
                valid@,
                readings@,
                i,
                true,
                #[trigger] tables.down_bigger@[i] as int,
            ),
        forall|i: int|
            0 <= i < valid@.len() ==> is_down_jump(
                valid@,
                readings@,
                i,
                false,
                #[trigger] tables.down_smaller@[i] as int,
            ),
{
    let n = valid.len();
    let mut up_bigger: Vec<i32> = Vec::new();
    let mut up_smaller: Vec<i32> = Vec::new();
    let mut down_bigger: Vec<i32> = Vec::new();
    let mut down_smaller: Vec<i32> = Vec::new();
    let mut i: usize = 0;
    while i < n
        invariant
            n == valid@.len(),
            n == readings@.len(),
            n < i32::MAX,
            i <= n,
            up_bigger@.len() == i,
            up_smaller@.len() == i,
            down_bigger@.len() == i,
            down_smaller@.len() == i,
            forall|k: int|
                0 <= k < i ==> is_up_jump(valid@, readings@, k, true, #[trigger] up_bigger@[k] as int),
            forall|k: int|
                0 <= k < i ==> is_up_jump(valid@, readings@, k, false, #[trigger] up_smaller@[k] as int),
            forall|k: int|
                0 <= k < i ==> is_down_jump(valid@, readings@, k, true, #[trigger] down_bigger@[k] as int),
            forall|k: int|
                0 <= k < i ==> is_down_jump(valid@, readings@, k, false, #[trigger] down_smaller@[k] as int),
        decreases n - i,
    {
        up_bigger.push(jump_up(valid, readings, i, true));
        up_smaller.push(jump_up(valid, readings, i, false));
        down_smaller.push(jump_down(valid, readings, i, false));
        down_bigger.push(jump_down(valid, readings, i, true));
        i += 1;
    }
    JumpTables { up_bigger, up_smaller, down_bigger, down_smaller }
}

/// A valid ray stays valid when its reading lies in `(min, max]`; a ray with a
/// NaN reading is never outside.
pub open spec fn outside_interval(reading: OrderKey, min: OrderKey, max: OrderKey) -> bool {
    key_le(reading, min) || key_lt(max, reading)
}

/// The validity flags after the reading-interval filter.
pub open spec fn filtered(valid: Seq<bool>, readings: Seq<OrderKey>, min: OrderKey, max: OrderKey) -> Seq<
    bool,
> {
    Seq::new(valid.len(), |i: int| valid[i] && !outside_interval(readings[i], min, max))
}

/// Mark valid rays whose reading is outside `(min_reading, max_reading]` as
/// invalid.
pub fn invalid_if_outside(
    valid: &mut Vec<bool>,
    readings: &[OrderKey],
    min_reading: OrderKey,
    max_reading: OrderKey,
)
    requires
        old(valid)@.len() == readings@.len(),
    ensures
        final(valid)@ == filtered(old(valid)@, readings@, min_reading, max_reading),
{
    let n = valid.len();
    let mut i: usize = 0;
    while i < n
        invariant
            n == valid@.len(),
            n == readings@.len(),
            old(valid)@.len() == n,
            i <= n,
            forall|k: int|
                0 <= k < i ==> #[trigger] valid@[k] == (old(valid)@[k] && !outside_interval(
                    readings@[k],
                    min_reading,
                    max_reading,
                )),
            forall|k: int| i <= k < n ==> #[trigger] valid@[k] == old(valid)@[k],
        decreases n - i,
    {
        if valid[i] && (le(readings[i], min_reading) || lt(max_reading, readings[i])) {
            valid.set(i, false);
        }
        i += 1;
    }
    assert(valid@ =~= filtered(old(valid)@, readings@, min_reading, max_reading));
}

/// Invalidate rays whose bearing from the viewpoint decreases along the scan
/// order. Rays are examined in order, so a ray invalidated here no longer
/// hides the next one. `bearings[i]` is the order key of the bearing of ray
/// `i` from the viewpoint; it is read only for valid rays.
pub fn hide_bearing_reversals(valid: &mut Vec<bool>, bearings: &[OrderKey])
    requires
        old(valid)@.len() == bearings@.len(),
    ensures
        final(valid)@.len() == old(valid)@.len(),
        old(valid)@.len() > 0 ==> final(valid)@[0] == old(valid)@[0],
        forall|i: int|
            1 <= i < old(valid)@.len() ==> #[trigger] final(valid)@[i] == (old(valid)@[i] && !(
            final(valid)@[i - 1] && key_lt(bearings@[i], bearings@[i - 1]))),
{
    let n = valid.len();
    let mut i: usize = 1;
    while i < n
        invariant
            n == valid@.len(),
            n == bearings@.len(),
            old(valid)@.len() == n,
            1 <= i,
            n > 0 ==> i <= n,
            n > 0 ==> valid@[0] == old(valid)@[0],
            forall|k: int|
                1 <= k < i && k < n ==> #[trigger] valid@[k] == (old(valid)@[k] && !(valid@[k - 1]
                    && key_lt(bearings@[k], bearings@[k - 1]))),
            forall|k: int| i <= k < n ==> #[trigger] valid@[k] == old(valid)@[k],
        decreases n - i,
    {
        if valid[i] && valid[i - 1] && lt(bearings[i], bearings[i - 1]) {
            valid.set(i, false);
        }
        i += 1;
    }
}

/// The first ray that has the same bearing as its predecessor while both are
/// valid.
pub fn first_duplicate_bearing(valid: &[bool], bearings: &[OrderKey]) -> (r: Option<usize>)
    requires
        valid@.len() == bearings@.len(),
    ensures
        match r {
            Some(i) => 1 <= i < valid@.len() && valid@[i as int] && valid@[i - 1] && key_eq(
                bearings@[i as int],
                bearings@[i - 1],
            ) && forall|k: int|
                1 <= k < i ==> !(#[trigger] valid@[k] && valid@[k - 1] && key_eq(
                    bearings@[k],
                    bearings@[k - 1],
                )),
            None => forall|k: int|
                1 <= k < valid@.len() ==> !(#[trigger] valid@[k] && valid@[k - 1] && key_eq(
                    bearings@[k],
                    bearings@[k - 1],
                )),
        },
{
    let n = valid.len();
    let mut i: usize = 1;
    while i < n
        invariant
            n == valid@.len(),
            n == bearings@.len(),
            1 <= i,
            forall|k: int|
                1 <= k < i && k < n ==> !(#[trigger] valid@[k] && valid@[k - 1] && key_eq(
                    bearings@[k],
                    bearings@[k - 1],
                )),
        decreases n - i,
    {
        if valid[i] && valid[i - 1] && eq(bearings[i], bearings[i - 1]) {
            return Some(i);
        }
        i += 1;
    }
    None
}


/// The number of rays of a scan must lie in `[10, 10000]`.
pub fn check_nrays(nrays: usize) -> (r: Result<(), LaserDataError>)
    ensures
        10 <= nrays <= 10000 ==> r is Ok,
        !(10 <= nrays <= 10000) ==> r == Err::<(), LaserDataError>(
            LaserDataError::NraysOutOfRange,
        ),
{
    if nrays < 10 || nrays > 10000 {
        Err(LaserDataError::NraysOutOfRange)
    } else {
        Ok(())
    }
}

/// A matching workspace needs room for at least one ray in each scan; it is
/// then sized for the two capacities, which it reports.
pub fn check_workspace_capacities(reference_capacity: usize, sensor_capacity: usize) -> (r:
    Result<(usize, usize), LaserDataError>)
    ensures
        r == (if reference_capacity > 0 && sensor_capacity > 0 {
            Ok::<(usize, usize), LaserDataError>((reference_capacity, sensor_capacity))
        } else {
            Err(LaserDataError::NraysOutOfRange)
        }),
{
    if reference_capacity == 0 || sensor_capacity == 0 {
        Err(LaserDataError::NraysOutOfRange)
    } else {
        Ok((reference_capacity, sensor_capacity))
    }
}

/// The number of valid rays among the first `n`.
pub open spec fn valid_count(valid: Seq<bool>, n: int) -> nat
    decreases n,
{
    if n <= 0 || n > valid.len() {
        0
    } else {
        valid_count(valid, n - 1) + if valid[n - 1] {
            1nat
        } else {
            0nat
        }
    }
}

/// Count the valid rays of a scan.
pub fn count_valid(valid: &[bool]) -> (count: usize)
    ensures
        count == valid_count(valid@, valid@.len() as int),
{
    let mut count: usize = 0;
    let mut i: usize = 0;
    while i < valid.len()
        invariant
            i <= valid@.len(),
            count == valid_count(valid@, i as int),
            count <= i,
        decreases valid@.len() - i,
    {
        if valid[i] {
            count += 1;
        }
        i += 1;
    }
    count
}

/// At least 10% of the rays of a scan must be valid. For scans of at most
/// 10000 rays this is the same test as `count < nrays * 0.10` in binary64
/// arithmetic.
pub fn check_valid_share(valid: &[bool]) -> (r: Result<(), LaserDataError>)
    ensures
        10 * valid_count(valid@, valid@.len() as int) >= valid@.len() ==> r is Ok,
        10 * valid_count(valid@, valid@.len() as int) < valid@.len() ==> r == Err::<
            (),
            LaserDataError,
        >(LaserDataError::TooFewValidRays),
{
    let count = count_valid(valid);
    if 10 * (count as u128) < valid.len() as u128 {
        Err(LaserDataError::TooFewValidRays)
    } else {
        Ok(())
    }
}

/// What the structural validation of a scan needs to know about one ray.
/// The three flags are the outcome of floating-point tests on the ray.
#[derive(Clone, Copy, Debug, PartialEq, Eq, Structural)]
pub struct RayCheck {
    /// The ray is marked valid.
    pub valid: bool,
    /// The ray's cluster label.
    pub cluster: i32,
    /// The reading and bearing are not NaN and the reading is in `(0, 100)`.
    pub reading_ok: bool,
    /// The bearing is NaN.
    pub theta_nan: bool,
    /// The reading sigma is set (not NaN) and negative.
    pub sigma_negative: bool,
}

/// The error that ray `i` causes, if any: a valid ray needs a good reading; an
/// invalid ray needs a bearing and no cluster; no label may be below -1; the
/// sigma may not be negative.
pub open spec fn ray_error(ray: RayCheck, i: usize) -> Option<LaserDataError> {
    if ray.valid && !ray.reading_ok {
        Some(LaserDataError::BadValidRay(i))
    } else if !ray.valid && ray.theta_nan {
        Some(LaserDataError::BadValidRay(i))
    } else if !ray.valid && ray.cluster != -1 {
        Some(LaserDataError::BadCluster(i))
    } else if ray.cluster < -1 {
        Some(LaserDataError::BadCluster(i))
    } else if ray.sigma_negative {
        Some(LaserDataError::NegativeSigma(i))
    } else {
        None
    }
}

/// The first error among rays `k..`.
pub open spec fn first_ray_error_from(rays: Seq<RayCheck>, k: int) -> Option<LaserDataError>
    decreases rays.len() - k,
{
    if k < 0 || k >= rays.len() {
        None
    } else if ray_error(rays[k], k as usize) is Some {
        ray_error(rays[k], k as usize)
    } else {
        first_ray_error_from(rays, k + 1)
    }
}

/// Check the rays of a scan in order and report the first malformed one.
pub fn check_rays(rays: &[RayCheck]) -> (r: Result<(), LaserDataError>)
    ensures
        match first_ray_error_from(rays@, 0) {
            Some(e) => r == Err::<(), LaserDataError>(e),
            None => r is Ok,
        },
{
    let n = rays.len();
    let mut i: usize = 0;
    while i < n
        invariant
            n == rays@.len(),
            i <= n,
            first_ray_error_from(rays@, 0) == first_ray_error_from(rays@, i as int),
        decreases n - i,
    {
        let ray = rays[i];
        if ray.valid {
            if !ray.reading_ok {
                return Err(LaserDataError::BadValidRay(i));
            }
        } else {
            if ray.theta_nan {
                return Err(LaserDataError::BadValidRay(i));
            }
            if ray.cluster != -1 {
                return Err(LaserDataError::BadCluster(i));
            }
        }
        if ray.cluster < -1 {
            return Err(LaserDataError::BadCluster(i));
        }
        if ray.sigma_negative {
            return Err(LaserDataError::NegativeSigma(i));
        }
        i += 1;
    }
    Ok(())
}


/// What the structural validation of a scan reads, as plain values: the
/// number of rays, the outcome of the floating-point tests on the bearing
/// bounds, and per stored entry the flags and labels of the rays. Each
/// per-ray vector holds one entry for each element of the scan's storage it
/// was computed from, so its length is that storage's length.
pub struct ScanFacts {
    /// The number of rays the scan claims.
    pub nrays: usize,
    /// The first or last bearing bound is NaN.
    pub bounds_nan: bool,
    /// The field of view, last bound minus first, is within
    /// `[20 degrees, 2.01 pi]`.
    pub fov_in_range: bool,
    /// The bounds agree with the first and last stored bearings to 1e-8.
    pub bounds_match: bool,
    /// Per stored bearing: it is NaN.
    pub theta_nan: Vec<bool>,
    /// Per stored validity flag: the ray is valid.
    pub valid: Vec<bool>,
    /// Per stored reading: it is not NaN and lies in `(0, 100)`.
    pub reading_in_range: Vec<bool>,
    /// Per stored reading sigma: it is set (not NaN) and negative.
    pub sigma_negative: Vec<bool>,
    /// Per stored cluster label: the label.
    pub cluster: Vec<i32>,
}

/// The ray checks of a scan whose storage is consistent.
pub open spec fn rays_of(f: ScanFacts) -> Seq<RayCheck> {
    Seq::new(
        f.nrays as nat,
        |i: int|
            RayCheck {
                valid: f.valid@[i],
                cluster: f.cluster@[i],
                reading_ok: f.reading_in_range@[i] && !f.theta_nan@[i],
                theta_nan: f.theta_nan@[i],
                sigma_negative: f.sigma_negative@[i],
            },
    )
}

/// The verdict of the structural validation of a scan, in the order of its
/// checks: every per-ray storage holds `nrays` entries (bearings, validity
/// flags, readings, reading sigmas, cluster labels, in that order); the
/// number of rays is in `[10, 10000]`; the bearing bounds are not NaN; the
/// field of view is in range; the bounds match the first and last bearings;
/// every ray is well formed (the first malformed one is reported); at least
/// 10% of the rays are valid.
pub open spec fn scan_verdict(f: ScanFacts) -> Result<(), LaserDataError> {
    let n = f.nrays;
    if f.theta_nan@.len() != n {
        Err(LaserDataError::InconsistentLengths { field: "theta", expected: n, actual: f.theta_nan@.len() as usize })
    } else if f.valid@.len() != n {
        Err(LaserDataError::InconsistentLengths { field: "valid", expected: n, actual: f.valid@.len() as usize })
    } else if f.reading_in_range@.len() != n {
        Err(
            LaserDataError::InconsistentLengths {
                field: "readings",
                expected: n,
                actual: f.reading_in_range@.len() as usize,
            },
        )
    } else if f.sigma_negative@.len() != n {
        Err(
            LaserDataError::InconsistentLengths {
                field: "readings_sigma",
                expected: n,
                actual: f.sigma_negative@.len() as usize,
            },
        )
    } else if f.cluster@.len() != n {
        Err(LaserDataError::InconsistentLengths { field: "cluster", expected: n, actual: f.cluster@.len() as usize })
    } else if !(10 <= n <= 10000) {
        Err(LaserDataError::NraysOutOfRange)
    } else if f.bounds_nan {
        Err(LaserDataError::NanThetaBounds)
    } else if !f.fov_in_range {
        Err(LaserDataError::FovOutOfRange)
    } else if !f.bounds_match {
        Err(LaserDataError::ThetaBoundsMismatch)
    } else if let Some(e) = first_ray_error_from(rays_of(f), 0) {
        Err(e)
    } else if 10 * valid_count(f.valid@, n as int) < n {
        Err(LaserDataError::TooFewValidRays)
    } else {
        Ok(())
    }
}

/// Validate the structure of a scan: `Ok` exactly when every check passes,
/// otherwise the error of the first check that fails.
pub fn check_scan(facts: &ScanFacts) -> (r: Result<(), LaserDataError>)
    ensures
        r == scan_verdict(*facts),
{
    let n = facts.nrays;
    if let Err(e) = check_length("theta", n, facts.theta_nan.len()) {
        return Err(e);
    }
    if let Err(e) = check_length("valid", n, facts.valid.len()) {
        return Err(e);
    }
    if let Err(e) = check_length("readings", n, facts.reading_in_range.len()) {
        return Err(e);
    }
    if let Err(e) = check_length("readings_sigma", n, facts.sigma_negative.len()) {
        return Err(e);
    }
    if let Err(e) = check_length("cluster", n, facts.cluster.len()) {
        return Err(e);
    }
    if let Err(e) = check_nrays(n) {
        return Err(e);
    }
    if facts.bounds_nan {
        return Err(LaserDataError::NanThetaBounds);
    }
    if !facts.fov_in_range {
        return Err(LaserDataError::FovOutOfRange);
    }
    if !facts.bounds_match {
        return Err(LaserDataError::ThetaBoundsMismatch);
    }
    let mut rays: Vec<RayCheck> = Vec::with_capacity(n);
    let mut i: usize = 0;
    while i < n
        invariant
            n == facts.nrays,
            i <= n,
            facts.theta_nan@.len() == n,
            facts.valid@.len() == n,
            facts.reading_in_range@.len() == n,
            facts.sigma_negative@.len() == n,
            facts.cluster@.len() == n,
            rays@.len() == i,
            forall|j: int| 0 <= j < i ==> rays@[j] == rays_of(*facts)[j],
        decreases n - i,
    {
        rays.push(
            RayCheck {
                valid: facts.valid[i],
                cluster: facts.cluster[i],
                reading_ok: facts.reading_in_range[i] && !facts.theta_nan[i],
                theta_nan: facts.theta_nan[i],
                sigma_negative: facts.sigma_negative[i],
            },
        );
        i += 1;
    }
    assert(rays@ =~= rays_of(*facts));
    if let Err(e) = check_rays(&rays) {
        return Err(e);
    }
    match check_valid_share(facts.valid.as_slice()) {
        Err(e) => Err(e),
        Ok(()) => Ok(()),
    }
}

proof fn lemma_up_run_sound(valid: Seq<bool>, cluster: Seq<i32>, i: int, m: nat)
    ensures
        up_run(valid, cluster, i, m) <= m,
        forall|k: int|
            1 <= k <= up_run(valid, cluster, i, m) ==> #[trigger] same_cluster(
                valid,
                cluster,
                i,
                i + k,
            ),
    decreases m,
{
    if m > 0 {
        lemma_up_run_sound(valid, cluster, i, (m - 1) as nat);
    }
}

proof fn lemma_down_run_sound(valid: Seq<bool>, cluster: Seq<i32>, i: int, m: nat)
    ensures
        down_run(valid, cluster, i, m) <= m,
        forall|k: int|
            1 <= k <= down_run(valid, cluster, i, m) ==> #[trigger] same_cluster(
                valid,
                cluster,
                i,
                i - k,
            ),
    decreases m,
{
    if m > 0 {
        lemma_down_run_sound(valid, cluster, i, (m - 1) as nat);
    }
}

/// Every orientation neighbour of ray `i` is a valid ray of the scan, other
/// than `i`, in the same cluster as `i`; at most `2 * max_num + 1` of them.
pub proof fn lemma_neighbours_share_cluster(
    valid: Seq<bool>,
    cluster: Seq<i32>,
    i: int,
    max_num: int,
)
    requires
        valid.len() == cluster.len(),
        valid.len() <= usize::MAX,
        0 <= i < valid.len(),
    ensures
        neighbours_of(valid, cluster, i, max_num).len() <= (if max_num >= 0 {
            2 * max_num + 1
        } else {
            0
        }),
        forall|k: int|
            0 <= k < neighbours_of(valid, cluster, i, max_num).len() ==> {
                let j = #[trigger] neighbours_of(valid, cluster, i, max_num)[k] as int;
                &&& j != i
                &&& 0 <= j < valid.len()
                &&& valid[j]
                &&& cluster[j] == cluster[i]
            },
{
    let up_cap: nat = if max_num >= 0 { max_num as nat } else { 0 };
    let down_cap: nat = if max_num >= 0 { (max_num + 1) as nat } else { 0 };
    lemma_up_run_sound(valid, cluster, i, up_cap);
    lemma_down_run_sound(valid, cluster, i, down_cap);
    let u = up_run(valid, cluster, i, up_cap);
    let d = down_run(valid, cluster, i, down_cap);
    let ns = neighbours_of(valid, cluster, i, max_num);
    assert forall|k: int| 0 <= k < ns.len() implies {
        let j = #[trigger] ns[k] as int;
        &&& j != i
        &&& 0 <= j < valid.len()
        &&& valid[j]
        &&& cluster[j] == cluster[i]
    } by {
        if k < u {
            assert(ns[k] == (i + 1 + k) as usize);
            assert(same_cluster(valid, cluster, i, i + (k + 1)));
        } else {
            assert(ns[k] == (i - 1 - (k - u)) as usize);
            assert(same_cluster(valid, cluster, i, i - (k - u + 1)));
        }
    }
}

/// A jump never passes over an invalid ray: the smart search lands on or
/// before the first invalid ray in the direction of the jump.
pub proof fn lemma_jumps_stop_at_invalid_rays(
    valid: Seq<bool>,
    keys: Seq<OrderKey>,
    i: int,
    walk_le: bool,
    up: int,
    down: int,
    k: int,
)
    requires
        is_up_jump(valid, keys, i, walk_le, up),
        is_down_jump(valid, keys, i, walk_le, down),
        0 <= k < valid.len(),
        !valid[k],
    ensures
        k > i ==> i + up <= k,
        k < i ==> i + down >= k,
{
    if k > i && i + up > k {
        assert(valid[k]);
    }
    if k < i && i + down < k {
        assert(valid[k]);
    }
}

/// Filtering by the reading interval is idempotent: a second pass with the
/// same bounds invalidates nothing more.
pub proof fn lemma_invalid_if_outside_idempotent(
    valid: Seq<bool>,
    readings: Seq<OrderKey>,
    min: OrderKey,
    max: OrderKey,
)
    ensures
        filtered(filtered(valid, readings, min, max), readings, min, max) == filtered(
            valid,
            readings,
            min,
            max,
        ),
{
    assert(filtered(filtered(valid, readings, min, max), readings, min, max) =~= filtered(
        valid,
        readings,
        min,
        max,
    ));
}

/// After the visibility filter no valid ray is hidden by the valid ray right
/// before it, and the filter only ever invalidates rays.
pub proof fn lemma_visibility_leaves_no_reversal(
    before: Seq<bool>,
    after: Seq<bool>,
    bearings: Seq<OrderKey>,
)
    requires
        before.len() == bearings.len(),
        after.len() == before.len(),
        before.len() > 0 ==> after[0] == before[0],
        forall|i: int|
            1 <= i < before.len() ==> #[trigger] after[i] == (before[i] && !(after[i - 1]
                && key_lt(bearings[i], bearings[i - 1]))),
    ensures
        forall|i: int| 0 <= i < after.len() && #[trigger] after[i] ==> before[i],
        forall|i: int|
            1 <= i < after.len() && #[trigger] after[i] && after[i - 1] ==> !key_lt(
                bearings[i],
                bearings[i - 1],
            ),
{
}

/// A ray passes its structural checks: a valid ray has a good reading (in
/// `(0, 100)`, with a bearing), an invalid ray has a bearing and no cluster,
/// no label is below -1, and no set reading sigma is negative.
pub open spec fn ray_passes(ray: RayCheck) -> bool {
    &&& (ray.valid ==> ray.reading_ok)
    &&& (!ray.valid ==> !ray.theta_nan && ray.cluster == -1)
    &&& ray.cluster >= -1
    &&& !ray.sigma_negative
}

proof fn lemma_first_ray_error_from(rays: Seq<RayCheck>, k: int)
    requires
        0 <= k <= rays.len(),
    ensures
        first_ray_error_from(rays, k) is None <==> forall|i: int|
            k <= i < rays.len() ==> ray_passes(#[trigger] rays[i]),
        forall|i: int|
            #![trigger rays[i]]
            k <= i < rays.len() && !ray_passes(rays[i]) && (forall|j: int|
                k <= j < i ==> ray_passes(#[trigger] rays[j])) ==> first_ray_error_from(rays, k)
                == ray_error(rays[i], i as usize),
    decreases rays.len() - k,
{
    if k < rays.len() {
        lemma_first_ray_error_from(rays, k + 1);
        assert(ray_error(rays[k], k as usize) is None <==> ray_passes(rays[k]));
    }
}

/// The per-ray checks report the first ray that fails them, and pass exactly
/// when every ray passes. At the first failing ray, a valid ray without a
/// good reading or an invalid ray without a bearing is a bad valid ray;
/// otherwise an invalid ray with a cluster, or a label below -1, is a bad
/// cluster; otherwise the ray's set reading sigma is negative, whether the
/// ray is valid or not.
pub proof fn lemma_ray_checks_report_the_first_failing_ray(rays: Seq<RayCheck>)
    requires
        rays.len() <= usize::MAX,
    ensures
        first_ray_error_from(rays, 0) is None <==> forall|i: int|
            0 <= i < rays.len() ==> ray_passes(#[trigger] rays[i]),
        forall|i: int|
            #![trigger rays[i]]
            0 <= i < rays.len() && !ray_passes(rays[i]) && (forall|j: int|
                0 <= j < i ==> ray_passes(#[trigger] rays[j])) ==> first_ray_error_from(rays, 0)
                == Some(
                if (rays[i].valid && !rays[i].reading_ok) || (!rays[i].valid
                    && rays[i].theta_nan) {
                    LaserDataError::BadValidRay(i as usize)
                } else if (!rays[i].valid && rays[i].cluster != -1) || rays[i].cluster < -1 {
                    LaserDataError::BadCluster(i as usize)
                } else {
                    LaserDataError::NegativeSigma(i as usize)
                },
            ),
{
    lemma_first_ray_error_from(rays, 0);
}

/// The rays of a scan marked valid.
pub open spec fn valid_rays(valid: Seq<bool>) -> Seq<bool> {
    valid.filter(|v: bool| v)
}

/// The valid count of the first `n` rays is the number of those rays marked
/// valid.
pub proof fn lemma_valid_count_counts(valid: Seq<bool>, n: int)
    requires
        0 <= n <= valid.len(),
    ensures
        valid_count(valid, n) == valid_rays(valid.take(n)).len(),
    decreases n,
{
    reveal(Seq::filter);
    if n > 0 {
        lemma_valid_count_counts(valid, n - 1);
        assert(valid.take(n).drop_last() =~= valid.take(n - 1));
        assert(valid.take(n).last() == valid[n - 1]);
    } else {
        assert(valid.take(0) =~= Seq::<bool>::empty());
    }
}

/// Ray `i` of a scan passes its structural checks, read from the scan's facts.
pub open spec fn scan_ray_passes(f: ScanFacts, i: int) -> bool {
    &&& (f.valid@[i] ==> f.reading_in_range@[i] && !f.theta_nan@[i])
    &&& (!f.valid@[i] ==> !f.theta_nan@[i] && f.cluster@[i] == -1)
    &&& f.cluster@[i] >= -1
    &&& !f.sigma_negative@[i]
}

/// Every per-ray storage of a scan holds `nrays` entries.
pub open spec fn storage_consistent(f: ScanFacts) -> bool {
    &&& f.theta_nan@.len() == f.nrays
    &&& f.valid@.len() == f.nrays
    &&& f.reading_in_range@.len() == f.nrays
    &&& f.sigma_negative@.len() == f.nrays
    &&& f.cluster@.len() == f.nrays
}

/// The checks before the per-ray ones pass: consistent storage, between 10
/// and 10000 rays, bearing bounds that are numbers, a field of view in range,
/// and bounds that match the first and last bearings.
pub open spec fn scan_frame_passes(f: ScanFacts) -> bool {
    &&& storage_consistent(f)
    &&& 10 <= f.nrays <= 10000
    &&& !f.bounds_nan
    &&& f.fov_in_range
    &&& f.bounds_match
}

proof fn lemma_rays_of_pass(f: ScanFacts)
    requires
        storage_consistent(f),
    ensures
        forall|i: int| 0 <= i < f.nrays ==> (ray_passes(#[trigger] rays_of(f)[i]) <==> scan_ray_passes(f, i)),
        rays_of(f).len() == f.nrays,
{
}

/// A scan passes structural validation exactly when its storage is
/// consistent, it has between 10 and 10000 rays, its bearing bounds are
/// numbers that span a field of view in range and match the first and last
/// bearings, every ray passes its checks (a valid ray has a reading in
/// `(0, 100)` and a bearing, an invalid ray a bearing and no cluster, no label
/// is below -1, no set sigma is negative), and at least a tenth of the rays
/// are valid.
pub proof fn lemma_scan_accepted_exactly_when_well_formed(f: ScanFacts)
    ensures
        scan_verdict(f) is Ok <==> {
            &&& scan_frame_passes(f)
            &&& forall|i: int| 0 <= i < f.nrays ==> #[trigger] scan_ray_passes(f, i)
            &&& 10 * valid_rays(f.valid@).len() >= f.nrays
        },
{
    if storage_consistent(f) {
        lemma_rays_of_pass(f);
        lemma_ray_checks_report_the_first_failing_ray(rays_of(f));
        lemma_valid_count_counts(f.valid@, f.nrays as int);
        assert(f.valid@.take(f.nrays as int) =~= f.valid@);
        if scan_frame_passes(f) && first_ray_error_from(rays_of(f), 0) is None {
            assert forall|i: int| 0 <= i < f.nrays implies #[trigger] scan_ray_passes(f, i) by {
                assert(ray_passes(rays_of(f)[i]));
            }
        }
        if scan_frame_passes(f) && (forall|i: int| 0 <= i < f.nrays ==> #[trigger] scan_ray_passes(f, i)) {
            assert forall|i: int| 0 <= i < rays_of(f).len() implies ray_passes(#[trigger] rays_of(f)[i]) by {
                assert(scan_ray_passes(f, i));
            }
        }
    }
}

/// The checks before the per-ray ones come in a fixed order: the storage
/// of bearings, validity flags, readings, reading sigmas and cluster labels
/// must each hold `nrays` entries (the first that does not is reported with
/// its length); then a ray count outside `[10, 10000]` is rejected; then
/// NaN bearing bounds; then a field of view out of range; then bounds that do
/// not match the first and last bearings.
pub proof fn lemma_scan_frame_checks_come_first(f: ScanFacts)
    ensures
        f.theta_nan@.len() != f.nrays ==> scan_verdict(f) == Err::<(), LaserDataError>(
            LaserDataError::InconsistentLengths {
                field: "theta",
                expected: f.nrays,
                actual: f.theta_nan@.len() as usize,
            },
        ),
        f.theta_nan@.len() == f.nrays && f.valid@.len() != f.nrays ==> scan_verdict(f) == Err::<
            (),
            LaserDataError,
        >(
            LaserDataError::InconsistentLengths {
                field: "valid",
                expected: f.nrays,
                actual: f.valid@.len() as usize,
            },
        ),
        f.theta_nan@.len() == f.nrays && f.valid@.len() == f.nrays && f.reading_in_range@.len()
            != f.nrays ==> scan_verdict(f) == Err::<(), LaserDataError>(
            LaserDataError::InconsistentLengths {
                field: "readings",
                expected: f.nrays,
                actual: f.reading_in_range@.len() as usize,
            },
        ),
        f.theta_nan@.len() == f.nrays && f.valid@.len() == f.nrays && f.reading_in_range@.len()
            == f.nrays && f.sigma_negative@.len() != f.nrays ==> scan_verdict(f) == Err::<
            (),
            LaserDataError,
        >(
            LaserDataError::InconsistentLengths {
                field: "readings_sigma",
                expected: f.nrays,
                actual: f.sigma_negative@.len() as usize,
            },
        ),
        f.theta_nan@.len() == f.nrays && f.valid@.len() == f.nrays && f.reading_in_range@.len()
            == f.nrays && f.sigma_negative@.len() == f.nrays && f.cluster@.len() != f.nrays
            ==> scan_verdict(f) == Err::<(), LaserDataError>(
            LaserDataError::InconsistentLengths {
                field: "cluster",
                expected: f.nrays,
                actual: f.cluster@.len() as usize,
            },
        ),
        storage_consistent(f) && (f.nrays < 10 || f.nrays > 10000) ==> scan_verdict(f) == Err::<
            (),
            LaserDataError,
        >(LaserDataError::NraysOutOfRange),
        storage_consistent(f) && 10 <= f.nrays <= 10000 && f.bounds_nan ==> scan_verdict(f)
            == Err::<(), LaserDataError>(LaserDataError::NanThetaBounds),
        storage_consistent(f) && 10 <= f.nrays <= 10000 && !f.bounds_nan && !f.fov_in_range
            ==> scan_verdict(f) == Err::<(), LaserDataError>(LaserDataError::FovOutOfRange),
        storage_consistent(f) && 10 <= f.nrays <= 10000 && !f.bounds_nan && f.fov_in_range
            && !f.bounds_match ==> scan_verdict(f) == Err::<(), LaserDataError>(
            LaserDataError::ThetaBoundsMismatch,
        ),
{
}

/// Once the checks before them pass, the rays are checked in order and the
/// first ray that fails is reported: a valid ray without a reading in
/// `(0, 100)` or without a bearing, or an invalid ray without a bearing, as a
/// bad valid ray; otherwise an invalid ray with a cluster, or a label below
/// -1, as a bad cluster; otherwise a set negative reading sigma, on a valid
/// ray or not. When every ray passes, the scan is rejected for too few valid
/// rays exactly when fewer than a tenth of its rays are valid.
pub proof fn lemma_scan_rays_and_valid_share(f: ScanFacts)
    requires
        scan_frame_passes(f),
    ensures
        forall|i: int|
            #![trigger scan_ray_passes(f, i)]
            0 <= i < f.nrays && !scan_ray_passes(f, i) && (forall|j: int|
                0 <= j < i ==> #[trigger] scan_ray_passes(f, j)) ==> scan_verdict(f) == Err::<
                (),
                LaserDataError,
            >(
                if (f.valid@[i] && !(f.reading_in_range@[i] && !f.theta_nan@[i])) || (
                !f.valid@[i] && f.theta_nan@[i]) {
                    LaserDataError::BadValidRay(i as usize)
                } else if (!f.valid@[i] && f.cluster@[i] != -1) || f.cluster@[i] < -1 {
                    LaserDataError::BadCluster(i as usize)
                } else {
                    LaserDataError::NegativeSigma(i as usize)
                },
            ),
        (forall|i: int| 0 <= i < f.nrays ==> #[trigger] scan_ray_passes(f, i)) ==> scan_verdict(f)
            == (if 10 * valid_rays(f.valid@).len() < f.nrays {
            Err::<(), LaserDataError>(LaserDataError::TooFewValidRays)
        } else {
            Ok(())
        }),
{
    lemma_rays_of_pass(f);
    lemma_ray_checks_report_the_first_failing_ray(rays_of(f));
    lemma_valid_count_counts(f.valid@, f.nrays as int);
    assert(f.valid@.take(f.nrays as int) =~= f.valid@);
    assert forall|i: int|
        #![trigger scan_ray_passes(f, i)]
        0 <= i < f.nrays && !scan_ray_passes(f, i) && (forall|j: int|
            0 <= j < i ==> #[trigger] scan_ray_passes(f, j)) implies scan_verdict(f) == Err::<
            (),
            LaserDataError,
        >(
            if (f.valid@[i] && !(f.reading_in_range@[i] && !f.theta_nan@[i])) || (!f.valid@[i]
                && f.theta_nan@[i]) {
                LaserDataError::BadValidRay(i as usize)
            } else if (!f.valid@[i] && f.cluster@[i] != -1) || f.cluster@[i] < -1 {
                LaserDataError::BadCluster(i as usize)
            } else {
                LaserDataError::NegativeSigma(i as usize)
            },
        ) by {
        assert(!ray_passes(rays_of(f)[i]));
        assert forall|j: int| 0 <= j < i implies ray_passes(#[trigger] rays_of(f)[j]) by {
            assert(scan_ray_passes(f, j));
        }
    }
    if forall|i: int| 0 <= i < f.nrays ==> #[trigger] scan_ray_passes(f, i) {
        assert forall|i: int| 0 <= i < rays_of(f).len() implies ray_passes(#[trigger] rays_of(f)[i]) by {
            assert(scan_ray_passes(f, i));
        }
    }
}

proof fn lemma_up_run_maximal(valid: Seq<bool>, cluster: Seq<i32>, i: int, m: nat)
    ensures
        up_run(valid, cluster, i, m) < m ==> !same_cluster(
            valid,
            cluster,
            i,
            i + up_run(valid, cluster, i, m) + 1,
        ),
    decreases m,
{
    if m > 0 {
        lemma_up_run_maximal(valid, cluster, i, (m - 1) as nat);
        lemma_up_run_sound(valid, cluster, i, (m - 1) as nat);
    }
}

proof fn lemma_down_run_maximal(valid: Seq<bool>, cluster: Seq<i32>, i: int, m: nat)
    ensures
        down_run(valid, cluster, i, m) < m ==> !same_cluster(
            valid,
            cluster,
            i,
            i - down_run(valid, cluster, i, m) - 1,
        ),
    decreases m,
{
    if m > 0 {
        lemma_down_run_maximal(valid, cluster, i, (m - 1) as nat);
        lemma_down_run_sound(valid, cluster, i, (m - 1) as nat);
    }
}

/// `ns` is the orientation neighbourhood of ray `i`, made of `u` rays above
/// it and `d` rays below: first rays `i + 1` to `i + u` ascending, then rays
/// `i - 1` down to `i - d`, all valid and in `i`'s cluster; the run above is
/// as long as it can be up to `max_num` rays, the run below as long as it can
/// be up to `max_num + 1` rays (no rays at all when `max_num` is negative).
pub open spec fn is_neighbourhood(
    valid: Seq<bool>,
    cluster: Seq<i32>,
    i: int,
    max_num: int,
    ns: Seq<usize>,
    u: nat,
    d: nat,
) -> bool {
    let up_cap: int = if max_num >= 0 { max_num } else { 0 };
    let down_cap: int = if max_num >= 0 { max_num + 1 } else { 0 };
    &&& ns.len() == u + d
    &&& u <= up_cap
    &&& d <= down_cap
    &&& forall|k: int| 0 <= k < u ==> #[trigger] ns[k] == i + 1 + k
    &&& forall|k: int| u <= k < u + d ==> #[trigger] ns[k] == i - 1 - (k - u)
    &&& forall|k: int|
        0 <= k < ns.len() ==> #[trigger] ns[k] < valid.len() && valid[ns[k] as int] && cluster[ns[k] as int]
            == cluster[i]
    &&& (u == up_cap || !(i + u + 1 < valid.len() && valid[i + u + 1] && cluster[i + u + 1]
        == cluster[i]))
    &&& (d == down_cap || !(0 <= i - d - 1 && valid[i - d - 1] && cluster[i - d - 1]
        == cluster[i]))
}

/// The neighbours of a ray are the longest runs of valid rays of its cluster
/// directly above it (at most `max_num`, ascending) and directly below it (at
/// most `max_num + 1`, descending): a run stops only at its limit, at the end
/// of the scan, or at a ray that is invalid or in another cluster.
pub proof fn lemma_neighbours_are_maximal_runs(
    valid: Seq<bool>,
    cluster: Seq<i32>,
    i: int,
    max_num: int,
)
    requires
        valid.len() == cluster.len(),
        valid.len() <= usize::MAX,
        0 <= i < valid.len(),
    ensures
        exists|u: nat, d: nat|
            is_neighbourhood(valid, cluster, i, max_num, neighbours_of(valid, cluster, i, max_num), u, d),
{
    let up_cap: nat = if max_num >= 0 { max_num as nat } else { 0 };
    let down_cap: nat = if max_num >= 0 { (max_num + 1) as nat } else { 0 };
    lemma_up_run_sound(valid, cluster, i, up_cap);
    lemma_down_run_sound(valid, cluster, i, down_cap);
    lemma_up_run_maximal(valid, cluster, i, up_cap);
    lemma_down_run_maximal(valid, cluster, i, down_cap);
    let u = up_run(valid, cluster, i, up_cap);
    let d = down_run(valid, cluster, i, down_cap);
    let ns = neighbours_of(valid, cluster, i, max_num);
    lemma_neighbours_share_cluster(valid, cluster, i, max_num);
    let above = Seq::new(u, |k: int| (i + 1 + k) as usize);
    let below = Seq::new(d, |k: int| (i - 1 - k) as usize);
    assert(ns == above + below);
    assert(ns.len() == u + d);
    assert forall|k: int| 0 <= k < u implies #[trigger] ns[k] == i + 1 + k by {
        assert(same_cluster(valid, cluster, i, i + (k + 1)));
        assert(ns[k] == above[k]);
    }
    assert forall|k: int| u <= k < u + d implies #[trigger] ns[k] == i - 1 - (k - u) by {
        assert(same_cluster(valid, cluster, i, i - (k - u + 1)));
        assert(ns[k] == below[k - u]);
    }
    if u < up_cap {
        assert(!same_cluster(valid, cluster, i, i + u + 1));
    }
    if d < down_cap {
        assert(!same_cluster(valid, cluster, i, i - d - 1));
    }
    assert(u == up_cap || !(i + u + 1 < valid.len() && valid[i + u + 1] && cluster[i + u + 1]
        == cluster[i]));
    assert(d == down_cap || !(0 <= i - d - 1 && valid[i - d - 1] && cluster[i - d - 1]
        == cluster[i]));
    assert(is_neighbourhood(valid, cluster, i, max_num, ns, u, d));
}

/// The reading-interval filter clears exactly the valid rays whose reading
/// is a number at or below the lower bound, or above the upper bound. A NaN
/// reading or a NaN bound clears nothing, invalid rays stay invalid, and
/// nothing else changes.
pub proof fn lemma_interval_filter_clears_readings_outside(
    valid: Seq<bool>,
    readings: Seq<OrderKey>,
    min: OrderKey,
    max: OrderKey,
)
    requires
        valid.len() == readings.len(),
    ensures
        filtered(valid, readings, min, max).len() == valid.len(),
        forall|i: int|
            0 <= i < valid.len() ==> (#[trigger] filtered(valid, readings, min, max)[i] <==> (
            valid[i] && !(match (readings[i], min, max) {
                (Some(r), Some(lo), _) if r <= lo => true,
                (Some(r), _, Some(hi)) if hi < r => true,
                _ => false,
            }))),
{
}

/// The jump-table walk: ray `k` continues a walk from ray `i` when it is
/// valid and its reading is at most (with `walk_le`) or at least (otherwise)
/// the reading of ray `i`, both being numbers.
pub open spec fn continues_walk(valid: Seq<bool>, keys: Seq<OrderKey>, i: int, walk_le: bool, k: int) -> bool {
    valid[k] && match (keys[k], keys[i]) {
        (Some(x), Some(y)) => if walk_le {
            x <= y
        } else {
            y <= x
        },
        _ => false,
    }
}

proof fn lemma_jump_passes(valid: Seq<bool>, keys: Seq<OrderKey>, i: int, walk_le: bool, d: int, k: int)
    requires
        is_up_jump(valid, keys, i, walk_le, d) && i < k < i + d || is_down_jump(
            valid,
            keys,
            i,
            walk_le,
            d,
        ) && i + d < k < i,
    ensures
        continues_walk(valid, keys, i, walk_le, k),
{
    assert(valid[k] && walks_on(walk_le, keys[k], keys[i]));
}

/// A jump-table entry is determined by the scan: the upward jump from ray
/// `i` is the distance to the first ray above it that is past the end of the
/// scan or does not continue the walk (is invalid, or has a reading that is
/// NaN or on the other side of ray `i`'s reading), and the downward jump is
/// minus the distance to the first such ray below it, before the start of the
/// scan at the latest. There is exactly one such offset in each direction.
pub proof fn lemma_jumps_are_first_stops(
    valid: Seq<bool>,
    keys: Seq<OrderKey>,
    i: int,
    walk_le: bool,
    d: int,
    e: int,
)
    requires
        valid.len() == keys.len(),
        0 <= i < valid.len(),
    ensures
        is_up_jump(valid, keys, i, walk_le, d) <==> {
            &&& 1 <= d
            &&& i + d <= valid.len()
            &&& forall|k: int| i < k < i + d ==> #[trigger] continues_walk(valid, keys, i, walk_le, k)
            &&& (i + d == valid.len() || !continues_walk(valid, keys, i, walk_le, i + d))
        },
        is_down_jump(valid, keys, i, walk_le, d) <==> {
            &&& d <= -1
            &&& i + d >= -1
            &&& forall|k: int| i + d < k < i ==> #[trigger] continues_walk(valid, keys, i, walk_le, k)
            &&& (i + d == -1 || !continues_walk(valid, keys, i, walk_le, i + d))
        },
        is_up_jump(valid, keys, i, walk_le, d) && is_up_jump(valid, keys, i, walk_le, e) ==> d == e,
        is_down_jump(valid, keys, i, walk_le, d) && is_down_jump(valid, keys, i, walk_le, e) ==> d
            == e,
{
    if is_up_jump(valid, keys, i, walk_le, d) && is_up_jump(valid, keys, i, walk_le, e) && d != e {
        let m = if d < e { d } else { e };
        assert(valid[i + m] && walks_on(walk_le, keys[i + m], keys[i]));
    }
    if is_down_jump(valid, keys, i, walk_le, d) && is_down_jump(valid, keys, i, walk_le, e) && d != e {
        let m = if d > e { d } else { e };
        assert(valid[i + m] && walks_on(walk_le, keys[i + m], keys[i]));
    }
    if is_up_jump(valid, keys, i, walk_le, d) {
        assert forall|k: int| i < k < i + d implies #[trigger] continues_walk(
            valid,
            keys,
            i,
            walk_le,
            k,
        ) by {
            lemma_jump_passes(valid, keys, i, walk_le, d, k);
        }
    }
    if is_down_jump(valid, keys, i, walk_le, d) {
        assert forall|k: int| i + d < k < i implies #[trigger] continues_walk(
            valid,
            keys,
            i,
            walk_le,
            k,
        ) by {
            lemma_jump_passes(valid, keys, i, walk_le, d, k);
        }
    }
    if forall|k: int| i < k < i + d ==> #[trigger] continues_walk(valid, keys, i, walk_le, k) {
        assert forall|k: int| i < k < i + d implies #[trigger] valid[k] && walks_on(
            walk_le,
            keys[k],
            keys[i],
        ) by {
            assert(continues_walk(valid, keys, i, walk_le, k));
        }
    }
    if forall|k: int| i + d < k < i ==> #[trigger] continues_walk(valid, keys, i, walk_le, k) {
        assert forall|k: int| i + d < k < i implies #[trigger] valid[k] && walks_on(
            walk_le,
            keys[k],
            keys[i],
        ) by {
            assert(continues_walk(valid, keys, i, walk_le, k));
        }
    }
}

} // verus!
