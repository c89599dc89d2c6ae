//! Trilateration of a transmitter from three measured anchor points.
//!
//! Coordinates are scaled integers in a caller-chosen unit; squared
//! distances are plain integers in the square of that unit. For anchors
//! `(x1,y1), (x2,y2), (x3,y3)` with estimated squared distances
//! `r1s, r2s, r3s`, subtracting the first circle equation from the other two
//! eliminates the quadratic terms and leaves the 2x2 linear system
//!
//! ```text
//!   2(x2-x1) x + 2(y2-y1) y = r1s - r2s - x1^2 + x2^2 - y1^2 + y2^2
//!   2(x3-x1) x + 2(y3-y1) y = r1s - r3s - x1^2 + x3^2 - y1^2 + y3^2
//! ```
//!
//! which the solver inverts in closed form, returning the solution as a pair
//! of exact ratios, or reporting that the system is singular.
//!
//! The per-anchor distance itself follows the log-distance path-loss model
//! `distance = 10 ^ ((tx - rx) / (10 n))`. The exponent of that model is an
//! exact ratio and is computed here; evaluating the power of ten is the one
//! inexact step of the pipeline and is left to the caller.

use vstd::prelude::*;

use crate::rat::{rat_lt, Rat};

verus! {

/// Coordinates handed to the solver must lie within this many units of the
/// origin, so that every intermediate product of the solve fits in `i128`.
pub const COORD_LIMIT: i64 = 1_000_000_000;

/// Squared distances handed to the solver must lie within this bound, so
/// that every intermediate product of the solve fits in `i128`.
pub const DIST_SQ_LIMIT: i64 = 1_000_000_000_000_000_000;

/// Denominator bound for measurement ratios fed to the distance estimator;
/// an averaged measurement's denominator is a thousand times its sample
/// count, which is far below this.
pub const MEAS_DEN_LIMIT: i128 = 1_073_741_824;

/// Numerator bound for measurement ratios fed to the distance estimator.
pub const MEAS_NUM_LIMIT: i128 = 9_223_372_036_854_775_807;

/// The averaged radio observation taken at one anchor: the transmit power
/// and the received power, both dBm values held as exact ratios, each
/// absent until a sampling run has filled it in.
#[derive(Clone, Debug, PartialEq)]
pub struct NetInfo {
    pub tx_power: Option<Rat>,
    pub measured_power: Option<Rat>,
}

/// One of the three fixed test locations: known plane coordinates in scaled
/// integer units, plus the measurement collected there, if any.
#[derive(Clone, Debug)]
pub struct Point {
    pub x: i64,
    pub y: i64,
    pub net_info: Option<NetInfo>,
}

impl Point {
    pub fn new(x: i64, y: i64, net_info: Option<NetInfo>) -> (p: Point)
        ensures
            p.x == x,
            p.y == y,
            p.net_info == net_info,
    {
        Point { x, y, net_info }
    }
}

/// The estimated transmitter position, as exact ratios in the same unit as
/// the anchor coordinates.
#[derive(Clone, Debug, PartialEq, Eq, Structural)]
pub struct Location {
    pub x: Rat,
    pub y: Rat,
}

/// Why an estimation request failed.
#[derive(Clone, Copy, Debug, PartialEq, Eq, Structural)]
pub enum SolveError {
    /// An anchor's measurement is absent or incomplete when the solver is
    /// invoked; a caller-side precondition violation, reported explicitly
    /// rather than coerced to a zero distance.
    MissingMeasurement,
    /// The linear system is singular: the anchors are collinear or two of
    /// them coincide, so no unique position exists. The caller must
    /// re-measure or move the anchors; there is no retry here.
    NoUniqueSolution,
}

/// Both fields of the measurement are present.
pub open spec fn info_complete(info: NetInfo) -> bool {
    info.tx_power is Some && info.measured_power is Some
}

/// The anchor carries a complete measurement.
pub open spec fn measured(p: Point) -> bool {
    match p.net_info {
        Some(info) => info_complete(info),
        None => false,
    }
}

/// All three anchors carry complete measurements.
pub open spec fn all_measured(p1: Point, p2: Point, p3: Point) -> bool {
    measured(p1) && measured(p2) && measured(p3)
}

/// The anchor's coordinates lie within the solver's working range.
pub open spec fn coord_ok(p: Point) -> bool {
    &&& -COORD_LIMIT <= p.x <= COORD_LIMIT
    &&& -COORD_LIMIT <= p.y <= COORD_LIMIT
}

/// Matrix entry `2 (x2 - x1)` of the linearised system.
pub open spec fn m_a(p1: Point, p2: Point) -> int {
    2 * (p2.x - p1.x)
}

/// Matrix entry `2 (y2 - y1)` of the linearised system.
pub open spec fn m_b(p1: Point, p2: Point) -> int {
    2 * (p2.y - p1.y)
}

/// Right-hand side of the linearised equation for the pair `(p1, p2)`.
pub open spec fn rhs(p1: Point, p2: Point, r1s: int, r2s: int) -> int {
    r1s - r2s - p1.x * p1.x + p2.x * p2.x - p1.y * p1.y + p2.y * p2.y
}

/// Determinant of the 2x2 system for anchors `(p1, p2, p3)`.
pub open spec fn solve_det(p1: Point, p2: Point, p3: Point) -> int {
    m_a(p1, p2) * m_b(p1, p3) - m_b(p1, p2) * m_a(p1, p3)
}

/// Numerator of the solved x coordinate (over `solve_det`).
pub open spec fn solve_x_num(p1: Point, p2: Point, p3: Point, r1s: int, r2s: int, r3s: int) -> int {
    rhs(p1, p2, r1s, r2s) * m_b(p1, p3) - m_b(p1, p2) * rhs(p1, p3, r1s, r3s)
}

/// Numerator of the solved y coordinate (over `solve_det`).
pub open spec fn solve_y_num(p1: Point, p2: Point, p3: Point, r1s: int, r2s: int, r3s: int) -> int {
    m_a(p1, p2) * rhs(p1, p3, r1s, r3s) - m_a(p1, p3) * rhs(p1, p2, r1s, r2s)
}

/// Numerator of the path-loss exponent `(tx - rx) / (10 n)`.
pub open spec fn exp_num(tx: Rat, rx: Rat, n: Rat) -> int {
    (tx.num * rx.den - rx.num * tx.den) * n.den
}

/// Denominator of the path-loss exponent `(tx - rx) / (10 n)`.
pub open spec fn exp_den(tx: Rat, rx: Rat, n: Rat) -> int {
    tx.den * rx.den * 10 * n.num
}

/// A measurement ratio the distance estimator can combine without its
/// products leaving `i128`.
pub open spec fn meas_ok(r: Rat) -> bool {
    &&& r.wf()
    &&& -MEAS_NUM_LIMIT <= r.num <= MEAS_NUM_LIMIT
    &&& r.den <= MEAS_DEN_LIMIT
}

/// A usable path-loss exponent: well formed, within the inclusive range
/// `[2, 5]`, with a denominator small enough for exact combination.
pub open spec fn exponent_ok(n: Rat) -> bool {
    &&& n.wf()
    &&& 2 * n.den <= n.num <= 5 * n.den
    &&& n.den <= MEAS_DEN_LIMIT
}

/// The trilateration solver; carries the path-loss exponent `n` of the
/// log-distance model, configured by the caller before a solve.
pub struct TrilaterationCalculator {
    path_loss_exponent: Rat,
}

impl View for TrilaterationCalculator {
    type V = Rat;

    /// The abstract state of the calculator is its path-loss exponent.
    closed spec fn view(&self) -> Rat {
        self.path_loss_exponent
    }
}

impl Default for TrilaterationCalculator {
    /// A calculator with the path-loss exponent 3, a mid-range indoor value.
    fn default() -> (c: Self)
        ensures
            c@ == (Rat { num: 3, den: 1 }),
            exponent_ok(c@),
    {
        Self { path_loss_exponent: Rat { num: 3, den: 1 } }
    }
}

impl TrilaterationCalculator {
    /// Replaces the path-loss exponent; the caller keeps it in `[2, 5]`.
    pub fn set_path_loss_exponent(&mut self, n: Rat)
        requires
            exponent_ok(n),
        ensures
            final(self)@ == n,
    {
        self.path_loss_exponent = n;
    }

    /// The exponent `e` such that the log-distance path-loss model puts the
    /// transmitter at distance `10^e` from the anchor measured by `info`:
    /// `e = (tx - rx) / (10 n)`, returned as an exact ratio. Fails if and
    /// only if the measurement is incomplete.
    pub fn distance_exponent(&self, info: &NetInfo) -> (r: Result<Rat, SolveError>)
        requires
            exponent_ok(self@),
            info.tx_power matches Some(t) ==> meas_ok(t),
            info.measured_power matches Some(m) ==> meas_ok(m),
        ensures
            r is Err <==> !info_complete(*info),
            r matches Err(e) ==> e == SolveError::MissingMeasurement,
            r matches Ok(ex) ==> {
                &&& ex.wf()
                &&& ex.num == exp_num(info.tx_power.unwrap(), info.measured_power.unwrap(), self@)
                &&& ex.den == exp_den(info.tx_power.unwrap(), info.measured_power.unwrap(), self@)
            },
    {
        let n = self.path_loss_exponent;
        match (&info.tx_power, &info.measured_power) {
            (Some(t), Some(m)) => {
                proof {
                    lemma_exponent_products_bounded(*t, *m, n);
                }
                let num = (t.num * m.den - m.num * t.den) * n.den;
                let den = t.den * m.den * 10 * n.num;
                Ok(Rat { num, den })
            },
            _ => Err(SolveError::MissingMeasurement),
        }
    }
}

impl TrilaterationCalculator {
    /// Estimates the transmitter's location from the three anchors and their
    /// estimated squared distances `r1_sq, r2_sq, r3_sq` (in the square of
    /// the coordinate unit).
    ///
    /// Fails with `MissingMeasurement` exactly when an anchor's measurement
    /// is absent or incomplete, and with `NoUniqueSolution` exactly when the
    /// linearised system is singular. Otherwise the returned coordinates are
    /// the exact rational solution of the system.
    pub fn get_location(
        &self,
        point_one: &Point,
        point_two: &Point,
        point_three: &Point,
        r1_sq: i64,
        r2_sq: i64,
        r3_sq: i64,
    ) -> (r: Result<Location, SolveError>)
        requires
            coord_ok(*point_one),
            coord_ok(*point_two),
            coord_ok(*point_three),
            0 <= r1_sq <= DIST_SQ_LIMIT,
            0 <= r2_sq <= DIST_SQ_LIMIT,
            0 <= r3_sq <= DIST_SQ_LIMIT,
        ensures
            r matches Err(e) && e == SolveError::MissingMeasurement <==> !all_measured(
                *point_one,
                *point_two,
                *point_three,
            ),
            r matches Err(e) && e == SolveError::NoUniqueSolution <==> all_measured(
                *point_one,
                *point_two,
                *point_three,
            ) && solve_det(*point_one, *point_two, *point_three) == 0,
            r matches Ok(l) ==> {
                &&& all_measured(*point_one, *point_two, *point_three)
                &&& solve_det(*point_one, *point_two, *point_three) != 0
                &&& l.x.wf()
                &&& l.y.wf()
                &&& l.x.num * solve_det(*point_one, *point_two, *point_three) == solve_x_num(
                    *point_one,
                    *point_two,
                    *point_three,
                    r1_sq as int,
                    r2_sq as int,
                    r3_sq as int,
                ) * l.x.den
                &&& l.y.num * solve_det(*point_one, *point_two, *point_three) == solve_y_num(
                    *point_one,
                    *point_two,
                    *point_three,
                    r1_sq as int,
                    r2_sq as int,
                    r3_sq as int,
                ) * l.y.den
            },
    {
        if !(point_measured(point_one) && point_measured(point_two) && point_measured(point_three))
        {
            return Err(SolveError::MissingMeasurement);
        }
        let x1 = point_one.x as i128;
        let y1 = point_one.y as i128;
        let x2 = point_two.x as i128;
        let y2 = point_two.y as i128;
        let x3 = point_three.x as i128;
        let y3 = point_three.y as i128;
        let r1s = r1_sq as i128;
        let r2s = r2_sq as i128;
        let r3s = r3_sq as i128;
        proof {
            lemma_square_bounded(x1 as int);
            lemma_square_bounded(y1 as int);
            lemma_square_bounded(x2 as int);
            lemma_square_bounded(y2 as int);
            lemma_square_bounded(x3 as int);
            lemma_square_bounded(y3 as int);
        }
        let a = 2 * (x2 - x1);
        let b = 2 * (y2 - y1);
        let c = r1s - r2s - x1 * x1 + x2 * x2 - y1 * y1 + y2 * y2;
        let d = 2 * (x3 - x1);
        let e = 2 * (y3 - y1);
        let f = r1s - r3s - x1 * x1 + x3 * x3 - y1 * y1 + y3 * y3;
        proof {
            lemma_entry_products_bounded(a as int, b as int, d as int, e as int);
            lemma_solution_products_bounded(a as int, b as int, c as int, d as int, e as int, f as int);
        }
        let det = a * e - b * d;
        if det == 0 {
            return Err(SolveError::NoUniqueSolution);
        }
        let x_num = c * e - b * f;
        let y_num = a * f - d * c;
        proof {
            let p1 = *point_one;
            let p2 = *point_two;
            let p3 = *point_three;
            assert(a == m_a(p1, p2));
            assert(b == m_b(p1, p2));
            assert(d == m_a(p1, p3));
            assert(e == m_b(p1, p3));
            assert(c == rhs(p1, p2, r1_sq as int, r2_sq as int));
            assert(f == rhs(p1, p3, r1_sq as int, r3_sq as int));
            assert(det == solve_det(p1, p2, p3));
            assert(x_num == solve_x_num(p1, p2, p3, r1_sq as int, r2_sq as int, r3_sq as int));
            assert(y_num == solve_y_num(p1, p2, p3, r1_sq as int, r2_sq as int, r3_sq as int));
            lemma_equal_cross_products(
                x_num as int,
                det as int,
                solve_x_num(p1, p2, p3, r1_sq as int, r2_sq as int, r3_sq as int),
                solve_det(p1, p2, p3),
            );
            lemma_equal_cross_products(
                y_num as int,
                det as int,
                solve_y_num(p1, p2, p3, r1_sq as int, r2_sq as int, r3_sq as int),
                solve_det(p1, p2, p3),
            );
        }
        if det > 0 {
            Ok(Location { x: Rat { num: x_num, den: det }, y: Rat { num: y_num, den: det } })
        } else {
            Ok(Location { x: Rat { num: -x_num, den: -det }, y: Rat { num: -y_num, den: -det } })
        }
    }
}

/// Executable counterpart of `measured`.
fn point_measured(p: &Point) -> (r: bool)
    ensures
        r == measured(*p),
{
    match &p.net_info {
        Some(info) => info.tx_power.is_some() && info.measured_power.is_some(),
        None => false,
    }
}

/// A computed numerator and denominator cross-multiply equally against the
/// specification-level terms they are equal to.
proof fn lemma_equal_cross_products(n: int, d: int, ns: int, ds: int)
    by (nonlinear_arith)
    requires
        n == ns,
        d == ds,
    ensures
        n * ds == ns * d,
        (-n) * ds == ns * (-d),
{
}

/// The square of a coordinate within `COORD_LIMIT` is at most the squared
/// limit.
proof fn lemma_square_bounded(v: int)
    by (nonlinear_arith)
    requires
        -1_000_000_000 <= v <= 1_000_000_000,
    ensures
        0 <= v * v <= 1_000_000_000_000_000_000,
{
}

/// Products of two matrix entries stay well inside `i128`.
proof fn lemma_entry_products_bounded(a: int, b: int, d: int, e: int)
    by (nonlinear_arith)
    requires
        -4_000_000_000 <= a <= 4_000_000_000,
        -4_000_000_000 <= b <= 4_000_000_000,
        -4_000_000_000 <= d <= 4_000_000_000,
        -4_000_000_000 <= e <= 4_000_000_000,
    ensures
        -16_000_000_000_000_000_000 <= a * e <= 16_000_000_000_000_000_000,
        -16_000_000_000_000_000_000 <= b * d <= 16_000_000_000_000_000_000,
{
}

/// Products of a right-hand side with a matrix entry stay well inside
/// `i128`.
proof fn lemma_solution_products_bounded(a: int, b: int, c: int, d: int, e: int, f: int)
    by (nonlinear_arith)
    requires
        -4_000_000_000 <= a <= 4_000_000_000,
        -4_000_000_000 <= b <= 4_000_000_000,
        -4_000_000_000 <= d <= 4_000_000_000,
        -4_000_000_000 <= e <= 4_000_000_000,
        -3_000_000_000_000_000_000 <= c <= 3_000_000_000_000_000_000,
        -3_000_000_000_000_000_000 <= f <= 3_000_000_000_000_000_000,
    ensures
        -12_000_000_000_000_000_000_000_000_000 <= c * e <= 12_000_000_000_000_000_000_000_000_000,
        -12_000_000_000_000_000_000_000_000_000 <= b * f <= 12_000_000_000_000_000_000_000_000_000,
        -12_000_000_000_000_000_000_000_000_000 <= a * f <= 12_000_000_000_000_000_000_000_000_000,
        -12_000_000_000_000_000_000_000_000_000 <= d * c <= 12_000_000_000_000_000_000_000_000_000,
{
}

/// The squared distance from the point `(px, py)` to the anchor `p`.
pub open spec fn sq_dist(p: Point, px: int, py: int) -> int {
    (px - p.x) * (px - p.x) + (py - p.y) * (py - p.y)
}

/// The three anchors lie on one line (two coinciding anchors count as
/// collinear).
pub open spec fn collinear(p1: Point, p2: Point, p3: Point) -> bool {
    (p2.x - p1.x) * (p3.y - p1.y) == (p2.y - p1.y) * (p3.x - p1.x)
}

/// The linearised system is singular exactly when the three anchors are
/// collinear: its determinant is four times the cross product of the two
/// anchor difference vectors.
pub proof fn lemma_collinear_iff_singular(p1: Point, p2: Point, p3: Point)
    ensures
        collinear(p1, p2, p3) <==> solve_det(p1, p2, p3) == 0,
{
    lemma_det_is_cross_product(
        p1.x as int,
        p1.y as int,
        p2.x as int,
        p2.y as int,
        p3.x as int,
        p3.y as int,
        m_a(p1, p2),
        m_b(p1, p2),
        m_a(p1, p3),
        m_b(p1, p3),
    );
}

proof fn lemma_det_is_cross_product(
    x1: int,
    y1: int,
    x2: int,
    y2: int,
    x3: int,
    y3: int,
    a: int,
    b: int,
    d: int,
    e: int,
)
    by (nonlinear_arith)
    requires
        a == 2 * (x2 - x1),
        b == 2 * (y2 - y1),
        d == 2 * (x3 - x1),
        e == 2 * (y3 - y1),
    ensures
        a * e - b * d == 4 * ((x2 - x1) * (y3 - y1) - (y2 - y1) * (x3 - x1)),
{
}

/// If the three squared distances are exactly those from a source point
/// `(px, py)` to the anchors, the solved coordinates equal that point:
/// the solution numerators are the point's coordinates times the
/// determinant. In particular, whenever the anchors are not collinear,
/// the solver recovers the source point exactly.
pub proof fn lemma_recovers_consistent_point(
    p1: Point,
    p2: Point,
    p3: Point,
    px: int,
    py: int,
)
    ensures
        solve_x_num(p1, p2, p3, sq_dist(p1, px, py), sq_dist(p2, px, py), sq_dist(p3, px, py))
            == px * solve_det(p1, p2, p3),
        solve_y_num(p1, p2, p3, sq_dist(p1, px, py), sq_dist(p2, px, py), sq_dist(p3, px, py))
            == py * solve_det(p1, p2, p3),
{
    let r1s = sq_dist(p1, px, py);
    let r2s = sq_dist(p2, px, py);
    let r3s = sq_dist(p3, px, py);
    lemma_rhs_of_consistent_distances(
        p1.x as int,
        p1.y as int,
        p2.x as int,
        p2.y as int,
        px,
        py,
        r1s,
        r2s,
        rhs(p1, p2, r1s, r2s),
    );
    lemma_rhs_of_consistent_distances(
        p1.x as int,
        p1.y as int,
        p3.x as int,
        p3.y as int,
        px,
        py,
        r1s,
        r3s,
        rhs(p1, p3, r1s, r3s),
    );
    lemma_cramer_solution(
        m_a(p1, p2),
        m_b(p1, p2),
        rhs(p1, p2, r1s, r2s),
        m_a(p1, p3),
        m_b(p1, p3),
        rhs(p1, p3, r1s, r3s),
        px,
        py,
    );
    lemma_mul_congruence(
        px,
        solve_det(p1, p2, p3),
        m_a(p1, p2) * m_b(p1, p3) - m_b(p1, p2) * m_a(p1, p3),
    );
    lemma_mul_congruence(
        py,
        solve_det(p1, p2, p3),
        m_a(p1, p2) * m_b(p1, p3) - m_b(p1, p2) * m_a(p1, p3),
    );
}

/// Multiplying equal quantities by the same factor gives equal products.
proof fn lemma_mul_congruence(k: int, x: int, y: int)
    by (nonlinear_arith)
    requires
        x == y,
    ensures
        k * x == k * y,
{
}

/// Subtracting the circle equation of `(x1, y1)` from that of `(x2, y2)`
/// leaves an equation the source point satisfies linearly.
#[verifier::rlimit(100)]
proof fn lemma_rhs_of_consistent_distances(
    x1: int,
    y1: int,
    x2: int,
    y2: int,
    px: int,
    py: int,
    r1s: int,
    r2s: int,
    c: int,
)
    by (nonlinear_arith)
    requires
        r1s == (px - x1) * (px - x1) + (py - y1) * (py - y1),
        r2s == (px - x2) * (px - x2) + (py - y2) * (py - y2),
        c == r1s - r2s - x1 * x1 + x2 * x2 - y1 * y1 + y2 * y2,
    ensures
        c == 2 * (x2 - x1) * px + 2 * (y2 - y1) * py,
{
}

/// Cramer's rule: if `(px, py)` satisfies both linear equations, the
/// closed-form solution numerators are `px` and `py` times the determinant.
#[verifier::rlimit(100)]
proof fn lemma_cramer_solution(a: int, b: int, c: int, d: int, e: int, f: int, px: int, py: int)
    by (nonlinear_arith)
    requires
        c == a * px + b * py,
        f == d * px + e * py,
    ensures
        c * e - b * f == px * (a * e - b * d),
        a * f - d * c == py * (a * e - b * d),
{
}

/// Exchanging the last two anchors (and their squared distances) negates
/// the determinant and both solution numerators at once, so the solved
/// location — the ratio of numerator to determinant — is unchanged, and a
/// singular system stays singular. Together with
/// `lemma_swap_first_two_anchors` this covers every permutation of the
/// three anchors, since the two exchanges generate all six orderings.
pub proof fn lemma_swap_last_two_anchors(
    p1: Point,
    p2: Point,
    p3: Point,
    r1s: int,
    r2s: int,
    r3s: int,
)
    ensures
        solve_det(p1, p3, p2) == -solve_det(p1, p2, p3),
        solve_x_num(p1, p3, p2, r1s, r3s, r2s) == -solve_x_num(p1, p2, p3, r1s, r2s, r3s),
        solve_y_num(p1, p3, p2, r1s, r3s, r2s) == -solve_y_num(p1, p2, p3, r1s, r2s, r3s),
{
    lemma_swapped_last_products(
        m_a(p1, p2),
        m_b(p1, p2),
        rhs(p1, p2, r1s, r2s),
        m_a(p1, p3),
        m_b(p1, p3),
        rhs(p1, p3, r1s, r3s),
    );
}

/// Exchanging the two equations of the system negates its determinant and
/// the closed-form solution numerators.
proof fn lemma_swapped_last_products(a: int, b: int, c: int, d: int, e: int, f: int)
    by (nonlinear_arith)
    ensures
        d * b - e * a == -(a * e - b * d),
        f * b - e * c == -(c * e - b * f),
        d * c - a * f == -(a * f - d * c),
{
}

/// Exchanging the first two anchors (and their squared distances) negates
/// the determinant and both solution numerators at once, so the solved
/// location is unchanged, and a singular system stays singular.
pub proof fn lemma_swap_first_two_anchors(
    p1: Point,
    p2: Point,
    p3: Point,
    r1s: int,
    r2s: int,
    r3s: int,
)
    ensures
        solve_det(p2, p1, p3) == -solve_det(p1, p2, p3),
        solve_x_num(p2, p1, p3, r2s, r1s, r3s) == -solve_x_num(p1, p2, p3, r1s, r2s, r3s),
        solve_y_num(p2, p1, p3, r2s, r1s, r3s) == -solve_y_num(p1, p2, p3, r1s, r2s, r3s),
{
    lemma_swapped_first_products(
        m_a(p1, p2),
        m_b(p1, p2),
        rhs(p1, p2, r1s, r2s),
        m_a(p1, p3),
        m_b(p1, p3),
        rhs(p1, p3, r1s, r3s),
        m_a(p2, p1),
        m_b(p2, p1),
        rhs(p2, p1, r2s, r1s),
        m_a(p2, p3),
        m_b(p2, p3),
        rhs(p2, p3, r2s, r3s),
    );
}

/// After exchanging the first two anchors the new system's entries are
/// linear combinations of the old ones, and its determinant and solution
/// numerators are the negations of the old ones.
proof fn lemma_swapped_first_products(
    a: int,
    b: int,
    c: int,
    d: int,
    e: int,
    f: int,
    a2: int,
    b2: int,
    c2: int,
    d2: int,
    e2: int,
    f2: int,
)
    by (nonlinear_arith)
    requires
        a2 == -a,
        b2 == -b,
        c2 == -c,
        d2 == d - a,
        e2 == e - b,
        f2 == f - c,
    ensures
        a2 * e2 - b2 * d2 == -(a * e - b * d),
        c2 * e2 - b2 * f2 == -(c * e - b * f),
        a2 * f2 - d2 * c2 == -(a * f - d * c),
{
}

/// For a fixed positive power gap `tx - rx`, the path-loss exponent — and
/// with it the estimated distance `10 ^ exponent` — strictly decreases as
/// the path-loss model constant `n` increases. The conclusion is the
/// cross-multiplied order of the two exponent ratios: with both
/// denominators positive it says exactly that the exponent under `n2` is
/// the smaller rational number.
pub proof fn lemma_exponent_decreases_in_n(tx: Rat, rx: Rat, n1: Rat, n2: Rat)
    requires
        tx.wf(),
        rx.wf(),
        exponent_ok(n1),
        exponent_ok(n2),
        rat_lt(rx, tx),
        rat_lt(n1, n2),
    ensures
        0 < exp_den(tx, rx, n1),
        0 < exp_den(tx, rx, n2),
        exp_num(tx, rx, n2) * exp_den(tx, rx, n1) < exp_num(tx, rx, n1) * exp_den(tx, rx, n2),
{
    lemma_exponent_order(
        tx.num as int,
        tx.den as int,
        rx.num as int,
        rx.den as int,
        n1.num as int,
        n1.den as int,
        n2.num as int,
        n2.den as int,
    );
}

proof fn lemma_exponent_order(
    txn: int,
    txd: int,
    rxn: int,
    rxd: int,
    n1n: int,
    n1d: int,
    n2n: int,
    n2d: int,
)
    by (nonlinear_arith)
    requires
        txd > 0,
        rxd > 0,
        n1d > 0,
        n2d > 0,
        n1n > 0,
        n2n > 0,
        rxn * txd < txn * rxd,
        n1n * n2d < n2n * n1d,
    ensures
        0 < txd * rxd * 10 * n1n,
        0 < txd * rxd * 10 * n2n,
        ((txn * rxd - rxn * txd) * n2d) * (txd * rxd * 10 * n1n) < ((txn * rxd - rxn * txd)
            * n1d) * (txd * rxd * 10 * n2n),
{
}

/// The products formed by the distance estimator stay well inside `i128`,
/// and the combined denominator is positive.
proof fn lemma_exponent_products_bounded(t: Rat, m: Rat, n: Rat)
    by (nonlinear_arith)
    requires
        meas_ok(t),
        meas_ok(m),
        exponent_ok(n),
    ensures
        -0x4000_0000_0000_0000_0000_0000_0000 <= t.num * m.den
            <= 0x4000_0000_0000_0000_0000_0000_0000,
        -0x4000_0000_0000_0000_0000_0000_0000 <= m.num * t.den
            <= 0x4000_0000_0000_0000_0000_0000_0000,
        -0x2000_0000_0000_0000_0000_0000_0000_0000 <= (t.num * m.den - m.num * t.den) * n.den
            <= 0x2000_0000_0000_0000_0000_0000_0000_0000,
        0 < t.den * m.den <= 0x1000_0000_0000_0000,
        0 < t.den * m.den * 10 <= 0x1_0000_0000_0000_0000,
        0 < t.den * m.den * 10 * n.num <= 0x4_0000_0000_0000_0000_0000_0000,
{
}

} // verus!
