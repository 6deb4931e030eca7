//! Filter estimates and residuals: an epoch, numeric payload, and the marks
//! that say how the payload came about.

use crate::time::Epoch;
use vstd::prelude::*;

verus! {

/// Bit pattern of the binary64 value 1.0.
pub const ONE: u64 = 0x3ff0_0000_0000_0000;

/// The cell `(i, j)` of an identity matrix.
pub open spec fn identity_cell(i: int, j: int) -> u64 {
    if i == j {
        ONE
    } else {
        0
    }
}

/// Whether `m` is the identity matrix.
pub open spec fn is_identity<const N: usize>(m: [[u64; N]; N]) -> bool {
    forall|i: int, j: int| 0 <= i < N && 0 <= j < N ==> #[trigger] m[i][j] == identity_cell(i, j)
}

/// Whether every cell of `m` is positive zero.
pub open spec fn is_zero_matrix<const R: usize, const C: usize>(m: [[u64; C]; R]) -> bool {
    forall|i: int, j: int| 0 <= i < R && 0 <= j < C ==> #[trigger] m[i][j] == 0
}

/// Whether every cell of `v` is positive zero.
pub open spec fn is_zero_vector<const N: usize>(v: [u64; N]) -> bool {
    forall|i: int| 0 <= i < N ==> #[trigger] v[i] == 0
}

/// Whether `m` equals its transpose, cell by cell.
pub open spec fn symmetric<const N: usize>(m: [[u64; N]; N]) -> bool {
    forall|i: int, j: int| 0 <= i < N && 0 <= j < N ==> #[trigger] m[i][j] == m[j][i]
}

/// Whether `m` equals its transpose, cell by cell. A covariance that has
/// been averaged with its transpose passes; one that does not pass is for
/// the caller to report.
pub fn is_symmetric<const N: usize>(m: &[[u64; N]; N]) -> (r: bool)
    ensures
        r == symmetric(*m),
{
    let mut i: usize = 0;
    while i < N
        invariant
            i <= N,
            forall|a: int, b: int| 0 <= a < i && 0 <= b < N ==> #[trigger] m[a][b] == m[b][a],
        decreases N - i,
    {
        let mut j: usize = 0;
        while j < N
            invariant
                i < N,
                j <= N,
                forall|a: int, b: int| 0 <= a < i && 0 <= b < N ==> #[trigger] m[a][b] == m[b][a],
                forall|b: int| 0 <= b < j ==> #[trigger] m[i as int][b] == m[b][i as int],
            decreases N - j,
        {
            if m[i][j] != m[j][i] {
                return false;
            }
            j += 1;
        }
        i += 1;
    }
    true
}

/// The identity matrix of order `N`.
pub fn identity<const N: usize>() -> (m: [[u64; N]; N])
    ensures
        is_identity(m),
{
    let mut m = [[0u64; N]; N];
    let mut i: usize = 0;
    while i < N
        invariant
            i <= N,
            forall|a: int, b: int|
                0 <= a < N && 0 <= b < N ==> #[trigger] m[a][b] == (if a < i {
                    identity_cell(a, b)
                } else {
                    0
                }),
        decreases N - i,
    {
        let mut row = m[i];
        row[i] = ONE;
        m[i] = row;
        i += 1;
    }
    m
}

/// The state of a filter at one epoch: `(t, x, P, Phi, predicted?)`.
#[derive(Clone, Copy, Debug, PartialEq, Eq)]
pub struct Estimate<const N: usize> {
    /// The epoch of the estimate.
    pub dt: Epoch,
    /// The state, or the state deviation.
    pub state: [u64; N],
    /// The covariance.
    pub covar: [[u64; N]; N],
    /// The state transition matrix that led here.
    pub stm: [[u64; N]; N],
    /// Whether no measurement was taken in at this epoch.
    pub predicted: bool,
}

/// What one measurement left behind: `(t, prefit, postfit, ratio, rejected?)`.
#[derive(Clone, Copy, Debug, PartialEq, Eq)]
pub struct Residual<const M: usize> {
    /// The epoch of the measurement.
    pub dt: Epoch,
    /// Observation minus the prediction before the update.
    pub prefit: [u64; M],
    /// Observation minus the prediction after the update.
    pub postfit: [u64; M],
    /// Mahalanobis norm of the prefit against the innovation covariance.
    pub ratio: u64,
    /// Whether the filter turned the measurement down.
    pub rejected: bool,
}

impl<const N: usize> Estimate<N> {
    /// The estimate at the reference epoch whose state, covariance and state
    /// transition matrix are all zero. It counts as predicted.
    pub fn zeros() -> (e: Estimate<N>)
        ensures
            e.dt.nanos() == 0,
            is_zero_vector(e.state),
            is_zero_matrix(e.covar),
            is_zero_matrix(e.stm),
            e.predicted,
    {
        Estimate {
            dt: Epoch::reference(),
            state: [0u64; N],
            covar: [[0u64; N]; N],
            stm: [[0u64; N]; N],
            predicted: true,
        }
    }
}

} // verus!
