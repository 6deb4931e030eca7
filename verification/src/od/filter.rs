//! Sequencing of a sequential (Kalman) filter: which inputs must be fresh
//! before an update, which error a stale one gives, and what an update
//! leaves behind. The matrix arithmetic of an update is done by the caller
//! and handed in; the filter decides whether it is taken.

use crate::od::estimate::{identity, is_identity, is_zero_matrix, Estimate, Residual};
use crate::time::{Duration, Epoch};
use vstd::prelude::*;

verus! {

/// Why the filter refused an update.
#[derive(Clone, Copy, Debug, PartialEq, Eq, Structural)]
pub enum FilterError {
    /// No state transition matrix has arrived since the previous update.
    StateTransitionMatrixNotUpdated,
    /// No sensitivity matrix has arrived since the previous measurement update.
    SensitivityNotUpdated,
    /// The innovation covariance could not be inverted.
    GainSingular,
}

/// What a filter is set up with: its noise matrices and the window of the
/// state noise compensation.
#[derive(Clone, Copy, Debug, PartialEq, Eq)]
pub struct Setup<const M: usize> {
    pub measurement_noise: [[u64; M]; M],
    pub process_noise: [[u64; 3]; 3],
    pub process_noise_dt: Option<Duration>,
}

/// The time from the latest estimate to an update, and whether the process
/// noise is due over it.
#[derive(Clone, Copy, Debug, PartialEq, Eq)]
pub struct Lapse {
    /// The time since the latest estimate.
    pub elapsed: Duration,
    /// Whether the update adds the process noise.
    pub process_noise: bool,
}

/// The numeric outcome of a time update: the propagated state (or state
/// deviation) and `Phi P Phi^T`, with the process noise where it applies.
#[derive(Clone, Copy, Debug, PartialEq, Eq)]
pub struct Prediction<const N: usize> {
    pub state: [u64; N],
    pub covar: [[u64; N]; N],
}

/// The numeric outcome of a measurement update whose innovation covariance
/// was invertible.
#[derive(Clone, Copy, Debug, PartialEq, Eq)]
pub struct Correction<const N: usize, const M: usize> {
    pub state: [u64; N],
    pub covar: [[u64; N]; N],
    pub prefit: [u64; M],
    pub postfit: [u64; M],
    pub ratio: u64,
}

/// A sequential filter over a state of `N` components and measurements of
/// `M` components. It is classical until `ekf` is set.
#[derive(Clone, Copy, Debug, PartialEq, Eq)]
pub struct KF<const N: usize, const M: usize> {
    /// The latest estimate.
    pub prev_estimate: Estimate<N>,
    /// The measurement noise `R`.
    pub measurement_noise: [[u64; M]; M],
    /// The process noise `Q` of the state noise compensation.
    pub process_noise: [[u64; 3]; 3],
    /// The window of the state noise compensation: the process noise is
    /// added while no more time than this has passed since the latest
    /// estimate. Without a window no process noise is added.
    pub process_noise_dt: Option<Duration>,
    /// Whether the filter runs in extended mode.
    pub ekf: bool,
    /// The sensitivity matrix `H` handed in last.
    pub h_tilde: [[u64; N]; M],
    /// The state transition matrix handed in last, or the identity once an
    /// update has used it.
    pub stm: [[u64; N]; N],
    /// Whether a state transition matrix has arrived since the last update.
    pub stm_updated: bool,
    /// Whether a sensitivity matrix has arrived since the last measurement
    /// update.
    pub h_tilde_updated: bool,
}

impl<const N: usize, const M: usize> KF<N, M> {
    /// What the filter is set up with.
    pub open spec fn setup(self) -> Setup<M> {
        Setup {
            measurement_noise: self.measurement_noise,
            process_noise: self.process_noise,
            process_noise_dt: self.process_noise_dt,
        }
    }

    /// Whether `other` has the same configuration: noise matrices, window
    /// and mode.
    pub open spec fn same_setup(self, other: Self) -> bool {
        &&& self.measurement_noise == other.measurement_noise
        &&& self.process_noise == other.process_noise
        &&& self.process_noise_dt == other.process_noise_dt
        &&& self.ekf == other.ekf
    }

    /// Whether this filter is `before` after an update that left `estimate`:
    /// the estimate is the latest one, the state transition matrix is the
    /// identity again and counts as used, and nothing else has changed but
    /// the freshness of the sensitivity matrix.
    pub open spec fn follows(self, before: Self, estimate: Estimate<N>) -> bool {
        &&& self.prev_estimate == estimate
        &&& !self.stm_updated
        &&& is_identity(self.stm)
        &&& self.h_tilde == before.h_tilde
        &&& self.same_setup(before)
    }

    /// Whether the process noise is due at `dt`: a window is set and the time
    /// since the latest estimate does not exceed it.
    pub open spec fn snc_due(self, dt: Epoch) -> bool {
        match self.process_noise_dt {
            Some(window) => dt.nanos() - self.prev_estimate.dt.nanos() <= window.nanos(),
            None => false,
        }
    }

    /// A classical filter that starts from `initial_estimate`. Neither a
    /// state transition matrix nor a sensitivity matrix counts as received.
    pub fn initialize(
        initial_estimate: Estimate<N>,
        process_noise: [[u64; 3]; 3],
        measurement_noise: [[u64; M]; M],
        process_noise_dt: Option<Duration>,
    ) -> (kf: KF<N, M>)
        ensures
            kf.prev_estimate == initial_estimate,
            kf.process_noise == process_noise,
            kf.measurement_noise == measurement_noise,
            kf.process_noise_dt == process_noise_dt,
            !kf.ekf,
            !kf.stm_updated,
            !kf.h_tilde_updated,
            is_identity(kf.stm),
            is_zero_matrix(kf.h_tilde),
    {
        KF {
            prev_estimate: initial_estimate,
            measurement_noise,
            process_noise,
            process_noise_dt,
            ekf: false,
            h_tilde: [[0u64; N]; M],
            stm: identity(),
            stm_updated: false,
            h_tilde_updated: false,
        }
    }

    /// Takes in the state transition matrix of the step just propagated.
    pub fn update_stm(&mut self, new_stm: [[u64; N]; N])
        ensures
            final(self).stm == new_stm,
            final(self).stm_updated,
            final(self).h_tilde == old(self).h_tilde,
            final(self).h_tilde_updated == old(self).h_tilde_updated,
            final(self).prev_estimate == old(self).prev_estimate,
            final(self).same_setup(*old(self)),
    {
        self.stm = new_stm;
        self.stm_updated = true;
    }

    /// Takes in the sensitivity matrix at the measurement about to be used.
    pub fn update_h_tilde(&mut self, h_tilde: [[u64; N]; M])
        ensures
            final(self).h_tilde == h_tilde,
            final(self).h_tilde_updated,
            final(self).stm == old(self).stm,
            final(self).stm_updated == old(self).stm_updated,
            final(self).prev_estimate == old(self).prev_estimate,
            final(self).same_setup(*old(self)),
    {
        self.h_tilde = h_tilde;
        self.h_tilde_updated = true;
    }

    /// The lapse from the latest estimate to an update at `dt`.
    pub fn lapse_to(&self, dt: Epoch) -> (lapse: Lapse)
        ensures
            lapse.elapsed.nanos() == dt.nanos() - self.prev_estimate.dt.nanos(),
            lapse.elapsed.is_normal(),
            lapse.process_noise == self.snc_due(dt),
    {
        let elapsed = dt.since(&self.prev_estimate.dt);
        let process_noise = match self.process_noise_dt {
            Some(window) => !window.is_less_than(&elapsed),
            None => false,
        };
        Lapse { elapsed, process_noise }
    }

    /// Moves the filter to `dt` without a measurement.
    ///
    /// Without a fresh state transition matrix the update fails and the
    /// filter is as before. Otherwise `prediction` becomes the latest
    /// estimate, marked as predicted and carrying the state transition
    /// matrix that led to it, and the filter's own matrix is reset to the
    /// identity and counts as used.
    pub fn time_update(&mut self, dt: Epoch, prediction: Prediction<N>) -> (r: Result<
        Estimate<N>,
        FilterError,
    >)
        ensures
            r is Err ==> *final(self) == *old(self),
            !old(self).stm_updated ==> r == Err::<Estimate<N>, FilterError>(
                FilterError::StateTransitionMatrixNotUpdated,
            ),
            old(self).stm_updated ==> r == Ok::<Estimate<N>, FilterError>(
                Estimate {
                    dt,
                    state: prediction.state,
                    covar: prediction.covar,
                    stm: old(self).stm,
                    predicted: true,
                },
            ),
            r matches Ok(estimate) ==> final(self).follows(*old(self), estimate),
            r is Ok ==> final(self).h_tilde_updated == old(self).h_tilde_updated,
    {
        if !self.stm_updated {
            return Err(FilterError::StateTransitionMatrixNotUpdated);
        }
        let estimate = Estimate {
            dt,
            state: prediction.state,
            covar: prediction.covar,
            stm: self.stm,
            predicted: true,
        };
        self.stm = identity();
        self.stm_updated = false;
        self.prev_estimate = estimate;
        Ok(estimate)
    }

    /// Takes in the measurement at `dt`.
    ///
    /// The update fails, and the filter is as before, without a fresh state
    /// transition matrix, else without a fresh sensitivity matrix, else
    /// where the innovation covariance had no inverse (`correction` is
    /// `None`). Otherwise the correction becomes the latest estimate, marked
    /// as updated, its residual is returned with it, the filter's state
    /// transition matrix is reset to the identity, and both matrices count
    /// as used.
    pub fn measurement_update(&mut self, dt: Epoch, correction: Option<Correction<N, M>>) -> (r:
        Result<(Estimate<N>, Residual<M>), FilterError>)
        ensures
            r is Err ==> *final(self) == *old(self),
            !old(self).stm_updated ==> r == Err::<(Estimate<N>, Residual<M>), FilterError>(
                FilterError::StateTransitionMatrixNotUpdated,
            ),
            old(self).stm_updated && !old(self).h_tilde_updated ==> r == Err::<
                (Estimate<N>, Residual<M>),
                FilterError,
            >(FilterError::SensitivityNotUpdated),
            old(self).stm_updated && old(self).h_tilde_updated ==> (match correction {
                None => r == Err::<(Estimate<N>, Residual<M>), FilterError>(
                    FilterError::GainSingular,
                ),
                Some(c) => r == Ok::<(Estimate<N>, Residual<M>), FilterError>(
                    (
                        Estimate {
                            dt,
                            state: c.state,
                            covar: c.covar,
                            stm: old(self).stm,
                            predicted: false,
                        },
                        Residual {
                            dt,
                            prefit: c.prefit,
                            postfit: c.postfit,
                            ratio: c.ratio,
                            rejected: false,
                        },
                    ),
                ),
            }),
            r matches Ok(pair) ==> final(self).follows(*old(self), pair.0),
            r is Ok ==> !final(self).h_tilde_updated,
    {
        if !self.stm_updated {
            return Err(FilterError::StateTransitionMatrixNotUpdated);
        }
        if !self.h_tilde_updated {
            return Err(FilterError::SensitivityNotUpdated);
        }
        match correction {
            None => Err(FilterError::GainSingular),
            Some(c) => {
                let estimate = Estimate {
                    dt,
                    state: c.state,
                    covar: c.covar,
                    stm: self.stm,
                    predicted: false,
                };
                let residual = Residual {
                    dt,
                    prefit: c.prefit,
                    postfit: c.postfit,
                    ratio: c.ratio,
                    rejected: false,
                };
                self.stm = identity();
                self.stm_updated = false;
                self.h_tilde_updated = false;
                self.prev_estimate = estimate;
                Ok((estimate, residual))
            },
        }
    }
}

} // verus!
