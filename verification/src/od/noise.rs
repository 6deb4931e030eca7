//! First-order Gauss-Markov bias process: its parameters and its life cycle.
//!
//! The process noise and the samples are binary64 bit patterns. Drawing a
//! realisation is numeric work done by the caller; this module keeps the
//! state that the draws depend on, and checks what a configuration holds.

use crate::io::ConfigError;
use crate::time::{duration_display, Duration, Epoch};
use vstd::prelude::*;

verus! {

/// Bit pattern of 60.0e-5, the range noise in km of a 60 cm error.
pub const RANGE_NOISE_KM: u64 = 0x3f43_a92a_3055_3261;

/// Bit pattern of 0.03e-6, the Doppler noise in km/s of a 0.03 mm/s error.
pub const DOPPLER_NOISE_KM_S: u64 = 0x3e60_1b2b_29a4_692b;

/// Nanoseconds in one minute.
pub const NANOSECONDS_PER_MINUTE: u64 = 60_000_000_000;

/// Bit pattern of the binary64 value -0.0: the sign bit alone.
pub const NEGATIVE_ZERO: u64 = 0x8000_0000_0000_0000;

/// A first-order Gauss-Markov process `(tau, sigma, t_prev, b_prev)`.
#[derive(Clone, Copy, Debug, PartialEq, Eq)]
pub struct GaussMarkov {
    /// Correlation time: the time over which the correlation fades to 1/e.
    pub tau: Duration,
    /// Process noise sigma, as a binary64 bit pattern.
    pub process_noise: u64,
    /// Epoch of the previous realisation.
    pub prev_epoch: Option<Epoch>,
    /// The bias of the previous realisation, as a binary64 bit pattern.
    pub init_sample: Option<u64>,
}

/// What one realisation needs from the numeric side.
#[derive(Clone, Copy, Debug, PartialEq, Eq)]
pub struct SampleStep {
    /// Time since the previous realisation; nothing at the first one.
    pub elapsed: Duration,
    /// The bias of the previous realisation, where there has been one.
    pub previous: Option<u64>,
}

/// Whether the bit pattern is that of a binary64 zero, of either sign.
pub open spec fn is_zero_bits(bits: u64) -> bool {
    bits == 0 || bits == NEGATIVE_ZERO
}

/// A document that holds models, read as far as its shape allows. Each
/// attempt to read a model is either the model or the text of the error.
#[derive(Debug)]
pub enum Document {
    /// A list, with each item read as one model.
    List(Vec<Result<GaussMarkov, String>>),
    /// A dictionary, with each value read as one model, and the dictionary
    /// as a whole read as a single model.
    Dict { values: Vec<Result<GaussMarkov, String>>, whole: Result<GaussMarkov, String> },
    /// Anything else, read as a whole as a list of models.
    Other(Result<Vec<GaussMarkov>, String>),
}

/// Whether every attempt gave a model.
pub open spec fn all_read(items: Seq<Result<GaussMarkov, String>>) -> bool {
    forall|i: int| 0 <= i < items.len() ==> (#[trigger] items[i]) is Ok
}

/// Whether `i` is the first attempt that failed.
pub open spec fn first_failure(items: Seq<Result<GaussMarkov, String>>, i: int) -> bool {
    &&& 0 <= i < items.len()
    &&& items[i] is Err
    &&& forall|j: int| 0 <= j < i ==> (#[trigger] items[j]) is Ok
}

/// The models of attempts that all gave one, in their order.
pub open spec fn read_models(items: Seq<Result<GaussMarkov, String>>) -> Seq<GaussMarkov> {
    Seq::new(items.len(), |i: int| items[i]->Ok_0)
}

/// Whether every model has a positive correlation time.
pub open spec fn all_fit(models: Seq<GaussMarkov>) -> bool {
    forall|i: int| 0 <= i < models.len() ==> (#[trigger] models[i]).tau.nanos() > 0
}

/// Whether `i` is the first model whose correlation time is not positive.
pub open spec fn first_unfit(models: Seq<GaussMarkov>, i: int) -> bool {
    &&& 0 <= i < models.len()
    &&& models[i].tau.nanos() <= 0
    &&& forall|j: int| 0 <= j < i ==> (#[trigger] models[j]).tau.nanos() > 0
}

/// Whether `r` is what a configuration that holds `models` gives: the
/// models, or, where one of them has a correlation time that is not
/// positive, the error that [`GaussMarkov::new`] gives for the first such.
pub open spec fn is_checked(models: Seq<GaussMarkov>, r: Result<Vec<GaussMarkov>, ConfigError>)
    -> bool {
    if all_fit(models) {
        r matches Ok(v) && v@ == models
    } else {
        r matches Err(ConfigError::InvalidConfig { msg }) && exists|i: int| #[trigger]
            first_unfit(models, i) && msg@ == tau_message(models[i].tau)
    }
}

/// What was written is what is read: a configuration that holds one model
/// with a positive correlation time hands out exactly that model.
pub proof fn lemma_one_model_is_handed_out(gm: GaussMarkov, r: Result<Vec<GaussMarkov>, ConfigError>)
    requires
        gm.tau.nanos() > 0,
        is_checked(seq![gm], r),
    ensures
        r matches Ok(v) && v@ == seq![gm],
{
    assert(all_fit(seq![gm]));
}

/// The text of the error that a non-positive `tau` gets.
pub open spec fn tau_message(tau: Duration) -> Seq<char> {
    "tau must be positive but got "@ + duration_display(
        tau.centuries_part() as int,
        tau.nanoseconds_part() as int,
    )
}

impl GaussMarkov {
    /// The invariant of a process: a positive correlation time.
    pub open spec fn is_well_formed(self) -> bool {
        self.tau.nanos() > 0
    }

    /// Whether the process is without noise and without bias: sigma is zero,
    /// and the previous bias, if there is one, is zero.
    pub open spec fn is_silent(self) -> bool {
        &&& is_zero_bits(self.process_noise)
        &&& self.init_sample matches Some(previous) ==> is_zero_bits(previous)
    }

    /// The process with the given parameters and no history.
    pub open spec fn fresh(tau: Duration, process_noise: u64) -> GaussMarkov {
        GaussMarkov { tau, process_noise, prev_epoch: None, init_sample: None }
    }

    /// Creates a process with correlation time `tau` and the given process
    /// noise. A `tau` that is not positive is rejected.
    pub fn new(tau: Duration, process_noise: u64) -> (r: Result<GaussMarkov, ConfigError>)
        ensures
            tau.nanos() > 0 ==> r == Ok::<GaussMarkov, ConfigError>(
                GaussMarkov::fresh(tau, process_noise),
            ),
            tau.nanos() <= 0 ==> (r matches Err(ConfigError::InvalidConfig { msg }) && msg@
                == tau_message(tau)),
    {
        if !tau.is_positive() {
            return Err(ConfigError::InvalidConfig { msg: tau_text(&tau) });
        }
        Ok(GaussMarkov { tau, process_noise, prev_epoch: None, init_sample: None })
    }

    /// The process without noise: sigma is zero and `tau` is the longest
    /// duration there is.
    pub fn zero() -> (gm: GaussMarkov)
        ensures
            gm == GaussMarkov::fresh(gm.tau, 0),
            gm.tau.centuries_part() == i16::MAX,
            gm.tau.nanoseconds_part() == crate::time::NANOSECONDS_PER_CENTURY,
            gm.is_well_formed(),
    {
        GaussMarkov {
            tau: Duration::max_value(),
            process_noise: 0,
            prev_epoch: None,
            init_sample: None,
        }
    }

    /// The process that is white noise of the given sigma: one without time
    /// correlation, whose `tau` is the longest duration there is.
    pub fn white_noise(process_noise: u64) -> (gm: GaussMarkov)
        ensures
            gm == GaussMarkov::fresh(gm.tau, process_noise),
            gm.tau.centuries_part() == i16::MAX,
            gm.tau.nanoseconds_part() == crate::time::NANOSECONDS_PER_CENTURY,
            gm.is_well_formed(),
    {
        GaussMarkov {
            tau: Duration::max_value(),
            process_noise,
            prev_epoch: None,
            init_sample: None,
        }
    }

    /// Default noise of a deep-space network in range: 60 cm over a
    /// 60 second average.
    pub fn default_range_km() -> (gm: GaussMarkov)
        ensures
            gm == GaussMarkov::fresh(gm.tau, RANGE_NOISE_KM),
            gm.tau.nanos() == NANOSECONDS_PER_MINUTE,
            gm.is_well_formed(),
    {
        let tau = Duration::from_parts(0, NANOSECONDS_PER_MINUTE).unwrap();
        GaussMarkov { tau, process_noise: RANGE_NOISE_KM, prev_epoch: None, init_sample: None }
    }

    /// Default noise of a deep-space network in Doppler: 0.03 mm/s over a
    /// 60 second average.
    pub fn default_doppler_km_s() -> (gm: GaussMarkov)
        ensures
            gm == GaussMarkov::fresh(gm.tau, DOPPLER_NOISE_KM_S),
            gm.tau.nanos() == NANOSECONDS_PER_MINUTE,
            gm.is_well_formed(),
    {
        let tau = Duration::from_parts(0, NANOSECONDS_PER_MINUTE).unwrap();
        GaussMarkov {
            tau,
            process_noise: DOPPLER_NOISE_KM_S,
            prev_epoch: None,
            init_sample: None,
        }
    }

    /// The process scaled to another sigma: the correlation time is kept and
    /// the history is forgotten. The caller supplies the product of the old
    /// sigma and the scale factor.
    pub fn rescaled(self, process_noise: u64) -> (gm: GaussMarkov)
        ensures
            gm == GaussMarkov::fresh(self.tau, process_noise),
            self.is_well_formed() ==> gm.is_well_formed(),
    {
        GaussMarkov { tau: self.tau, process_noise, prev_epoch: None, init_sample: None }
    }

    /// Forgets the history: the previous epoch and the previous bias.
    pub fn reset(&mut self)
        ensures
            *final(self) == GaussMarkov::fresh(old(self).tau, old(self).process_noise),
    {
        self.prev_epoch = None;
        self.init_sample = None;
    }

    /// Opens the realisation at `epoch`: the epoch becomes the previous one,
    /// and the step says how much time has passed since the realisation
    /// before it and what its bias was.
    pub fn begin_sample(&mut self, epoch: Epoch) -> (step: SampleStep)
        ensures
            step.elapsed.nanos() == (match old(self).prev_epoch {
                None => 0,
                Some(prev) => epoch.nanos() - prev.nanos(),
            }),
            step.elapsed.is_normal(),
            step.previous == old(self).init_sample,
            *final(self) == (GaussMarkov { prev_epoch: Some(epoch), ..*old(self) }),
    {
        let elapsed = match self.prev_epoch {
            None => Duration::zero(),
            Some(prev) => epoch.since(&prev),
        };
        self.prev_epoch = Some(epoch);
        SampleStep { elapsed, previous: self.init_sample }
    }

    /// Whether the process is without noise and without bias.
    pub fn silent(&self) -> (r: bool)
        ensures
            r == self.is_silent(),
    {
        let quiet = self.process_noise == 0 || self.process_noise == NEGATIVE_ZERO;
        match self.init_sample {
            None => quiet,
            Some(previous) => quiet && (previous == 0 || previous == NEGATIVE_ZERO),
        }
    }

    /// The next bias sample, at `epoch`.
    ///
    /// The arithmetic and the random draws are made by `draw`, which gets
    /// the process as it was, the time since the previous realisation (zero
    /// at the first one) and the random source, and hands back the bias and
    /// the source. A process without noise and without bias gives zero,
    /// whatever was drawn. The epoch becomes the previous epoch and the bias
    /// returned becomes the previous bias.
    pub fn sample<R, F: Fn(GaussMarkov, Duration, R) -> (u64, R)>(
        &mut self,
        epoch: Epoch,
        rng: R,
        draw: F,
    ) -> (r: (u64, R))
        requires
            forall|gm: GaussMarkov, dt: Duration, g: R| draw.requires((gm, dt, g)),
        ensures
            exists|dt: Duration, drawn: u64|
                {
                    &&& #[trigger] draw.ensures((*old(self), dt, rng), (drawn, r.1))
                    &&& dt.nanos() == (match old(self).prev_epoch {
                        None => 0,
                        Some(prev) => epoch.nanos() - prev.nanos(),
                    })
                    &&& dt.is_normal()
                    &&& r.0 == (if old(self).is_silent() {
                        0
                    } else {
                        drawn
                    })
                },
            *final(self) == (GaussMarkov {
                prev_epoch: Some(epoch),
                init_sample: Some(r.0),
                ..*old(self)
            }),
    {
        let before = *self;
        let quiet = self.silent();
        let step = self.begin_sample(epoch);
        let ghost source = rng;
        let (drawn, used) = draw(before, step.elapsed, rng);
        let bias = if quiet {
            0
        } else {
            drawn
        };
        self.record_bias(bias);
        let out = (bias, used);
        assert(draw.ensures((*old(self), step.elapsed, source), (drawn, out.1)));
        out
    }

    /// Stores the bias of the realisation just made as the previous bias.
    pub fn record_bias(&mut self, bias: u64)
        ensures
            *final(self) == (GaussMarkov { init_sample: Some(bias), ..*old(self) }),
    {
        self.init_sample = Some(bias);
    }

    /// The text that describes the process, given the text of its sigma.
    pub fn description(&self, sigma: &str) -> (s: String)
        ensures
            s@ == "First order Gauss-Markov process with τ = "@ + duration_display(
                self.tau.centuries_part() as int,
                self.tau.nanoseconds_part() as int,
            ) + ", σ = "@ + sigma@,
    {
        let mut s = String::new();
        s.push_str("First order Gauss-Markov process with τ = ");
        s.push_str(self.tau.text().as_str());
        s.push_str(", σ = ");
        s.push_str(sigma);
        s
    }

    /// Rebuilds a process from optional parts. With none of `tau`, `sigma`
    /// and `steady_state` the result is the process without noise; with
    /// some but not all of them, or with a `tau` that is not positive, the
    /// parts are rejected; otherwise the process has this `tau` and `sigma`,
    /// `bias` as its previous bias and `epoch` as its previous epoch.
    pub fn restore(
        tau: Option<Duration>,
        sigma: Option<u64>,
        steady_state: Option<u64>,
        bias: Option<u64>,
        epoch: Option<Epoch>,
    ) -> (r: Result<GaussMarkov, ConfigError>)
        ensures
            match (tau, sigma, steady_state) {
                (None, None, None) => r matches Ok(gm) && gm == GaussMarkov::fresh(gm.tau, 0)
                    && gm.tau.centuries_part() == i16::MAX && gm.tau.nanoseconds_part()
                    == crate::time::NANOSECONDS_PER_CENTURY,
                (Some(t), Some(s), Some(_)) => if t.nanos() > 0 {
                    r == Ok::<GaussMarkov, ConfigError>(
                        GaussMarkov { tau: t, process_noise: s, prev_epoch: epoch, init_sample: bias },
                    )
                } else {
                    r matches Err(ConfigError::InvalidConfig { msg }) && msg@ == tau_message(t)
                },
                _ => r matches Err(ConfigError::InvalidConfig { msg }) && msg@
                    == "tau, sigma, and steady_state must be specified"@,
            },
    {
        match (tau, sigma, steady_state) {
            (None, None, None) => Ok(GaussMarkov::zero()),
            (Some(t), Some(s), Some(_)) => {
                if !t.is_positive() {
                    return Err(ConfigError::InvalidConfig { msg: tau_text(&t) });
                }
                Ok(GaussMarkov { tau: t, process_noise: s, prev_epoch: epoch, init_sample: bias })
            },
            _ => {
                let mut msg = String::new();
                msg.push_str("tau, sigma, and steady_state must be specified");
                Err(ConfigError::InvalidConfig { msg })
            },
        }
    }
}

/// The text of the error that a `tau` that is not positive gets.
fn tau_text(tau: &Duration) -> (msg: String)
    ensures
        msg@ == tau_message(*tau),
{
    let mut msg = String::new();
    msg.push_str("tau must be positive but got ");
    msg.push_str(tau.text().as_str());
    msg
}

/// The models of a document.
///
/// A list gives its models in order, or the first error among its items. A
/// dictionary gives the models of its values in order; where a value is no
/// model, the dictionary as a whole is taken as the one model, or its error
/// is given. Anything else gives the list it was read as, or its error.
/// Models are handed out only if each has a positive correlation time: the
/// first that has none is the error.
pub fn loads(doc: Document) -> (r: Result<Vec<GaussMarkov>, ConfigError>)
    ensures
        match doc {
            Document::List(items) => {
                &&& all_read(items@) ==> is_checked(read_models(items@), r)
                &&& !all_read(items@) ==> (r matches Err(ConfigError::ParseError { msg })
                    && exists|i: int| #[trigger]
                    first_failure(items@, i) && items@[i]->Err_0@ == msg@)
            },
            Document::Dict { values, whole } => {
                &&& all_read(values@) ==> is_checked(read_models(values@), r)
                &&& !all_read(values@) ==> (match whole {
                    Ok(me) => is_checked(seq![me], r),
                    Err(text) => r matches Err(ConfigError::InvalidConfig { msg }) && msg@
                        == text@,
                })
            },
            Document::Other(read) => match read {
                Ok(list) => is_checked(list@, r),
                Err(text) => r matches Err(ConfigError::InvalidConfig { msg }) && msg@ == text@,
            },
        },
{
    match doc {
        Document::List(items) => {
            match collect(&items) {
                Ok(models) => checked(models),
                Err(i) => {
                    match &items[i] {
                        Err(text) => Err(ConfigError::ParseError { msg: text.clone() }),
                        Ok(_) => Ok(Vec::new()),
                    }
                },
            }
        },
        Document::Dict { values, whole } => {
            match collect(&values) {
                Ok(models) => checked(models),
                Err(_) => match whole {
                    Ok(me) => {
                        let mut models: Vec<GaussMarkov> = Vec::new();
                        models.push(me);
                        assert(models@ =~= seq![me]);
                        checked(models)
                    },
                    Err(text) => Err(ConfigError::InvalidConfig { msg: text }),
                },
            }
        },
        Document::Other(read) => match read {
            Ok(list) => checked(list),
            Err(text) => Err(ConfigError::InvalidConfig { msg: text }),
        },
    }
}

/// The models, if each has a positive correlation time, else the error of
/// the first that has none.
fn checked(models: Vec<GaussMarkov>) -> (r: Result<Vec<GaussMarkov>, ConfigError>)
    ensures
        is_checked(models@, r),
{
    let mut i: usize = 0;
    while i < models.len()
        invariant
            i <= models@.len(),
            forall|j: int| 0 <= j < i ==> (#[trigger] models@[j]).tau.nanos() > 0,
        decreases models@.len() - i,
    {
        if !models[i].tau.is_positive() {
            assert(first_unfit(models@, i as int));
            return Err(ConfigError::InvalidConfig { msg: tau_text(&models[i].tau) });
        }
        i += 1;
    }
    Ok(models)
}

/// The models of the attempts in order, or the index of the first attempt
/// that failed.
fn collect(items: &Vec<Result<GaussMarkov, String>>) -> (r: Result<Vec<GaussMarkov>, usize>)
    ensures
        all_read(items@) ==> (r matches Ok(models) && models@ == read_models(items@)),
        !all_read(items@) ==> (r matches Err(i) && first_failure(items@, i as int)),
{
    let mut models: Vec<GaussMarkov> = Vec::new();
    let mut i: usize = 0;
    while i < items.len()
        invariant
            i <= items@.len(),
            models@.len() == i,
            forall|j: int| 0 <= j < i ==> (#[trigger] items@[j]) == Ok::<GaussMarkov, String>(
                models@[j],
            ),
        decreases items@.len() - i,
    {
        match &items[i] {
            Ok(gm) => {
                models.push(*gm);
            },
            Err(_) => {
                return Err(i);
            },
        }
        i += 1;
    }
    assert(models@ =~= read_models(items@));
    Ok(models)
}

} // verus!
