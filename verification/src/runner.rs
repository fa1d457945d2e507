//! Inference with a learned transform, eager or compiled.

use crate::butterfly::{
    batch_fault, butterfly_forward_real_batch, butterfly_inverse_complex_batch, countable_batch,
    forward_rows, inverse_rows, ButterflyError,
};
use crate::config::{config_fault, ConfigError, FftLearnConfig, TransformDir};
use crate::device::Device;
use crate::scalar::Scalar;
use vstd::prelude::*;

verus! {

/// A transform in one direction with its twiddles; compiled for a device or not.
#[derive(Debug)]
pub struct FftLearnRunner<T> {
    pub cfg: FftLearnConfig,
    pub direction: TransformDir,
    pub twiddles: Vec<T>,
    pub compiled: Option<Device>,
}

/// How many numbers an input holds.
pub open spec fn input_size(cfg: FftLearnConfig, direction: TransformDir) -> nat {
    if direction is Forward {
        (cfg.batch * cfg.n_fft) as nat
    } else {
        (cfg.batch * cfg.n_fft * 2) as nat
    }
}

/// The name of a compiled graph's input.
pub open spec fn input_name_text(direction: TransformDir) -> Seq<char> {
    if direction is Forward {
        "signal"@
    } else {
        "spectrum"@
    }
}

/// What a compiled run is handed.
#[derive(Debug, Clone, Copy)]
pub struct CompiledRun {
    pub device: Device,
    pub input_name: &'static str,
}

/// Why a run fails.
#[derive(Debug, Clone, Copy, PartialEq, Eq, Structural)]
pub enum RunError {
    InputLength { found: usize, expected: usize },
    NotLoaded,
    NoOutputs,
}

/// What a run asks for.
#[derive(Debug)]
pub enum RunStep<T> {
    /// The result of the eager transform.
    Done(Result<Vec<T>, ButterflyError>),
    /// A run of the compiled graph on the input.
    Compiled(CompiledRun),
    Refused(RunError),
}

impl<T: Scalar> FftLearnRunner<T> {
    /// Whether the lengths that the runner works with can be counted.
    pub open spec fn countable(&self) -> bool {
        countable_batch(self.cfg.batch, self.cfg.n_fft)
    }

    /// A runner for a configuration, with the twiddles of a set.
    pub fn new_dir(cfg: FftLearnConfig, twiddles: Vec<T>, direction: TransformDir) -> (r: Result<
        FftLearnRunner<T>,
        ConfigError,
    >)
        ensures
            match config_fault(cfg.n_fft, cfg.batch) {
                Some(e) => r matches Err(x) && x == e,
                None => r matches Ok(v) && v.cfg == cfg && v.direction == direction && v.twiddles
                    == twiddles && v.compiled is None,
            },
    {
        match cfg.validate() {
            Err(e) => Err(e),
            Ok(()) => Ok(FftLearnRunner { cfg, direction, twiddles, compiled: None }),
        }
    }

    pub fn new(cfg: FftLearnConfig, twiddles: Vec<T>) -> (r: Result<FftLearnRunner<T>, ConfigError>)
        ensures
            match config_fault(cfg.n_fft, cfg.batch) {
                Some(e) => r matches Err(x) && x == e,
                None => r matches Ok(v) && v.cfg == cfg && v.direction is Forward && v.twiddles
                    == twiddles && v.compiled is None,
            },
    {
        FftLearnRunner::new_dir(cfg, twiddles, TransformDir::Forward)
    }

    pub fn new_ifft(cfg: FftLearnConfig, twiddles: Vec<T>) -> (r: Result<
        FftLearnRunner<T>,
        ConfigError,
    >)
        ensures
            match config_fault(cfg.n_fft, cfg.batch) {
                Some(e) => r matches Err(x) && x == e,
                None => r matches Ok(v) && v.cfg == cfg && v.direction is Inverse && v.twiddles
                    == twiddles && v.compiled is None,
            },
    {
        FftLearnRunner::new_dir(cfg, twiddles, TransformDir::Inverse)
    }

    /// Notes that the graph is compiled for a device.
    pub fn load_compiled(&mut self, device: Device)
        ensures
            *final(self) == (FftLearnRunner { compiled: Some(device), ..*old(self) }),
    {
        self.compiled = Some(device);
    }

    /// The result of the eager transform of an input.
    pub open spec fn eager(&self, input: Seq<T>) -> Result<Seq<T>, ButterflyError> {
        let (b, n) = (self.cfg.batch, self.cfg.n_fft);
        match batch_fault(
            input.len(),
            input_size(self.cfg, self.direction),
            self.twiddles@.len(),
            b,
            n,
        ) {
            Some(e) => Err(e),
            None => Ok(
                if self.direction is Forward {
                    forward_rows(input, self.twiddles@, n, b as nat)
                } else {
                    inverse_rows(input, self.twiddles@, n, b as nat)
                },
            ),
        }
    }

    /// Runs the eager transform.
    pub fn forward_eager(&self, input: &Vec<T>) -> (r: Result<Vec<T>, ButterflyError>)
        requires
            self.countable(),
        ensures
            match self.eager(input@) {
                Ok(v) => r matches Ok(x) && x@ == v,
                Err(e) => r == Err::<Vec<T>, ButterflyError>(e),
            },
    {
        if self.direction.is_forward() {
            butterfly_forward_real_batch(input, &self.twiddles, self.cfg.batch, self.cfg.n_fft)
        } else {
            butterfly_inverse_complex_batch(
                input,
                &self.twiddles,
                self.cfg.batch,
                self.cfg.n_fft,
            )
        }
    }

    /// What a compiled run is handed, or why it is refused.
    pub fn forward_compiled(&self, len: usize) -> (r: Result<CompiledRun, RunError>)
        requires
            self.countable(),
        ensures
            if len != input_size(self.cfg, self.direction) {
                r matches Err(e) && e == (RunError::InputLength {
                    found: len,
                    expected: input_size(self.cfg, self.direction) as usize,
                })
            } else {
                match self.compiled {
                    Some(d) => r matches Ok(c) && c.device == d && c.input_name@
                        == input_name_text(self.direction),
                    None => r matches Err(e) && e == RunError::NotLoaded,
                }
            },
    {
        proof {
            assert(self.cfg.batch * self.cfg.n_fft <= self.cfg.batch * self.cfg.n_fft * 2)
                by (nonlinear_arith)
                requires
                    self.cfg.batch >= 0,
                    self.cfg.n_fft >= 0,
            ;
        }
        let expected: usize = if self.direction.is_forward() {
            self.cfg.batch * self.cfg.n_fft
        } else {
            self.cfg.batch * self.cfg.n_fft * 2
        };
        if len != expected {
            return Err(RunError::InputLength { found: len, expected });
        }
        match self.compiled {
            None => Err(RunError::NotLoaded),
            Some(device) => Ok(
                CompiledRun {
                    device,
                    input_name: if self.direction.is_forward() {
                        "signal"
                    } else {
                        "spectrum"
                    },
                },
            ),
        }
    }

    /// Runs a transform: the compiled graph where there is one, else the eager transform.
    pub fn forward(&self, input: &Vec<T>) -> (r: RunStep<T>)
        requires
            self.countable(),
        ensures
            match self.compiled {
                None => match self.eager(input@) {
                    Ok(v) => r matches RunStep::Done(Ok(x)) && x@ == v,
                    Err(e) => r matches RunStep::Done(Err(x)) && x == e,
                },
                Some(d) => if input@.len() != input_size(self.cfg, self.direction) {
                    r matches RunStep::Refused(e) && e == (RunError::InputLength {
                        found: input@.len() as usize,
                        expected: input_size(self.cfg, self.direction) as usize,
                    })
                } else {
                    r matches RunStep::Compiled(c) && c.device == d && c.input_name@
                        == input_name_text(self.direction)
                },
            },
    {
        if self.compiled.is_some() {
            match self.forward_compiled(input.len()) {
                Ok(c) => RunStep::Compiled(c),
                Err(e) => RunStep::Refused(e),
            }
        } else {
            RunStep::Done(self.forward_eager(input))
        }
    }

    /// The output of a compiled run: the first that it gave.
    pub fn take_output(outputs: Vec<Vec<T>>) -> (r: Result<Vec<T>, RunError>)
        ensures
            outputs@.len() == 0 ==> (r matches Err(e) && e == RunError::NoOutputs),
            outputs@.len() > 0 ==> (r matches Ok(v) && v@ == outputs@[0]@),
    {
        if outputs.len() == 0 {
            return Err(RunError::NoOutputs);
        }
        Ok(crate::butterfly_train::copy_buffer(&outputs[0]))
    }

    pub fn config(&self) -> (r: &FftLearnConfig)
        ensures
            *r == self.cfg,
    {
        &self.cfg
    }

    pub fn direction(&self) -> (r: TransformDir)
        ensures
            r == self.direction,
    {
        self.direction
    }
}

} // verus!
