//! Decisions of training loops: when to measure, when to stop, and where checkpoints lie.

use crate::ablation_csv::{below, join_path};
use vstd::prelude::*;

verus! {

// ---------------------------------------------------------------------------
// Convergence
// ---------------------------------------------------------------------------

/// When a training run measures itself and when it stops.
#[derive(Debug, Clone, Copy)]
pub struct ConvergenceRule {
    pub max_steps: usize,
    pub min_steps: usize,
    pub every: usize,
    pub patience: usize,
}

/// Where a training run stands. The best loss itself is a number that its caller keeps.
#[derive(Debug, Clone, Copy, PartialEq, Eq, Structural)]
pub struct Convergence {
    pub step: usize,
    /// Measurements in a row without an improvement.
    pub stale: usize,
    pub converged: bool,
}

/// What a measured loss says.
#[derive(Debug, Clone, Copy, PartialEq, Eq, Structural)]
pub enum Judgement {
    /// The loss is not finite.
    Unusable,
    Improved,
    Stale,
}

impl ConvergenceRule {
    /// Whether a step is followed by a measurement.
    pub open spec fn measures(self, step: usize) -> bool {
        step >= self.min_steps && if self.every == 0 {
            step == 0
        } else {
            step as int % self.every as int == 0
        }
    }
}

impl Convergence {
    /// The start of a run.
    pub fn start() -> (r: Convergence)
        ensures
            r == (Convergence { step: 0, stale: 0, converged: false }),
    {
        Convergence { step: 0, stale: 0, converged: false }
    }

    /// Whether the run goes on.
    pub open spec fn running(self, rule: ConvergenceRule) -> bool {
        !self.converged && self.step < rule.max_steps
    }

    pub fn is_running(&self, rule: &ConvergenceRule) -> (r: bool)
        ensures
            r == self.running(*rule),
    {
        !self.converged && self.step < rule.max_steps
    }

    /// Counts a step, and says whether it is followed by a measurement.
    pub fn stepped(&mut self, rule: &ConvergenceRule) -> (measure: bool)
        requires
            old(self).running(*rule),
        ensures
            *final(self) == (Convergence { step: (old(self).step + 1) as usize, ..*old(self) }),
            measure == rule.measures(final(self).step),
    {
        self.step = self.step + 1;
        let due = if rule.every == 0 {
            self.step == 0
        } else {
            self.step % rule.every == 0
        };
        self.step >= rule.min_steps && due
    }

    /// What a measurement does to the run: one that is no improvement ages it, and a run that is
    /// too old has converged.
    pub open spec fn judged(self, rule: ConvergenceRule, j: Judgement) -> Convergence {
        match j {
            Judgement::Unusable => self,
            Judgement::Improved => Convergence {
                stale: 0,
                converged: self.converged || rule.patience == 0,
                ..self
            },
            Judgement::Stale => Convergence {
                stale: (self.stale + 1) as usize,
                converged: self.converged || self.stale + 1 >= rule.patience,
                ..self
            },
        }
    }

    /// Takes a measurement in.
    pub fn judge(&mut self, rule: &ConvergenceRule, j: Judgement)
        requires
            old(self).stale < usize::MAX,
        ensures
            *final(self) == old(self).judged(*rule, j),
    {
        match j {
            Judgement::Unusable => {},
            Judgement::Improved => {
                self.stale = 0;
                if rule.patience == 0 {
                    self.converged = true;
                }
            },
            Judgement::Stale => {
                self.stale = self.stale + 1;
                if self.stale >= rule.patience {
                    self.converged = true;
                }
            },
        }
    }
}

/// A run after some measurements.
pub open spec fn judged_all(c: Convergence, rule: ConvergenceRule, js: Seq<Judgement>) -> Convergence
    decreases js.len(),
{
    if js.len() == 0 {
        c
    } else {
        judged_all(c, rule, js.drop_last()).judged(rule, js.last())
    }
}

/// A run that measured as many stale losses in a row as its patience allows has converged.
pub proof fn patience_runs_out(c: Convergence, rule: ConvergenceRule, js: Seq<Judgement>)
    requires
        forall|i: int| 0 <= i < js.len() ==> #[trigger] js[i] == Judgement::Stale,
        js.len() >= rule.patience,
        js.len() > 0,
        c.stale + js.len() <= usize::MAX,
    ensures
        judged_all(c, rule, js).converged,
        judged_all(c, rule, js).stale == c.stale + js.len(),
    decreases js.len(),
{
    lemma_stale(c, rule, js);
    let d = js.drop_last();
    assert forall|i: int| 0 <= i < d.len() implies #[trigger] d[i] == Judgement::Stale by {
        assert(d[i] == js[i]);
    }
    lemma_stale(c, rule, d);
    assert(js[js.len() - 1] == Judgement::Stale);
}

proof fn lemma_stale(c: Convergence, rule: ConvergenceRule, js: Seq<Judgement>)
    requires
        forall|i: int| 0 <= i < js.len() ==> #[trigger] js[i] == Judgement::Stale,
        c.stale + js.len() <= usize::MAX,
    ensures
        judged_all(c, rule, js).stale == c.stale + js.len(),
    decreases js.len(),
{
    if js.len() > 0 {
        let d = js.drop_last();
        assert forall|i: int| 0 <= i < d.len() implies #[trigger] d[i] == Judgement::Stale by {
            assert(d[i] == js[i]);
        }
        lemma_stale(c, rule, d);
        assert(js[js.len() - 1] == Judgement::Stale);
    }
}

/// A run with patience has not converged while its measurements improve or cannot be used.
pub proof fn progress_keeps_a_run_going(c: Convergence, rule: ConvergenceRule, js: Seq<Judgement>)
    requires
        !c.converged,
        rule.patience > 0,
        forall|i: int| 0 <= i < js.len() ==> #[trigger] js[i] != Judgement::Stale,
    ensures
        !judged_all(c, rule, js).converged,
    decreases js.len(),
{
    if js.len() > 0 {
        let d = js.drop_last();
        assert forall|i: int| 0 <= i < d.len() implies #[trigger] d[i] != Judgement::Stale by {
            assert(d[i] == js[i]);
        }
        progress_keeps_a_run_going(c, rule, d);
        assert(js[js.len() - 1] != Judgement::Stale);
    }
}

// ---------------------------------------------------------------------------
// Logged steps
// ---------------------------------------------------------------------------

/// Whether a curve has a point at a step: at the start, at every so many steps, and at the end.
pub open spec fn logged(step: nat, steps: nat, every: nat) -> bool {
    step == 0 || step % every == 0 || step == steps
}

/// The points of a curve up to a step: each with the rows seen by then.
pub open spec fn curve_points(k: nat, steps: nat, every: nat, batch: nat) -> Seq<(nat, nat)>
    decreases k,
{
    let head = if k == 0 {
        Seq::empty()
    } else {
        curve_points((k - 1) as nat, steps, every, batch)
    };
    if logged(k, steps, every) {
        head.push((k, k * batch))
    } else {
        head
    }
}

/// The points of a curve as numbers.
pub open spec fn point_views(v: Seq<(usize, usize)>) -> Seq<(nat, nat)> {
    v.map_values(|p: (usize, usize)| (p.0 as nat, p.1 as nat))
}

/// The steps at which a training curve is measured, with the rows seen by then. A spacing of zero
/// counts as one.
pub fn plan_curve(steps: usize, log_every: usize, batch: usize) -> (r: Vec<(usize, usize)>)
    requires
        steps * batch <= usize::MAX,
        steps < usize::MAX,
    ensures
        point_views(r@) == curve_points(
            steps as nat,
            steps as nat,
            if log_every < 1 {
                1
            } else {
                log_every as nat
            },
            batch as nat,
        ),
{
    let every: usize = if log_every < 1 {
        1
    } else {
        log_every
    };
    let mut out: Vec<(usize, usize)> = Vec::new();
    out.push((0, 0));
    proof {
        assert(0 * batch == 0) by (nonlinear_arith);
        assert(point_views(out@) =~= curve_points(0, steps as nat, every as nat, batch as nat));
    }
    let mut samples: usize = 0;
    let mut step: usize = 0;
    while step < steps
        invariant
            step <= steps,
            steps < usize::MAX,
            every >= 1,
            steps * batch <= usize::MAX,
            samples == step * batch,
            point_views(out@) == curve_points(
                step as nat,
                steps as nat,
                every as nat,
                batch as nat,
            ),
        decreases steps - step,
    {
        let ghost before = point_views(out@);
        proof {
            assert((step + 1) * batch == step * batch + batch) by (nonlinear_arith);
            assert((step + 1) * batch <= steps * batch) by (nonlinear_arith)
                requires
                    step + 1 <= steps,
                    batch >= 0,
            ;
        }
        step += 1;
        samples = samples + batch;
        if step % every == 0 || step == steps {
            out.push((step, samples));
            assert(point_views(out@) =~= before.push((step as nat, samples as nat)));
        }
    }
    out
}

/// A curve starts at the first step and ends at the last.
pub proof fn curve_covers_the_run(steps: nat, every: nat, batch: nat)
    requires
        every > 0,
    ensures
        ({
            let c = curve_points(steps, steps, every, batch);
            &&& c.len() > 0
            &&& c[0] == (0nat, 0nat)
            &&& c.last() == (steps, steps * batch)
        }),
{
    lemma_curve_start(steps, steps, every, batch);
}

proof fn lemma_curve_start(k: nat, steps: nat, every: nat, batch: nat)
    requires
        every > 0,
    ensures
        curve_points(k, steps, every, batch).len() > 0,
        curve_points(k, steps, every, batch)[0] == (0nat, 0nat),
    decreases k,
{
    if k > 0 {
        lemma_curve_start((k - 1) as nat, steps, every, batch);
    } else {
        assert(0 * batch == 0) by (nonlinear_arith);
    }
}

// ---------------------------------------------------------------------------
// Checkpoints of a phased training
// ---------------------------------------------------------------------------

/// The phases of a phased training, in their order.
pub const PHASES: [&'static str; 3] = ["phase1_encoder", "phase2_decoder", "phase3_joint"];

/// The checkpoint of a phase.
pub open spec fn checkpoint_of(dir: Seq<char>, phase: Seq<char>) -> Seq<char> {
    below(below(dir, phase), "encdec.safetensors"@)
}

/// A phase and its checkpoint.
#[derive(Clone, Debug)]
pub struct PhaseCheckpoint {
    pub phase: &'static str,
    pub path: String,
}

/// The checkpoints of a phased training below a directory.
pub fn phase_checkpoints(dir: &str) -> (r: Vec<PhaseCheckpoint>)
    ensures
        r.len() == 3,
        forall|i: int|
            0 <= i < 3 ==> (#[trigger] r@[i]).phase@ == PHASES@[i]@ && r@[i].path@ == checkpoint_of(
                dir@,
                PHASES@[i]@,
            ),
{
    let phases: [&'static str; 3] = PHASES;
    let mut out: Vec<PhaseCheckpoint> = Vec::new();
    let mut i: usize = 0;
    while i < 3
        invariant
            i <= 3,
            phases == PHASES,
            out.len() == i,
            forall|k: int|
                0 <= k < i ==> (#[trigger] out@[k]).phase@ == PHASES@[k]@ && out@[k].path@
                    == checkpoint_of(dir@, PHASES@[k]@),
        decreases 3 - i,
    {
        let inner = join_path(dir, phases[i]);
        let path = join_path(inner.as_str(), "encdec.safetensors");
        out.push(PhaseCheckpoint { phase: phases[i], path });
        i += 1;
    }
    out
}

/// Where the twiddles of a bench come from.
#[derive(Debug, Clone, Copy, PartialEq, Eq, Structural)]
pub enum TwiddleSource {
    Exact,
    /// A checkpoint with one set of twiddles.
    Learned,
    /// The half of an encoder-decoder checkpoint for the direction.
    LearnedHalf,
}

/// The source of a bench's twiddles: the exact ones without a checkpoint; a checkpoint's own set
/// where it holds one, else the half for the direction.
pub fn twiddle_source(has_checkpoint: bool, holds_one_set: bool) -> (r: TwiddleSource)
    ensures
        r == if !has_checkpoint {
            TwiddleSource::Exact
        } else if holds_one_set {
            TwiddleSource::Learned
        } else {
            TwiddleSource::LearnedHalf
        },
{
    if !has_checkpoint {
        TwiddleSource::Exact
    } else if holds_one_set {
        TwiddleSource::Learned
    } else {
        TwiddleSource::LearnedHalf
    }
}

/// How a bench names the source of its twiddles.
pub open spec fn source_text(source: TwiddleSource, forward: bool, path: Seq<char>) -> Seq<char> {
    match source {
        TwiddleSource::Exact => "exact twiddles"@,
        TwiddleSource::Learned => "learned ("@ + path + ")"@,
        TwiddleSource::LearnedHalf => "learned encdec "@ + (if forward {
            "encoder"@
        } else {
            "decoder"@
        }) + " ("@ + path + ")"@,
    }
}

/// Names the source of a bench's twiddles.
pub fn name_source(source: TwiddleSource, forward: bool, path: &str) -> (r: String)
    ensures
        r@ == source_text(source, forward, path@),
{
    match source {
        TwiddleSource::Exact => "exact twiddles".to_owned(),
        TwiddleSource::Learned => {
            let mut out = "learned (".to_owned();
            out.push_str(path);
            out.push_str(")");
            out
        },
        TwiddleSource::LearnedHalf => {
            let mut out = "learned encdec ".to_owned();
            out.push_str(
                if forward {
                    "encoder"
                } else {
                    "decoder"
                },
            );
            out.push_str(" (");
            out.push_str(path);
            out.push_str(")");
            out
        },
    }
}

} // verus!
