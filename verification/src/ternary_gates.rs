//! Ternary butterfly gates: layouts, greedy pruning with roll-back, and local refinement.

use crate::arith::{least, min_usize, power_of_two, trailing_zeros, twos};
use crate::figure::{at_most, is_at_most, is_less, less};
use vstd::prelude::*;

verus! {

/// How a butterfly is routed.
#[derive(Debug, Clone, Copy, PartialEq, Eq, Structural)]
pub enum GateMode {
    /// The butterfly is left out.
    Skip,
    /// The butterfly runs forward.
    Forward,
    /// The butterfly runs in reverse.
    Reverse,
}

impl GateMode {
    /// The stored value of a mode.
    pub open spec fn code(self) -> i8 {
        match self {
            GateMode::Skip => 0,
            GateMode::Forward => 1,
            GateMode::Reverse => -1i8,
        }
    }

    pub fn to_i8(self) -> (r: i8)
        ensures
            r == self.code(),
    {
        match self {
            GateMode::Skip => 0,
            GateMode::Forward => 1,
            GateMode::Reverse => -1,
        }
    }
}

/// Which gate mask the mel and the spectrum path use.
#[derive(Debug, Clone, Copy, PartialEq, Eq, Structural)]
pub enum GateLayout {
    /// One gate mask for mel and spectrum.
    SingleSparse,
    /// The mel path uses the pruned gates, the spectrum path its own, all forward.
    DualMelSpec,
    /// No skips.
    AllForward,
}

/// What corrects the spectrum behind the gates.
#[derive(Debug, Clone, Copy, PartialEq, Eq, Structural)]
pub enum CorrectorKind {
    Identity,
    Affine,
    BandNarrow,
    BandWide,
    Dense,
}

/// One gate for every butterfly of every stage, all forward.
pub fn all_forward_gates(n_fft: usize) -> (r: Vec<i8>)
    requires
        power_of_two(n_fft as nat),
        twos(n_fft as nat) * (n_fft / 2) <= usize::MAX,
    ensures
        r.len() == twos(n_fft as nat) * (n_fft / 2),
        forall|i: int| 0 <= i < r.len() ==> #[trigger] r@[i] == GateMode::Forward.code(),
{
    proof {
        crate::arith::twos_of_power(n_fft as nat);
    }
    let n: usize = trailing_zeros(n_fft) * (n_fft / 2);
    let mut out: Vec<i8> = Vec::new();
    let mut i: usize = 0;
    while i < n
        invariant
            i <= n,
            out.len() == i,
            forall|k: int| 0 <= k < i ==> #[trigger] out@[k] == GateMode::Forward.code(),
        decreases n - i,
    {
        out.push(1);
        i += 1;
    }
    out
}

/// Gates with every reverse gate turned forward.
pub open spec fn stripped(g: Seq<i8>) -> Seq<i8> {
    g.map_values(
        |x: i8|
            if x == GateMode::Reverse.code() {
                GateMode::Forward.code()
            } else {
                x
            },
    )
}

/// Turns every reverse gate forward.
pub fn strip_reverse_gates(gates: &mut Vec<i8>)
    ensures
        final(gates)@ == stripped(old(gates)@),
{
    let ghost start = gates@;
    let mut i: usize = 0;
    while i < gates.len()
        invariant
            i <= gates.len(),
            gates.len() == start.len(),
            forall|k: int| 0 <= k < i ==> #[trigger] gates@[k] == stripped(start)[k],
            forall|k: int| i <= k < start.len() ==> #[trigger] gates@[k] == start[k],
        decreases gates.len() - i,
    {
        if gates[i] == GateMode::Reverse.to_i8() {
            gates.set(i, GateMode::Forward.to_i8());
        }
        i += 1;
    }
    assert(gates@ =~= stripped(start));
}

/// Stripping leaves no reverse gate, and stripping again changes nothing.
pub proof fn stripping_is_stable(g: Seq<i8>)
    ensures
        forall|i: int| 0 <= i < g.len() ==> #[trigger] stripped(g)[i] != GateMode::Reverse.code(),
        stripped(stripped(g)) == stripped(g),
{
    assert(stripped(stripped(g)) =~= stripped(g));
}

/// The gates of the spectrum path under a layout.
pub open spec fn spectrum_gates(layout: GateLayout, mel: Seq<i8>) -> Seq<i8> {
    if layout is DualMelSpec {
        Seq::new(mel.len(), |i: int| GateMode::Forward.code())
    } else {
        mel
    }
}

/// Brings the gates of the spectrum path in line with a layout.
pub fn sync_spec_gates_for_layout(layout: GateLayout, mel_gates: &Vec<i8>, spec_gates: &mut Vec<i8>)
    requires
        mel_gates.len() == old(spec_gates).len(),
    ensures
        final(spec_gates)@ == spectrum_gates(layout, mel_gates@),
{
    let mut i: usize = 0;
    while i < mel_gates.len()
        invariant
            i <= mel_gates.len(),
            mel_gates.len() == spec_gates.len(),
            forall|k: int|
                0 <= k < i ==> #[trigger] spec_gates@[k] == spectrum_gates(layout, mel_gates@)[k],
        decreases mel_gates.len() - i,
    {
        let g = match layout {
            GateLayout::DualMelSpec => GateMode::Forward.to_i8(),
            _ => mel_gates[i],
        };
        spec_gates.set(i, g);
        i += 1;
    }
    assert(spec_gates@ =~= spectrum_gates(layout, mel_gates@));
}

/// The mel and spectrum gates that a layout starts from: all forward under the all-forward layout,
/// the spectrum gates in line with the layout, and no reverse gate unless reverse is allowed.
pub open spec fn laid_out(
    layout: GateLayout,
    allow_reverse: bool,
    gates: Seq<i8>,
) -> (Seq<i8>, Seq<i8>) {
    let mel = if layout is AllForward {
        Seq::new(gates.len(), |i: int| GateMode::Forward.code())
    } else {
        gates
    };
    let spec = spectrum_gates(layout, mel);
    if allow_reverse {
        (mel, spec)
    } else {
        (stripped(mel), stripped(spec))
    }
}

/// Applies a layout to the gates of a model.
pub fn apply_layout(layout: GateLayout, allow_reverse: bool, n_fft: usize, gates: &Vec<i8>) -> (r: (
    Vec<i8>,
    Vec<i8>,
))
    requires
        power_of_two(n_fft as nat),
        twos(n_fft as nat) * (n_fft / 2) <= usize::MAX,
        gates.len() == twos(n_fft as nat) * (n_fft / 2),
    ensures
        (r.0@, r.1@) == laid_out(layout, allow_reverse, gates@),
{
    let mut mel = all_forward_gates(n_fft);
    if !matches!(layout, GateLayout::AllForward) {
        sync_spec_gates_for_layout(GateLayout::SingleSparse, gates, &mut mel);
    } else {
        assert(mel@ =~= Seq::new(gates@.len(), |i: int| GateMode::Forward.code()));
    }
    let mut spec = all_forward_gates(n_fft);
    sync_spec_gates_for_layout(layout, &mel, &mut spec);
    if !allow_reverse {
        strip_reverse_gates(&mut mel);
        strip_reverse_gates(&mut spec);
    }
    (mel, spec)
}

/// How many gates have a value.
pub open spec fn count_code(g: Seq<i8>, c: i8) -> nat
    decreases g.len(),
{
    if g.len() == 0 {
        0
    } else {
        count_code(g.drop_last(), c) + if g.last() == c {
            1nat
        } else {
            0
        }
    }
}

/// How many gates skip, run forward and run in reverse.
pub fn gate_mode_counts(gates: &Vec<i8>) -> (r: (usize, usize, usize))
    ensures
        r.0 == count_code(gates@, GateMode::Skip.code()),
        r.1 == count_code(gates@, GateMode::Forward.code()),
        r.2 == count_code(gates@, GateMode::Reverse.code()),
{
    let mut skip: usize = 0;
    let mut forward: usize = 0;
    let mut reverse: usize = 0;
    let mut i: usize = 0;
    while i < gates.len()
        invariant
            i <= gates.len(),
            skip == count_code(gates@.take(i as int), GateMode::Skip.code()),
            forward == count_code(gates@.take(i as int), GateMode::Forward.code()),
            reverse == count_code(gates@.take(i as int), GateMode::Reverse.code()),
            skip <= i,
            forward <= i,
            reverse <= i,
        decreases gates.len() - i,
    {
        assert(gates@.take(i + 1).drop_last() =~= gates@.take(i as int));
        let g = gates[i];
        if g == GateMode::Skip.to_i8() {
            skip += 1;
        }
        if g == GateMode::Forward.to_i8() {
            forward += 1;
        }
        if g == GateMode::Reverse.to_i8() {
            reverse += 1;
        }
        i += 1;
    }
    assert(gates@.take(gates@.len() as int) =~= gates@);
    (skip, forward, reverse)
}

// ---------------------------------------------------------------------------
// Pruning
// ---------------------------------------------------------------------------

/// The weight by which pruning orders a gate: its stage first, then its place.
pub open spec fn prune_key(gate: int, half: int) -> int {
    (gate / half) * 10000 + gate
}

/// The gates in the order in which pruning tries them: the last stage first.
pub fn prune_order(count: usize, half: usize) -> (r: Vec<usize>)
    requires
        half > 0,
    ensures
        r.len() == count,
        forall|i: int| 0 <= i < count ==> #[trigger] r@[i] == count - 1 - i,
        forall|i: int, j: int|
            0 <= i < j < count ==> prune_key(#[trigger] r@[i] as int, half as int) > prune_key(
                #[trigger] r@[j] as int,
                half as int,
            ),
{
    let mut out: Vec<usize> = Vec::new();
    let mut i: usize = count;
    while i > 0
        invariant
            i <= count,
            out.len() == count - i,
            forall|k: int| 0 <= k < out.len() ==> #[trigger] out@[k] == count - 1 - k,
        decreases i,
    {
        i -= 1;
        out.push(i);
    }
    proof {
        assert forall|a: int, b: int| 0 <= a < b < count implies prune_key(
            #[trigger] out@[a] as int,
            half as int,
        ) > prune_key(#[trigger] out@[b] as int, half as int) by {
            vstd::arithmetic::div_mod::lemma_div_is_ordered(
                out@[b] as int,
                out@[a] as int,
                half as int,
            );
        }
    }
    out
}

/// The limits that a pruned model has to stay within. Errors and limits are the bits of doubles.
#[derive(Debug, Clone, Copy, PartialEq, Eq, Structural)]
pub struct PruneLimits {
    /// The largest mel error.
    pub mel: u64,
    /// The largest mel error against the reference, where it is guarded.
    pub reference: Option<u64>,
    /// The largest spectrum error, where it is guarded.
    pub spectrum: Option<u64>,
}

/// The errors that the next accepted skip may reach: the last accepted errors and their slack.
#[derive(Debug, Clone, Copy, PartialEq, Eq, Structural)]
pub struct SoftLimits {
    pub mel: u64,
    pub reference: u64,
    pub spectrum: u64,
}

/// The errors measured with one more gate skipped.
#[derive(Debug, Clone, Copy, PartialEq, Eq, Structural)]
pub struct Measured {
    pub mel: u64,
    pub reference: u64,
    pub spectrum: u64,
    /// These errors and their slack: the soft limits if the skip is accepted.
    pub next: SoftLimits,
}

/// Whether measured errors are within the limits.
pub open spec fn acceptable(l: PruneLimits, s: SoftLimits, m: Measured) -> bool {
    &&& at_most(m.mel, l.mel)
    &&& at_most(m.mel, s.mel)
    &&& l.reference matches Some(r) ==> at_most(m.reference, r) && at_most(
        m.reference,
        s.reference,
    )
    &&& l.spectrum matches Some(r) ==> at_most(m.spectrum, r) && at_most(m.spectrum, s.spectrum)
}

/// What to do next while pruning.
#[derive(Debug, Clone, Copy, PartialEq, Eq, Structural)]
pub enum PruneStep {
    /// One gate has been skipped: refit for this many steps and measure.
    Try { gate: usize, refit_steps: usize },
    /// No gate is left to try, or the target is reached.
    Done,
}

/// What became of a tried gate.
#[derive(Debug, Clone, Copy, PartialEq, Eq, Structural)]
pub enum PruneVerdict {
    /// The skip stays: train for this many steps, and refit the spectrum where asked.
    Accepted { train_steps: usize, refit_spectrum: bool },
    /// One gate has its old value again: restore the corrections too.
    RolledBack,
}

/// Refit steps for the next trial after some accepted skips.
pub open spec fn refit_steps(accepted: int) -> int {
    least(64 + accepted * 2, 200)
}

/// Training steps after an accepted skip, which counts among the accepted ones.
pub open spec fn accept_steps(accepted: int) -> int {
    least(24 + accepted / 4, 96)
}

/// Refit steps before the first trial, where the spectrum is guarded.
pub const OPENING_REFIT: usize = 24;

/// Refit steps of the spectrum after every twelfth accepted skip, where the spectrum is guarded.
pub const TWELFTH_REFIT: usize = 36;

/// Refit steps once no gate is left to try, and the rounds of mel training that follow.
pub const CLOSING_REFIT: usize = 64;

pub const CLOSING_ROUNDS: usize = 32;

/// Refit steps before the spectrum of the pruned model is judged.
pub const SPECTRUM_REFIT: usize = 320;

/// Refit steps after a skip has been taken back for its mel errors, and for its spectrum error.
pub const MEL_RESTORE_REFIT: usize = 32;

pub const SPECTRUM_RESTORE_REFIT: usize = 120;

/// The rates of these refits, and of that with a gate on trial, in thousandths.
pub const OPENING_RATE: usize = 6;

pub const TRIAL_RATE: usize = 12;

pub const TWELFTH_RATE: usize = 8;

pub const CLOSING_RATE: usize = 8;

pub const SPECTRUM_RATE: usize = 12;

pub const MEL_RESTORE_RATE: usize = 8;

pub const SPECTRUM_RESTORE_RATE: usize = 10;

/// The rates of training after an accepted skip, in thousandths: towards the mel targets, the mel
/// energies of the reference and its spectra.
pub const TARGET_RATE: usize = 8;

pub const REFERENCE_MEL_RATE: usize = 6;

pub const REFERENCE_SPECTRUM_RATE: usize = 5;

/// What to do with a pruned model that has been measured.
#[derive(Debug, Clone, Copy, PartialEq, Eq, Structural)]
pub enum ClosingStep {
    /// The skip of one gate has been taken back: refit for this many steps and measure again.
    Restored { gate: usize, refit_steps: usize },
    /// The errors are within the limits, or no skip is left to take back.
    Done,
}

/// Pruning at one moment.
pub struct PruneState {
    pub gates: Seq<i8>,
    /// The gates that are still to be tried, in order.
    pub waiting: Seq<usize>,
    /// The accepted skips that still stand, in the order in which they were accepted.
    pub accepted: Seq<usize>,
    /// Which gate is being tried, and its old value.
    pub trial: Option<(usize, i8)>,
    pub limits: PruneLimits,
    pub soft: SoftLimits,
}

/// Pruning before the first trial: the gates wait in descending order.
pub open spec fn prune_start(gates: Seq<i8>, limits: PruneLimits, soft: SoftLimits) -> PruneState {
    PruneState {
        gates,
        waiting: Seq::new(gates.len(), |i: int| (gates.len() - 1 - i) as usize),
        accepted: Seq::empty(),
        trial: None,
        limits,
        soft,
    }
}

/// The next waiting gate that is not skipped is skipped and tried, unless the target is reached.
pub open spec fn prune_advanced(s: PruneState, target_reached: bool) -> PruneState {
    match next_active(s.gates, s.waiting) {
        Some(k) if !target_reached => {
            let g = s.waiting[k];
            PruneState {
                gates: s.gates.update(g as int, GateMode::Skip.code()),
                waiting: s.waiting.skip(k + 1),
                trial: Some((g, s.gates[g as int])),
                ..s
            }
        },
        _ => PruneState {
            waiting: if target_reached {
                s.waiting
            } else {
                Seq::empty()
            },
            ..s
        },
    }
}

/// The tried skip stays where the measured errors are within the limits, and is rolled back elsewhere.
pub open spec fn prune_judged(s: PruneState, m: Measured) -> PruneState {
    match s.trial {
        None => s,
        Some((g, was)) => if acceptable(s.limits, s.soft, m) {
            PruneState { accepted: s.accepted.push(g), trial: None, soft: m.next, ..s }
        } else {
            PruneState { gates: s.gates.update(g as int, was), trial: None, ..s }
        },
    }
}

/// The skip that was accepted last is taken back: its gate runs forward.
pub open spec fn prune_restored(s: PruneState) -> PruneState {
    if s.accepted.len() == 0 {
        s
    } else {
        PruneState {
            gates: s.gates.update(s.accepted.last() as int, GateMode::Forward.code()),
            accepted: s.accepted.drop_last(),
            ..s
        }
    }
}

/// Whether mel errors are over the limits of pruning.
pub open spec fn over_mel(l: PruneLimits, mel: u64, reference: u64) -> bool {
    less(l.mel, mel) || (l.reference matches Some(r) && less(r, reference))
}

/// Greedy pruning of the gates of a model.
#[derive(Debug)]
pub struct Pruner {
    gates: Vec<i8>,
    order: Vec<usize>,
    at: usize,
    accepted: Vec<usize>,
    trial: Option<(usize, i8)>,
    limits: PruneLimits,
    soft: SoftLimits,
}

impl Pruner {
    pub closed spec fn gates(&self) -> Seq<i8> {
        self.gates@
    }

    /// The accepted skips that still stand, in the order in which they were accepted.
    pub closed spec fn accepted(&self) -> Seq<usize> {
        self.accepted@
    }

    /// Which gate is being tried, and its old value.
    pub closed spec fn trial(&self) -> Option<(usize, i8)> {
        self.trial
    }

    /// The gates that are still to be tried, in order.
    pub closed spec fn waiting(&self) -> Seq<usize> {
        self.order@.skip(self.at as int)
    }

    pub closed spec fn limits(&self) -> PruneLimits {
        self.limits
    }

    pub closed spec fn soft(&self) -> SoftLimits {
        self.soft
    }

    /// Pruning as it stands.
    pub open spec fn state(&self) -> PruneState {
        PruneState {
            gates: self.gates(),
            waiting: self.waiting(),
            accepted: self.accepted(),
            trial: self.trial(),
            limits: self.limits(),
            soft: self.soft(),
        }
    }

    /// Every gate in question exists, waiting gates are tried once and in descending order, and
    /// the accepted gates and the tried one are skipped.
    pub closed spec fn well_formed(&self) -> bool {
        &&& self.at <= self.order.len()
        &&& forall|i: int| 0 <= i < self.order.len() ==> #[trigger] self.order@[i] < self.gates.len()
        &&& forall|i: int, j: int|
            0 <= i < j < self.order.len() ==> #[trigger] self.order@[i] > #[trigger] self.order@[j]
        &&& forall|i: int|
            0 <= i < self.accepted.len() ==> (#[trigger] self.accepted@[i]) < self.gates.len()
                && self.gates@[self.accepted@[i] as int] == GateMode::Skip.code()
        &&& forall|i: int, k: int|
            0 <= i < self.accepted.len() && self.at <= k < self.order.len() ==> (
            #[trigger] self.accepted@[i]) > (#[trigger] self.order@[k])
        &&& self.accepted@.no_duplicates()
        &&& self.accepted.len() <= self.at
        &&& self.trial matches Some((g, old)) ==> g < self.gates.len() && self.gates@[g as int]
            == GateMode::Skip.code() && old != GateMode::Skip.code() && !self.accepted@.contains(g)
            && self.accepted.len() < self.at && (forall|k: int|
            self.at <= k < self.order.len() ==> g > #[trigger] self.order@[k])
    }

    /// Starts pruning a model's gates.
    pub fn new(gates: Vec<i8>, half: usize, limits: PruneLimits, soft: SoftLimits) -> (r: Pruner)
        requires
            half > 0,
        ensures
            r.well_formed(),
            r.state() == prune_start(gates@, limits, soft),
    {
        let order = prune_order(gates.len(), half);
        let r = Pruner {
            gates,
            order,
            at: 0,
            accepted: Vec::new(),
            trial: None,
            limits,
            soft,
        };
        assert(r.waiting() =~= Seq::new(gates@.len(), |i: int| (gates@.len() - 1 - i) as usize));
        assert(r.accepted() =~= Seq::<usize>::empty());
        r
    }

    /// Goes on to the next gate that is not skipped, unless the target is reached, and skips it.
    pub fn advance(&mut self, target_reached: bool) -> (r: PruneStep)
        requires
            old(self).well_formed(),
            old(self).trial() is None,
        ensures
            final(self).well_formed(),
            final(self).state() == prune_advanced(old(self).state(), target_reached),
            match final(self).trial() {
                Some((gate, _)) => r == (PruneStep::Try {
                    gate,
                    refit_steps: refit_steps(old(self).accepted().len() as int) as usize,
                }),
                None => r is Done,
            },
    {
        let ghost before = *self;
        let ghost w = self.waiting();
        if target_reached {
            return PruneStep::Done;
        }
        assert(w.skip(0) =~= w);
        while self.at < self.order.len()
            invariant
                before == *old(self),
                self.well_formed(),
                self.trial is None,
                self.gates@ == before.gates@,
                self.order@ == before.order@,
                self.accepted@ == before.accepted@,
                self.limits == before.limits,
                self.soft == before.soft,
                before.at <= self.at <= self.order.len(),
                w == before.waiting(),
                self.waiting() == w.skip(self.at - before.at),
                next_active(before.gates(), w) == (match next_active(
                    before.gates(),
                    self.waiting(),
                ) {
                    Some(k) => Some(k + (self.at - before.at)),
                    None => None,
                }),
                !target_reached,
            decreases self.order.len() - self.at,
        {
            let g: usize = self.order[self.at];
            let ghost here = self.waiting();
            assert(here[0] == g);
            let mode = self.gates[g];
            assert(here.drop_first() =~= self.order@.skip(self.at + 1));
            assert(w.skip(self.at - before.at).drop_first() =~= w.skip(self.at - before.at + 1));
            proof {
                assert(forall|i: int| 0 <= i < self.accepted.len() ==> #[trigger] self.accepted@[i]
                    != g);
                assert(forall|k: int| self.at < k < self.order.len() ==> g > #[trigger] self.order@[k]);
            }
            self.at = self.at + 1;
            if mode == GateMode::Forward.to_i8() || mode == GateMode::Reverse.to_i8() {
                let ghost gates0 = self.gates@;
                self.gates.set(g, GateMode::Skip.to_i8());
                self.trial = Some((g, mode));
                proof {
                    assert(!self.accepted@.contains(g)) by {
                        if self.accepted@.contains(g) {
                            let i = choose|i: int|
                                0 <= i < self.accepted@.len() && self.accepted@[i] == g;
                            assert(self.accepted@[i] != g);
                        }
                    }
                    assert(next_active(before.gates(), here) == Some(0int));
                    let k = self.at - 1 - before.at;
                    assert(w[k] == g);
                    assert(w.skip(k + 1) =~= self.waiting());
                }
                let n: usize = self.accepted.len();
                let steps: usize = if n >= 68 {
                    200
                } else {
                    64 + n * 2
                };
                return PruneStep::Try { gate: g, refit_steps: steps };
            }
            assert(self.waiting() =~= w.skip(self.at - before.at));
        }
        assert(self.waiting() =~= Seq::empty());
        PruneStep::Done
    }

    /// Decides whether the tried skip stays.
    pub fn judge(&mut self, m: Measured) -> (r: PruneVerdict)
        requires
            old(self).well_formed(),
            old(self).trial() is Some,
        ensures
            final(self).well_formed(),
            final(self).state() == prune_judged(old(self).state(), m),
            if acceptable(old(self).limits(), old(self).soft(), m) {
                let n = old(self).accepted().len() + 1;
                r == (PruneVerdict::Accepted {
                    train_steps: accept_steps(n as int) as usize,
                    refit_spectrum: old(self).limits().spectrum is Some && n % 12 == 0,
                })
            } else {
                r is RolledBack
            },
            r is Accepted ==> at_most(m.mel, old(self).limits().mel) && at_most(
                m.mel,
                old(self).soft().mel,
            ),
            r is Accepted ==> (old(self).limits().reference matches Some(l) ==> at_most(
                m.reference,
                l,
            ) && at_most(m.reference, old(self).soft().reference)),
            r is Accepted ==> (old(self).limits().spectrum matches Some(l) ==> at_most(
                m.spectrum,
                l,
            ) && at_most(m.spectrum, old(self).soft().spectrum)),
            r is RolledBack ==> final(self).gates() == old(self).gates().update(
                old(self).trial()->Some_0.0 as int,
                old(self).trial()->Some_0.1,
            ),
            r is Accepted ==> final(self).gates() == old(self).gates() && final(self).accepted()
                == old(self).accepted().push(old(self).trial()->Some_0.0),
    {
        let ghost before = *self;
        let (g, was) = self.trial.unwrap();
        self.trial = None;
        let reference_ok = match self.limits.reference {
            Some(l) => is_at_most(m.reference, l) && is_at_most(m.reference, self.soft.reference),
            None => true,
        };
        let spectrum_ok = match self.limits.spectrum {
            Some(l) => is_at_most(m.spectrum, l) && is_at_most(m.spectrum, self.soft.spectrum),
            None => true,
        };
        if is_at_most(m.mel, self.limits.mel) && is_at_most(m.mel, self.soft.mel) && reference_ok
            && spectrum_ok {
            self.soft = m.next;
            self.accepted.push(g);
            let n: usize = self.accepted.len();
            proof {
                let a = self.accepted@;
                assert forall|i: int, j: int| 0 <= i < a.len() && 0 <= j < a.len() && i
                    != j implies a[i] != a[j] by {
                    if i == a.len() - 1 {
                        assert(before.accepted@[j] == a[j]);
                        assert(before.accepted@.contains(a[j]));
                    } else if j == a.len() - 1 {
                        assert(before.accepted@[i] == a[i]);
                        assert(before.accepted@.contains(a[i]));
                    } else {
                        assert(before.accepted@[i] != before.accepted@[j]);
                    }
                }
                assert forall|i: int| 0 <= i < a.len() implies (#[trigger] a[i]) < self.gates@.len()
                    && self.gates@[a[i] as int] == GateMode::Skip.code() by {
                    if i < before.accepted@.len() {
                        assert(a[i] == before.accepted@[i]);
                    }
                }
                assert forall|i: int, k: int|
                    0 <= i < a.len() && self.at <= k < self.order@.len() implies (
                #[trigger] a[i]) > (#[trigger] self.order@[k]) by {
                    if i < before.accepted@.len() {
                        assert(a[i] == before.accepted@[i]);
                    }
                }
            }
            PruneVerdict::Accepted {
                train_steps: min_usize(24 + n / 4, 96),
                refit_spectrum: self.limits.spectrum.is_some() && n % 12 == 0,
            }
        } else {
            self.gates.set(g, was);
            proof {
                assert forall|i: int| 0 <= i < self.accepted@.len() implies (
                #[trigger] self.accepted@[i]) < self.gates@.len()
                    && self.gates@[self.accepted@[i] as int] == GateMode::Skip.code() by {
                    assert(before.accepted@.contains(self.accepted@[i]));
                    assert(self.accepted@[i] != g);
                }
            }
            PruneVerdict::RolledBack
        }
    }

    /// Takes over the spectrum limit after the spectrum has been refitted.
    pub fn refitted(&mut self, spectrum: u64)
        requires
            old(self).well_formed(),
        ensures
            final(self).well_formed(),
            final(self).state() == (PruneState {
                soft: SoftLimits { spectrum, ..old(self).soft() },
                ..old(self).state()
            }),
    {
        self.soft = SoftLimits { spectrum, ..self.soft };
    }

    /// Whether the mel errors of the pruned model are over a hard limit.
    pub fn over_mel_limits(&self, mel: u64, reference: u64) -> (r: bool)
        ensures
            r == over_mel(self.limits(), mel, reference),
            r == (less(self.limits().mel, mel) || (self.limits().reference matches Some(l) && less(
                l,
                reference,
            ))),
    {
        is_less(self.limits.mel, mel) || match self.limits.reference {
            Some(l) => is_less(l, reference),
            None => false,
        }
    }

    /// Turns the skip that was accepted last forward again. `None` when no skip stands.
    pub fn restore_last(&mut self) -> (r: Option<usize>)
        requires
            old(self).well_formed(),
            old(self).trial() is None,
        ensures
            final(self).well_formed(),
            final(self).state() == prune_restored(old(self).state()),
            if old(self).accepted().len() == 0 {
                r is None
            } else {
                r == Some(old(self).accepted().last())
            },
    {
        let ghost before = *self;
        match self.accepted.pop() {
            None => {
                assert(self.accepted@ =~= before.accepted@);
                None
            },
            Some(g) => {
                proof {
                    let a = before.accepted@;
                    assert(g == a[a.len() - 1]);
                    assert(self.accepted@ =~= a.drop_last());
                    assert forall|i: int| 0 <= i < self.accepted@.len() implies #[trigger] self.accepted@[i]
                        == a[i] && a[i] != g by {
                        assert(a[i] != a[a.len() - 1]);
                    }
                    assert forall|i: int, j: int|
                        0 <= i < self.accepted@.len() && 0 <= j < self.accepted@.len() && i
                            != j implies self.accepted@[i] != self.accepted@[j] by {
                        assert(a[i] != a[j]);
                    }
                    assert forall|i: int, k: int|
                        0 <= i < self.accepted@.len() && self.at <= k < self.order@.len() implies (
                    #[trigger] self.accepted@[i]) > (#[trigger] self.order@[k]) by {
                        assert(self.accepted@[i] == a[i]);
                    }
                }
                self.gates.set(g, GateMode::Forward.to_i8());
                Some(g)
            },
        }
    }

    /// Takes back the last skip where the mel errors of the pruned model are over the limits.
    pub fn close_mel(&mut self, mel: u64, reference: u64) -> (r: ClosingStep)
        requires
            old(self).well_formed(),
            old(self).trial() is None,
        ensures
            final(self).well_formed(),
            if over_mel(old(self).limits(), mel, reference) && old(self).accepted().len() > 0 {
                &&& r == (ClosingStep::Restored {
                    gate: old(self).accepted().last(),
                    refit_steps: MEL_RESTORE_REFIT,
                })
                &&& final(self).state() == prune_restored(old(self).state())
            } else {
                r is Done && final(self).state() == old(self).state()
            },
    {
        if self.over_mel_limits(mel, reference) {
            match self.restore_last() {
                Some(gate) => ClosingStep::Restored { gate, refit_steps: MEL_RESTORE_REFIT },
                None => ClosingStep::Done,
            }
        } else {
            ClosingStep::Done
        }
    }

    /// Takes back the last skip where the spectrum error of the pruned model is over a limit.
    pub fn close_spectrum(&mut self, spectrum: u64, limit: u64) -> (r: ClosingStep)
        requires
            old(self).well_formed(),
            old(self).trial() is None,
        ensures
            final(self).well_formed(),
            if less(limit, spectrum) && old(self).accepted().len() > 0 {
                &&& r == (ClosingStep::Restored {
                    gate: old(self).accepted().last(),
                    refit_steps: SPECTRUM_RESTORE_REFIT,
                })
                &&& final(self).state() == prune_restored(old(self).state())
            } else {
                r is Done && final(self).state() == old(self).state()
            },
    {
        if is_less(limit, spectrum) {
            match self.restore_last() {
                Some(gate) => ClosingStep::Restored { gate, refit_steps: SPECTRUM_RESTORE_REFIT },
                None => ClosingStep::Done,
            }
        } else {
            ClosingStep::Done
        }
    }

    /// The gates of the model as they stand.
    pub fn into_gates(self) -> (r: Vec<i8>)
        ensures
            r@ == self.gates(),
    {
        self.gates
    }
}

/// The place of the first waiting gate that runs forward or in reverse.
pub open spec fn next_active(gates: Seq<i8>, waiting: Seq<usize>) -> Option<int>
    decreases waiting.len(),
{
    if waiting.len() == 0 {
        None
    } else {
        let g = gates[waiting[0] as int];
        if g == GateMode::Forward.code() || g == GateMode::Reverse.code() {
            Some(0)
        } else {
            match next_active(gates, waiting.drop_first()) {
                Some(k) => Some(k + 1),
                None => None,
            }
        }
    }
}

/// What happens to a model while its gates are pruned.
pub enum PruneEvent {
    Advance { target_reached: bool },
    Judge { measured: Measured },
    /// The spectrum has been refitted: its soft limit is taken over.
    Refitted { spectrum: u64 },
    /// The errors of the pruned model are over a limit.
    Restore,
}

/// Pruning after one event; a gate is tried only when none is, and restored only then.
pub open spec fn prune_next(s: PruneState, e: PruneEvent) -> PruneState {
    match e {
        PruneEvent::Advance { target_reached } => if s.trial is None {
            prune_advanced(s, target_reached)
        } else {
            s
        },
        PruneEvent::Judge { measured } => prune_judged(s, measured),
        PruneEvent::Refitted { spectrum } => PruneState {
            soft: SoftLimits { spectrum, ..s.soft },
            ..s
        },
        PruneEvent::Restore => if s.trial is None {
            prune_restored(s)
        } else {
            s
        },
    }
}

/// Pruning after some events.
pub open spec fn prune_run(s: PruneState, events: Seq<PruneEvent>) -> PruneState
    decreases events.len(),
{
    if events.len() == 0 {
        s
    } else {
        prune_next(prune_run(s, events.drop_last()), events.last())
    }
}

/// Whether gates come from others by pruning: as many, what was skipped is skipped, and every gate
/// has its old value, is skipped or runs forward.
pub open spec fn pruned_from(now: Seq<i8>, start: Seq<i8>) -> bool {
    &&& now.len() == start.len()
    &&& forall|i: int|
        0 <= i < start.len() ==> {
            &&& start[i] == GateMode::Skip.code() ==> now[i] == GateMode::Skip.code()
            &&& #[trigger] now[i] == start[i] || now[i] == GateMode::Skip.code() || now[i]
                == GateMode::Forward.code()
        }
}

spec fn prune_kept(s: PruneState, start: Seq<i8>) -> bool {
    &&& pruned_from(s.gates, start)
    &&& forall|i: int| 0 <= i < s.waiting.len() ==> (#[trigger] s.waiting[i]) < start.len()
    &&& forall|i: int|
        0 <= i < s.accepted.len() ==> (#[trigger] s.accepted[i]) < start.len()
            && start[s.accepted[i] as int] != GateMode::Skip.code()
    &&& s.trial matches Some((g, was)) ==> {
        &&& g < start.len()
        &&& start[g as int] != GateMode::Skip.code()
        &&& was == start[g as int] || was == GateMode::Forward.code()
    }
}

proof fn lemma_next_active(gates: Seq<i8>, waiting: Seq<usize>)
    ensures
        next_active(gates, waiting) matches Some(k) ==> 0 <= k < waiting.len() && gates[waiting[k] as int]
            != GateMode::Skip.code(),
    decreases waiting.len(),
{
    if waiting.len() > 0 {
        lemma_next_active(gates, waiting.drop_first());
    }
}

/// However the trials of a run turn out, and whenever it ends, the model has as many gates as
/// before, a skipped gate is skipped still, and every gate has its old value, is skipped or runs
/// forward.
pub proof fn pruning_only_skips(
    gates: Seq<i8>,
    limits: PruneLimits,
    soft: SoftLimits,
    events: Seq<PruneEvent>,
)
    requires
        gates.len() <= usize::MAX,
    ensures
        pruned_from(prune_run(prune_start(gates, limits, soft), events).gates, gates),
{
    lemma_prune_kept(gates, limits, soft, events);
}

proof fn lemma_prune_kept(
    gates: Seq<i8>,
    limits: PruneLimits,
    soft: SoftLimits,
    events: Seq<PruneEvent>,
)
    requires
        gates.len() <= usize::MAX,
    ensures
        prune_kept(prune_run(prune_start(gates, limits, soft), events), gates),
    decreases events.len(),
{
    if events.len() > 0 {
        lemma_prune_kept(gates, limits, soft, events.drop_last());
        let s = prune_run(prune_start(gates, limits, soft), events.drop_last());
        lemma_next_active(s.gates, s.waiting);
    }
}

/// Where the target is met before the first trial, a run changes no gate, whatever is measured.
pub proof fn a_met_target_changes_nothing(
    gates: Seq<i8>,
    limits: PruneLimits,
    soft: SoftLimits,
    events: Seq<PruneEvent>,
)
    requires
        forall|i: int|
            0 <= i < events.len() ==> (#[trigger] events[i] matches PruneEvent::Advance {
                target_reached,
            } ==> target_reached),
    ensures
        ({
            let s = prune_run(prune_start(gates, limits, soft), events);
            s.gates == gates && s.trial is None && s.accepted.len() == 0
        }),
    decreases events.len(),
{
    if events.len() > 0 {
        let before = events.drop_last();
        assert forall|i: int| 0 <= i < before.len() implies (#[trigger] before[i] matches PruneEvent::Advance {
            target_reached,
        } ==> target_reached) by {
            assert(before[i] == events[i]);
        }
        a_met_target_changes_nothing(gates, limits, soft, before);
        assert(events[events.len() - 1] == events.last());
    }
}

/// A skip that stands after its trial was measured within every limit that is set: the mel error
/// within the mel limits, the error against the reference within the limits of that error, and the
/// spectrum error within those of the spectrum, the hard limit and the soft one alike.
pub proof fn a_standing_skip_was_within_every_limit(s: PruneState, m: Measured)
    requires
        s.trial matches Some((g, was)) && g < s.gates.len() && s.gates[g as int]
            == GateMode::Skip.code() && was != GateMode::Skip.code(),
        prune_judged(s, m).gates[s.trial->Some_0.0 as int] == GateMode::Skip.code(),
    ensures
        at_most(m.mel, s.limits.mel),
        at_most(m.mel, s.soft.mel),
        s.limits.reference matches Some(l) ==> at_most(m.reference, l),
        s.limits.reference is Some ==> at_most(m.reference, s.soft.reference),
        s.limits.spectrum matches Some(l) ==> at_most(m.spectrum, l),
        s.limits.spectrum is Some ==> at_most(m.spectrum, s.soft.spectrum),
        prune_judged(s, m).accepted == s.accepted.push(s.trial->Some_0.0),
        prune_judged(s, m).soft == m.next,
        prune_judged(s, m).gates == s.gates,
{
}

/// A skip measured within every limit that is set stands.
pub proof fn a_skip_within_every_limit_stands(s: PruneState, m: Measured)
    requires
        s.trial is Some,
        at_most(m.mel, s.limits.mel),
        at_most(m.mel, s.soft.mel),
        s.limits.reference matches Some(l) ==> at_most(m.reference, l) && at_most(
            m.reference,
            s.soft.reference,
        ),
        s.limits.spectrum matches Some(l) ==> at_most(m.spectrum, l) && at_most(
            m.spectrum,
            s.soft.spectrum,
        ),
    ensures
        prune_judged(s, m).gates == s.gates,
        prune_judged(s, m).accepted == s.accepted.push(s.trial->Some_0.0),
        prune_judged(s, m).soft == m.next,
        prune_judged(s, m).trial is None,
        prune_judged(s, m).waiting == s.waiting,
        prune_judged(s, m).limits == s.limits,
{
}

/// One error over one of its own limits takes the tried skip back, whatever the other errors are:
/// the gates, the accepted skips and the limits are those from before the trial.
pub proof fn an_error_over_its_limit_undoes_the_trial(s: PruneState, m: Measured)
    requires
        s.trial is None,
        forall|i: int| 0 <= i < s.waiting.len() ==> (#[trigger] s.waiting[i]) < s.gates.len(),
        prune_advanced(s, false).trial is Some,
        ({
            ||| less(s.limits.mel, m.mel)
            ||| less(s.soft.mel, m.mel)
            ||| s.limits.reference matches Some(l) && (less(l, m.reference) || less(
                s.soft.reference,
                m.reference,
            ))
            ||| s.limits.spectrum matches Some(l) && (less(l, m.spectrum) || less(
                s.soft.spectrum,
                m.spectrum,
            ))
        }),
    ensures
        ({
            let now = prune_judged(prune_advanced(s, false), m);
            &&& now.gates == s.gates
            &&& now.accepted == s.accepted
            &&& now.soft == s.soft
            &&& now.limits == s.limits
            &&& now.trial is None
            &&& now.waiting.len() < s.waiting.len()
        }),
{
    lemma_next_active(s.gates, s.waiting);
    let t = prune_advanced(s, false);
    let g = t.trial->Some_0.0 as int;
    assert(prune_judged(t, m).gates =~= s.gates);
}

/// An error that no limit guards decides nothing.
pub proof fn an_unguarded_error_decides_nothing(s: PruneState, m: Measured, other: u64)
    ensures
        s.limits.reference is None ==> prune_judged(s, Measured { reference: other, ..m })
            == prune_judged(s, m),
        s.limits.spectrum is None ==> prune_judged(s, Measured { spectrum: other, ..m })
            == prune_judged(s, m),
{
}

/// What is tried next is the first of the waiting gates that is not skipped yet: it is skipped,
/// its old value is kept for taking the skip back, and no other gate changes.
pub proof fn a_trial_skips_one_gate(s: PruneState)
    requires
        s.trial is None,
        forall|i: int| 0 <= i < s.waiting.len() ==> (#[trigger] s.waiting[i]) < s.gates.len(),
    ensures
        ({
            let now = prune_advanced(s, false);
            match now.trial {
                Some((g, was)) => {
                    let k = s.waiting.len() - now.waiting.len() - 1;
                    &&& 0 <= k < s.waiting.len()
                    &&& s.waiting[k] == g
                    &&& now.waiting == s.waiting.skip(k + 1)
                    &&& forall|j: int|
                        0 <= j < k ==> !running(s.gates[#[trigger] s.waiting[j] as int])
                    &&& running(was)
                    &&& was == s.gates[g as int]
                    &&& now.gates[g as int] == GateMode::Skip.code()
                    &&& forall|j: int|
                        0 <= j < s.gates.len() && j != g ==> (#[trigger] now.gates[j]) == s.gates[j]
                },
                None => {
                    &&& now.gates == s.gates
                    &&& forall|j: int|
                        0 <= j < s.waiting.len() ==> !running(s.gates[#[trigger] s.waiting[j] as int])
                },
            }
        }),
        prune_advanced(s, true) == s,
{
    lemma_next_active(s.gates, s.waiting);
    lemma_first_active(s.gates, s.waiting);
}

/// Whether a gate runs, forward or in reverse.
pub open spec fn running(g: i8) -> bool {
    g == GateMode::Forward.code() || g == GateMode::Reverse.code()
}

proof fn lemma_first_active(gates: Seq<i8>, waiting: Seq<usize>)
    ensures
        match next_active(gates, waiting) {
            Some(k) => 0 <= k < waiting.len() && running(gates[waiting[k] as int]) && forall|j: int|
                0 <= j < k ==> !running(gates[#[trigger] waiting[j] as int]),
            None => forall|j: int|
                0 <= j < waiting.len() ==> !running(gates[#[trigger] waiting[j] as int]),
        },
    decreases waiting.len(),
{
    if waiting.len() > 0 {
        let rest = waiting.drop_first();
        lemma_first_active(gates, rest);
        if !running(gates[waiting[0] as int]) {
            let upto = match next_active(gates, waiting) {
                Some(k) => k,
                None => waiting.len() as int,
            };
            assert forall|j: int| 0 <= j < upto implies !running(
                gates[#[trigger] waiting[j] as int],
            ) by {
                if j > 0 {
                    assert(rest[j - 1] == waiting[j]);
                }
            }
        }
    }
}

/// Whether an event of a run accepted the skip of a gate: it was on trial, and each error that
/// a limit guards was measured within that limit.
pub open spec fn accepts(start: PruneState, events: Seq<PruneEvent>, j: int, g: usize) -> bool {
    &&& 0 <= j < events.len()
    &&& events[j] matches PruneEvent::Judge { measured } && ({
        let s = prune_run(start, events.take(j));
        &&& s.trial matches Some((tried, _)) && tried == g
        &&& at_most(measured.mel, start.limits.mel)
        &&& start.limits.reference matches Some(l) ==> at_most(measured.reference, l)
        &&& start.limits.spectrum matches Some(l) ==> at_most(measured.spectrum, l)
    })
}

/// However a run goes, every skip that it has accepted was on trial once and measured within every
/// limit that is set.
pub proof fn every_accepted_skip_was_measured(
    gates: Seq<i8>,
    limits: PruneLimits,
    soft: SoftLimits,
    events: Seq<PruneEvent>,
    i: int,
)
    requires
        0 <= i < prune_run(prune_start(gates, limits, soft), events).accepted.len(),
    ensures
        exists|j: int| #[trigger]
            accepts(
                prune_start(gates, limits, soft),
                events,
                j,
                prune_run(prune_start(gates, limits, soft), events).accepted[i],
            ),
        prune_run(prune_start(gates, limits, soft), events).limits == limits,
    decreases events.len(),
{
    let start = prune_start(gates, limits, soft);
    lemma_limits_stay(start, events);
    if events.len() > 0 {
        let before = events.drop_last();
        let was = prune_run(start, before);
        let now = prune_run(start, events);
        lemma_limits_stay(start, before);
        if i < was.accepted.len() {
            every_accepted_skip_was_measured(gates, limits, soft, before, i);
            let g = was.accepted[i];
            assert(now.accepted[i] == g);
            let j = choose|j: int| #[trigger] accepts(start, before, j, g);
            assert(before.take(j) =~= events.take(j));
            assert(before[j] == events[j]);
            assert(accepts(start, events, j, g));
        } else {
            let j = events.len() - 1;
            assert(events.take(j) =~= before);
            assert(accepts(start, events, j, now.accepted[i]));
        }
    }
}

proof fn lemma_limits_stay(s: PruneState, events: Seq<PruneEvent>)
    ensures
        prune_run(s, events).limits == s.limits,
    decreases events.len(),
{
    if events.len() > 0 {
        lemma_limits_stay(s, events.drop_last());
    }
}

/// The mel errors of a pruned model are over the limits exactly where one of them is over its own:
/// either over its limit calls for taking a skip back, and neither does without.
pub proof fn each_mel_error_has_its_own_limit(l: PruneLimits, mel: u64, reference: u64)
    ensures
        less(l.mel, mel) ==> over_mel(l, mel, reference),
        l.reference matches Some(r) && less(r, reference) ==> over_mel(l, mel, reference),
        !less(l.mel, mel) && (l.reference matches Some(r) ==> !less(r, reference)) ==> !over_mel(
            l,
            mel,
            reference,
        ),
{
}

/// Taking the last skip back undoes an accepted trial, but for the direction, which is forward.
pub proof fn restoring_undoes_the_last_skip(s: PruneState, g: usize)
    requires
        g < s.gates.len(),
    ensures
        ({
            let skipped = PruneState {
                gates: s.gates.update(g as int, GateMode::Skip.code()),
                accepted: s.accepted.push(g),
                ..s
            };
            let now = prune_restored(skipped);
            &&& now.accepted == s.accepted
            &&& now.gates[g as int] == GateMode::Forward.code()
            &&& forall|j: int|
                0 <= j < s.gates.len() && j != g ==> (#[trigger] now.gates[j]) == s.gates[j]
            &&& s.gates[g as int] == GateMode::Forward.code() ==> now.gates == s.gates
            &&& now.waiting == s.waiting && now.limits == s.limits && now.soft == s.soft
        }),
        s.accepted.len() == 0 ==> prune_restored(s) == s,
{
    let skipped = PruneState {
        gates: s.gates.update(g as int, GateMode::Skip.code()),
        accepted: s.accepted.push(g),
        ..s
    };
    let now = prune_restored(skipped);
    assert(now.accepted =~= s.accepted);
    if s.gates[g as int] == GateMode::Forward.code() {
        assert(now.gates =~= s.gates);
    }
}

/// Trying a gate and rolling it back leaves the gates as they were.
pub proof fn rolled_back_trial_changes_nothing(gates: Seq<i8>, g: int)
    requires
        0 <= g < gates.len(),
    ensures
        gates.update(g, GateMode::Skip.code()).update(g, gates[g]) == gates,
{
    assert(gates.update(g, GateMode::Skip.code()).update(g, gates[g]) =~= gates);
}

/// An accepted skip adds exactly one skipped gate.
pub proof fn accepted_skip_counts_once(gates: Seq<i8>, g: int)
    requires
        0 <= g < gates.len(),
        gates[g] != GateMode::Skip.code(),
    ensures
        count_code(gates.update(g, GateMode::Skip.code()), GateMode::Skip.code()) == count_code(
            gates,
            GateMode::Skip.code(),
        ) + 1,
    decreases gates.len(),
{
    let now = gates.update(g, GateMode::Skip.code());
    if g == gates.len() - 1 {
        assert(now.drop_last() =~= gates.drop_last());
    } else {
        accepted_skip_counts_once(gates.drop_last(), g);
        assert(now.drop_last() =~= gates.drop_last().update(g, GateMode::Skip.code()));
    }
}

// ---------------------------------------------------------------------------
// Local refinement
// ---------------------------------------------------------------------------

/// The standard generator of `rand`.
#[verifier::external_type_specification]
#[verifier::external_body]
pub struct ExStdRng(rand::rngs::StdRng);

/// `SeedableRng::seed_from_u64` makes a generator from a seed. Nothing is claimed of what it draws:
/// which numbers come depends on the release of `rand` and on the width of the machine's words.
#[verifier::external_body]
fn seeded_rng(seed: u64) -> (r: rand::rngs::StdRng) {
    rand::SeedableRng::seed_from_u64(seed)
}

/// `Rng::gen_range` draws a number below `n`; it panics on an empty range, which is left out.
#[verifier::external_body]
fn draw_below(rng: &mut rand::rngs::StdRng, n: usize) -> (r: usize)
    requires
        n > 0,
    ensures
        r < n,
{
    rand::Rng::gen_range(rng, 0..n)
}

/// The gates that a local search visits: at most `sample` and at most as many as there are, drawn
/// from a seed, a gate possibly more than once.
pub fn refine_picks(gate_count: usize, sample: usize, seed: u64) -> (r: Vec<usize>)
    ensures
        r.len() == least(sample as int, gate_count as int),
        forall|i: int| 0 <= i < r.len() ==> (#[trigger] r@[i]) < gate_count,
{
    let tries: usize = min_usize(sample, gate_count);
    let mut rng = seeded_rng(seed);
    let mut out: Vec<usize> = Vec::new();
    let mut i: usize = 0;
    while i < tries
        invariant
            i <= tries,
            tries <= gate_count,
            out.len() == i,
            forall|k: int| 0 <= k < i ==> (#[trigger] out@[k]) < gate_count,
        decreases tries - i,
    {
        out.push(draw_below(&mut rng, gate_count));
        i += 1;
    }
    out
}

/// The values other than a gate's own.
pub open spec fn others(old_gate: i8) -> spec_fn(i8) -> bool {
    |c: i8| c != old_gate
}

/// The values that a search tries in place of a gate's own: skip, forward and reverse without it.
pub open spec fn candidates(old_gate: i8) -> Seq<i8> {
    seq![GateMode::Skip.code(), GateMode::Forward.code(), GateMode::Reverse.code()].filter(
        others(old_gate),
    )
}

/// The values to try in place of a gate's own.
pub fn gate_candidates(old_gate: i8) -> (r: Vec<i8>)
    ensures
        r@ == candidates(old_gate),
{
    let all = vec![GateMode::Skip.to_i8(), GateMode::Forward.to_i8(), GateMode::Reverse.to_i8()];
    let ghost keep = others(old_gate);
    let mut out: Vec<i8> = Vec::new();
    let mut i: usize = 0;
    assert(all@.take(0).filter(keep) =~= Seq::empty()) by {
        reveal(Seq::filter);
    }
    while i < all.len()
        invariant
            i <= all.len(),
            keep == others(old_gate),
            out@ == all@.take(i as int).filter(keep),
        decreases all.len() - i,
    {
        proof {
            reveal(Seq::filter);
            assert(all@.take(i + 1).drop_last() =~= all@.take(i as int));
        }
        if all[i] != old_gate {
            out.push(all[i]);
        }
        i += 1;
    }
    assert(all@.take(all@.len() as int) =~= all@);
    assert(all@ =~= seq![
        GateMode::Skip.code(),
        GateMode::Forward.code(),
        GateMode::Reverse.code(),
    ]);
    out
}

/// The best value found for a gate so far, and its loss.
#[derive(Debug, Clone, Copy, PartialEq, Eq, Structural)]
pub struct GateChoice {
    pub gate: i8,
    pub loss: u64,
}

/// The choice after one more candidate: it is taken when its loss is smaller and its mel error is
/// within the limit.
pub open spec fn chosen(c: GateChoice, candidate: GateChoice, mel: u64, mel_limit: u64) -> GateChoice {
    if less(candidate.loss, c.loss) && at_most(mel, mel_limit) {
        candidate
    } else {
        c
    }
}

impl GateChoice {
    /// Considers one more candidate, and tells whether it was taken.
    pub fn consider(&mut self, candidate: GateChoice, mel: u64, mel_limit: u64) -> (taken: bool)
        ensures
            *final(self) == chosen(*old(self), candidate, mel, mel_limit),
            taken == (less(candidate.loss, old(self).loss) && at_most(mel, mel_limit)),
    {
        if is_less(candidate.loss, self.loss) && is_at_most(mel, mel_limit) {
            *self = candidate;
            true
        } else {
            false
        }
    }
}

/// Whether a candidate is rejected for its spectrum error, where that is guarded.
pub fn spectrum_rejects(max_spectrum: Option<u64>, spectrum: u64) -> (r: bool)
    ensures
        r == (max_spectrum matches Some(m) && less(m, spectrum)),
{
    match max_spectrum {
        Some(m) => is_less(m, spectrum),
        None => false,
    }
}

/// A considered candidate never raises the loss, is taken only within the mel limit, and is taken
/// wherever it lowers the loss there.
pub proof fn search_never_worsens(c: GateChoice, candidate: GateChoice, mel: u64, mel_limit: u64)
    ensures
        !less(c.loss, chosen(c, candidate, mel, mel_limit).loss),
        less(mel_limit, mel) ==> chosen(c, candidate, mel, mel_limit) == c,
        chosen(c, candidate, mel, mel_limit) != c ==> at_most(mel, mel_limit) && less(
            candidate.loss,
            c.loss,
        ) && chosen(c, candidate, mel, mel_limit) == candidate,
        less(candidate.loss, c.loss) && at_most(mel, mel_limit) ==> chosen(
            c,
            candidate,
            mel,
            mel_limit,
        ) == candidate,
{
}

} // verus!
