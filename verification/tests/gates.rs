use rlx_fft::gate_search::{GateSearch, SearchRules, SearchStep, Trial, TrialVerdict};
use rlx_fft::ternary_gates::{
    all_forward_gates, apply_layout, gate_candidates, gate_mode_counts, prune_order, refine_picks,
    spectrum_rejects, strip_reverse_gates, sync_spec_gates_for_layout, ClosingStep, GateChoice,
    GateLayout,
    GateMode, Measured, PruneLimits, PruneStep, PruneVerdict, Pruner, SoftLimits,
};

fn bits(x: f64) -> u64 {
    x.to_bits()
}

fn limits() -> PruneLimits {
    PruneLimits { mel: bits(1.0), reference: None, spectrum: None }
}

fn soft(x: f64) -> SoftLimits {
    SoftLimits { mel: bits(x), reference: bits(x), spectrum: bits(x) }
}

fn measured(x: f64) -> Measured {
    Measured { mel: bits(x), reference: bits(x), spectrum: bits(x), next: soft(x + 0.1) }
}

#[test]
fn gates_are_laid_out() {
    let g = all_forward_gates(8);
    assert_eq!(g, vec![1i8; 12]);
    let mut r = vec![0, 1, -1];
    assert_eq!(gate_mode_counts(&r), (1, 1, 1));
    strip_reverse_gates(&mut r);
    assert_eq!(r, vec![0, 1, 1]);
    let mut spec = vec![0i8; 12];
    sync_spec_gates_for_layout(GateLayout::DualMelSpec, &vec![0i8; 12], &mut spec);
    assert_eq!(spec, vec![1i8; 12]);
    let (mel, spec) = apply_layout(GateLayout::AllForward, false, 8, &vec![0i8; 12]);
    assert_eq!(mel, vec![1i8; 12]);
    assert_eq!(spec, vec![1i8; 12]);
    assert_eq!(prune_order(4, 2), vec![3, 2, 1, 0]);
    assert_eq!(GateMode::Reverse.to_i8(), -1);
}

#[test]
fn pruning_keeps_good_skips_and_rolls_bad_ones_back() {
    let mut p = Pruner::new(vec![1, 1, 0, 1], 2, limits(), soft(0.5));
    match p.advance(false) {
        PruneStep::Try { gate, refit_steps } => {
            assert_eq!(gate, 3);
            assert_eq!(refit_steps, 64);
        }
        other => panic!("{other:?}"),
    }
    assert!(matches!(p.judge(measured(0.4)), PruneVerdict::Accepted { train_steps: 24, .. }));
    match p.advance(false) {
        PruneStep::Try { gate, refit_steps } => {
            assert_eq!(gate, 1, "a skipped gate is passed over");
            assert_eq!(refit_steps, 66);
        }
        other => panic!("{other:?}"),
    }
    assert!(matches!(p.judge(measured(2.0)), PruneVerdict::RolledBack));
    assert!(matches!(p.advance(true), PruneStep::Done));
    assert!(p.over_mel_limits(bits(1.5), bits(0.0)));
    assert_eq!(p.restore_last(), Some(3));
    assert_eq!(p.restore_last(), None);
    assert_eq!(p.into_gates(), vec![1, 1, 0, 1]);
}

#[test]
fn refinement_picks_gates_and_candidates() {
    let picks = refine_picks(10, 4, 7);
    assert_eq!(picks.len(), 4);
    assert!(picks.iter().all(|g| *g < 10));
    assert_eq!(picks, refine_picks(10, 4, 7));
    assert_ne!(refine_picks(1000, 50, 7), refine_picks(1000, 50, 8));
    assert!(refine_picks(0, 4, 7).is_empty());
    assert_eq!(gate_candidates(0), vec![1, -1]);
    assert_eq!(gate_candidates(1), vec![0, -1]);
    let mut best = GateChoice { gate: 1, loss: bits(0.5) };
    assert!(!best.consider(GateChoice { gate: 0, loss: bits(0.6) }, bits(0.0), bits(1.0)));
    assert!(!best.consider(GateChoice { gate: 0, loss: bits(0.4) }, bits(2.0), bits(1.0)));
    assert!(best.consider(GateChoice { gate: 0, loss: bits(0.4) }, bits(1.0), bits(1.0)));
    assert_eq!(best.gate, 0);
    assert!(spectrum_rejects(Some(bits(0.1)), bits(0.2)));
    assert!(!spectrum_rejects(None, bits(0.2)));
}

#[test]
fn a_refitted_spectrum_sets_a_new_limit() {
    let strict = PruneLimits { mel: bits(1.0), reference: None, spectrum: Some(bits(1.0)) };
    let mut p = Pruner::new(vec![1, 1], 1, strict, soft(0.5));
    assert!(matches!(p.advance(false), PruneStep::Try { gate: 1, .. }));
    assert!(matches!(
        p.judge(measured(0.4)),
        PruneVerdict::Accepted { refit_spectrum: false, .. }
    ));
    p.refitted(bits(0.2));
    assert!(matches!(p.advance(false), PruneStep::Try { gate: 0, .. }));
    assert!(matches!(p.judge(measured(0.3)), PruneVerdict::RolledBack));
    assert_eq!(p.into_gates(), vec![1, 0]);
}

#[test]
fn a_run_skips_and_restores() {
    let start = vec![1, -1, 0, 1];
    let mut p = Pruner::new(start.clone(), 2, limits(), soft(0.9));
    while let PruneStep::Try { .. } = p.advance(false) {
        assert!(matches!(p.judge(measured(0.4)), PruneVerdict::Accepted { .. }));
    }
    assert_eq!(
        p.close_mel(bits(1.5), bits(0.0)),
        ClosingStep::Restored { gate: 0, refit_steps: 32 }
    );
    assert_eq!(p.close_mel(bits(0.5), bits(0.0)), ClosingStep::Done);
    assert_eq!(
        p.close_spectrum(bits(0.3), bits(0.1)),
        ClosingStep::Restored { gate: 1, refit_steps: 120 }
    );
    assert_eq!(p.close_spectrum(bits(0.1), bits(0.1)), ClosingStep::Done);
    assert_eq!(p.into_gates(), vec![1, 1, 0, 0]);
    let mut met = Pruner::new(start.clone(), 2, limits(), soft(0.9));
    assert!(matches!(met.advance(true), PruneStep::Done));
    assert_eq!(met.close_mel(bits(9.0), bits(9.0)), ClosingStep::Done);
    assert_eq!(met.into_gates(), start);
}

#[test]
fn a_search_keeps_the_best_value() {
    let rules = SearchRules { corrects: true, spectrum: Some(bits(1.0)) };
    let mut s = GateSearch::new(vec![1, 1, 1], vec![2, 0], rules, bits(0.5), bits(0.3));
    let trial = |spectrum: f64, mel: f64, loss: f64| Trial {
        spectrum: bits(spectrum),
        mel: bits(mel),
        loss: bits(loss),
    };
    assert_eq!(
        s.advance(),
        SearchStep::Try { gate: 2, value: 0, save: true, refit_steps: 16 }
    );
    assert_eq!(s.gates(), &vec![1, 1, 0]);
    assert_eq!(s.judge(trial(0.5, 0.2, 0.4)), TrialVerdict::Taken);
    assert_eq!(
        s.advance(),
        SearchStep::Try { gate: 2, value: -1, save: false, refit_steps: 16 }
    );
    assert_eq!(s.judge(trial(2.0, 0.0, 0.0)), TrialVerdict::Rejected { restore: true });
    assert_eq!(s.gates(), &vec![1, 1, 1]);
    assert_eq!(s.advance(), SearchStep::Settle { gate: 2, value: 0, refit_steps: 12 });
    s.settled(bits(0.2));
    assert!(matches!(s.advance(), SearchStep::Try { gate: 0, value: 0, save: true, .. }));
    assert_eq!(s.judge(trial(0.0, 0.25, 0.1)), TrialVerdict::Rejected { restore: true });
    assert!(matches!(s.advance(), SearchStep::Try { gate: 0, value: -1, .. }));
    assert_eq!(s.judge(trial(0.0, 0.1, 0.4)), TrialVerdict::Rejected { restore: true });
    assert_eq!(s.advance(), SearchStep::Keep { gate: 0, restore: true });
    assert_eq!(s.advance(), SearchStep::Done);
    assert_eq!(s.gates(), &vec![1, 1, 0]);
}
