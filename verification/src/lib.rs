//! Learned butterfly FFT tooling.

pub mod ablation;
pub mod ablation_csv;
pub mod ablation_html;
pub mod ablation_plan;
pub mod ablation_ternary;
pub mod arith;
pub mod band_correct;
pub mod band_train;
pub mod bench_laws;
pub mod bench_sweep;
pub mod butterfly;
pub mod butterfly_graph;
pub mod butterfly_train;
pub mod cli;
pub mod cli_args;
pub mod cli_flags;
pub mod cli_plan;
pub mod compile;
pub mod config;
pub mod correction_laws;
pub mod csv;
pub mod deploy_graph;
pub mod device;
pub mod e2e_bench;
pub mod e2e_html;
pub mod encdec_laws;
pub mod figure;
pub mod fixed_points;
pub mod fourier;
pub mod fusion_phases;
pub mod gate_logits;
pub mod gate_search;
pub mod gradients;
pub mod graph;
pub mod grid;
pub mod half_precision;
pub mod html;
pub mod lower;
pub mod max_batch;
pub mod mel_train;
pub mod messages;
pub mod model_laws;
pub mod models;
pub mod order;
pub mod pages;
pub mod peaks_text;
pub mod plan_laws;
pub mod prune_bounds;
pub mod report_kind;
pub mod runner;
pub mod scalar;
pub mod search_laws;
pub mod spec_list;
pub mod spectral;
pub mod study_laws;
pub mod sweep_html;
pub mod sweep_laws;
pub mod tables;
pub mod ternary_gates;
pub mod ternary_html;
pub mod text;
pub mod training;
pub mod training_laws;
pub mod welch_peaks;
