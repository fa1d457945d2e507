//! The bounds of pruning and of the local search, from the errors of the model as it was.

use crate::scalar::{held, hold_within, Divisible, Ordered};
use vstd::prelude::*;

verus! {

/// A fraction of two counts.
pub open spec fn fraction<T: Divisible>(part: usize, whole: usize) -> T {
    T::quotient(T::counted(part), T::counted(whole))
}

pub(crate) fn part_of<T: Divisible>(part: usize, whole: usize) -> (r: T)
    ensures
        r == fraction::<T>(part, whole),
{
    T::count(part).over(T::count(whole))
}

/// The smaller of two numbers; the other one where one is not a number.
pub open spec fn lower<T: Ordered>(a: T, b: T) -> T {
    if !T::number(b) || (T::number(a) && T::less(a, b)) {
        a
    } else {
        b
    }
}

fn lower_of<T: Ordered>(a: T, b: T) -> (r: T)
    ensures
        r == lower(a, b),
{
    if !b.is_number() || (a.is_number() && a.is_less(b)) {
        a
    } else {
        b
    }
}

/// The larger of two numbers; the other one where one is not a number.
pub open spec fn upper<T: Ordered>(a: T, b: T) -> T {
    if !T::number(a) || (T::number(b) && T::less(a, b)) {
        b
    } else {
        a
    }
}

fn upper_of<T: Ordered>(a: T, b: T) -> (r: T)
    ensures
        r == upper(a, b),
{
    if !a.is_number() || (b.is_number() && a.is_less(b)) {
        b
    } else {
        a
    }
}

/// What an error of a pruned model may come to.
#[derive(Debug, Clone, Copy)]
pub struct ErrorBounds<T> {
    /// What it may come to at most.
    pub hard: T,
    /// By how much it may exceed the last accepted one.
    pub slack: T,
}

/// How bounds follow from an error: a share of it and a constant make the slack, within bounds of
/// its own, and the margin is what a limit below the error is raised to.
pub struct BoundRule<T> {
    pub share: T,
    pub constant: T,
    pub least: T,
    pub most: T,
    pub margin: T,
}

/// The bounds of an error by a rule and a limit: it may rise by its slack, though not above the
/// limit, or above the error and the margin where the limit is below that.
pub open spec fn bounds_by<T: Divisible + Ordered>(rule: BoundRule<T>, error: T, limit: T) -> ErrorBounds<T> {
    let slack = held(
        T::sum(T::product(error, rule.share), rule.constant),
        rule.least,
        rule.most,
    );
    ErrorBounds {
        hard: lower(T::sum(error, slack), upper(limit, T::sum(error, rule.margin))),
        slack,
    }
}

fn apply_rule<T: Divisible + Ordered>(rule: BoundRule<T>, error: T, limit: T) -> (r: ErrorBounds<T>)
    ensures
        r == bounds_by(rule, error, limit),
{
    let slack = hold_within(error.times(rule.share).plus(rule.constant), rule.least, rule.most);
    ErrorBounds {
        hard: lower_of(error.plus(slack), upper_of(limit, error.plus(rule.margin))),
        slack,
    }
}

/// Where an error and its slack are numbers, so is its hard bound, whatever the limit is.
pub proof fn bounds_are_numbers<T: Divisible + Ordered>(rule: BoundRule<T>, error: T, limit: T)
    requires
        T::number(T::sum(error, bounds_by(rule, error, limit).slack)),
        T::number(T::sum(error, rule.margin)),
    ensures
        T::number(bounds_by(rule, error, limit).hard),
{
}

/// The rule of mel errors: 0.35 of the error and 0.03, between 0.02 and 0.15, with a margin of 0.12,
/// or of 0.15 against the reference.
pub open spec fn mel_rule<T: Divisible>(against_reference: bool) -> BoundRule<T> {
    BoundRule {
        share: fraction(35, 100),
        constant: fraction(3, 100),
        least: fraction(2, 100),
        most: fraction(15, 100),
        margin: if against_reference {
            fraction(15, 100)
        } else {
            fraction(12, 100)
        },
    }
}

/// The rule of spectrum errors: 0.25 of the error and 0.01, between 0.005 and 0.04, with a margin of
/// 0.05.
pub open spec fn spectrum_rule<T: Divisible>() -> BoundRule<T> {
    BoundRule {
        share: fraction(25, 100),
        constant: fraction(1, 100),
        least: fraction(5, 1000),
        most: fraction(4, 100),
        margin: fraction(5, 100),
    }
}

/// The bounds of the mel error of a pruned model.
pub fn mel_bounds<T: Divisible + Ordered>(error: T, limit: T, against_reference: bool) -> (r:
    ErrorBounds<T>)
    ensures
        r == bounds_by(mel_rule(against_reference), error, limit),
{
    let rule = BoundRule {
        share: part_of(35, 100),
        constant: part_of(3, 100),
        least: part_of(2, 100),
        most: part_of(15, 100),
        margin: if against_reference {
            part_of(15, 100)
        } else {
            part_of(12, 100)
        },
    };
    apply_rule(rule, error, limit)
}

/// The bounds of the spectrum error while gates are tried: the spectrum is recovered later, so that
/// it may come to two, and rise by a half, at least.
pub open spec fn trial_spectrum_bounds<T: Divisible + Ordered>(error: T, limit: T) -> ErrorBounds<T> {
    let b = bounds_by(spectrum_rule(), error, limit);
    ErrorBounds {
        hard: upper(T::counted(2), b.hard),
        slack: upper(fraction(5, 10), b.slack),
    }
}

/// The bounds of the spectrum error while gates are tried.
pub fn spectrum_bounds<T: Divisible + Ordered>(error: T, limit: T) -> (r: ErrorBounds<T>)
    ensures
        r == trial_spectrum_bounds(error, limit),
{
    let rule = BoundRule {
        share: part_of(25, 100),
        constant: part_of(1, 100),
        least: part_of(5, 1000),
        most: part_of(4, 100),
        margin: part_of(5, 100),
    };
    let b = apply_rule(rule, error, limit);
    ErrorBounds { hard: upper_of(T::count(2), b.hard), slack: upper_of(part_of(5, 10), b.slack) }
}

/// The mel error that a candidate of the local search may come to: 0.04 above that of the model.
pub fn search_mel_limit<T: Divisible>(mel: T) -> (r: T)
    ensures
        r == T::sum(mel, fraction(4, 100)),
{
    mel.plus(part_of(4, 100))
}

/// The loss of the local search: the mel error and the weighted share of butterflies that run.
pub fn search_loss<T: Divisible>(mel: T, compute_weight: T, compute_fraction: T) -> (r: T)
    ensures
        r == T::sum(mel, T::product(compute_weight, compute_fraction)),
{
    mel.plus(compute_weight.times(compute_fraction))
}

} // verus!
