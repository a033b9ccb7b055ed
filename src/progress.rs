use vstd::prelude::*;

use indicatif::ProgressBar;

verus! {

#[verifier::external_type_specification]
#[verifier::external_body]
pub struct ExProgressBar(ProgressBar);

/// Relies on indicatif's `ProgressBar::hidden`: a bar that draws nothing.
#[verifier::external_body]
fn hidden_bar() -> ProgressBar {
    ProgressBar::hidden()
}

/// Relies on indicatif's `ProgressBar::inc`: advances the shared position.
#[verifier::external_body]
fn advance_bar(bar: &ProgressBar) {
    bar.inc(1)
}

/// Relies on indicatif's `ProgressBar::clone`: the clone shares the bar's state.
#[verifier::external_body]
fn share_bar(bar: &ProgressBar) -> ProgressBar {
    bar.clone()
}

/// Counts the leaf steps of a run and shows them on a progress bar.
///
/// `ticks()` is the number of steps reported through this handle; the bar,
/// which forks of the handle share, advances by one for each of them.
pub struct Progress {
    bar: ProgressBar,
    ticks: Ghost<nat>,
}

impl Progress {
    /// Steps reported through this handle.
    pub closed spec fn ticks(&self) -> nat {
        self.ticks@
    }

    /// A handle with no steps yet that draws to `bar`.
    pub fn with_bar(bar: ProgressBar) -> (r: Progress)
        ensures
            r.ticks() == 0,
    {
        Progress { bar, ticks: Ghost(0) }
    }

    /// A handle with no steps yet that draws nothing.
    pub fn hidden() -> (r: Progress)
        ensures
            r.ticks() == 0,
    {
        Progress::with_bar(hidden_bar())
    }

    /// Reports one leaf step.
    pub fn tick(&mut self)
        ensures
            final(self).ticks() == old(self).ticks() + 1,
    {
        advance_bar(&self.bar);
        self.ticks = Ghost(self.ticks@ + 1);
    }

    /// A new handle, with no steps yet, that draws to the same bar.
    pub fn fork(&self) -> (r: Progress)
        ensures
            r.ticks() == 0,
    {
        Progress::with_bar(share_bar(&self.bar))
    }

    /// Adds the steps reported through `other` to this handle's count.
    pub fn absorb(&mut self, other: Progress)
        ensures
            final(self).ticks() == old(self).ticks() + other.ticks(),
    {
        self.ticks = Ghost(self.ticks@ + other.ticks@);
    }

    /// The bar this handle draws to.
    pub fn bar(&self) -> &ProgressBar {
        &self.bar
    }
}

} // verus!
