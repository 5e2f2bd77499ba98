//! The tool's progress displays: a styled spinner, a styled bar, and a
//! helper that runs a step of work behind a spinner.

use vstd::prelude::*;
use crate::indicatif::{ProgressBar, ProgressStyle};

verus! {

/// The style that the tool's bars share.
pub fn progress_style() -> (r: ProgressStyle)
    ensures
        r.template@ == "[{elapsed_precise}] {bar:32.green/darkgreen} {pos:>7}/{len:7} {msg}"@,
        r.progress_chars@ == "##-"@,
{
    ProgressStyle::default_bar().template(
        "[{elapsed_precise}] {bar:32.green/darkgreen} {pos:>7}/{len:7} {msg}",
    ).progress_chars("##-")
}

/// A spinner with the given message, animated steadily.
pub fn spinner(msg: &str) -> (r: ProgressBar)
    ensures
        r.message@ == msg@,
        r.tick_ms == 100,
        r.style.template@ == "{prefix:.bold.dim} {spinner} {wide_msg}"@,
        !r.finished && !r.abandoned,
{
    let style = ProgressStyle::default_spinner().template(
        "{prefix:.bold.dim} {spinner} {wide_msg}",
    ).tick_chars("|/-\\=");
    let mut progress = ProgressBar::new_spinner();
    progress.set_style(style);
    progress.set_message(msg);
    progress.enable_steady_tick(100);
    progress
}

/// A bar with the given message and the tool's style, animated steadily.
pub fn bar(msg: &str) -> (r: ProgressBar)
    ensures
        r.message@ == msg@,
        r.length == 1,
        r.position == 0,
        r.tick_ms == 100,
        !r.finished && !r.abandoned,
{
    let mut progress = ProgressBar::new(1);
    progress.set_message(msg);
    progress.set_style(progress_style());
    progress.enable_steady_tick(100);
    progress
}

/// Run one step of work behind a spinner with the given message; the
/// spinner is finished when the work returns, and the work's result is
/// handed back unchanged.
pub fn wait_and_notice<T, F: FnOnce() -> T>(msg: &str, f: F) -> (r: T)
    requires
        call_requires(f, ()),
    ensures
        call_ensures(f, (), r),
{
    let mut progress = spinner(msg);
    let result = f();
    progress.finish();
    result
}

} // verus!
