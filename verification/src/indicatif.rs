//! Progress reporting, modeled as plain state: a bar or spinner with a
//! length, a position, a message and a finished flag. Rendering it on a
//! terminal is the caller's concern; the protocols update this state as
//! they report progress.

use vstd::prelude::*;

verus! {

/// How a progress bar is drawn: its template, the characters of the bar,
/// and the frames of the spinner.
#[derive(Debug, Clone, PartialEq)]
pub struct ProgressStyle {
    pub template: String,
    pub progress_chars: String,
    pub tick_chars: String,
}

impl ProgressStyle {
    /// The default style of a bar.
    pub fn default_bar() -> (r: ProgressStyle)
        ensures
            r.template@ == Seq::<char>::empty(),
            r.progress_chars@ == Seq::<char>::empty(),
            r.tick_chars@ == Seq::<char>::empty(),
    {
        ProgressStyle {
            template: String::new(),
            progress_chars: String::new(),
            tick_chars: String::new(),
        }
    }

    /// The default style of a spinner.
    pub fn default_spinner() -> (r: ProgressStyle)
        ensures
            r.template@ == Seq::<char>::empty(),
            r.progress_chars@ == Seq::<char>::empty(),
            r.tick_chars@ == Seq::<char>::empty(),
    {
        ProgressStyle::default_bar()
    }

    /// This style, with the given template.
    pub fn template(self, t: &str) -> (r: ProgressStyle)
        ensures
            r.template@ == t@,
            r.progress_chars == self.progress_chars,
            r.tick_chars == self.tick_chars,
    {
        ProgressStyle {
            template: String::from_str(t),
            progress_chars: self.progress_chars,
            tick_chars: self.tick_chars,
        }
    }

    /// This style, with the given bar characters.
    pub fn progress_chars(self, c: &str) -> (r: ProgressStyle)
        ensures
            r.progress_chars@ == c@,
            r.template == self.template,
            r.tick_chars == self.tick_chars,
    {
        ProgressStyle {
            template: self.template,
            progress_chars: String::from_str(c),
            tick_chars: self.tick_chars,
        }
    }

    /// This style, with the given spinner frames.
    pub fn tick_chars(self, c: &str) -> (r: ProgressStyle)
        ensures
            r.tick_chars@ == c@,
            r.template == self.template,
            r.progress_chars == self.progress_chars,
    {
        ProgressStyle {
            template: self.template,
            progress_chars: self.progress_chars,
            tick_chars: String::from_str(c),
        }
    }
}

/// The state of one progress display.
#[derive(Debug, Clone, PartialEq)]
pub struct ProgressBar {
    pub length: u64,
    pub position: u64,
    pub message: String,
    pub style: ProgressStyle,
    pub tick_ms: u64,
    pub finished: bool,
    pub abandoned: bool,
}

impl ProgressBar {
    /// A fresh bar of the given length.
    pub fn new(length: u64) -> (r: ProgressBar)
        ensures
            r.length == length,
            r.position == 0,
            r.message@ == Seq::<char>::empty(),
            r.tick_ms == 0,
            !r.finished,
            !r.abandoned,
    {
        ProgressBar {
            length,
            position: 0,
            message: String::new(),
            style: ProgressStyle::default_bar(),
            tick_ms: 0,
            finished: false,
            abandoned: false,
        }
    }

    /// A fresh spinner: a bar with no meaningful length.
    pub fn new_spinner() -> (r: ProgressBar)
        ensures
            r.length == 0,
            r.position == 0,
            r.message@ == Seq::<char>::empty(),
            r.tick_ms == 0,
            !r.finished,
            !r.abandoned,
    {
        ProgressBar {
            length: 0,
            position: 0,
            message: String::new(),
            style: ProgressStyle::default_spinner(),
            tick_ms: 0,
            finished: false,
            abandoned: false,
        }
    }

    /// Change the displayed message.
    pub fn set_message(&mut self, message: &str)
        ensures
            final(self).message@ == message@,
            final(self).length == old(self).length,
            final(self).position == old(self).position,
            final(self).style == old(self).style,
            final(self).tick_ms == old(self).tick_ms,
            final(self).finished == old(self).finished,
            final(self).abandoned == old(self).abandoned,
    {
        self.message = String::from_str(message);
    }

    /// Change the style.
    pub fn set_style(&mut self, style: ProgressStyle)
        ensures
            final(self).style == style,
            final(self).length == old(self).length,
            final(self).position == old(self).position,
            final(self).message == old(self).message,
            final(self).tick_ms == old(self).tick_ms,
            final(self).finished == old(self).finished,
            final(self).abandoned == old(self).abandoned,
    {
        self.style = style;
    }

    /// Let the display redraw itself this often, in milliseconds.
    pub fn enable_steady_tick(&mut self, ms: u64)
        ensures
            final(self).tick_ms == ms,
            final(self).length == old(self).length,
            final(self).position == old(self).position,
            final(self).message == old(self).message,
            final(self).style == old(self).style,
            final(self).finished == old(self).finished,
            final(self).abandoned == old(self).abandoned,
    {
        self.tick_ms = ms;
    }

    /// Declare how much work there is in all.
    pub fn set_length(&mut self, length: u64)
        ensures
            final(self).length == length,
            final(self).position == old(self).position,
            final(self).message == old(self).message,
            final(self).style == old(self).style,
            final(self).tick_ms == old(self).tick_ms,
            final(self).finished == old(self).finished,
            final(self).abandoned == old(self).abandoned,
    {
        self.length = length;
    }

    /// Declare how much work is done.
    pub fn set_position(&mut self, position: u64)
        ensures
            final(self).position == position,
            final(self).length == old(self).length,
            final(self).message == old(self).message,
            final(self).style == old(self).style,
            final(self).tick_ms == old(self).tick_ms,
            final(self).finished == old(self).finished,
            final(self).abandoned == old(self).abandoned,
    {
        self.position = position;
    }

    /// How much work is done.
    pub fn position(&self) -> (r: u64)
        ensures
            r == self.position,
    {
        self.position
    }

    /// Whether the display has been finished or abandoned.
    pub fn is_finished(&self) -> (r: bool)
        ensures
            r == (self.finished || self.abandoned),
    {
        self.finished || self.abandoned
    }

    /// Mark the work as completed.
    pub fn finish(&mut self)
        ensures
            final(self).finished,
            final(self).length == old(self).length,
            final(self).position == old(self).position,
            final(self).message == old(self).message,
            final(self).style == old(self).style,
            final(self).tick_ms == old(self).tick_ms,
            final(self).abandoned == old(self).abandoned,
    {
        self.finished = true;
    }

    /// Mark the work as completed, with a closing message.
    pub fn finish_with_message(&mut self, message: &str)
        ensures
            final(self).finished,
            final(self).message@ == message@,
            final(self).length == old(self).length,
            final(self).position == old(self).position,
            final(self).style == old(self).style,
            final(self).tick_ms == old(self).tick_ms,
            final(self).abandoned == old(self).abandoned,
    {
        self.message = String::from_str(message);
        self.finished = true;
    }

    /// Give the work up: the display stops without being completed.
    pub fn abandon(&mut self)
        ensures
            final(self).abandoned,
            final(self).length == old(self).length,
            final(self).position == old(self).position,
            final(self).message == old(self).message,
            final(self).style == old(self).style,
            final(self).tick_ms == old(self).tick_ms,
            final(self).finished == old(self).finished,
    {
        self.abandoned = true;
    }
}

/// The style that the tool's bars share.
pub fn progress_style() -> (r: ProgressStyle)
    ensures
        r.template@ == "[{elapsed_precise}] {bar:40.green/darkgreen} {pos:>7}/{len:7} {msg}"@,
        r.progress_chars@ == "##-"@,
{
    ProgressStyle::default_bar().template(
        "[{elapsed_precise}] {bar:40.green/darkgreen} {pos:>7}/{len:7} {msg}",
    ).progress_chars("##-")
}

/// A spinner with the given message, redrawn steadily.
pub fn new_spinner(msg: &str) -> (r: ProgressBar)
    ensures
        r.message@ == msg@,
        r.tick_ms == 100,
        !r.finished && !r.abandoned,
{
    let mut progress = ProgressBar::new_spinner();
    progress.set_message(msg);
    progress.enable_steady_tick(100);
    progress
}

/// A bar with the given message and the tool's style, redrawn steadily.
pub fn new_bar(msg: &str) -> (r: ProgressBar)
    ensures
        r.message@ == msg@,
        r.length == 1,
        r.position == 0,
        r.tick_ms == 100,
        r.style.template@ == "[{elapsed_precise}] {bar:40.green/darkgreen} {pos:>7}/{len:7} {msg}"@,
        r.style.progress_chars@ == "##-"@,
        !r.finished && !r.abandoned,
{
    let mut progress = ProgressBar::new(1);
    progress.set_message(msg);
    progress.set_style(progress_style());
    progress.enable_steady_tick(100);
    progress
}

} // verus!
