//! A log view for the terminal: the lines that log events make, and the
//! history of the latest ones, newest first.

use vstd::prelude::*;

use crate::color::Color;
use crate::str_eq;
use crate::text::push_str;

verus! {

/// Lines the history keeps.
pub const LOG_CAPACITY: usize = 512;

/// Severity of a log event.
#[derive(Clone, Copy, Debug, PartialEq, Eq)]
pub enum LogLevel {
    Trace,
    Debug,
    Info,
    Warn,
    Error,
}

/// The level's name, in capitals.
pub open spec fn spec_level_name(level: LogLevel) -> Seq<char> {
    match level {
        LogLevel::Trace => "TRACE"@,
        LogLevel::Debug => "DEBUG"@,
        LogLevel::Info => "INFO"@,
        LogLevel::Warn => "WARN"@,
        LogLevel::Error => "ERROR"@,
    }
}

/// The color the level's tag is drawn in.
pub open spec fn spec_level_color(level: LogLevel) -> Color {
    match level {
        LogLevel::Info => Color::LightGreen,
        LogLevel::Warn => Color::LightYellow,
        LogLevel::Debug => Color::LightCyan,
        LogLevel::Error => Color::LightRed,
        LogLevel::Trace => Color::White,
    }
}

/// The level's name, in capitals.
pub fn level_name(level: LogLevel) -> (r: &'static str)
    ensures
        r@ == spec_level_name(level),
{
    match level {
        LogLevel::Trace => "TRACE",
        LogLevel::Debug => "DEBUG",
        LogLevel::Info => "INFO",
        LogLevel::Warn => "WARN",
        LogLevel::Error => "ERROR",
    }
}

/// The color the level's tag is drawn in.
pub fn level_color(level: LogLevel) -> (r: Color)
    ensures
        r == spec_level_color(level),
{
    match level {
        LogLevel::Info => Color::LightGreen,
        LogLevel::Warn => Color::LightYellow,
        LogLevel::Debug => Color::LightCyan,
        LogLevel::Error => Color::LightRed,
        LogLevel::Trace => Color::White,
    }
}

/// A piece of a log line, in a color of its own or in the default one.
#[derive(Debug)]
pub struct Span {
    pub text: String,
    pub color: Option<Color>,
}

/// The texts of a line's spans.
pub open spec fn span_texts(spans: Seq<Span>) -> Seq<Seq<char>> {
    Seq::new(spans.len(), |i: int| spans[i].text@)
}

/// The colors of a line's spans.
pub open spec fn span_colors(spans: Seq<Span>) -> Seq<Option<Color>> {
    Seq::new(spans.len(), |i: int| spans[i].color)
}

/// How a field of an event is shown: the `message` field as its value alone,
/// any other as `name=value`.
pub open spec fn field_text(name: Seq<char>, value: Seq<char>) -> Seq<char> {
    if name == "message"@ {
        value
    } else {
        name + "="@ + value
    }
}

fn span(text: &str, color: Option<Color>) -> (r: Span)
    ensures
        r.text@ == text@,
        r.color == color,
{
    let mut s = String::new();
    push_str(&mut s, text);
    Span { text: s, color }
}

/// Builds the line of one log event: the level tag, then each field.
pub struct Visitor {
    pub message: Vec<Span>,
}

impl Visitor {
    /// A line that starts with the level's tag, `[LEVEL] `, the name in the
    /// level's color.
    pub fn new(level: LogLevel, _target: &str) -> (v: Self)
        ensures
            span_texts(v.message@) == seq!["["@, spec_level_name(level), "] "@],
            span_colors(v.message@) == seq![None, Some(spec_level_color(level)), None],
    {
        let mut message: Vec<Span> = Vec::new();
        message.push(span("[", None));
        message.push(span(level_name(level), Some(level_color(level))));
        message.push(span("] ", None));
        assert(span_texts(message@) =~= seq!["["@, spec_level_name(level), "] "@]);
        assert(span_colors(message@) =~= seq![None, Some(spec_level_color(level)), None]);
        Visitor { message }
    }

    fn push_field(&mut self, name: &str, value: &str)
        ensures
            span_texts(final(self).message@) == span_texts(old(self).message@).push(field_text(name@, value@)),
            span_colors(final(self).message@) == span_colors(old(self).message@).push(None),
    {
        let mut text = String::new();
        if str_eq(name, "message") {
            push_str(&mut text, value);
        } else {
            push_str(&mut text, name);
            push_str(&mut text, "=");
            push_str(&mut text, value);
        }
        self.message.push(Span { text, color: None });
        assert(span_texts(self.message@) =~= span_texts(old(self).message@).push(field_text(name@, value@)));
        assert(span_colors(self.message@) =~= span_colors(old(self).message@).push(None));
    }

    /// Add a field whose value is shown by its `Debug` form, `value`.
    pub fn record_debug(&mut self, name: &str, value: &str)
        ensures
            span_texts(final(self).message@) == span_texts(old(self).message@).push(field_text(name@, value@)),
            span_colors(final(self).message@) == span_colors(old(self).message@).push(None),
    {
        self.push_field(name, value);
    }

    /// Add a string field.
    pub fn record_str(&mut self, name: &str, value: &str)
        ensures
            span_texts(final(self).message@) == span_texts(old(self).message@).push(field_text(name@, value@)),
            span_colors(final(self).message@) == span_colors(old(self).message@).push(None),
    {
        self.push_field(name, value);
    }
}

/// The latest log lines, newest first, at most `LOG_CAPACITY` of them.
pub struct LogWidget<T> {
    events: Vec<T>,
}

/// The lines kept after a new line arrives: it goes in front, and only the
/// newest `LOG_CAPACITY` stay.
pub open spec fn after_event<T>(events: Seq<T>, line: T) -> Seq<T> {
    let all = seq![line] + events;
    if all.len() > LOG_CAPACITY {
        all.take(LOG_CAPACITY as int)
    } else {
        all
    }
}

/// How many lines an area `height` rows high shows.
pub open spec fn shown(len: nat, height: u16) -> nat {
    if len < height {
        len
    } else {
        height as nat
    }
}

impl<T> LogWidget<T> {
    /// The lines, newest first.
    pub closed spec fn view(&self) -> Seq<T> {
        self.events@
    }

    /// An empty log.
    pub fn new() -> (r: Self)
        ensures
            r.view() == Seq::<T>::empty(),
    {
        LogWidget { events: Vec::new() }
    }

    /// Number of lines held.
    pub fn len(&self) -> (r: usize)
        ensures
            r == self.view().len(),
    {
        self.events.len()
    }

    /// The line at position `index`, newest first.
    pub fn get(&self, index: usize) -> (r: &T)
        requires
            index < self.view().len(),
        ensures
            *r == self.view()[index as int],
    {
        &self.events[index]
    }

    /// Record a line: it becomes the newest, and the oldest beyond
    /// `LOG_CAPACITY` is dropped.
    pub fn event(&mut self, line: T)
        ensures
            final(self).view() == after_event(old(self).view(), line),
            final(self).view().len() <= LOG_CAPACITY,
    {
        self.events.insert(0, line);
        self.events.truncate(LOG_CAPACITY);
        assert(self.events@ =~= after_event(old(self).view(), line));
    }

    /// Positions, in the newest-first list, of the lines an area `height`
    /// rows high shows, top to bottom: the newest `min(len, height)`, oldest
    /// first.
    pub fn visible(&self, height: u16) -> (r: Vec<usize>)
        ensures
            r@.len() == shown(self.view().len(), height),
            forall|k: int| 0 <= k < r@.len() ==> r@[k] == r@.len() - 1 - k,
    {
        let n = self.events.len();
        let m: usize = if n < height as usize {
            n
        } else {
            height as usize
        };
        let mut r: Vec<usize> = Vec::new();
        let mut k: usize = 0;
        while k < m
            invariant
                k <= m,
                r@.len() == k,
                forall|j: int| 0 <= j < k ==> r@[j] == m - 1 - j,
            decreases m - k,
        {
            r.push(m - 1 - k);
            k += 1;
        }
        r
    }

    /// After drawing in an area `height` rows high, keep only the lines it
    /// could show.
    pub fn rendered(&mut self, height: u16)
        ensures
            final(self).view() == old(self).view().take(shown(old(self).view().len(), height) as int),
    {
        self.events.truncate(height as usize);
        assert(self.events@ =~= old(self).view().take(shown(old(self).view().len(), height) as int));
    }
}

} // verus!
