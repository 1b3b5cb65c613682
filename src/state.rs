use vstd::prelude::*;
use crate::session::{success_marker, TraceSession, TraceStatus};
use crate::tabs::TabsState;
use crate::text::{push_char, without_last};

verus! {

/// The smallest zoom factor: the whole globe in view.
pub const MIN_ZOOM: u32 = 1;

/// The largest zoom factor.
pub const MAX_ZOOM: u32 = 20;

/// The state of the interface apart from the map's pan position: tabs, the
/// target being typed, the zoom factor, the background choice, and the
/// current trace, whose records are of type `T`.
pub struct App<'a, T> {
    pub title: &'a str,
    pub should_quit: bool,
    pub tabs: TabsState<'a>,
    pub enhanced_graphics: bool,
    pub show_countries: bool,
    pub zoom: u32,
    pub input: String,
    pub session: TraceSession<T>,
}

impl<'a, T> App<'a, T> {
    /// A tab is selected and the zoom lies between its bounds.
    pub open spec fn wf(&self) -> bool {
        &&& self.tabs.wf()
        &&& MIN_ZOOM <= self.zoom <= MAX_ZOOM
    }

    /// A fresh interface: one tab, whole globe, empty input, no trace.
    pub fn new(title: &'a str, enhanced_graphics: bool) -> (r: Self)
        ensures
            r.wf(),
            r.title == title,
            r.enhanced_graphics == enhanced_graphics,
            !r.should_quit,
            !r.show_countries,
            r.tabs.titles@ == seq!["Main"],
            r.tabs.index == 0,
            r.zoom == MIN_ZOOM,
            r.input@.len() == 0,
            r.session.target is None,
            r.session.results@.len() == 0,
            r.session.status is Waiting,
    {
        App {
            title,
            should_quit: false,
            tabs: TabsState::new(vec!["Main"]),
            enhanced_graphics,
            show_countries: false,
            zoom: MIN_ZOOM,
            input: String::new(),
            session: TraceSession::new(),
        }
    }

    /// Moves to the next tab; nothing else changes.
    pub fn on_right(&mut self)
        requires
            old(self).wf(),
        ensures
            final(self).wf(),
            final(self).tabs.titles@ == old(self).tabs.titles@,
            final(self).tabs.index == (old(self).tabs.index + 1) % (
            old(self).tabs.titles@.len() as int),
            *final(self) == (App { tabs: final(self).tabs, ..*old(self) }),
    {
        self.tabs.next();
    }

    /// Moves to the previous tab; nothing else changes.
    pub fn on_left(&mut self)
        requires
            old(self).wf(),
        ensures
            final(self).wf(),
            final(self).tabs.titles@ == old(self).tabs.titles@,
            final(self).tabs.index == if old(self).tabs.index > 0 {
                old(self).tabs.index - 1
            } else {
                old(self).tabs.titles@.len() - 1
            },
            *final(self) == (App { tabs: final(self).tabs, ..*old(self) }),
    {
        self.tabs.previous();
    }

    /// Adds a typed character to the target being entered; nothing else
    /// changes.
    pub fn on_key(&mut self, c: char)
        ensures
            final(self).input@ == old(self).input@.push(c),
            *final(self) == (App { input: final(self).input, ..*old(self) }),
    {
        push_char(&mut self.input, c);
    }

    /// Removes the last character of the target being entered, if any;
    /// nothing else changes.
    pub fn on_backspace(&mut self)
        ensures
            old(self).input@.len() == 0 ==> final(self).input@ == old(self).input@,
            old(self).input@.len() > 0 ==> final(self).input@ == old(self).input@.drop_last(),
            *final(self) == (App { input: final(self).input, ..*old(self) }),
    {
        self.input = without_last(&self.input);
    }

    /// Magnifies by one step, up to the largest zoom; nothing else changes.
    pub fn zoom_in(&mut self)
        requires
            old(self).wf(),
        ensures
            final(self).wf(),
            final(self).zoom == if old(self).zoom < MAX_ZOOM {
                old(self).zoom + 1
            } else {
                MAX_ZOOM as int
            },
            *final(self) == (App { zoom: final(self).zoom, ..*old(self) }),
    {
        if self.zoom < MAX_ZOOM {
            self.zoom += 1;
        }
    }

    /// Reduces the magnification by one step, down to the whole globe;
    /// nothing else changes.
    pub fn zoom_out(&mut self)
        requires
            old(self).wf(),
        ensures
            final(self).wf(),
            final(self).zoom == if old(self).zoom > MIN_ZOOM {
                old(self).zoom - 1
            } else {
                MIN_ZOOM as int
            },
            *final(self) == (App { zoom: final(self).zoom, ..*old(self) }),
    {
        if self.zoom > MIN_ZOOM {
            self.zoom -= 1;
        }
    }

    /// Switches between the coastline and the border backgrounds; nothing
    /// else changes.
    pub fn toggle_countries(&mut self)
        ensures
            final(self).show_countries == !old(self).show_countries,
            *final(self) == (App { show_countries: final(self).show_countries, ..*old(self) }),
    {
        self.show_countries = !self.show_countries;
    }

    /// Takes in what the worker sent since the last tick: every pending
    /// record, in the order sent, and at most one final message. Only the
    /// trace's results and status change; with nothing pending, nothing does.
    pub fn on_tick(&mut self, records: Vec<T>, message: Option<String>)
        ensures
            *final(self) == (App { session: final(self).session, ..*old(self) }),
            final(self).session.target == old(self).session.target,
            final(self).session.results@ == old(self).session.results@ + records@,
            message is None ==> final(self).session.status == old(self).session.status,
            message is Some && message->0@ == success_marker() ==> final(self).session.status is Done,
            message is Some && message->0@ != success_marker() ==> final(self).session.status
                == TraceStatus::Failed(message->0),
            records@.len() == 0 && message is None ==> *final(self) == *old(self),
    {
        if records.len() == 0 && message.is_none() {
            return;
        }
        self.session.receive_records(records);
        if let Some(m) = message {
            self.session.receive_status(m);
        }
    }

    /// Starts a trace of the target entered so far, which it returns for the
    /// worker to run; the input is cleared and the earlier results dropped.
    /// Tabs, zoom, the background choice and the other settings stay.
    pub fn trace(&mut self) -> (target: String)
        ensures
            target@ == old(self).input@,
            final(self).session.target == Some(old(self).input),
            final(self).session.results@.len() == 0,
            final(self).session.status is InProgress,
            final(self).input@.len() == 0,
            *final(self) == (App { input: final(self).input, session: final(self).session, ..*old(self) }),
    {
        let target = self.input.clone();
        self.session.start(self.input.clone());
        self.input = String::new();
        target
    }
}

} // verus!
