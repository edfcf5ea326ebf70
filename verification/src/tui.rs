//! The decisions of the terminal front end. Drawing and reading the
//! keyboard are the caller's; what a key means is decided here.
use crate::engine::{MarketState, MarketView};
use std::sync::Arc;
use vstd::prelude::*;

verus! {

/// How long the front end waits for a key before it draws again, in
/// milliseconds.
pub const POLL_INTERVAL_MS: u64 = 100;

/// A key of the keyboard, as far as the front end tells keys apart.
#[derive(Clone, Copy, Debug, PartialEq, Eq)]
pub enum Key {
    Char(char),
    Esc,
    Other,
}

/// What happened to a key.
#[derive(Clone, Copy, Debug, PartialEq, Eq)]
pub enum KeyKind {
    Press,
    Repeat,
    Release,
}

/// A key event that asks the front end to end: `q` or escape, pressed.
pub open spec fn is_quit(key: Key, kind: KeyKind) -> bool {
    kind is Press && (key == Key::Char('q') || key is Esc)
}

/// An [`App`] as plain values.
pub struct AppView {
    pub market: MarketView,
    pub should_quit: bool,
}

/// The front end's state: the market it shows, and whether it is to end.
pub struct App {
    state: Arc<MarketState>,
    should_quit: bool,
}

impl View for App {
    type V = AppView;

    closed spec fn view(&self) -> AppView {
        AppView { market: (*self.state)@, should_quit: self.should_quit }
    }
}

impl App {
    /// A front end on `state` that is not asked to end.
    pub fn new(state: Arc<MarketState>) -> (app: App)
        ensures
            app@ == (AppView { market: (*state)@, should_quit: false }),
    {
        App { state, should_quit: false }
    }

    /// Takes in one key event. The front end is to end from the first quit
    /// event on; no key takes that back.
    pub fn on_key(&mut self, key: Key, kind: KeyKind)
        ensures
            final(self)@ == (AppView {
                should_quit: old(self)@.should_quit || is_quit(key, kind),
                ..old(self)@
            }),
    {
        match kind {
            KeyKind::Press => {
                match key {
                    Key::Char(c) => {
                        if c == 'q' {
                            self.should_quit = true;
                        }
                    },
                    Key::Esc => {
                        self.should_quit = true;
                    },
                    Key::Other => {},
                }
            },
            _ => {},
        }
    }

    /// Whether the front end is to end.
    pub fn should_quit(&self) -> (b: bool)
        ensures
            b == self@.should_quit,
    {
        self.should_quit
    }

    /// The market the front end shows.
    pub fn state(&self) -> (state: &Arc<MarketState>)
        ensures
            (**state)@ == self@.market,
    {
        &self.state
    }
}

} // verus!
