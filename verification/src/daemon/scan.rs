//! Watching the screen of an agent that reports by no hooks.

use vstd::prelude::*;

use crate::daemon::state::attention;
use crate::daemon::state::attention::asks;
use crate::text::trimmed;
use crate::vt::events::vt_events;
use crate::vt::prompt;
use crate::vt::prompt::{is_prompt, lower};
use crate::vt::screen::{signals_in, Screen, ScreenState};

verus! {

/// For how many milliseconds an agent writes nothing before its screen is read.
pub const IDLE_MS: u64 = 500;

/// Something that happens to a pane that is watched.
pub enum ScanEvent {
    /// It has written; its size is now this.
    Output { bytes: Vec<u8>, cols: u16, rows: u16 },
    /// Some output came too fast to be read.
    Missed,
    /// The pane is gone.
    Ended,
    /// It has written nothing for a while.
    Quiet,
}

/// What is to become of the timer that tells of quiet.
#[derive(Debug, Clone, Copy, PartialEq, Eq, Structural)]
pub enum Timer {
    Keep,
    /// It starts anew.
    Rearm,
    /// It waits for the next output.
    Park,
}

/// What follows from an event.
#[derive(Debug, Clone, Copy, PartialEq, Eq, Structural)]
pub struct Scan {
    /// The agent asks for the user.
    pub asks: bool,
    pub timer: Timer,
    /// There is nothing more to watch.
    pub ended: bool,
}

/// What is known of a pane that is watched.
pub struct Scanner {
    screen: Screen,
    cols: u16,
    rows: u16,
}

/// The width or height of a screen: there is always one cell.
pub open spec fn at_least_one(n: u16) -> u16 {
    if n == 0 {
        1
    } else {
        n
    }
}

/// A screen that has come to rest shows a prompt that blocks.
pub open spec fn rests_at_prompt(s: ScreenState) -> bool {
    let line = trimmed(s.last_line(s.grid.len() as int));
    asks(s.alt, is_prompt(line, lower(line)))
}

impl Scanner {
    /// What the screen shows.
    pub closed spec fn shows(&self) -> ScreenState {
        self.screen.state()
    }

    /// What the pane has written, piece by piece.
    pub closed spec fn fed(&self) -> Seq<Seq<u8>> {
        self.screen.fed()
    }

    /// The size that the pane last had.
    pub closed spec fn size(&self) -> (u16, u16) {
        (self.cols, self.rows)
    }

    #[verifier::type_invariant]
    spec fn inv(self) -> bool {
        self.screen.state().valid()
    }

    /// Begin to watch a pane, from what it has written so far; the agent asks for the user where that
    /// calls for attention.
    pub fn new(cols: u16, rows: u16, written: &[u8]) -> (r: (Scanner, bool))
        ensures
            r.0.size() == (cols, rows),
            r.0.fed() == seq![written@],
            r.0.shows() == ScreenState::empty(at_least_one(cols), at_least_one(rows)).after_all(
                vt_events(seq![], written@),
            ),
            r.1 == (signals_in(vt_events(seq![], written@)).len() > 0),
    {
        let mut screen = Screen::new(cols, rows);
        let signals = screen.feed(written);
        assert(crate::vt::screen::signal_views(signals@).len() == signals@.len());
        assert(Seq::<Seq<u8>>::empty().push(written@) =~= seq![written@]);
        (Scanner { screen, cols, rows }, signals.len() > 0)
    }

    /// What follows from an event. Output that calls for attention asks at once; a prompt asks when the
    /// screen has come to rest.
    pub fn step(&mut self, event: &ScanEvent) -> (scan: Scan)
        ensures
            is_scanned(*old(self), *final(self), *event, scan),
    {
        proof {
            use_type_invariant(&*self);
        }
        match event {
            ScanEvent::Output { bytes, cols, rows } => {
                let mut screen = Screen::new(1, 1);
                std::mem::swap(&mut screen, &mut self.screen);
                let signals = screen.feed(bytes);
                assert(crate::vt::screen::signal_views(signals@).len() == signals@.len());
                if *cols != self.cols || *rows != self.rows {
                    screen.resize(*cols, *rows);
                    self.cols = *cols;
                    self.rows = *rows;
                }
                self.screen = screen;
                Scan { asks: signals.len() > 0, timer: Timer::Rearm, ended: false }
            },
            ScanEvent::Missed => Scan { asks: false, timer: Timer::Keep, ended: false },
            ScanEvent::Ended => Scan { asks: false, timer: Timer::Keep, ended: true },
            ScanEvent::Quiet => {
                let line = self.screen.last_nonempty_line();
                let blocking = prompt::is_blocking_prompt(line.as_str());
                Scan {
                    asks: attention::at_rest(self.screen.is_alt_screen(), blocking),
                    timer: Timer::Park,
                    ended: false,
                }
            },
        }
    }
}

/// What follows from something that happens to a pane that is watched.
pub open spec fn is_scanned(before: Scanner, after: Scanner, event: ScanEvent, scan: Scan) -> bool {
    match event {
        ScanEvent::Output { bytes, cols, rows } => {
            let events = vt_events(before.fed(), bytes@);
            let fed = before.shows().after_all(events);
            &&& after.fed() == before.fed().push(bytes@)
            &&& after.size() == (cols, rows)
            &&& after.shows() == (if before.size() == (cols, rows) {
                fed
            } else {
                fed.resized(at_least_one(cols), at_least_one(rows))
            })
            &&& scan == (Scan {
                asks: signals_in(events).len() > 0,
                timer: Timer::Rearm,
                ended: false,
            })
        },
        ScanEvent::Missed => after == before && scan == (Scan {
            asks: false,
            timer: Timer::Keep,
            ended: false,
        }),
        ScanEvent::Ended => after == before && scan == (Scan {
            asks: false,
            timer: Timer::Keep,
            ended: true,
        }),
        ScanEvent::Quiet => after == before && scan == (Scan {
            asks: rests_at_prompt(before.shows()),
            timer: Timer::Park,
            ended: false,
        }),
    }
}

/// What is watched for: output that calls for attention asks at once, and a screen that has come to rest asks
/// where a prompt stands on its lowest line and no full-screen program has taken it over. Nothing else asks.
/// Output starts the wait for quiet anew, and quiet ends it.
pub proof fn law_what_is_watched_for(before: Scanner, after: Scanner, event: ScanEvent, scan: Scan)
    requires
        is_scanned(before, after, event, scan),
    ensures
        event matches ScanEvent::Output { bytes, cols, rows } ==> {
            &&& scan.asks <==> signals_in(vt_events(before.fed(), bytes@)).len() > 0
            &&& scan.timer == Timer::Rearm
            &&& after.size() == (cols, rows)
            &&& after.fed() == before.fed().push(bytes@)
            &&& before.size() == (cols, rows) ==> after.shows() == before.shows().after_all(
                vt_events(before.fed(), bytes@),
            )
            &&& before.size() != (cols, rows) && cols > 0 && rows > 0 ==> after.shows().cols == cols
                && after.shows().rows == rows
        },
        event is Quiet ==> {
            let shown = before.shows();
            let line = trimmed(shown.last_line(shown.grid.len() as int));
            &&& scan.timer == Timer::Park
            &&& shown.alt ==> !scan.asks
            &&& !shown.alt ==> scan.asks == is_prompt(line, lower(line))
            &&& after == before
        },
        event is Missed || event is Ended ==> !scan.asks && scan.timer == Timer::Keep && after == before,
        scan.ended <==> event is Ended,
{
}

} // verus!
