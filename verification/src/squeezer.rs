//! The line squeezer: a small state machine that collapses runs of
//! consecutive, byte-for-byte identical 16-byte lines. The first two lines
//! of a run are shown verbatim, the third is replaced by a single marker
//! line, and every further one is suppressed until a differing line ends
//! the run.

use vstd::prelude::*;

verus! {

/// What the renderer should do with the line just completed: emit it as
/// formatted (`Ignore`), replace it by the squeeze marker line (`Print`),
/// or suppress it entirely (`Delete`).
#[derive(Debug, Clone, Copy, PartialEq, Eq, Structural)]
pub enum SqueezeAction {
    Ignore,
    Print,
    Delete,
}

/// Where a run of identical lines stands: no run (`Idle`), one repeat seen
/// and shown verbatim (`FirstRepeat`), or the marker already emitted and
/// further repeats suppressed (`Squeezing`).
#[derive(Debug, Clone, Copy, PartialEq, Eq, Structural)]
pub enum SqueezeMode {
    Idle,
    FirstRepeat,
    Squeezing,
}

/// The abstract state of a `Squeezer`.
#[verifier::ext_equal]
pub ghost struct SqueezerModel {
    pub enabled: bool,
    /// The previously flushed line.
    pub prev: Seq<u8>,
    /// Whether any line was flushed before the current one.
    pub have_prev: bool,
    /// The bytes of the in-progress line seen so far.
    pub cur: Seq<u8>,
    /// Whether every byte seen so far matched the previous line at the
    /// same position.
    pub candidate: bool,
    pub mode: SqueezeMode,
}

/// The state of a fresh squeezer.
pub open spec fn sq_init_spec(enabled: bool) -> SqueezerModel {
    SqueezerModel {
        enabled,
        prev: Seq::empty(),
        have_prev: false,
        cur: Seq::empty(),
        candidate: enabled,
        mode: SqueezeMode::Idle,
    }
}

/// Intake of one byte of the in-progress line.
pub open spec fn sq_process_spec(s: SqueezerModel, b: u8) -> SqueezerModel {
    if !s.enabled {
        s
    } else {
        SqueezerModel {
            cur: s.cur.push(b),
            candidate: s.candidate && s.have_prev && s.cur.len() < s.prev.len() && s.prev[s.cur.len() as int]
                == b,
            ..s
        }
    }
}

/// Whether the in-progress line is a full 16-byte duplicate of the
/// previous line.
pub open spec fn sq_is_dup_spec(s: SqueezerModel) -> bool {
    s.enabled && s.have_prev && s.candidate && s.cur.len() == 16
}

/// The decision for the line just completed, as a pure function of the
/// state.
pub open spec fn sq_action_spec(s: SqueezerModel) -> SqueezeAction {
    if !sq_is_dup_spec(s) {
        SqueezeAction::Ignore
    } else {
        match s.mode {
            SqueezeMode::Idle => SqueezeAction::Ignore,
            SqueezeMode::FirstRepeat => SqueezeAction::Print,
            SqueezeMode::Squeezing => SqueezeAction::Delete,
        }
    }
}

/// Post-flush bookkeeping: the mode advances along the run, the flushed
/// line becomes the previous-line snapshot, and the intake resets.
pub open spec fn sq_advance_spec(s: SqueezerModel) -> SqueezerModel {
    if !s.enabled {
        s
    } else {
        SqueezerModel {
            enabled: s.enabled,
            prev: s.cur,
            have_prev: true,
            cur: Seq::empty(),
            candidate: true,
            mode: if sq_is_dup_spec(s) {
                match s.mode {
                    SqueezeMode::Idle => SqueezeMode::FirstRepeat,
                    SqueezeMode::FirstRepeat => SqueezeMode::Squeezing,
                    SqueezeMode::Squeezing => SqueezeMode::Squeezing,
                }
            } else {
                SqueezeMode::Idle
            },
        }
    }
}

/// Whether a run of identical lines is under way.
pub open spec fn sq_active_spec(s: SqueezerModel) -> bool {
    s.enabled && s.mode != SqueezeMode::Idle
}

/// The duplicate-line detector. When disabled it keeps no state and every
/// decision is `Ignore`.
pub struct Squeezer {
    enabled: bool,
    prev: Vec<u8>,
    have_prev: bool,
    cur: Vec<u8>,
    candidate: bool,
    mode: SqueezeMode,
}

impl View for Squeezer {
    type V = SqueezerModel;

    closed spec fn view(&self) -> SqueezerModel {
        SqueezerModel {
            enabled: self.enabled,
            prev: self.prev@,
            have_prev: self.have_prev,
            cur: self.cur@,
            candidate: self.candidate,
            mode: self.mode,
        }
    }
}

impl Squeezer {
    /// A fresh squeezer, enabled or not.
    pub fn new(enabled: bool) -> (r: Squeezer)
        ensures
            r@ == sq_init_spec(enabled),
    {
        let r = Squeezer {
            enabled,
            prev: Vec::new(),
            have_prev: false,
            cur: Vec::new(),
            candidate: enabled,
            mode: SqueezeMode::Idle,
        };
        assert(r@ =~= sq_init_spec(enabled));
        r
    }

    /// Takes in one byte of the in-progress line, comparing it against the
    /// same position of the previous line.
    pub fn process(&mut self, b: u8)
        ensures
            final(self)@ == sq_process_spec(old(self)@, b),
    {
        if self.enabled {
            let pos = self.cur.len();
            if !(self.have_prev && pos < self.prev.len() && self.prev[pos] == b) {
                self.candidate = false;
            }
            self.cur.push(b);
            assert(self@ =~= sq_process_spec(old(self)@, b));
        }
    }

    /// The decision for the line just completed; pure, with no state
    /// change.
    pub fn action(&self) -> (r: SqueezeAction)
        ensures
            r == sq_action_spec(self@),
    {
        if self.enabled && self.have_prev && self.candidate && self.cur.len() == 16 {
            match self.mode {
                SqueezeMode::Idle => SqueezeAction::Ignore,
                SqueezeMode::FirstRepeat => SqueezeAction::Print,
                SqueezeMode::Squeezing => SqueezeAction::Delete,
            }
        } else {
            SqueezeAction::Ignore
        }
    }

    /// Stores the just-flushed line as the new previous-line snapshot and
    /// advances the mode along the run.
    pub fn advance(&mut self)
        ensures
            final(self)@ == sq_advance_spec(old(self)@),
    {
        if !self.enabled {
            return ;
        }
        let dup = self.have_prev && self.candidate && self.cur.len() == 16;
        self.mode = if dup {
            match self.mode {
                SqueezeMode::Idle => SqueezeMode::FirstRepeat,
                SqueezeMode::FirstRepeat => SqueezeMode::Squeezing,
                SqueezeMode::Squeezing => SqueezeMode::Squeezing,
            }
        } else {
            SqueezeMode::Idle
        };
        self.prev.clear();
        let n = self.cur.len();
        let mut i: usize = 0;
        while i < n
            invariant
                i <= n,
                n == self.cur@.len(),
                self.cur@ == old(self).cur@,
                self.prev@ == self.cur@.take(i as int),
                self.enabled == old(self).enabled,
                self.have_prev == old(self).have_prev,
                self.candidate == old(self).candidate,
                old(self).enabled,
                self.mode == sq_advance_spec(old(self)@).mode,
            decreases n - i,
        {
            let b = self.cur[i];
            self.prev.push(b);
            assert(self.cur@.take(i + 1) =~= self.cur@.take(i as int).push(b));
            i = i + 1;
        }
        assert(self.prev@ =~= old(self).cur@);
        self.cur.clear();
        self.have_prev = true;
        self.candidate = true;
        assert(self@ =~= sq_advance_spec(old(self)@));
    }

    /// Whether a run of identical lines is under way.
    pub fn active(&self) -> (r: bool)
        ensures
            r == sq_active_spec(self@),
    {
        self.enabled && !(self.mode == SqueezeMode::Idle)
    }
}

} // verus!
