use vstd::prelude::*;

verus! {

/// Lowest grey level of the pulsing background.
pub const FADE_LOW: u8 = 50;

/// Highest grey level of the pulsing background.
pub const FADE_HIGH: u8 = 100;

/// One frame of the pulse from `(level, dimming)`: the level rises by one; the
/// grey shown is the level while brightening and its mirror `150 - level` while
/// dimming; on reaching `FADE_HIGH` the level restarts at `FADE_LOW` and the
/// direction flips. Gives the new level, the new direction, the grey, and whether
/// the level restarted.
pub open spec fn fade_step(level: int, dimming: bool) -> (int, bool, int, bool) {
    let next = level + 1;
    let grey = if dimming { FADE_HIGH + FADE_LOW - next } else { next };
    if next == FADE_HIGH {
        (FADE_LOW as int, !dimming, grey, true)
    } else {
        (next, dimming, grey, false)
    }
}

/// The pulse state after `n` frames from `(level, dimming)`.
pub open spec fn fade_after(level: int, dimming: bool, n: nat) -> (int, bool)
    decreases n,
{
    if n == 0 {
        (level, dimming)
    } else {
        let s = fade_step(level, dimming);
        fade_after(s.0, s.1, (n - 1) as nat)
    }
}

/// The grey level of a background that brightens from `FADE_LOW` to `FADE_HIGH`
/// one step per frame, then dims back, and so on.
pub struct Fade {
    level: u8,
    dimming: bool,
}

impl Fade {
    #[verifier::type_invariant]
    spec fn inv(self) -> bool {
        FADE_LOW <= self.level < FADE_HIGH
    }

    /// Current level, from `FADE_LOW` up to but not including `FADE_HIGH`.
    pub closed spec fn level(&self) -> int {
        self.level as int
    }

    /// Whether the grey currently dims.
    pub closed spec fn dimming(&self) -> bool {
        self.dimming
    }

    /// The pulse at its lowest level, about to brighten.
    pub fn new() -> (f: Fade)
        ensures
            f.level() == FADE_LOW,
            !f.dimming(),
            FADE_LOW <= f.level() < FADE_HIGH,
    {
        Fade { level: FADE_LOW, dimming: false }
    }

    /// Advances one frame; gives the grey to show and whether the level restarted
    /// at `FADE_LOW` (and the direction flipped).
    pub fn next(&mut self) -> (r: (u8, bool))
        ensures
            (final(self).level(), final(self).dimming(), r.0 as int, r.1) == fade_step(
                old(self).level(),
                old(self).dimming(),
            ),
            FADE_LOW <= r.0 <= FADE_HIGH,
            FADE_LOW <= old(self).level() < FADE_HIGH,
            FADE_LOW <= final(self).level() < FADE_HIGH,
    {
        proof {
            use_type_invariant(&*self);
        }
        let next: u8 = self.level + 1;
        let grey: u8 = if self.dimming {
            FADE_HIGH + FADE_LOW - next
        } else {
            next
        };
        let r = if next == FADE_HIGH {
            self.level = FADE_LOW;
            self.dimming = !self.dimming;
            (grey, true)
        } else {
            self.level = next;
            (grey, false)
        };
        proof {
            use_type_invariant(&*self);
        }
        r
    }
}

proof fn lemma_fade_after_add(level: int, dimming: bool, a: nat, b: nat)
    ensures
        fade_after(level, dimming, a + b) == ({
            let mid = fade_after(level, dimming, a);
            fade_after(mid.0, mid.1, b)
        }),
    decreases a,
{
    if a > 0 {
        let s = fade_step(level, dimming);
        lemma_fade_after_add(s.0, s.1, (a - 1) as nat, b);
        assert((a + b - 1) as nat == (a - 1) as nat + b);
    }
}

proof fn lemma_fade_rise(level: int, dimming: bool, n: nat)
    requires
        FADE_LOW <= level,
        level + n < FADE_HIGH,
    ensures
        fade_after(level, dimming, n) == (level + n, dimming),
    decreases n,
{
    if n > 0 {
        lemma_fade_rise(level + 1, dimming, (n - 1) as nat);
    }
}

/// Half a period of the pulse, `FADE_HIGH - FADE_LOW` frames, brings the level
/// back to where it was with the direction flipped.
pub proof fn lemma_fade_half_period(level: int, dimming: bool)
    requires
        FADE_LOW <= level < FADE_HIGH,
    ensures
        fade_after(level, dimming, (FADE_HIGH - FADE_LOW) as nat) == (level, !dimming),
{
    let up = (FADE_HIGH - 1 - level) as nat;
    let back = (level - FADE_LOW) as nat;
    lemma_fade_rise(level, dimming, up);
    lemma_fade_after_add(level, dimming, up, 1);
    assert(fade_after(FADE_HIGH - 1, dimming, 1) == (FADE_LOW as int, !dimming)) by {
        assert(fade_after(FADE_LOW as int, !dimming, 0) == (FADE_LOW as int, !dimming));
    }
    lemma_fade_rise(FADE_LOW as int, !dimming, back);
    lemma_fade_after_add(level, dimming, up + 1, back);
    assert(up + 1 + back == (FADE_HIGH - FADE_LOW) as nat);
}

/// The pulse is periodic: after `2 * (FADE_HIGH - FADE_LOW)` frames it is back in
/// the state it started from.
pub proof fn lemma_fade_period(level: int, dimming: bool)
    requires
        FADE_LOW <= level < FADE_HIGH,
    ensures
        fade_after(level, dimming, 2 * (FADE_HIGH - FADE_LOW) as nat) == (level, dimming),
{
    let half = (FADE_HIGH - FADE_LOW) as nat;
    lemma_fade_half_period(level, dimming);
    lemma_fade_half_period(level, !dimming);
    lemma_fade_after_add(level, dimming, half, half);
    assert(2 * (FADE_HIGH - FADE_LOW) as nat == half + half);
}

/// The first period of the pulse from its start: frame `n + 1`, for
/// `n < 100`, shows grey `51 + n` while brightening (`n < 50`) and `149 - n`
/// while dimming, and the level restarts exactly on frames 50 and 100.
pub proof fn lemma_fade_schedule(n: nat)
    requires
        n < 2 * (FADE_HIGH - FADE_LOW),
    ensures
        ({
            let s = fade_after(FADE_LOW as int, false, n);
            let f = fade_step(s.0, s.1);
            &&& f.2 == if n < 50 {
                51 + n as int
            } else {
                149 - n
            }
            &&& f.3 == (n == 49 || n == 99)
        }),
{
    if n < 50 {
        lemma_fade_rise(FADE_LOW as int, false, n);
    } else {
        lemma_fade_half_period(FADE_LOW as int, false);
        lemma_fade_after_add(FADE_LOW as int, false, 50, (n - 50) as nat);
        lemma_fade_rise(FADE_LOW as int, true, (n - 50) as nat);
        assert((50 + (n - 50) as nat) as nat == n);
    }
}

/// Number of times the splash pulse restarts before the desktop appears.
pub const SPLASH_RESTARTS: i32 = 1;

/// One splash frame from pulse state `(level, dimming)` with `count` restarts
/// to go: the pulse advances, a restart uses one up. Gives the new level,
/// direction and count, the grey to show, and whether this was the last frame.
pub open spec fn splash_step(level: int, dimming: bool, count: int) -> (int, bool, int, int, bool) {
    let f = fade_step(level, dimming);
    let left = if f.3 { count - 1 } else { count };
    (f.0, f.1, left, f.2, left == 0)
}

/// The splash state `(level, dimming, count)` after `n` frames.
pub open spec fn splash_after(level: int, dimming: bool, count: int, n: nat) -> (int, bool, int)
    decreases n,
{
    if n == 0 {
        (level, dimming, count)
    } else {
        let s = splash_step(level, dimming, count);
        splash_after(s.0, s.1, s.2, (n - 1) as nat)
    }
}

/// The splash screen: a full-screen grey that pulses until it has restarted
/// `SPLASH_RESTARTS` times.
pub struct Splash {
    fade: Fade,
    count: i32,
}

impl Splash {
    /// Pulse level.
    pub closed spec fn level(&self) -> int {
        self.fade.level()
    }

    /// Whether the pulse dims.
    pub closed spec fn dimming(&self) -> bool {
        self.fade.dimming()
    }

    /// Restarts to go before the desktop.
    pub closed spec fn remaining(&self) -> int {
        self.count as int
    }

    /// The splash before its first frame.
    pub fn new() -> (s: Splash)
        ensures
            s.level() == FADE_LOW,
            !s.dimming(),
            s.remaining() == SPLASH_RESTARTS,
    {
        Splash { fade: Fade::new(), count: SPLASH_RESTARTS }
    }

    /// Advances one frame; gives the grey to fill the screen with and whether
    /// this is the last splash frame.
    pub fn frame(&mut self) -> (r: (u8, bool))
        requires
            old(self).remaining() > 0,
        ensures
            (final(self).level(), final(self).dimming(), final(self).remaining(), r.0 as int, r.1)
                == splash_step(old(self).level(), old(self).dimming(), old(self).remaining()),
    {
        let (grey, restarted) = self.fade.next();
        if restarted {
            self.count = self.count - 1;
        }
        (grey, self.count == 0)
    }
}

proof fn lemma_splash_rise(n: nat)
    requires
        n < (FADE_HIGH - FADE_LOW),
    ensures
        splash_after(FADE_LOW as int, false, SPLASH_RESTARTS as int, n) == (FADE_LOW + n, false, SPLASH_RESTARTS as int),
    decreases n,
{
    if n > 0 {
        lemma_splash_rise((n - 1) as nat);
        lemma_splash_after_add(FADE_LOW as int, false, SPLASH_RESTARTS as int, (n - 1) as nat, 1);
        assert(((n - 1) as nat + 1) as nat == n);
        let s = splash_after(FADE_LOW as int, false, SPLASH_RESTARTS as int, (n - 1) as nat);
        let t = splash_step(s.0, s.1, s.2);
        assert(splash_after(s.0, s.1, s.2, 1) == splash_after(t.0, t.1, t.2, 0));
    }
}

proof fn lemma_splash_after_add(level: int, dimming: bool, count: int, a: nat, b: nat)
    ensures
        splash_after(level, dimming, count, a + b) == ({
            let mid = splash_after(level, dimming, count, a);
            splash_after(mid.0, mid.1, mid.2, b)
        }),
    decreases a,
{
    if a > 0 {
        let s = splash_step(level, dimming, count);
        lemma_splash_after_add(s.0, s.1, s.2, (a - 1) as nat, b);
        assert((a + b - 1) as nat == (a - 1) as nat + b);
    }
}

/// The splash lasts `FADE_HIGH - FADE_LOW` frames: from its start, frame number
/// `n + 1` shows grey `FADE_LOW + n + 1`, and only the last of them ends it.
pub proof fn lemma_splash_schedule(n: nat)
    requires
        n < (FADE_HIGH - FADE_LOW),
    ensures
        ({
            let s = splash_after(FADE_LOW as int, false, SPLASH_RESTARTS as int, n);
            let f = splash_step(s.0, s.1, s.2);
            &&& s.2 > 0
            &&& f.3 == FADE_LOW + n + 1
            &&& f.4 == (n + 1 == FADE_HIGH - FADE_LOW)
        }),
{
    lemma_splash_rise(n);
}

} // verus!
