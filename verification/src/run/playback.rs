//! Keyboard control of snapshot playback.
//!
//! Space toggles play/pause; Left and Right step one frame; Down and Up
//! jump a tenth of the frames; Home and End go to the first and last
//! frame. Navigation pauses playback, except that Left at the first frame
//! and Right at the last do nothing at all. While playing, each timer tick
//! advances one frame, wrapping from the last frame to the first.
use vstd::prelude::*;

verus! {

/// The keys pressed during one render tick.
#[derive(Clone, Copy, Debug, PartialEq, Eq)]
pub struct PlaybackKeys {
    pub space: bool,
    pub left: bool,
    pub right: bool,
    pub down: bool,
    pub up: bool,
    pub home: bool,
    pub end: bool,
}

impl PlaybackKeys {
    /// No key pressed.
    pub fn none() -> (r: PlaybackKeys)
        ensures
            r == no_keys(),
    {
        PlaybackKeys {
            space: false,
            left: false,
            right: false,
            down: false,
            up: false,
            home: false,
            end: false,
        }
    }
}

/// No key pressed.
pub open spec fn no_keys() -> PlaybackKeys {
    PlaybackKeys { space: false, left: false, right: false, down: false, up: false, home: false, end: false }
}

/// The frame and pause state of playback.
pub struct PlaybackCursor {
    frame_index: usize,
    n_frames: usize,
    paused: bool,
}

/// How far Down and Up jump: a tenth of the frames, at least one.
pub open spec fn jump_size(n: nat) -> nat {
    if n / 10 >= 1 {
        n / 10
    } else {
        1
    }
}

/// The state after one render tick, as (frame index, paused).
pub open spec fn next_state(i: nat, n: nat, paused: bool, keys: PlaybackKeys, timer_due: bool) -> (
    nat,
    bool,
) {
    if n == 0 {
        (i, paused)
    } else {
        tick(after_keys(i, n, paused, keys), n, timer_due)
    }
}

/// The state after the pressed keys, in the order Space, Left, Right,
/// Down, Up, Home, End; a navigation key pauses, except Left at the first
/// frame and Right at the last, which do nothing.
pub open spec fn after_keys(i: nat, n: nat, paused: bool, keys: PlaybackKeys) -> (nat, bool) {
    let jump = jump_size(n);
    let s1 = (i, if keys.space { !paused } else { paused });
    let s2 = key_left(s1, keys.left);
    let s3 = key_right(s2, n, keys.right);
    let s4 = key_down(s3, jump, keys.down);
    let s5 = key_up(s4, n, jump, keys.up);
    let s6 = if keys.home { (0nat, true) } else { s5 };
    if keys.end { ((n - 1) as nat, true) } else { s6 }
}

/// Left: one frame back, unless at the first frame.
pub open spec fn key_left(s: (nat, bool), pressed: bool) -> (nat, bool) {
    if pressed && s.0 > 0 { ((s.0 - 1) as nat, true) } else { s }
}

/// Right: one frame on, unless at the last frame.
pub open spec fn key_right(s: (nat, bool), n: nat, pressed: bool) -> (nat, bool) {
    if pressed && s.0 + 1 < n { (s.0 + 1, true) } else { s }
}

/// Down: `jump` frames back, stopping at the first frame.
pub open spec fn key_down(s: (nat, bool), jump: nat, pressed: bool) -> (nat, bool) {
    if pressed { (if s.0 >= jump { (s.0 - jump) as nat } else { 0 }, true) } else { s }
}

/// Up: `jump` frames on, stopping at the last frame.
pub open spec fn key_up(s: (nat, bool), n: nat, jump: nat, pressed: bool) -> (nat, bool) {
    if pressed { (if s.0 + jump <= n - 1 { s.0 + jump } else { (n - 1) as nat }, true) } else { s }
}

fn apply_left(i: usize, paused: bool, pressed: bool) -> (r: (usize, bool))
    ensures
        (r.0 as nat, r.1) == key_left((i as nat, paused), pressed),
        r.0 <= i,
{
    if pressed && i > 0 { (i - 1, true) } else { (i, paused) }
}

fn apply_right(i: usize, n: usize, paused: bool, pressed: bool) -> (r: (usize, bool))
    requires
        i < n,
    ensures
        (r.0 as nat, r.1) == key_right((i as nat, paused), n as nat, pressed),
        r.0 < n,
{
    if pressed && i < n - 1 { (i + 1, true) } else { (i, paused) }
}

fn apply_down(i: usize, jump: usize, paused: bool, pressed: bool) -> (r: (usize, bool))
    ensures
        (r.0 as nat, r.1) == key_down((i as nat, paused), jump as nat, pressed),
        r.0 <= i,
{
    if pressed {
        (if i >= jump { i - jump } else { 0 }, true)
    } else {
        (i, paused)
    }
}

fn apply_up(i: usize, n: usize, jump: usize, paused: bool, pressed: bool) -> (r: (usize, bool))
    requires
        i < n,
    ensures
        (r.0 as nat, r.1) == key_up((i as nat, paused), n as nat, jump as nat, pressed),
        r.0 < n,
{
    if pressed {
        (if jump <= n - 1 - i { i + jump } else { n - 1 }, true)
    } else {
        (i, paused)
    }
}

/// One timer tick: when playing and due, advance one frame, wrapping.
pub open spec fn tick(s: (nat, bool), n: nat, timer_due: bool) -> (nat, bool) {
    if !s.1 && timer_due { ((s.0 + 1) % n, s.1) } else { s }
}

impl PlaybackCursor {
    #[verifier::type_invariant]
    closed spec fn inv(&self) -> bool {
        self.n_frames == 0 || self.frame_index < self.n_frames
    }

    /// The frame shown.
    pub closed spec fn spec_frame_index(&self) -> nat {
        self.frame_index as nat
    }

    /// The number of frames.
    pub closed spec fn spec_n_frames(&self) -> nat {
        self.n_frames as nat
    }

    /// Whether playback is paused.
    pub closed spec fn spec_paused(&self) -> bool {
        self.paused
    }

    /// Start playing `n_frames` frames from the first.
    pub fn new(n_frames: usize) -> (r: PlaybackCursor)
        ensures
            r.spec_frame_index() == 0,
            r.spec_n_frames() == n_frames,
            !r.spec_paused(),
    {
        PlaybackCursor { frame_index: 0, n_frames, paused: false }
    }

    /// The frame shown.
    pub fn frame_index(&self) -> (r: usize)
        ensures
            r == self.spec_frame_index(),
            self.spec_n_frames() > 0 ==> r < self.spec_n_frames(),
    {
        proof {
            use_type_invariant(self);
        }
        self.frame_index
    }

    /// Whether playback is paused.
    pub fn paused(&self) -> (r: bool)
        ensures
            r == self.spec_paused(),
    {
        self.paused
    }

    /// Apply one render tick: the pressed keys in the order Space, Left,
    /// Right, Down, Up, Home, End, then, when playing and the frame time
    /// has elapsed, advance one frame. Returns whether the frame advanced
    /// on the timer (the caller then restarts its frame timer).
    pub fn step(&mut self, keys: PlaybackKeys, timer_due: bool) -> (advanced: bool)
        ensures
            final(self).spec_n_frames() == old(self).spec_n_frames(),
            (final(self).spec_frame_index(), final(self).spec_paused()) == next_state(
                old(self).spec_frame_index(),
                old(self).spec_n_frames(),
                old(self).spec_paused(),
                keys,
                timer_due,
            ),
            final(self).spec_n_frames() > 0 ==> final(self).spec_frame_index()
                < final(self).spec_n_frames(),
            advanced == (old(self).spec_n_frames() > 0 && !final(self).spec_paused() && timer_due),
    {
        proof {
            use_type_invariant(&*self);
        }
        let n = self.n_frames;
        if n == 0 {
            return false;
        }
        let jump = if n / 10 > 1 { n / 10 } else { 1 };
        let i = self.frame_index;
        let ghost i0 = i as nat;
        let ghost p0 = self.paused;
        let paused = if keys.space { !self.paused } else { self.paused };
        let (i, paused) = apply_left(i, paused, keys.left);
        let (i, paused) = apply_right(i, n, paused, keys.right);
        let (i, paused) = apply_down(i, jump, paused, keys.down);
        let (i, paused) = apply_up(i, n, jump, paused, keys.up);
        let (i, paused) = if keys.home { (0, true) } else { (i, paused) };
        let (mut i, paused) = if keys.end { (n - 1, true) } else { (i, paused) };
        assert((i as nat, paused) == after_keys(i0, n as nat, p0, keys));
        let advanced = !paused && timer_due;
        if advanced {
            i = (i + 1) % n;
        }
        self.frame_index = i;
        self.paused = paused;
        advanced
    }
}

/// The frame index after `k` timer ticks of uninterrupted playing.
pub open spec fn play_ticks(i: nat, n: nat, k: nat) -> nat
    decreases k,
{
    if k == 0 {
        i
    } else {
        next_state(play_ticks(i, n, (k - 1) as nat), n, false, no_keys(), true).0
    }
}

/// The key set with only the keys given pressed.
pub open spec fn keys_with(
    space: bool,
    left: bool,
    right: bool,
    down: bool,
    up: bool,
    home: bool,
    end: bool,
) -> PlaybackKeys {
    PlaybackKeys { space, left, right, down, up, home, end }
}

/// Each key alone, at frame `i` of `n` frames: Space toggles play and
/// pause in place; Left goes back one frame and Right on one frame,
/// pausing, except at the first and last frame where they do nothing;
/// Down and Up move a tenth of the frames (at least one), stopping at the
/// ends, and pause; Home and End go to the first and last frame and
/// pause; with no key nothing changes. A paused cursor ignores the timer.
pub proof fn law_single_keys(i: nat, n: nat, p: bool, timer_due: bool)
    requires
        i < n,
    ensures
        after_keys(i, n, p, keys_with(false, false, false, false, false, false, false)) == (i, p),
        after_keys(i, n, p, keys_with(true, false, false, false, false, false, false)) == (i, !p),
        i > 0 ==> after_keys(i, n, p, keys_with(false, true, false, false, false, false, false)) == (
            (i - 1) as nat,
            true,
        ),
        i > 0 ==> next_state(i, n, p, keys_with(false, true, false, false, false, false, false), timer_due)
            == ((i - 1) as nat, true),
        i == 0 ==> after_keys(i, n, p, keys_with(false, true, false, false, false, false, false)) == (
            i,
            p,
        ),
        i + 1 < n ==> after_keys(i, n, p, keys_with(false, false, true, false, false, false, false))
            == (i + 1, true),
        i + 1 < n ==> next_state(i, n, p, keys_with(false, false, true, false, false, false, false), timer_due)
            == (i + 1, true),
        i + 1 == n ==> after_keys(i, n, p, keys_with(false, false, true, false, false, false, false))
            == (i, p),
        ({
            let jump: int = if n >= 10 {
                n as int / 10
            } else {
                1
            };
            &&& after_keys(i, n, p, keys_with(false, false, false, true, false, false, false)) == (
                (if i >= jump {
                    i - jump
                } else {
                    0
                }) as nat,
                true,
            )
            &&& after_keys(i, n, p, keys_with(false, false, false, false, true, false, false)) == (
                (if i + jump <= n - 1 {
                    i + jump
                } else {
                    n - 1
                }) as nat,
                true,
            )
        }),
        after_keys(i, n, p, keys_with(false, false, false, false, false, true, false)) == (0nat, true),
        after_keys(i, n, p, keys_with(false, false, false, false, false, false, true)) == (
            (n - 1) as nat,
            true,
        ),
{
    assert(n >= 10 ==> n / 10 >= 1);
    assert(n < 10 ==> n / 10 == 0);
}

/// Playing without interruption visits the frames cyclically: after `k`
/// ticks the frame is `(i + k) mod n`, so after `n` ticks playback is
/// back where it started.
pub proof fn law_playback_cycles(i: nat, n: nat, k: nat)
    requires
        i < n,
    ensures
        play_ticks(i, n, k) == ((i + k) as int) % (n as int),
        play_ticks(i, n, n) == i,
{
    lemma_play_ticks(i, n, k);
    lemma_play_ticks(i, n, n);
    vstd::arithmetic::div_mod::lemma_mod_add_multiples_vanish(i as int, n as int);
    vstd::arithmetic::div_mod::lemma_small_mod(i, n);
}

proof fn lemma_play_ticks(i: nat, n: nat, k: nat)
    requires
        i < n,
    ensures
        play_ticks(i, n, k) == ((i + k) as int) % (n as int),
    decreases k,
{
    if k > 0 {
        lemma_play_ticks(i, n, (k - 1) as nat);
        let a = (i + (k - 1)) as int;
        vstd::arithmetic::div_mod::lemma_add_mod_noop_right(1, a, n as int);
        vstd::arithmetic::div_mod::lemma_mod_bound(a, n as int);
    } else {
        vstd::arithmetic::div_mod::lemma_small_mod(i, n);
    }
}

} // verus!
