//! The fetch-decode-execute cycle and the per-frame body.
//!
//! One step fetches the two bytes at the program counter, advances the
//! counter, decodes the word and executes the operation. One frame
//! decrements both timers and runs `instructions_per_second / frame_rate`
//! steps. The loop around the frames (pacing, rendering, audio, input)
//! lives outside the library.

use vstd::prelude::*;

use crate::error::Chip8Error;
use crate::instruction::{decode, execute_with, spec_decode, spec_execute, Operation};
use crate::state::{Chip8State, StateView, MEM_SIZE};

verus! {

/// One frame's timer work: both countdown timers go down by one,
/// saturating at zero.
pub open spec fn spec_tick(s: StateView) -> StateView {
    StateView {
        delay_timer: if s.delay_timer > 0 {
            (s.delay_timer - 1) as u8
        } else {
            0u8
        },
        sound_timer: if s.sound_timer > 0 {
            (s.sound_timer - 1) as u8
        } else {
            0u8
        },
        ..s
    }
}

/// What one fetch-decode-execute step does: the pair of the state after the
/// step and the error, if any, that stops the session. A fetch beyond the
/// end of memory fails before anything changes; a word that does not decode
/// fails with the counter already advanced past it; a failing operation
/// leaves everything but that advance unchanged.
#[verifier::opaque]
pub open spec fn spec_step(s: StateView, rnd: u8) -> (StateView, Option<Chip8Error>) {
    if s.pc + 1 >= MEM_SIZE {
        (s, Some(Chip8Error::OutOfBoundsMemoryAccess))
    } else {
        let word = ((s.mem[s.pc as int] as u16) << 8u16) | (s.mem[s.pc + 1] as u16);
        let s1 = StateView { pc: (s.pc + 2) as usize, ..s };
        match spec_decode(word) {
            Err(e) => (s1, Some(e)),
            Ok(op) => match spec_execute(s1, op, rnd) {
                Ok(v) => (v, None),
                Err(e) => (s1, Some(e)),
            },
        }
    }
}

/// How an executable step relates to `spec_step`: the new state is the
/// specified one, and the step returns the specified error, if any.
pub open spec fn step_effect(
    pre: StateView,
    post: StateView,
    rnd: u8,
    r: Result<(), Chip8Error>,
) -> bool {
    let (v, err) = spec_step(pre, rnd);
    &&& post == v
    &&& match err {
        Some(e) => r == Err::<(), Chip8Error>(e),
        None => r == Ok::<(), Chip8Error>(()),
    }
}

/// The state and stopping error after running steps with the given random
/// bytes, one byte per step, stopping at the first error.
pub open spec fn spec_run(s: StateView, rnds: Seq<u8>) -> (StateView, Option<Chip8Error>)
    decreases rnds.len(),
{
    if rnds.len() == 0 {
        (s, None)
    } else if spec_step(s, rnds[0]).1 is Some {
        spec_step(s, rnds[0])
    } else {
        spec_run(spec_step(s, rnds[0]).0, rnds.drop_first())
    }
}

/// Appending one random byte to an error-free run appends one step.
pub proof fn lemma_spec_run_push(s: StateView, rnds: Seq<u8>, rnd: u8)
    requires
        spec_run(s, rnds).1 is None,
    ensures
        spec_run(s, rnds.push(rnd)).0 == spec_step(spec_run(s, rnds).0, rnd).0,
        spec_run(s, rnds.push(rnd)).1 == spec_step(spec_run(s, rnds).0, rnd).1,
    decreases rnds.len(),
{
    reveal_with_fuel(spec_run, 3);
    if rnds.len() == 0 {
        assert(rnds.push(rnd)[0] == rnd);
        assert(rnds.push(rnd).drop_first() =~= Seq::<u8>::empty());
    } else {
        assert(spec_step(s, rnds[0]).1 is None);
        lemma_spec_run_push(spec_step(s, rnds[0]).0, rnds.drop_first(), rnd);
        assert(rnds.push(rnd)[0] == rnds[0]);
        assert(rnds.push(rnd).drop_first() =~= rnds.drop_first().push(rnd));
    }
}

/// How an executable frame relates to its specification: timers tick, then
/// the steps run on the given random bytes; the state after the frame and
/// the frame's result are exactly those of `spec_run`.
pub open spec fn frame_effect(
    pre: StateView,
    post: StateView,
    rnds: Seq<u8>,
    r: Result<(), Chip8Error>,
) -> bool {
    let (v, err) = spec_run(spec_tick(pre), rnds);
    &&& post == v
    &&& match err {
        Some(e) => r == Err::<(), Chip8Error>(e),
        None => r == Ok::<(), Chip8Error>(()),
    }
}

impl Chip8State {
    /// Fetches the 16-bit instruction word at the program counter, advances
    /// the counter by 2, and decodes the word. Fails with an out-of-bounds
    /// error, changing nothing, when the counter does not point at two
    /// bytes of memory; a word outside the dispatch table fails with
    /// `UnsupportedOpcode` with the counter already advanced.
    pub fn fetch_instruction(&mut self) -> (r: Result<Operation, Chip8Error>)
        requires
            old(self)@.wf(),
        ensures
            final(self)@.wf(),
            old(self)@.pc + 1 >= MEM_SIZE ==> r == Err::<Operation, Chip8Error>(
                Chip8Error::OutOfBoundsMemoryAccess,
            ) && final(self)@ == old(self)@,
            old(self)@.pc + 1 < MEM_SIZE ==> {
                let word = ((old(self)@.mem[old(self)@.pc as int] as u16) << 8u16) | (old(
                    self,
                )@.mem[old(self)@.pc + 1] as u16);
                &&& final(self)@ == (StateView { pc: (old(self)@.pc + 2) as usize, ..old(self)@ })
                &&& r == spec_decode(word)
            },
    {
        if self.pc >= MEM_SIZE - 1 {
            return Err(Chip8Error::OutOfBoundsMemoryAccess);
        }
        let high = match self.memory.read(self.pc) {
            Ok(b) => b,
            Err(_) => {
                proof {
                    assert(false);
                }
                0
            },
        };
        let low = match self.memory.read(self.pc + 1) {
            Ok(b) => b,
            Err(_) => {
                proof {
                    assert(false);
                }
                0
            },
        };
        self.pc = self.pc + 2;
        decode(((high as u16) << 8u16) | (low as u16))
    }

    /// Decrements both timers by one, saturating at zero.
    pub fn tick_timers(&mut self)
        requires
            old(self)@.wf(),
        ensures
            final(self)@.wf(),
            final(self)@ == spec_tick(old(self)@),
    {
        self.delay_timer = self.delay_timer.saturating_sub(1);
        self.sound_timer = self.sound_timer.saturating_sub(1);
    }

    /// Runs one fetch-decode-execute step with the random byte for `CXNN`
    /// supplied by the caller: the machine moves to exactly
    /// `spec_step(old, rnd)`.
    pub fn step_with(&mut self, rnd: u8) -> (r: Result<(), Chip8Error>)
        requires
            old(self)@.wf(),
        ensures
            final(self)@.wf(),
            step_effect(old(self)@, final(self)@, rnd, r),
    {
        proof {
            reveal(spec_step);
        }
        let op = match self.fetch_instruction() {
            Ok(op) => op,
            Err(e) => {
                return Err(e);
            },
        };
        execute_with(self, op, rnd)
    }

    /// Runs one fetch-decode-execute step, drawing the random byte for
    /// `CXNN` from the host's random number generator: the machine moves to
    /// `spec_step(old, rnd)` for some byte `rnd`.
    pub fn step(&mut self) -> (r: Result<(), Chip8Error>)
        requires
            old(self)@.wf(),
        ensures
            final(self)@.wf(),
            exists|rnd: u8| #[trigger] step_effect(old(self)@, final(self)@, rnd, r),
    {
        proof {
            reveal(spec_step);
        }
        let op = match self.fetch_instruction() {
            Ok(op) => op,
            Err(e) => {
                proof {
                    assert(step_effect(old(self)@, self@, 0u8, Err::<(), Chip8Error>(e)));
                }
                return Err(e);
            },
        };
        let rnd: u8 = if matches!(op, Operation::Random { .. }) {
            rand::random::<u8>()
        } else {
            0
        };
        let r = execute_with(self, op, rnd);
        proof {
            assert(step_effect(old(self)@, self@, rnd, r));
        }
        r
    }

    /// Runs one frame: both timers go down by one (saturating at zero), and
    /// `instructions_per_second / frame_rate` fetch-decode-execute steps
    /// run, stopping at the first error, which is returned. The final state
    /// and the result are those of `spec_run` after `spec_tick`, under the
    /// random bytes the steps consumed.
    pub fn run_frame(&mut self) -> (r: Result<(), Chip8Error>)
        requires
            old(self)@.wf(),
            old(self)@.settings.frame_rate > 0,
        ensures
            final(self)@.wf(),
            exists|rnds: Seq<u8>|
                {
                    &&& rnds.len() <= old(self)@.settings.ips / old(self)@.settings.frame_rate
                    &&& (r == Ok::<(), Chip8Error>(()) ==> rnds.len() == old(
                        self,
                    )@.settings.ips / old(self)@.settings.frame_rate)
                    &&& #[trigger] frame_effect(old(self)@, final(self)@, rnds, r)
                },
    {
        let ghost pre = self@;
        let n = self.settings.instructions_per_frame();
        self.tick_timers();
        let ghost s1 = self@;
        let ghost mut rnds: Seq<u8> = Seq::empty();
        let mut i: u64 = 0;
        while i < n
            invariant
                i <= n,
                self@.wf(),
                pre == old(self)@,
                n == pre.settings.ips / pre.settings.frame_rate,
                s1 == spec_tick(pre),
                rnds.len() == i,
                spec_run(s1, rnds).0 == self@,
                spec_run(s1, rnds).1 is None,
            decreases n - i,
        {
            let ghost before = self@;
            let r = self.step();
            proof {
                let rnd = choose|rnd: u8| #[trigger] step_effect(before, self@, rnd, r);
                lemma_spec_run_push(s1, rnds, rnd);
                rnds = rnds.push(rnd);
            }
            match r {
                Ok(()) => (),
                Err(e) => {
                    proof {
                        assert(frame_effect(pre, self@, rnds, Err::<(), Chip8Error>(e)));
                    }
                    return Err(e);
                },
            }
            i = i + 1;
        }
        proof {
            assert(frame_effect(pre, self@, rnds, Ok::<(), Chip8Error>(())));
        }
        Ok(())
    }
}

} // verus!
