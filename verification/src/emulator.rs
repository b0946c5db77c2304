//! The emulator: the shared machine state, loading of font and ROM, and
//! the step that executes one instruction, renders, and paces the timers.

use vstd::prelude::*;

use crate::cpu::{step_ok, step_view, Cpu, CpuView, KeyState};
use crate::display::{FrameBuffer, Render};
use crate::error::EmulatorError;
use crate::ram::Ram;
use crate::timer::{timer_dec, Timer};

verus! {

/// The memory address the built-in font glyphs are loaded at.
pub const FONT_OFFSET: usize = 0x50;

/// The built-in font table: sixteen glyphs of five bytes each.
pub type Font = [u8; 80];

/// The mathematical value of the shared machine state: memory, screen,
/// the two timers and the key flags.
#[verifier::ext_equal]
pub ghost struct StateView {
    pub ram: Seq<u8>,
    pub fb: Seq<bool>,
    pub delay: u8,
    pub sound: u8,
    pub keys: Seq<bool>,
}

impl StateView {
    /// Memory, screen and keypad always keep their fixed sizes.
    pub open spec fn wf(self) -> bool {
        self.ram.len() == 4096 && self.fb.len() == 2048 && self.keys.len() == 16
    }
}

/// The current state of an `Emulator`: the single shared mutable context
/// each CPU execution step borrows.
pub struct EmulatorState {
    pub ram: Ram,
    pub sound_timer: Timer,
    pub delay_timer: Timer,
    pub frame_buffer: FrameBuffer,
    pub key_state: KeyState,
}

impl View for EmulatorState {
    type V = StateView;

    open spec fn view(&self) -> StateView {
        StateView {
            ram: self.ram@,
            fb: self.frame_buffer@,
            delay: self.delay_timer@,
            sound: self.sound_timer@,
            keys: self.key_state@,
        }
    }
}

impl EmulatorState {
    /// The state is well formed when its parts keep their fixed sizes.
    pub open spec fn wf(&self) -> bool {
        self@.wf()
    }
}

/// The mathematical value of a whole emulator: CPU, machine state, and
/// the counters that pace the timers.
#[verifier::ext_equal]
pub ghost struct EmulatorView {
    pub cpu: CpuView,
    pub state: StateView,
    pub ticks: u32,
    pub timer_freq: u32,
}

impl EmulatorView {
    /// CPU and state are well formed, and the tick counter stays below
    /// the cadence (or at zero when the cadence is zero).
    pub open spec fn wf(self) -> bool {
        &&& self.cpu.wf()
        &&& self.state.wf()
        &&& self.timer_freq == 0 ==> self.ticks == 0
        &&& self.timer_freq > 0 ==> self.ticks < self.timer_freq
    }
}

/// Memory after `data` is copied in at `offset`; everything outside the
/// copied range keeps its old byte.
pub open spec fn loaded(ram: Seq<u8>, offset: int, data: Seq<u8>) -> Seq<u8> {
    Seq::new(
        4096,
        |a: int|
            if offset <= a < offset + data.len() {
                data[a - offset]
            } else {
                ram[a]
            },
    )
}

/// Copying one more byte extends the loaded range by exactly that byte.
proof fn lemma_loaded_step(ram: Seq<u8>, offset: int, data: Seq<u8>, k: int)
    requires
        ram.len() == 4096,
        0 <= offset,
        0 <= k < data.len(),
        offset + data.len() <= 4096,
    ensures
        loaded(ram, offset, data.subrange(0, k + 1)) == loaded(ram, offset, data.subrange(0, k))
            .update(offset + k, data[k]),
{
    assert(loaded(ram, offset, data.subrange(0, k + 1)) =~= loaded(
        ram,
        offset,
        data.subrange(0, k),
    ).update(offset + k, data[k]));
}

/// What one emulator step does, given the byte `rnd` the random-number
/// instruction would draw: the CPU cycle of `step_view` happens; on its
/// success the renderer runs, whose failure is surfaced as `Render`; on
/// full success the tick counter advances and, once it reaches the
/// cadence, both timers decrement once and the counter resets.
pub open spec fn step_rel(
    pre: EmulatorView,
    post: EmulatorView,
    r: Result<(), EmulatorError>,
    rnd: u8,
) -> bool {
    let (c1, s1, er) = step_view(pre.cpu, pre.state, rnd);
    &&& post.cpu == c1
    &&& post.timer_freq == pre.timer_freq
    &&& match er {
        Result::Err(e) => post.state == s1 && post.ticks == pre.ticks && r == Err::<
            (),
            EmulatorError,
        >(e),
        Result::Ok(_) => if r is Err {
            &&& r matches Err(EmulatorError::Render(_))
            &&& post.state == s1
            &&& post.ticks == pre.ticks
        } else {
            if pre.ticks + 1 >= pre.timer_freq {
                &&& post.state == (StateView {
                    delay: timer_dec(s1.delay),
                    sound: timer_dec(s1.sound),
                    ..s1
                })
                &&& post.ticks == 0
            } else {
                &&& post.state == s1
                &&& post.ticks == pre.ticks + 1
            }
        },
    }
}

/// A CHIP-8 emulator: the shared state, the CPU, an injected renderer,
/// and the cadence that pacing of the timers follows.
pub struct Emulator<R: Render> {
    pub state: EmulatorState,
    pub cpu: Cpu,
    display: R,
    /// CPU cycles since the last timer decrement.
    ticks: u32,
    /// CPU cycles between timer decrements.
    timer_freq: u32,
}

impl<R: Render> View for Emulator<R> {
    type V = EmulatorView;

    closed spec fn view(&self) -> EmulatorView {
        EmulatorView {
            cpu: self.cpu@,
            state: self.state@,
            ticks: self.ticks,
            timer_freq: self.timer_freq,
        }
    }
}

impl<R: Render> Emulator<R> {
    /// A well-formed emulator: its view is.
    pub open spec fn wf(&self) -> bool {
        self@.wf()
    }

    /// Creates a new emulator around the given renderer, zero-filled
    /// everywhere. `cycles` should be how often `step` is invoked per
    /// second; the timers then decrement once every `cycles / 60` steps,
    /// since the original hardware ticks them at sixty hertz regardless
    /// of the configured speed.
    pub fn new(display: R, cycles: u32) -> (r: Emulator<R>)
        ensures
            r.wf(),
            r@.ticks == 0,
            r@.timer_freq == cycles / 60,
            r@.cpu.pc == 0,
            r@.cpu.i == 0,
            r@.cpu.stack.len() == 0,
            forall|j: int| 0 <= j < 16 ==> r@.cpu.regs[j] == 0u8,
            forall|a: int| 0 <= a < 4096 ==> r@.state.ram[a] == 0u8,
            r@.state.fb == crate::display::blank_screen(),
            r@.state.delay == 0u8,
            r@.state.sound == 0u8,
            forall|k: int| 0 <= k < 16 ==> !r@.state.keys[k],
    {
        Emulator {
            state: EmulatorState {
                ram: Ram::default(),
                delay_timer: Timer::default(),
                sound_timer: Timer::default(),
                frame_buffer: FrameBuffer::new(),
                key_state: vec![false; 16],
            },
            cpu: Cpu::default(),
            display,
            ticks: 0,
            timer_freq: cycles / 60,
        }
    }

    /// Copies `data` into the emulated memory at `offset`. A copy that
    /// would run past the end of memory is rejected whole with
    /// `OutOfBounds` and changes nothing.
    pub fn load(&mut self, offset: usize, data: &[u8]) -> (r: Result<(), EmulatorError>)
        requires
            old(self).wf(),
        ensures
            final(self).wf(),
            (data@.len() == 0 || offset + data@.len() <= 4096) ==> r is Ok && final(self)@ == (
            EmulatorView {
                state: StateView { ram: loaded(old(self)@.state.ram, offset as int, data@), ..old(
                    self,
                )@.state },
                ..old(self)@
            }),
            (data@.len() > 0 && offset + data@.len() > 4096) ==> r == Err::<(), EmulatorError>(
                EmulatorError::OutOfBounds,
            ) && final(self)@ == old(self)@,
    {
        let ghost pre = self@;
        if data.len() > 0 && (offset >= 4096 || data.len() > 4096 - offset) {
            return Err(EmulatorError::OutOfBounds);
        }
        proof {
            assert(pre.state.ram =~= loaded(pre.state.ram, offset as int, data@.subrange(0, 0)));
        }
        let mut idx: usize = 0;
        while idx < data.len()
            invariant
                self.wf(),
                pre.wf(),
                idx <= data@.len(),
                data@.len() == 0 || offset + data@.len() <= 4096,
                self@ == (EmulatorView {
                    state: StateView {
                        ram: loaded(pre.state.ram, offset as int, data@.subrange(0, idx as int)),
                        ..pre.state
                    },
                    ..pre
                }),
            decreases data@.len() - idx,
        {
            proof {
                lemma_loaded_step(pre.state.ram, offset as int, data@, idx as int);
            }
            self.state.ram.write(offset + idx, data[idx]);
            proof {
                assert(self@ =~~= (EmulatorView {
                    state: StateView {
                        ram: loaded(
                            pre.state.ram,
                            offset as int,
                            data@.subrange(0, idx + 1),
                        ),
                        ..pre.state
                    },
                    ..pre
                }));
            }
            idx += 1;
        }
        proof {
            assert(data@.subrange(0, data@.len() as int) =~= data@);
        }
        Ok(())
    }

    /// Loads the font table into the emulated memory at its fixed offset.
    pub fn load_font(&mut self, font: &Font) -> (r: Result<(), EmulatorError>)
        requires
            old(self).wf(),
        ensures
            final(self).wf(),
            r is Ok,
            final(self)@ == (EmulatorView {
                state: StateView {
                    ram: loaded(old(self)@.state.ram, FONT_OFFSET as int, font@),
                    ..old(self)@.state
                },
                ..old(self)@
            }),
    {
        match self.load(FONT_OFFSET, font.as_slice()) {
            Ok(()) => Ok(()),
            Err(e) => Err(e),
        }
    }

    /// Loads a ROM into the emulated memory at address 0x200 and moves
    /// the program counter there. A ROM too large for memory is rejected
    /// whole with `OutOfBounds` and changes nothing.
    pub fn load_rom(&mut self, rom: &[u8]) -> (r: Result<(), EmulatorError>)
        requires
            old(self).wf(),
        ensures
            final(self).wf(),
            (rom@.len() == 0 || 0x200 + rom@.len() <= 4096) ==> r is Ok && final(self)@ == (
            EmulatorView {
                cpu: old(self)@.cpu.with_pc(0x200),
                state: StateView { ram: loaded(old(self)@.state.ram, 0x200, rom@), ..old(
                    self,
                )@.state },
                ..old(self)@
            }),
            (rom@.len() > 0 && 0x200 + rom@.len() > 4096) ==> r == Err::<(), EmulatorError>(
                EmulatorError::OutOfBounds,
            ) && final(self)@ == old(self)@,
    {
        match self.load(0x200, rom) {
            Ok(()) => {
                self.cpu.set_pc(0x200);
                Ok(())
            },
            Err(e) => Err(e),
        }
    }

    /// Executes the next instruction, hands the frame buffer to the
    /// renderer, and paces the timers: every `timer_freq`-th successful
    /// step decrements both timers once.
    pub fn step(&mut self) -> (r: Result<(), EmulatorError>)
        requires
            old(self).wf(),
        ensures
            final(self).wf(),
            exists|rnd: u8| #[trigger] step_rel(old(self)@, final(self)@, r, rnd),
    {
        let ghost pre = self@;
        let cpu_result = self.cpu.execute(&mut self.state);
        let ghost rnd = choose|rnd: u8|
            step_view(pre.cpu, pre.state, rnd) == (self.cpu@, self.state@, cpu_result);
        match cpu_result {
            Err(e) => {
                proof {
                    assert(step_rel(pre, self@, Err(e), rnd));
                }
                return Err(e);
            },
            Ok(()) => {},
        }
        match self.display.draw(&self.state.frame_buffer) {
            Err(e) => {
                proof {
                    assert(step_rel(pre, self@, Err(EmulatorError::Render(e)), rnd));
                }
                return Err(EmulatorError::Render(e));
            },
            Ok(()) => {},
        }
        self.ticks += 1;
        if self.ticks >= self.timer_freq {
            self.state.sound_timer.decrement();
            self.state.delay_timer.decrement();
            self.ticks = 0;
        }
        proof {
            assert(step_rel(pre, self@, step_ok(), rnd));
        }
        Ok(())
    }
}

} // verus!
