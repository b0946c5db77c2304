//! The register file, program counter and call stack, and the dispatch
//! engine that executes one instruction against the shared emulator state.

use rand::Rng;
use vstd::prelude::*;

use crate::display::{
    blank_screen, draw_collision, draw_screen, sprite_readable,
};
use crate::emulator::{EmulatorState, StateView};
use crate::error::EmulatorError;
use crate::instruction::{lemma_parse_spec_bounds, parse_spec, Instruction};

verus! {

/// One boolean per hexadecimal key, pressed or not; owned and written by
/// the input collaborator, only read here.
pub type KeyState = Vec<bool>;

/// The mathematical value of a CPU: its sixteen 8-bit registers, the
/// program counter, the index register and the call stack.
#[verifier::ext_equal]
pub ghost struct CpuView {
    pub regs: Seq<u8>,
    pub pc: int,
    pub i: u16,
    pub stack: Seq<u16>,
}

impl CpuView {
    /// A CPU always carries exactly sixteen registers.
    pub open spec fn wf(self) -> bool {
        self.regs.len() == 16
    }

    /// This CPU with the program counter moved.
    pub open spec fn with_pc(self, pc: int) -> CpuView {
        CpuView { pc, ..self }
    }

    /// This CPU with one register overwritten.
    pub open spec fn with_reg(self, x: int, v: u8) -> CpuView {
        CpuView { regs: self.regs.update(x, v), ..self }
    }

    /// This CPU with the index register overwritten.
    pub open spec fn with_i(self, i: u16) -> CpuView {
        CpuView { i, ..self }
    }
}

/// A convenience for the spec of a successful step.
pub open spec fn step_ok() -> Result<(), EmulatorError> {
    Ok(())
}

/// A convenience for the spec of a failed step.
pub open spec fn step_err(e: EmulatorError) -> Result<(), EmulatorError> {
    Err(e)
}

/// The lowest pressed key at or above `start`, or 16 when none is.
pub open spec fn first_pressed(keys: Seq<bool>, start: int) -> int
    decreases 16 - start,
{
    if start < 0 || start >= 16 {
        16
    } else if keys[start] {
        start
    } else {
        first_pressed(keys, start + 1)
    }
}

/// Memory after registers V0 through V(count-1) are written at `base`.
pub open spec fn store_regs(ram: Seq<u8>, base: int, regs: Seq<u8>, count: int) -> Seq<u8> {
    Seq::new(
        4096,
        |a: int|
            if base <= a < base + count {
                regs[a - base]
            } else {
                ram[a]
            },
    )
}

/// Registers after V0 through V(count-1) are read from memory at `base`.
pub open spec fn load_regs(regs: Seq<u8>, ram: Seq<u8>, base: int, count: int) -> Seq<u8> {
    Seq::new(
        16,
        |j: int|
            if 0 <= j < count {
                ram[base + j]
            } else {
                regs[j]
            },
    )
}

/// What one decoded instruction does to the machine. `c` is the CPU after
/// the unconditional advance of the program counter past the instruction;
/// `rnd` is the byte the random-number instruction would store. Every
/// other instruction ignores `rnd`.
pub open spec fn dispatch(c: CpuView, s: StateView, ins: Instruction, rnd: u8) -> (
    CpuView,
    StateView,
    Result<(), EmulatorError>,
) {
    let x = ins.x as int;
    let y = ins.y as int;
    let vx = c.regs[x];
    let vy = c.regs[y];
    let nnn = ins.nnn as int;
    match (ins.opcode, ins.x, ins.y, ins.n) {
        // Clear screen
        (0x0, 0x0, 0xE, 0x0) => (c, StateView { fb: blank_screen(), ..s }, step_ok()),
        // Return
        (0x0, 0x0, 0xE, 0xE) => if c.stack.len() == 0 {
            (c, s, step_err(EmulatorError::InvalidState))
        } else {
            (
                CpuView { pc: c.stack.last() as int, stack: c.stack.drop_last(), ..c },
                s,
                step_ok(),
            )
        },
        // Jump
        (0x1, _, _, _) => (c.with_pc(nnn), s, step_ok()),
        // Call
        (0x2, _, _, _) => (
            CpuView { pc: nnn, stack: c.stack.push(c.pc as u16), ..c },
            s,
            step_ok(),
        ),
        // Skip if VX equal to NN
        (0x3, _, _, _) => (
            if vx == ins.nn {
                c.with_pc(c.pc + 2)
            } else {
                c
            },
            s,
            step_ok(),
        ),
        // Skip if VX not equal to NN
        (0x4, _, _, _) => (
            if vx != ins.nn {
                c.with_pc(c.pc + 2)
            } else {
                c
            },
            s,
            step_ok(),
        ),
        // Skip if VX equal to VY
        (0x5, _, _, 0x0) => (
            if vx == vy {
                c.with_pc(c.pc + 2)
            } else {
                c
            },
            s,
            step_ok(),
        ),
        // Skip if VX not equal to VY
        (0x9, _, _, 0x0) => (
            if vx != vy {
                c.with_pc(c.pc + 2)
            } else {
                c
            },
            s,
            step_ok(),
        ),
        // Set register VX to NN
        (0x6, _, _, _) => (c.with_reg(x, ins.nn), s, step_ok()),
        // Add NN to VX, wrapping, no flag
        (0x7, _, _, _) => (c.with_reg(x, vx.wrapping_add(ins.nn)), s, step_ok()),
        // Set VX to VY
        (0x8, _, _, 0x0) => (c.with_reg(x, vy), s, step_ok()),
        // Set VX to VX | VY
        (0x8, _, _, 0x1) => (c.with_reg(x, vx | vy), s, step_ok()),
        // Set VX to VX & VY
        (0x8, _, _, 0x2) => (c.with_reg(x, vx & vy), s, step_ok()),
        // Set VX to VX ^ VY
        (0x8, _, _, 0x3) => (c.with_reg(x, vx ^ vy), s, step_ok()),
        // Set VX to VX + VY; VF becomes the carry, written last
        (0x8, _, _, 0x4) => (
            c.with_reg(x, vx.wrapping_add(vy)).with_reg(
                0xF,
                if vx + vy > 255 {
                    1u8
                } else {
                    0u8
                },
            ),
            s,
            step_ok(),
        ),
        // Set VX to VX - VY; VF becomes the borrow flag, written last
        (0x8, _, _, 0x5) => (
            c.with_reg(x, vx.wrapping_sub(vy)).with_reg(
                0xF,
                if vx < vy {
                    1u8
                } else {
                    0u8
                },
            ),
            s,
            step_ok(),
        ),
        // Set VX to VY - VX; VF becomes the borrow flag, written last
        (0x8, _, _, 0x7) => (
            c.with_reg(x, vy.wrapping_sub(vx)).with_reg(
                0xF,
                if vy < vx {
                    1u8
                } else {
                    0u8
                },
            ),
            s,
            step_ok(),
        ),
        // Shift right: VX becomes VY >> 1, VF the bit shifted out, written last
        (0x8, _, _, 0x6) => (c.with_reg(x, vy >> 1u8).with_reg(0xF, vy & 1u8), s, step_ok()),
        // Shift left: VX becomes VY << 1, VF the bit shifted out, written last
        (0x8, _, _, 0xE) => (
            c.with_reg(x, vy << 1u8).with_reg(0xF, (vy >> 7u8) & 1u8),
            s,
            step_ok(),
        ),
        // Set I to NNN
        (0xA, _, _, _) => (c.with_i(ins.nnn), s, step_ok()),
        // Jump with offset: PC becomes NNN + V0
        (0xB, _, _, _) => (c.with_pc(nnn + c.regs[0]), s, step_ok()),
        // Random byte into VX
        (0xC, _, _, _) => (c.with_reg(x, rnd), s, step_ok()),
        // Draw: XOR a sprite of N rows at (VX mod 64, VY mod 32); VF
        // becomes the collision flag, written last
        (0xD, _, _, _) => {
            let px = (vx % 64) as int;
            let py = (vy % 32) as int;
            let n = ins.n as int;
            if !sprite_readable(c.i as int, py, n) {
                (c, s, step_err(EmulatorError::OutOfBounds))
            } else {
                (
                    c.with_reg(
                        0xF,
                        if draw_collision(s.fb, s.ram, c.i as int, px, py, n) {
                            1u8
                        } else {
                            0u8
                        },
                    ),
                    StateView { fb: draw_screen(s.fb, s.ram, c.i as int, px, py, n), ..s },
                    step_ok(),
                )
            }
        },
        // Skip if the key numbered VX is pressed
        (0xE, _, 0x9, 0xE) => if vx >= 16 {
            (c, s, step_err(EmulatorError::OutOfBounds))
        } else {
            (
                if s.keys[vx as int] {
                    c.with_pc(c.pc + 2)
                } else {
                    c
                },
                s,
                step_ok(),
            )
        },
        // Skip if the key numbered VX is not pressed
        (0xE, _, 0xA, 0x1) => if vx >= 16 {
            (c, s, step_err(EmulatorError::OutOfBounds))
        } else {
            (
                if !s.keys[vx as int] {
                    c.with_pc(c.pc + 2)
                } else {
                    c
                },
                s,
                step_ok(),
            )
        },
        // Read the delay timer into VX
        (0xF, _, 0x0, 0x7) => (c.with_reg(x, s.delay), s, step_ok()),
        // Write VX into the delay timer
        (0xF, _, 0x1, 0x5) => (c, StateView { delay: vx, ..s }, step_ok()),
        // Write VX into the sound timer
        (0xF, _, 0x1, 0x8) => (c, StateView { sound: vx, ..s }, step_ok()),
        // Add VX to I, wrapping modulo 65536
        (0xF, _, 0x1, 0xE) => (c.with_i(c.i.wrapping_add(vx as u16)), s, step_ok()),
        // Wait for a key: store the lowest pressed key in VX, or rewind
        // the program counter so this instruction re-runs next cycle
        (0xF, _, 0x0, 0xA) => {
            let k = first_pressed(s.keys, 0);
            if k < 16 {
                (c.with_reg(x, k as u8), s, step_ok())
            } else {
                (c.with_pc(c.pc - 2), s, step_ok())
            }
        },
        // Font character: I points at the five-byte glyph for VX
        (0xF, _, 0x2, 0x9) => (c.with_i((0x50 + vx * 5) as u16), s, step_ok()),
        // Binary-coded decimal of VX into memory at I, I+1, I+2
        (0xF, _, 0x3, 0x3) => if c.i + 2 >= 4096 {
            (c, s, step_err(EmulatorError::OutOfBounds))
        } else {
            (
                c,
                StateView {
                    ram: s.ram.update(c.i as int, vx / 100).update(c.i + 1, (vx / 10) % 10).update(
                        c.i + 2,
                        vx % 10,
                    ),
                    ..s
                },
                step_ok(),
            )
        },
        // Store V0 through VX into memory starting at I
        (0xF, _, 0x5, 0x5) => if c.i + x >= 4096 {
            (c, s, step_err(EmulatorError::OutOfBounds))
        } else {
            (c, StateView { ram: store_regs(s.ram, c.i as int, c.regs, x + 1), ..s }, step_ok())
        },
        // Load memory starting at I into V0 through VX
        (0xF, _, 0x6, 0x5) => if c.i + x >= 4096 {
            (c, s, step_err(EmulatorError::OutOfBounds))
        } else {
            (
                CpuView { regs: load_regs(c.regs, s.ram, c.i as int, x + 1), ..c },
                s,
                step_ok(),
            )
        },
        // Anything else is outside the defined instruction set
        _ => (c, s, step_err(EmulatorError::UnknownInstruction)),
    }
}

/// One whole fetch-decode-execute cycle from CPU `c` and machine state
/// `s`: what the machine becomes and what the cycle reports. Fetching
/// past the end of memory fails without touching anything; otherwise the
/// program counter first advances past the fetched word, and the decoded
/// instruction then acts as `dispatch` says.
pub open spec fn step_view(c: CpuView, s: StateView, rnd: u8) -> (
    CpuView,
    StateView,
    Result<(), EmulatorError>,
) {
    if c.pc + 1 >= 4096 {
        (c, s, step_err(EmulatorError::OutOfBounds))
    } else {
        dispatch(
            c.with_pc(c.pc + 2),
            s,
            parse_spec(s.ram[c.pc], s.ram[c.pc + 1]),
            rnd,
        )
    }
}

/// This struct plays the role of a CPU and executes the decoded
/// instructions, one per call of `execute`.
pub struct Cpu {
    registers: Vec<u8>,
    pub pc: usize,
    pub i: u16,
    pub stack: Vec<u16>,
}

impl Cpu {
    /// A CPU is well formed when it carries its sixteen registers.
    pub open spec fn wf(&self) -> bool {
        self@.wf()
    }

    /// Creates a new CPU with zeroed registers, program counter and index
    /// register, and an empty call stack.
    ///
    /// `stack_capacity` is used as initial capacity for the stack.
    pub fn new(stack_capacity: usize) -> (r: Self)
        ensures
            r.wf(),
            r@.pc == 0,
            r@.i == 0,
            r@.stack.len() == 0,
            forall|j: int| 0 <= j < 16 ==> r@.regs[j] == 0u8,
    {
        Cpu { registers: vec![0u8; 16], pc: 0, i: 0, stack: Vec::with_capacity(stack_capacity) }
    }

    /// Sets the value of a CPU register; indices of sixteen or more are
    /// rejected with `OutOfBounds` and change nothing.
    pub fn set_register(&mut self, register: u8, value: u8) -> (r: Result<(), EmulatorError>)
        requires
            old(self).wf(),
        ensures
            final(self).wf(),
            register < 16 ==> r is Ok && final(self)@ == old(self)@.with_reg(
                register as int,
                value,
            ),
            register >= 16 ==> r == Err::<(), EmulatorError>(EmulatorError::OutOfBounds)
                && final(self)@ == old(self)@,
    {
        if register >= 16 {
            return Err(EmulatorError::OutOfBounds);
        }
        self.registers[register as usize] = value;
        Ok(())
    }

    /// Gets the value of a CPU register; indices of sixteen or more are
    /// rejected with `OutOfBounds`.
    pub fn get_register(&self, register: u8) -> (r: Result<u8, EmulatorError>)
        requires
            self.wf(),
        ensures
            register < 16 ==> r == Ok::<u8, EmulatorError>(self@.regs[register as int]),
            register >= 16 ==> r == Err::<u8, EmulatorError>(EmulatorError::OutOfBounds),
    {
        if register >= 16 {
            return Err(EmulatorError::OutOfBounds);
        }
        Ok(self.registers[register as usize])
    }

    /// Fetches, decodes and executes the next instruction against the
    /// shared machine state. The whole effect, for every instruction and
    /// every failure, is the one `step_view` gives; only the byte drawn by
    /// the random-number instruction is left open.
    pub fn execute(&mut self, state: &mut EmulatorState) -> (r: Result<(), EmulatorError>)
        requires
            old(self).wf(),
            old(state).wf(),
        ensures
            final(self).wf(),
            final(state).wf(),
            exists|rnd: u8|
                #[trigger] step_view(old(self)@, old(state)@, rnd) == (
                    final(self)@,
                    final(state)@,
                    r,
                ),
    {
        let ghost c0 = self@;
        let ghost s0 = state@;
        if self.pc >= 4095 {
            proof {
                assert(step_view(c0, s0, 0u8) =~~= (self@, state@, step_err(
                    EmulatorError::OutOfBounds,
                )));
            }
            return Err(EmulatorError::OutOfBounds);
        }
        let instruction = Instruction::parse(state.ram.read(self.pc), state.ram.read(self.pc + 1));

        // Advance to the next instruction before dispatching, so that
        // jumps are not double-advanced and skips add exactly one word.
        self.pc += 2;
        let ghost c2 = c0.with_pc(c0.pc + 2);
        proof {
            assert(self@ =~= c2);
        }

        let vx = self.registers[instruction.x as usize];
        let vy = self.registers[instruction.y as usize];

        match (instruction.opcode, instruction.x, instruction.y, instruction.n) {
            // Clear screen
            (0x0, 0x0, 0xE, 0x0) => {
                state.frame_buffer.clear();
                proof {
                    assert(step_view(c0, s0, 0u8) =~~= (self@, state@, step_ok()));
                }
                Ok(())
            },
            // Return
            (0x0, 0x0, 0xE, 0xE) => {
                match self.stack.pop() {
                    Some(address) => {
                        self.pc = address as usize;
                        proof {
                            assert(step_view(c0, s0, 0u8) =~~= (self@, state@, step_ok()));
                        }
                        Ok(())
                    },
                    None => {
                        proof {
                            assert(step_view(c0, s0, 0u8) =~~= (self@, state@, step_err(
                                EmulatorError::InvalidState,
                            )));
                        }
                        Err(EmulatorError::InvalidState)
                    },
                }
            },
            // Jump
            (0x1, _, _, _) => {
                self.pc = instruction.nnn as usize;
                proof {
                    assert(step_view(c0, s0, 0u8) =~~= (self@, state@, step_ok()));
                }
                Ok(())
            },
            // Call
            (0x2, _, _, _) => {
                self.stack.push(self.pc as u16);
                self.pc = instruction.nnn as usize;
                proof {
                    assert(step_view(c0, s0, 0u8) =~~= (self@, state@, step_ok()));
                }
                Ok(())
            },
            // Skip if VX equal to NN
            (0x3, _, _, _) => {
                if vx == instruction.nn {
                    self.pc += 2;
                }
                proof {
                    assert(step_view(c0, s0, 0u8) =~~= (self@, state@, step_ok()));
                }
                Ok(())
            },
            // Skip if VX not equal to NN
            (0x4, _, _, _) => {
                if vx != instruction.nn {
                    self.pc += 2;
                }
                proof {
                    assert(step_view(c0, s0, 0u8) =~~= (self@, state@, step_ok()));
                }
                Ok(())
            },
            // Skip if VX equal to VY
            (0x5, _, _, 0x0) => {
                if vx == vy {
                    self.pc += 2;
                }
                proof {
                    assert(step_view(c0, s0, 0u8) =~~= (self@, state@, step_ok()));
                }
                Ok(())
            },
            // Skip if VX not equal to VY
            (0x9, _, _, 0x0) => {
                if vx != vy {
                    self.pc += 2;
                }
                proof {
                    assert(step_view(c0, s0, 0u8) =~~= (self@, state@, step_ok()));
                }
                Ok(())
            },
            // Set register VX to NN
            (0x6, _, _, _) => {
                self.registers[instruction.x as usize] = instruction.nn;
                proof {
                    assert(step_view(c0, s0, 0u8) =~~= (self@, state@, step_ok()));
                }
                Ok(())
            },
            // Add NN to VX, wrapping, no flag
            (0x7, _, _, _) => {
                self.registers[instruction.x as usize] = vx.wrapping_add(instruction.nn);
                proof {
                    assert(step_view(c0, s0, 0u8) =~~= (self@, state@, step_ok()));
                }
                Ok(())
            },
            // Set VX to VY
            (0x8, _, _, 0x0) => {
                self.registers[instruction.x as usize] = vy;
                proof {
                    assert(step_view(c0, s0, 0u8) =~~= (self@, state@, step_ok()));
                }
                Ok(())
            },
            // Set VX to VX | VY
            (0x8, _, _, 0x1) => {
                self.registers[instruction.x as usize] = vx | vy;
                proof {
                    assert(step_view(c0, s0, 0u8) =~~= (self@, state@, step_ok()));
                }
                Ok(())
            },
            // Set VX to VX & VY
            (0x8, _, _, 0x2) => {
                self.registers[instruction.x as usize] = vx & vy;
                proof {
                    assert(step_view(c0, s0, 0u8) =~~= (self@, state@, step_ok()));
                }
                Ok(())
            },
            // Set VX to VX ^ VY
            (0x8, _, _, 0x3) => {
                self.registers[instruction.x as usize] = vx ^ vy;
                proof {
                    assert(step_view(c0, s0, 0u8) =~~= (self@, state@, step_ok()));
                }
                Ok(())
            },
            // Set VX to VX + VY; the carry lands in VF afterwards
            (0x8, _, _, 0x4) => {
                self.registers[instruction.x as usize] = vx.wrapping_add(vy);
                self.registers[15] = if (vx as u16) + (vy as u16) > 255 {
                    1
                } else {
                    0
                };
                proof {
                    assert(step_view(c0, s0, 0u8) =~~= (self@, state@, step_ok()));
                }
                Ok(())
            },
            // Set VX to VX - VY; the borrow flag lands in VF afterwards
            (0x8, _, _, 0x5) => {
                self.registers[instruction.x as usize] = vx.wrapping_sub(vy);
                self.registers[15] = if vx < vy {
                    1
                } else {
                    0
                };
                proof {
                    assert(step_view(c0, s0, 0u8) =~~= (self@, state@, step_ok()));
                }
                Ok(())
            },
            // Set VX to VY - VX; the borrow flag lands in VF afterwards
            (0x8, _, _, 0x7) => {
                self.registers[instruction.x as usize] = vy.wrapping_sub(vx);
                self.registers[15] = if vy < vx {
                    1
                } else {
                    0
                };
                proof {
                    assert(step_view(c0, s0, 0u8) =~~= (self@, state@, step_ok()));
                }
                Ok(())
            },
            // Shift right, reading VY; the shifted-out bit lands in VF afterwards
            (0x8, _, _, 0x6) => {
                self.registers[instruction.x as usize] = vy >> 1u8;
                self.registers[15] = vy & 1u8;
                proof {
                    assert(step_view(c0, s0, 0u8) =~~= (self@, state@, step_ok()));
                }
                Ok(())
            },
            // Shift left, reading VY; the shifted-out bit lands in VF afterwards
            (0x8, _, _, 0xE) => {
                self.registers[instruction.x as usize] = vy << 1u8;
                self.registers[15] = (vy >> 7u8) & 1u8;
                proof {
                    assert(step_view(c0, s0, 0u8) =~~= (self@, state@, step_ok()));
                }
                Ok(())
            },
            // Set I to NNN
            (0xA, _, _, _) => {
                self.i = instruction.nnn;
                proof {
                    assert(step_view(c0, s0, 0u8) =~~= (self@, state@, step_ok()));
                }
                Ok(())
            },
            // Jump with offset: PC becomes NNN + V0
            (0xB, _, _, _) => {
                self.pc = instruction.nnn as usize + self.registers[0] as usize;
                proof {
                    assert(step_view(c0, s0, 0u8) =~~= (self@, state@, step_ok()));
                }
                Ok(())
            },
            // Random byte into VX
            (0xC, _, _, _) => {
                let drawn = random_byte();
                self.registers[instruction.x as usize] = drawn;
                proof {
                    assert(step_view(c0, s0, drawn) =~~= (self@, state@, step_ok()));
                }
                Ok(())
            },
            // Draw a sprite of N rows at (VX mod 64, VY mod 32)
            (0xD, _, _, _) => {
                let px = (vx % 64) as usize;
                let py = (vy % 32) as usize;
                let rows = instruction.n as usize;
                let visible = if 32 - py < rows {
                    32 - py
                } else {
                    rows
                };
                if visible > 0 && self.i as usize + visible > 4096 {
                    proof {
                        assert(step_view(c0, s0, 0u8) =~~= (self@, state@, step_err(
                            EmulatorError::OutOfBounds,
                        )));
                    }
                    return Err(EmulatorError::OutOfBounds);
                }
                let hit = state.frame_buffer.draw_sprite(
                    &state.ram,
                    self.i as usize,
                    px,
                    py,
                    rows,
                );
                self.registers[15] = if hit {
                    1
                } else {
                    0
                };
                proof {
                    assert(step_view(c0, s0, 0u8) =~~= (self@, state@, step_ok()));
                }
                Ok(())
            },
            // Skip if the key numbered VX is pressed
            (0xE, _, 0x9, 0xE) => {
                if vx >= 16 {
                    proof {
                        assert(step_view(c0, s0, 0u8) =~~= (self@, state@, step_err(
                            EmulatorError::OutOfBounds,
                        )));
                    }
                    return Err(EmulatorError::OutOfBounds);
                }
                if state.key_state[vx as usize] {
                    self.pc += 2;
                }
                proof {
                    assert(step_view(c0, s0, 0u8) =~~= (self@, state@, step_ok()));
                }
                Ok(())
            },
            // Skip if the key numbered VX is not pressed
            (0xE, _, 0xA, 0x1) => {
                if vx >= 16 {
                    proof {
                        assert(step_view(c0, s0, 0u8) =~~= (self@, state@, step_err(
                            EmulatorError::OutOfBounds,
                        )));
                    }
                    return Err(EmulatorError::OutOfBounds);
                }
                if !state.key_state[vx as usize] {
                    self.pc += 2;
                }
                proof {
                    assert(step_view(c0, s0, 0u8) =~~= (self@, state@, step_ok()));
                }
                Ok(())
            },
            // Read the delay timer into VX
            (0xF, _, 0x0, 0x7) => {
                self.registers[instruction.x as usize] = state.delay_timer.get();
                proof {
                    assert(step_view(c0, s0, 0u8) =~~= (self@, state@, step_ok()));
                }
                Ok(())
            },
            // Write VX into the delay timer
            (0xF, _, 0x1, 0x5) => {
                state.delay_timer.set(vx);
                proof {
                    assert(step_view(c0, s0, 0u8) =~~= (self@, state@, step_ok()));
                }
                Ok(())
            },
            // Write VX into the sound timer
            (0xF, _, 0x1, 0x8) => {
                state.sound_timer.set(vx);
                proof {
                    assert(step_view(c0, s0, 0u8) =~~= (self@, state@, step_ok()));
                }
                Ok(())
            },
            // Add VX to I, wrapping modulo 65536
            (0xF, _, 0x1, 0xE) => {
                self.i = self.i.wrapping_add(vx as u16);
                proof {
                    assert(step_view(c0, s0, 0u8) =~~= (self@, state@, step_ok()));
                }
                Ok(())
            },
            // Wait for a key: store the lowest pressed key, or rewind
            (0xF, _, 0x0, 0xA) => {
                let pressed = lowest_pressed(&state.key_state);
                if pressed < 16 {
                    self.registers[instruction.x as usize] = pressed as u8;
                } else {
                    self.pc -= 2;
                }
                proof {
                    assert(step_view(c0, s0, 0u8) =~~= (self@, state@, step_ok()));
                }
                Ok(())
            },
            // Font character: I points at the five-byte glyph for VX
            (0xF, _, 0x2, 0x9) => {
                self.i = 0x50u16 + (vx as u16) * 5;
                proof {
                    assert(step_view(c0, s0, 0u8) =~~= (self@, state@, step_ok()));
                }
                Ok(())
            },
            // Binary-coded decimal of VX into memory at I, I+1, I+2
            (0xF, _, 0x3, 0x3) => {
                let base = self.i as usize;
                if base + 2 >= 4096 {
                    proof {
                        assert(step_view(c0, s0, 0u8) =~~= (self@, state@, step_err(
                            EmulatorError::OutOfBounds,
                        )));
                    }
                    return Err(EmulatorError::OutOfBounds);
                }
                state.ram.write(base, vx / 100);
                state.ram.write(base + 1, (vx / 10) % 10);
                state.ram.write(base + 2, vx % 10);
                proof {
                    assert(step_view(c0, s0, 0u8) =~~= (self@, state@, step_ok()));
                }
                Ok(())
            },
            // Store V0 through VX into memory starting at I
            (0xF, _, 0x5, 0x5) => {
                let base = self.i as usize;
                let top = instruction.x as usize;
                if base + top >= 4096 {
                    proof {
                        assert(step_view(c0, s0, 0u8) =~~= (self@, state@, step_err(
                            EmulatorError::OutOfBounds,
                        )));
                    }
                    return Err(EmulatorError::OutOfBounds);
                }
                proof {
                    assert(state@.ram =~= store_regs(s0.ram, base as int, c0.regs, 0));
                }
                let mut k: usize = 0;
                while k <= top
                    invariant
                        self.wf(),
                        state.wf(),
                        top < 16,
                        base + top < 4096,
                        k <= top + 1,
                        base == c0.i,
                        self@ == c2,
                        c2 == c0.with_pc(c0.pc + 2),
                        c0.wf(),
                        state@ == (StateView {
                            ram: store_regs(s0.ram, base as int, c0.regs, k as int),
                            ..s0
                        }),
                        s0.wf(),
                    decreases top + 1 - k,
                {
                    proof {
                        lemma_store_step(s0.ram, base as int, c0.regs, k as int);
                    }
                    state.ram.write(base + k, self.registers[k]);
                    proof {
                        assert(state@ =~= StateView {
                            ram: store_regs(s0.ram, base as int, c0.regs, k + 1),
                            ..s0
                        });
                    }
                    k += 1;
                }
                proof {
                    assert(step_view(c0, s0, 0u8) =~~= (self@, state@, step_ok()));
                }
                Ok(())
            },
            // Load memory starting at I into V0 through VX
            (0xF, _, 0x6, 0x5) => {
                let base = self.i as usize;
                let top = instruction.x as usize;
                if base + top >= 4096 {
                    proof {
                        assert(step_view(c0, s0, 0u8) =~~= (self@, state@, step_err(
                            EmulatorError::OutOfBounds,
                        )));
                    }
                    return Err(EmulatorError::OutOfBounds);
                }
                proof {
                    assert(self@.regs =~= load_regs(c0.regs, s0.ram, base as int, 0));
                }
                let mut k: usize = 0;
                while k <= top
                    invariant
                        self.wf(),
                        state.wf(),
                        top < 16,
                        base + top < 4096,
                        k <= top + 1,
                        base == c0.i,
                        self@ == (CpuView {
                            regs: load_regs(c0.regs, s0.ram, base as int, k as int),
                            ..c2
                        }),
                        c2 == c0.with_pc(c0.pc + 2),
                        c0.wf(),
                        state@ == s0,
                        s0.wf(),
                    decreases top + 1 - k,
                {
                    proof {
                        lemma_load_step(c0.regs, s0.ram, base as int, k as int);
                    }
                    self.registers[k] = state.ram.read(base + k);
                    proof {
                        assert(self@ =~= CpuView {
                            regs: load_regs(c0.regs, s0.ram, base as int, k + 1),
                            ..c2
                        });
                    }
                    k += 1;
                }
                proof {
                    assert(step_view(c0, s0, 0u8) =~~= (self@, state@, step_ok()));
                }
                Ok(())
            },
            // Anything else is outside the defined instruction set
            _ => {
                proof {
                    assert(step_view(c0, s0, 0u8) =~~= (self@, state@, step_err(
                        EmulatorError::UnknownInstruction,
                    )));
                }
                Err(EmulatorError::UnknownInstruction)
            },
        }
    }

    /// Moves the program counter, leaving everything else in place.
    pub(crate) fn set_pc(&mut self, pc: usize)
        ensures
            final(self)@ == old(self)@.with_pc(pc as int),
    {
        self.pc = pc;
        proof {
            assert(self@ =~= old(self)@.with_pc(pc as int));
        }
    }
}

impl View for Cpu {
    type V = CpuView;

    closed spec fn view(&self) -> CpuView {
        CpuView { regs: self.registers@, pc: self.pc as int, i: self.i, stack: self.stack@ }
    }
}

impl Default for Cpu {
    /// A fresh CPU, with room for sixteen return addresses up front.
    fn default() -> (r: Self)
        ensures
            r.wf(),
            r@.pc == 0,
            r@.i == 0,
            r@.stack.len() == 0,
            forall|j: int| 0 <= j < 16 ==> r@.regs[j] == 0u8,
    {
        Self::new(16)
    }
}

/// Relies on rand::thread_rng and rand::Rng::gen to draw one byte;
/// nothing is assumed of the value that comes back.
#[verifier::external_body]
fn random_byte() -> u8 {
    rand::thread_rng().gen()
}

/// Scans the keypad for the lowest-indexed pressed key; 16 when none is
/// pressed.
fn lowest_pressed(keys: &KeyState) -> (r: usize)
    requires
        keys@.len() == 16,
    ensures
        r == first_pressed(keys@, 0),
{
    let mut j: usize = 0;
    while j < 16
        invariant
            j <= 16,
            keys@.len() == 16,
            first_pressed(keys@, 0) == first_pressed(keys@, j as int),
        decreases 16 - j,
    {
        if keys[j] {
            return j;
        }
        j += 1;
    }
    16
}

/// Writing one more register at `base + k` extends the stored range by
/// exactly that byte.
proof fn lemma_store_step(ram: Seq<u8>, base: int, regs: Seq<u8>, k: int)
    requires
        ram.len() == 4096,
        regs.len() == 16,
        0 <= base,
        0 <= k < 16,
        base + k < 4096,
    ensures
        store_regs(ram, base, regs, k + 1) == store_regs(ram, base, regs, k).update(
            base + k,
            regs[k],
        ),
{
    assert(store_regs(ram, base, regs, k + 1) =~= store_regs(ram, base, regs, k).update(
        base + k,
        regs[k],
    ));
}

/// Reading one more byte at `base + k` extends the loaded registers by
/// exactly that one.
proof fn lemma_load_step(regs: Seq<u8>, ram: Seq<u8>, base: int, k: int)
    requires
        ram.len() == 4096,
        regs.len() == 16,
        0 <= base,
        0 <= k < 16,
        base + k < 4096,
    ensures
        load_regs(regs, ram, base, k + 1) == load_regs(regs, ram, base, k).update(
            k,
            ram[base + k],
        ),
{
    assert(load_regs(regs, ram, base, k + 1) =~= load_regs(regs, ram, base, k).update(
        k,
        ram[base + k],
    ));
}

/// The machine after a sequence of cycles, one random byte per entry of
/// `rnds`: the cycles run in order and stop at the first failure.
pub open spec fn run_view(c: CpuView, s: StateView, rnds: Seq<u8>) -> (
    CpuView,
    StateView,
    Result<(), EmulatorError>,
)
    decreases rnds.len(),
{
    if rnds.len() == 0 {
        (c, s, step_ok())
    } else {
        let (c1, s1, r1) = step_view(c, s, rnds[0]);
        if r1 is Err {
            (c1, s1, r1)
        } else {
            run_view(c1, s1, rnds.drop_first())
        }
    }
}

/// When no key at or above `start` is pressed, the scan finds none.
proof fn lemma_first_pressed_none(keys: Seq<bool>, start: int)
    requires
        keys.len() == 16,
        forall|k: int| 0 <= k < 16 ==> !keys[k],
    ensures
        first_pressed(keys, start) == 16,
    decreases 16 - start,
{
    if 0 <= start < 16 {
        lemma_first_pressed_none(keys, start + 1);
    }
}

/// Setting a register and then reading the same index yields the value
/// written, for every valid index and value.
pub proof fn lemma_register_round_trip(c: CpuView, r: u8, v: u8)
    requires
        c.wf(),
        r < 16,
    ensures
        c.with_reg(r as int, v).regs[r as int] == v,
{
}

/// A program that only jumps to itself runs any number of cycles without
/// an error and leaves the whole machine — every register included —
/// exactly as it was.
pub proof fn lemma_jump_self_loops(c: CpuView, s: StateView, rnds: Seq<u8>)
    requires
        c.wf(),
        s.wf(),
        c.pc == 0x200,
        s.ram[0x200] == 0x12,
        s.ram[0x201] == 0x00,
    ensures
        run_view(c, s, rnds) == (c, s, step_ok()),
    decreases rnds.len(),
{
    if rnds.len() > 0 {
        assert((0x12u8 >> 4) & 0xF == 1) by (bit_vector);
        assert(0x12u8 & 0xF == 2) by (bit_vector);
        assert((((0x12u8 & 0xF) as u16) << 8 | 0x00u16) == 0x200) by (bit_vector);
        assert(step_view(c, s, rnds[0]) =~~= (c, s, step_ok()));
        lemma_jump_self_loops(c, s, rnds.drop_first());
    }
}

/// With no key pressed, the wait-for-key instruction leaves the machine
/// exactly as it was: the program counter rewinds, so the same
/// instruction re-runs on the next cycle.
pub proof fn lemma_wait_key_blocks(c: CpuView, s: StateView, rnd: u8)
    requires
        c.wf(),
        s.wf(),
        0 <= c.pc,
        c.pc + 1 < 4096,
        parse_spec(s.ram[c.pc], s.ram[c.pc + 1]).opcode == 0xF,
        parse_spec(s.ram[c.pc], s.ram[c.pc + 1]).y == 0x0,
        parse_spec(s.ram[c.pc], s.ram[c.pc + 1]).n == 0xA,
        forall|k: int| 0 <= k < 16 ==> !s.keys[k],
    ensures
        step_view(c, s, rnd) == (c, s, step_ok()),
{
    lemma_parse_spec_bounds(s.ram[c.pc], s.ram[c.pc + 1]);
    lemma_first_pressed_none(s.keys, 0);
    assert(step_view(c, s, rnd) =~~= (c, s, step_ok()));
}

/// Checks whether a register index is valid: exactly the indices below
/// sixteen are accepted.
pub fn is_valid_register(register: u8) -> (r: Result<(), EmulatorError>)
    ensures
        register < 16 ==> r is Ok,
        register >= 16 ==> r == Err::<(), EmulatorError>(EmulatorError::OutOfBounds),
{
    if register >= 16 {
        Err(EmulatorError::OutOfBounds)
    } else {
        Ok(())
    }
}

} // verus!
