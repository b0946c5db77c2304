use chip_8::cpu::{is_valid_register, Cpu};
use chip_8::error::EmulatorError;
use chip_8::instruction::Instruction;
use chip_8::ram::{is_valid_address, Ram, RAM_SIZE};
use chip_8::timer::Timer;

#[test]
fn test_parsing() {
    assert_eq!(
        Instruction::parse(0b11110000, 0b11110000),
        Instruction {
            opcode: 0b1111,
            x: 0b0000,
            y: 0b1111,
            n: 0b0000,
            nn: 0b11110000,
            nnn: 0b0000000011110000,
        }
    );
}

#[test]
fn test_parsing_all_fields() {
    let parsed = Instruction::parse(0xAB, 0xCD);
    assert_eq!(parsed.opcode, 0xA);
    assert_eq!(parsed.x, 0xB);
    assert_eq!(parsed.y, 0xC);
    assert_eq!(parsed.n, 0xD);
    assert_eq!(parsed.nn, 0xCD);
    assert_eq!(parsed.nnn, 0xBCD);
}

#[test]
fn test_invalid_addresses() {
    assert!(is_valid_address(RAM_SIZE).is_err());
    assert!(is_valid_address(RAM_SIZE + 10).is_err());
}

#[test]
fn test_valid_addresses() {
    assert!(is_valid_address(0).is_ok());
    assert!(is_valid_address(RAM_SIZE - 1).is_ok());
}

#[test]
fn test_get_valid_slice() {
    let ram = Ram::default();
    assert!(ram.get_slice(0, RAM_SIZE - 1).is_ok());
    assert!(ram.get_slice(RAM_SIZE / 4, RAM_SIZE / 2).is_ok());
}

#[test]
fn test_get_invalid_slice() {
    let ram = Ram::default();
    assert!(ram.get_slice(0, RAM_SIZE).is_err());
    assert!(ram.get_slice(RAM_SIZE / 2, RAM_SIZE + 5).is_err());
}

#[test]
fn test_ram_set_get_roundtrip() {
    let mut ram = Ram::default();
    assert_eq!(ram.get(123), Ok(0));
    assert!(ram.set(123, 0xAB).is_ok());
    assert_eq!(ram.get(123), Ok(0xAB));
    assert!(ram.set(RAM_SIZE - 1, 7).is_ok());
    assert_eq!(ram.get(RAM_SIZE - 1), Ok(7));
}

#[test]
fn test_ram_out_of_bounds() {
    let mut ram = Ram::default();
    assert_eq!(ram.get(RAM_SIZE), Err(EmulatorError::OutOfBounds));
    assert_eq!(ram.set(RAM_SIZE, 1), Err(EmulatorError::OutOfBounds));
    assert_eq!(ram.get(usize::MAX), Err(EmulatorError::OutOfBounds));
}

#[test]
fn test_slice_contents() {
    let mut ram = Ram::default();
    ram.set(100, 1).unwrap();
    ram.set(101, 2).unwrap();
    ram.set(102, 3).unwrap();
    let slice = ram.get_slice(100, 3).unwrap();
    assert_eq!(slice, &[1, 2, 3]);
}

#[test]
fn test_decrements() {
    let mut timer = Timer::default();
    timer.set(10);
    for _ in 1..5 {
        timer.decrement();
    }
    assert_eq!(timer.get(), 6);
}

#[test]
fn test_stays_zero() {
    let mut timer = Timer::default();
    timer.set(1);
    timer.decrement();
    timer.decrement();
    assert_eq!(timer.get(), 0);
}

#[test]
fn test_register_roundtrip() {
    let mut cpu = Cpu::new(16);
    assert!(cpu.set_register(5, 42).is_ok());
    assert_eq!(cpu.get_register(5), Ok(42));
    assert!(cpu.set_register(15, 1).is_ok());
    assert_eq!(cpu.get_register(15), Ok(1));
}

#[test]
fn test_register_out_of_range() {
    let mut cpu = Cpu::new(16);
    assert_eq!(cpu.set_register(16, 0), Err(EmulatorError::OutOfBounds));
    assert_eq!(cpu.get_register(16), Err(EmulatorError::OutOfBounds));
    assert_eq!(cpu.get_register(255), Err(EmulatorError::OutOfBounds));
    assert!(is_valid_register(15).is_ok());
    assert!(is_valid_register(16).is_err());
}
