use led_array::plan::{Line, Op};
use led_array::sequencer::{Action, Sequencer};
use led_array::{LEDArray, LEDError};

#[derive(Clone, Copy)]
struct MockPin {
    state: bool,
    cycles: u32,
}

impl MockPin {
    fn new() -> MockPin {
        MockPin {
            state: false,
            cycles: 0,
        }
    }

    fn set(&mut self, high: bool) {
        if !high && self.state {
            self.cycles += 1;
        }
        self.state = high;
    }
}

struct MockHw {
    array: LEDArray,
    row_pins: (MockPin, MockPin, MockPin),
    reg_pin: MockPin,
    output_disable: MockPin,
    tries: i32,
    written: Vec<u8>,
    send_limit: usize,
    failing_line: Option<Line>,
    armed: Vec<usize>,
}

fn mock_array() -> MockHw {
    MockHw {
        array: LEDArray {
            array: [[0; 16]; 8],
        },
        row_pins: (MockPin::new(), MockPin::new(), MockPin::new()),
        reg_pin: MockPin::new(),
        output_disable: MockPin::new(),
        tries: 0,
        written: Vec::new(),
        send_limit: 64,
        failing_line: None,
        armed: Vec::new(),
    }
}

impl MockHw {
    fn perform(&mut self, op: Op) -> Result<(), LEDError<(), ()>> {
        match op {
            Op::Drive(line, high) => {
                if self.failing_line == Some(line) {
                    return Err(LEDError::PinError(()));
                }
                let pin = match line {
                    Line::Row0 => &mut self.row_pins.0,
                    Line::Row1 => &mut self.row_pins.1,
                    Line::Row2 => &mut self.row_pins.2,
                    Line::Latch => &mut self.reg_pin,
                    Line::OutputDisable => &mut self.output_disable,
                };
                pin.set(high);
                Ok(())
            }
            Op::Send(b) => {
                if self.written.len() >= self.send_limit {
                    return Err(LEDError::SPIError(()));
                }
                self.written.push(b);
                Ok(())
            }
            Op::Wait => {
                while self.tries > 0 {
                    self.tries -= 1;
                }
                Ok(())
            }
            Op::Arm(shift) => {
                self.armed.push(shift);
                self.tries = 1 << shift;
                Ok(())
            }
        }
    }

    fn run(&mut self, ops: Vec<Op>) -> Result<(), LEDError<(), ()>> {
        let mut seq = Sequencer::new(ops);
        let mut outcome = Ok(());
        loop {
            match seq.step(outcome) {
                Action::Perform(op) => outcome = self.perform(op),
                Action::Finish(r) => return r,
            }
        }
    }

    fn write_layer(&mut self, layer: &[u8], row: Option<usize>) -> Result<(), LEDError<(), ()>> {
        self.run(LEDArray::write_layer(layer, row))
    }
}

#[test]
fn test_prepare_row() {
    let row = [15, 14, 13, 12, 11, 10, 9, 8, 7, 6, 5, 4, 3, 2, 1, 0];

    let mut array = mock_array();
    array.array.array = [row; 8];

    let mut buf = [[0u8; 2]; 4];
    array.array.prepare_row(0, &mut buf);

    assert_eq!(buf[0], [0b01010101, 0b01010101]); // for 1s
    assert_eq!(buf[1], [0b00110011, 0b00110011]); // for 2s
    assert_eq!(buf[2], [0b00001111, 0b00001111]); // for 4s
    assert_eq!(buf[3], [0b00000000, 0b11111111]); // for 8s
}

#[test]
fn test_write_layer() {
    let mut array = mock_array();

    array.tries = 6;
    array.reg_pin.set(true);
    array.write_layer(&[0x57, 0x3f], None).unwrap_or(());
    assert_eq!(array.written, [0xa8, 0xc0]);
    assert_eq!(array.tries, 0);
    assert_eq!(array.reg_pin.cycles, 1);
    assert_eq!(array.output_disable.cycles, 0);
    assert_eq!(array.output_disable.state, false);

    array.write_layer(&[13], Some(3)).unwrap_or(());
    assert_eq!(array.reg_pin.cycles, 2);
    assert_eq!(array.output_disable.cycles, 1);
    assert_eq!(array.output_disable.state, false);
    assert_eq!(array.row_pins.2.state, false);
    assert_eq!(array.row_pins.1.state, true);
    assert_eq!(array.row_pins.0.state, true);
}

#[test]
fn descending_row_encodes_on_every_row() {
    let row = [15, 14, 13, 12, 11, 10, 9, 8, 7, 6, 5, 4, 3, 2, 1, 0];
    let leds = LEDArray { array: [row; 8] };
    for r in 0..8 {
        let mut buf = [[0xffu8; 2]; 4];
        leds.prepare_row(r, &mut buf);
        assert_eq!(
            buf,
            [
                [0b01010101, 0b01010101],
                [0b00110011, 0b00110011],
                [0b00001111, 0b00001111],
                [0b00000000, 0b11111111],
            ]
        );
    }
}

#[test]
fn encoding_twice_gives_the_same_planes() {
    let mut grid = [[0u8; 16]; 8];
    for r in 0..8 {
        for c in 0..16 {
            grid[r][c] = ((r * 7 + c * 3) % 16) as u8;
        }
    }
    let leds = LEDArray { array: grid };
    let mut first = [[0u8; 2]; 4];
    let mut second = [[0x55u8; 2]; 4];
    leds.prepare_row(5, &mut first);
    leds.prepare_row(5, &mut second);
    assert_eq!(first, second);
}

#[test]
fn high_bits_of_brightness_are_ignored() {
    let mut grid = [[0u8; 16]; 8];
    grid[2][0] = 0xf3;
    grid[2][15] = 0x10;
    let leds = LEDArray { array: grid };
    let mut buf = [[0u8; 2]; 4];
    leds.prepare_row(2, &mut buf);
    assert_eq!(buf, [[0, 1], [0, 1], [0, 0], [0, 0]]);
}

#[test]
fn single_column_lands_on_its_bit() {
    let mut grid = [[0u8; 16]; 8];
    grid[7][9] = 0b1010;
    let leds = LEDArray { array: grid };
    let mut buf = [[0u8; 2]; 4];
    leds.prepare_row(7, &mut buf);
    assert_eq!(buf, [[0, 0], [0b10, 0], [0, 0], [0b10, 0]]);
}

#[test]
fn write_layer_plain_latch_sequence() {
    let ops = LEDArray::write_layer(&[0x57, 0x3f], None);
    assert_eq!(
        ops,
        vec![
            Op::Drive(Line::Latch, false),
            Op::Send(0xa8),
            Op::Send(0xc0),
            Op::Wait,
            Op::Drive(Line::Latch, true),
        ]
    );
}

#[test]
fn row_switch_blanks_before_reselect_and_unblanks_after_latch() {
    let ops = LEDArray::write_layer(&[0x00, 0xff], Some(5));
    assert_eq!(
        ops,
        vec![
            Op::Drive(Line::Latch, false),
            Op::Send(0xff),
            Op::Send(0x00),
            Op::Wait,
            Op::Drive(Line::OutputDisable, true),
            Op::Drive(Line::Row0, true),
            Op::Drive(Line::Row1, false),
            Op::Drive(Line::Row2, true),
            Op::Drive(Line::Latch, true),
            Op::Drive(Line::OutputDisable, false),
        ]
    );
}

#[test]
fn empty_layer_still_latches() {
    let ops = LEDArray::write_layer(&[], None);
    assert_eq!(
        ops,
        vec![
            Op::Drive(Line::Latch, false),
            Op::Wait,
            Op::Drive(Line::Latch, true),
        ]
    );
}

#[test]
fn scan_arms_weighted_periods() {
    let leds = LEDArray {
        array: [[9u8; 16]; 8],
    };
    let ops = leds.scan();
    let shifts: Vec<usize> = ops
        .iter()
        .filter_map(|op| match op {
            Op::Arm(s) => Some(*s),
            _ => None,
        })
        .collect();
    assert_eq!(shifts.len(), 32);
    for (i, s) in shifts.iter().enumerate() {
        assert_eq!(*s, 3 - i % 4);
    }
}

#[test]
fn scan_visits_every_row_and_plane_once() {
    let leds = LEDArray {
        array: [[1u8; 16]; 8],
    };
    let ops = leds.scan();
    assert_eq!(ops.len(), 8 * 29);
    let waits = ops.iter().filter(|op| **op == Op::Wait).count();
    assert_eq!(waits, 32);
    let sends = ops.iter().filter(|op| matches!(op, Op::Send(_))).count();
    assert_eq!(sends, 64);
}

#[test]
fn scan_changes_rows_only_on_first_plane() {
    let mut grid = [[0u8; 16]; 8];
    grid[4][3] = 12;
    let leds = LEDArray { array: grid };
    let ops = leds.scan();
    let mut hw = mock_array();
    hw.array = leds;
    let mut seen_rows = Vec::new();
    let mut plane: usize = 0;
    for op in &ops {
        match op {
            Op::Drive(Line::Row0, _) | Op::Drive(Line::Row1, _) | Op::Drive(Line::Row2, _) => {
                assert_eq!(plane, 0);
            }
            Op::Arm(_) => plane = (plane + 1) % 4,
            _ => {}
        }
    }
    let mut seq = Sequencer::new(ops);
    let mut outcome = Ok(());
    let mut plane_index: usize = 0;
    let mut row_state = (false, false, false);
    loop {
        match seq.step(outcome) {
            Action::Perform(op) => {
                outcome = hw.perform(op);
                let now = (hw.row_pins.0.state, hw.row_pins.1.state, hw.row_pins.2.state);
                if plane_index != 0 {
                    assert_eq!(now, row_state);
                }
                row_state = now;
                if op == Op::Wait && plane_index == 0 {
                    seen_rows.push(now);
                }
                if let Op::Arm(_) = op {
                    plane_index = (plane_index + 1) % 4;
                }
            }
            Action::Finish(r) => {
                assert_eq!(r, Ok(()));
                break;
            }
        }
    }
    assert_eq!(hw.armed, vec![3, 2, 1, 0, 3, 2, 1, 0, 3, 2, 1, 0, 3, 2, 1, 0, 3, 2, 1, 0, 3, 2, 1, 0, 3, 2, 1, 0, 3, 2, 1, 0]);
    assert_eq!(hw.row_pins.0.state, true);
    assert_eq!(hw.row_pins.1.state, true);
    assert_eq!(hw.row_pins.2.state, true);
    assert_eq!(seen_rows.len(), 8);
}

#[test]
fn failed_second_send_aborts_without_latching() {
    let mut hw = mock_array();
    hw.send_limit = 1;
    let r = hw.write_layer(&[0x12, 0x34], Some(2));
    assert_eq!(r, Err(LEDError::SPIError(())));
    assert_eq!(hw.written, vec![0xed]);
    assert_eq!(hw.reg_pin.state, false);
    assert_eq!(hw.output_disable.state, false);
    assert_eq!(hw.row_pins.1.state, false);
}

#[test]
fn failed_pin_aborts_the_write() {
    let mut hw = mock_array();
    hw.failing_line = Some(Line::Row1);
    let r = hw.write_layer(&[0x12, 0x34], Some(2));
    assert_eq!(r, Err(LEDError::PinError(())));
    assert_eq!(hw.output_disable.state, true);
    assert_eq!(hw.reg_pin.state, false);
    assert_eq!(hw.row_pins.0.state, false);
}

#[test]
fn failure_ends_a_scan_pass() {
    let leds = LEDArray {
        array: [[3u8; 16]; 8],
    };
    let mut hw = mock_array();
    hw.send_limit = 5;
    let r = hw.run(leds.scan());
    assert_eq!(r, Err(LEDError::SPIError(())));
    assert_eq!(hw.written.len(), 5);
    assert_eq!(hw.armed, vec![3, 2]);
}

#[test]
fn sequencer_hands_out_in_order_then_finishes() {
    let mut seq = Sequencer::new(vec![Op::Wait, Op::Arm(2)]);
    assert!(!seq.finished());
    let a: Action<(), ()> = seq.step(Ok(()));
    assert_eq!(a, Action::Perform(Op::Wait));
    let a: Action<(), ()> = seq.step(Ok(()));
    assert_eq!(a, Action::Perform(Op::Arm(2)));
    let a: Action<(), ()> = seq.step(Ok(()));
    assert_eq!(a, Action::Finish(Ok(())));
    assert!(seq.finished());
}

#[test]
fn sequencer_stops_on_first_error() {
    let mut seq = Sequencer::new(vec![Op::Send(1), Op::Send(2)]);
    let a: Action<u8, u8> = seq.step(Ok(()));
    assert_eq!(a, Action::Perform(Op::Send(1)));
    let a: Action<u8, u8> = seq.step(Err(LEDError::SPIError(7)));
    assert_eq!(a, Action::Finish(Err(LEDError::SPIError(7))));
    assert!(seq.finished());
}
