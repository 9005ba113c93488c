use eeprom34c04::{Eeprom34c04, Error, I2cBus, SlaveAddr, PA_FUNC_BITS};

/// One exchange seen on the bus: address, bytes written, bytes read.
type Exchange = (u8, Vec<u8>, usize);

/// An idealized device that stores what is written, with an optional failure
/// injected at one exchange.
struct FakeBus {
    mem: [u8; 512],
    upper: bool,
    rw: u8,
    log: Vec<Exchange>,
    fail_at: Option<usize>,
}

#[derive(Debug, PartialEq)]
struct BusFault(usize);

impl FakeBus {
    fn new(rw: u8) -> FakeBus {
        FakeBus { mem: [0xEE; 512], upper: false, rw, log: Vec::new(), fail_at: None }
    }

    fn failing_at(rw: u8, k: usize) -> FakeBus {
        let mut b = FakeBus::new(rw);
        b.fail_at = Some(k);
        b
    }

    fn check_fault(&self) -> Result<(), BusFault> {
        if self.fail_at == Some(self.log.len() - 1) {
            Err(BusFault(self.log.len() - 1))
        } else {
            Ok(())
        }
    }

    fn base(&self) -> usize {
        if self.upper {
            256
        } else {
            0
        }
    }
}

impl I2cBus for FakeBus {
    type Error = BusFault;

    fn write(&mut self, address: u8, bytes: &[u8]) -> Result<(), BusFault> {
        self.log.push((address, bytes.to_vec(), 0));
        self.check_fault()?;
        if address == PA_FUNC_BITS {
            self.upper = false;
        } else if address == PA_FUNC_BITS | 1 {
            self.upper = true;
        } else if address == self.rw {
            let start = self.base() + bytes[0] as usize;
            for (i, b) in bytes[1..].iter().enumerate() {
                self.mem[start + i] = *b;
            }
        }
        Ok(())
    }

    fn write_read(&mut self, address: u8, bytes: &[u8], buffer: &mut [u8]) -> Result<(), BusFault> {
        self.log.push((address, bytes.to_vec(), buffer.len()));
        self.check_fault()?;
        let start = self.base() + bytes[0] as usize;
        for (i, b) in buffer.iter_mut().enumerate() {
            *b = self.mem[start + i];
        }
        Ok(())
    }
}

const RW: u8 = 0b1010011;

fn device() -> Eeprom34c04<FakeBus> {
    Eeprom34c04::new_34c04(FakeBus::new(RW), SlaveAddr::A2A1A0(false, true, true))
}

#[test]
fn construction_sets_bus_address_and_sends_nothing() {
    let e = Eeprom34c04::new_34c04(FakeBus::new(0), SlaveAddr::A2A1A0(true, false, true));
    assert_eq!(e.previous_read_addr(), 0);
    assert_eq!(e.previous_write_addr(), 0);
    let bus = e.destroy();
    assert!(bus.log.is_empty());
    // The bus address is seen on the first exchange
    let mut e = Eeprom34c04::new_34c04(FakeBus::new(0b1010101), SlaveAddr::A2A1A0(true, false, true));
    e.write_byte(3, 9).unwrap();
    assert_eq!(e.destroy().log[1].0, 0b1010101);
}

#[test]
fn write_byte_sequence() {
    let mut e = device();
    e.write_byte(0x185, 0xAB).unwrap();
    let bus = e.destroy();
    assert_eq!(bus.log, vec![(PA_FUNC_BITS | 1, vec![0, 0], 0), (RW, vec![0x85, 0xAB], 0)]);
    assert_eq!(bus.mem[0x185], 0xAB);
}

#[test]
fn write_then_read_round_trip() {
    for (a, b) in [(0u32, 1u8), (0x7F, 2), (0x80, 3), (0x100, 4), (0x17F, 5), (0x1FF, 6)] {
        let mut e = device();
        e.write_byte(a, b).unwrap();
        assert_eq!(e.read_byte(a).unwrap(), b);
        assert_eq!(e.previous_write_addr(), a);
        assert_eq!(e.previous_read_addr(), a);
    }
}

#[test]
fn read_byte_sequence_and_repeat() {
    let mut e = device();
    e.write_byte(0x42, 0x11).unwrap();
    let first = e.read_byte(0x42).unwrap();
    let second = e.read_byte(0x42).unwrap();
    assert_eq!(first, second);
    assert_eq!(e.previous_write_addr(), 0x42);
    assert_eq!(e.previous_read_addr(), 0x42);
    let bus = e.destroy();
    assert_eq!(bus.log[2], (PA_FUNC_BITS, vec![0, 0], 0));
    assert_eq!(bus.log[3], (RW, vec![0x42], 1));
    assert_eq!(bus.log.len(), 6);
}

#[test]
fn out_of_range_address_is_rejected_without_traffic() {
    let mut e = device();
    assert!(matches!(e.write_byte(512, 1), Err(Error::InvalidAddr)));
    assert!(matches!(e.read_byte(600), Err(Error::InvalidAddr)));
    let mut buf = [0u8; 2];
    assert!(matches!(e.read_byte_array(0x200, &mut buf), Err(Error::InvalidAddr)));
    assert!(matches!(e.write_byte_array(0x200, &[1, 2]), Err(Error::InvalidAddr)));
    assert!(e.destroy().log.is_empty());
}

#[test]
fn write_array_lengths() {
    for len in [2usize, 4, 8, 16] {
        let mut e = device();
        let data: Vec<u8> = (1..=len as u8).collect();
        e.write_byte_array(0x10, &data).unwrap();
        assert_eq!(e.previous_write_addr(), 0x10);
        let bus = e.destroy();
        let mut frame = vec![0x10u8];
        frame.extend_from_slice(&data);
        assert_eq!(bus.log, vec![(PA_FUNC_BITS, vec![0, 0], 0), (RW, frame, 0)]);
        assert_eq!(&bus.mem[0x10..0x10 + len], &data[..]);
    }
}

#[test]
fn write_array_invalid_lengths() {
    let mut e = device();
    assert!(matches!(e.write_byte_array(0x10, &[1, 2, 3]), Err(Error::InvalidDataArrayMultiple)));
    assert!(matches!(e.write_byte_array(0x10, &[0; 5]), Err(Error::InvalidDataArrayMultiple)));
    assert!(matches!(e.write_byte_array(0x10, &[0; 17]), Err(Error::TooMuchData)));
    assert!(matches!(e.write_byte_array(0x10, &[]), Err(Error::InvalidDataArrayMultiple)));
    assert_eq!(e.previous_write_addr(), 0);
    // Only the page select went out for the refused lengths
    let bus = e.destroy();
    assert_eq!(bus.log.len(), 3);
    assert!(bus.log.iter().all(|x| x.0 == PA_FUNC_BITS));
}

#[test]
fn write_array_past_quadrant_is_rejected() {
    let mut e = device();
    assert!(matches!(e.write_byte_array(0x7C, &[0; 4]), Err(Error::PageWindowOverflow)));
    assert!(matches!(e.write_byte_array(0x1F8, &[0; 8]), Err(Error::PageWindowOverflow)));
    assert!(e.destroy().log.is_empty());
}

#[test]
fn read_array_sequence() {
    let mut e = device();
    e.write_byte_array(0x180, &[9, 8, 7, 6]).unwrap();
    let mut buf = [0u8; 4];
    e.read_byte_array(0x180, &mut buf).unwrap();
    assert_eq!(buf, [9, 8, 7, 6]);
    assert_eq!(e.previous_read_addr(), 0x180);
    let bus = e.destroy();
    assert_eq!(bus.log[2], (PA_FUNC_BITS | 1, vec![0, 0], 0));
    assert_eq!(bus.log[3], (RW, vec![0x80], 1));
    assert_eq!(bus.log[4], (RW, vec![0x80], 4));
}

#[test]
fn read_array_past_quadrant_is_rejected() {
    let mut e = device();
    let mut buf = [0u8; 8];
    assert!(matches!(e.read_byte_array(0x7F, &mut buf), Err(Error::PageWindowOverflow)));
    let mut big = vec![0u8; 300];
    assert!(matches!(e.read_byte_array(0, &mut big), Err(Error::PageWindowOverflow)));
    assert!(e.destroy().log.is_empty());
}

/// A device whose first write and read of address 7 succeed (four exchanges),
/// and whose exchange `4 + k` fails.
fn primed_failing(k: usize) -> Eeprom34c04<FakeBus> {
    let mut e = Eeprom34c04::new_34c04(FakeBus::failing_at(RW, 4 + k), SlaveAddr::A2A1A0(false, true, true));
    e.write_byte(7, 1).unwrap();
    e.read_byte(7).unwrap();
    e
}

#[test]
fn transport_failure_leaves_bookkeeping() {
    for k in 0..2 {
        let mut e = primed_failing(k);
        assert_eq!(e.write_byte(5, 1), Err(Error::I2C(BusFault(4 + k))));
        assert_eq!(e.previous_write_addr(), 7);
        assert_eq!(e.previous_read_addr(), 7);
        assert_eq!(e.destroy().log.len(), 4 + k + 1);
    }
    for k in 0..2 {
        let mut e = primed_failing(k);
        assert_eq!(e.read_byte(5), Err(Error::I2C(BusFault(4 + k))));
        assert_eq!(e.previous_write_addr(), 7);
        assert_eq!(e.previous_read_addr(), 7);
    }
    for k in 0..3 {
        let mut e = primed_failing(k);
        let mut buf = [0u8; 2];
        assert_eq!(e.read_byte_array(5, &mut buf), Err(Error::I2C(BusFault(4 + k))));
        assert_eq!(e.previous_write_addr(), 7);
        assert_eq!(e.previous_read_addr(), 7);
    }
    for k in 0..2 {
        let mut e = primed_failing(k);
        assert_eq!(e.write_byte_array(5, &[1, 2]), Err(Error::I2C(BusFault(4 + k))));
        assert_eq!(e.previous_write_addr(), 7);
        assert_eq!(e.previous_read_addr(), 7);
    }
}

#[test]
fn write_array_length_fifteen_is_refused_after_page_select() {
    let mut e = device();
    assert_eq!(e.write_byte_array(0x00, &[7; 15]), Err(Error::InvalidDataArrayMultiple));
    assert_eq!(e.previous_write_addr(), 0);
    let bus = e.destroy();
    assert_eq!(bus.log, vec![(PA_FUNC_BITS, vec![0, 0], 0)]);
    assert!(bus.mem.iter().all(|b| *b == 0xEE));
}

#[test]
fn usage_example_write_then_read() {
    let mut e = Eeprom34c04::new_34c04(FakeBus::new(0b1010011), SlaveAddr::A2A1A0(false, true, true));
    let memory_address = 0x0F;
    let data = 0xF0;
    e.write_byte(memory_address, data).unwrap();
    let read_data = e.read_byte(memory_address).unwrap();
    assert_eq!(read_data, 0xF0);
}

#[test]
fn read_array_untouched_on_refusal() {
    let mut e = device();
    let mut buf = [5u8; 4];
    assert_eq!(e.read_byte_array(0x7E, &mut buf), Err(Error::PageWindowOverflow));
    assert_eq!(e.read_byte_array(0x300, &mut buf), Err(Error::InvalidAddr));
    assert_eq!(buf, [5; 4]);
}
