use risp::ezortd::{Error, EzoRtd, I2cBus, Pause};

/// One expected bus transfer: a write of given bytes, or a read that hands
/// out given bytes; either may fail.
enum Transaction {
    Write(u8, Vec<u8>, bool),
    Read(u8, Vec<u8>),
}

struct MockBus {
    expected: Vec<Transaction>,
    next: usize,
}

impl MockBus {
    fn new(expected: Vec<Transaction>) -> MockBus {
        MockBus { expected, next: 0 }
    }
}

impl I2cBus for MockBus {
    fn write(&mut self, address: u8, bytes: &[u8]) -> Result<(), ()> {
        let t = &self.expected[self.next];
        self.next += 1;
        match t {
            Transaction::Write(a, b, fail) => {
                assert_eq!(*a, address);
                assert_eq!(b.as_slice(), bytes);
                if *fail {
                    Err(())
                } else {
                    Ok(())
                }
            }
            Transaction::Read(_, _) => panic!("unexpected write"),
        }
    }

    fn read(&mut self, address: u8, buffer: &mut Vec<u8>) -> Result<(), ()> {
        let t = &self.expected[self.next];
        self.next += 1;
        match t {
            Transaction::Read(a, b) => {
                assert_eq!(*a, address);
                assert_eq!(b.len(), buffer.len());
                buffer.copy_from_slice(b);
                Ok(())
            }
            Transaction::Write(_, _, _) => panic!("unexpected read"),
        }
    }
}

struct NoopDelay;

impl Pause for NoopDelay {
    fn delay_ms(&mut self, _ms: u16) {}
}

#[test]
fn send_command() {
    let expectations = vec![Transaction::Write(0x66, "i".as_bytes().to_vec(), false)];
    let mock = MockBus::new(expectations);
    let mut rtd = EzoRtd::new(mock, NoopDelay, 0x66);
    let res = rtd.send_command("i");
    assert!(res.is_ok());
}

#[test]
fn send_command_error() {
    let expectations = vec![Transaction::Write(0x66, "i".as_bytes().to_vec(), true)];
    let mock = MockBus::new(expectations);
    let mut rtd = EzoRtd::new(mock, NoopDelay, 0x66);
    let err = rtd.send_command("i").unwrap_err();
    assert_eq!(err, Error::I2c);
}

#[test]
fn read_response_success() {
    let expectations = vec![Transaction::Read(0x66, vec![1, 4])];
    let mock = MockBus::new(expectations);
    let mut rtd = EzoRtd::new(mock, NoopDelay, 0x66);
    let mut buf = vec![0u8, 2];
    rtd.read_response(&mut buf).unwrap();
    assert_eq!(buf, vec![1, 4]);
}

#[test]
fn read_response_syntax_error() {
    let expectations = vec![Transaction::Read(0x66, vec![2, 4])];
    let mock = MockBus::new(expectations);
    let mut rtd = EzoRtd::new(mock, NoopDelay, 0x66);
    let mut buf = vec![0u8, 2];
    let err = rtd.read_response(&mut buf).unwrap_err();
    assert_eq!(err, Error::SyntaxError);
}

#[test]
fn read_response_not_ready() {
    let expectations = vec![Transaction::Read(0x66, vec![254, 4])];
    let mock = MockBus::new(expectations);
    let mut rtd = EzoRtd::new(mock, NoopDelay, 0x66);
    let mut buf = vec![0u8, 2];
    let err = rtd.read_response(&mut buf).unwrap_err();
    assert_eq!(err, Error::NotReady);
}

#[test]
fn read_response_parse_error() {
    let expectations = vec![Transaction::Read(0x66, vec![4, 4])];
    let mock = MockBus::new(expectations);
    let mut rtd = EzoRtd::new(mock, NoopDelay, 0x66);
    let mut buf = vec![0u8, 2];
    let err = rtd.read_response(&mut buf).unwrap_err();
    assert_eq!(err, Error::ParseError);
}

#[test]
fn read_success() {
    let expectations = vec![
        Transaction::Write(0x66, "R".as_bytes().to_vec(), false),
        Transaction::Read(0x66, vec![1, 49, 50, 46, 51, 52, 53, 0, 0, 0, 0, 0, 0, 0]),
    ];
    let mock = MockBus::new(expectations);
    let mut rtd = EzoRtd::new(mock, NoopDelay, 0x66);
    let res = rtd.read().unwrap();
    assert_eq!(res.units as f64 / 1e9, 12.345);
}

#[test]
fn information_reports_text() {
    let expectations = vec![
        Transaction::Write(0x66, "i".as_bytes().to_vec(), false),
        Transaction::Read(0x66, vec![1, 63, 73, 44, 82, 84, 68, 44, 50, 46, 48, 49, 0, 0]),
    ];
    let mock = MockBus::new(expectations);
    let mut rtd = EzoRtd::new(mock, NoopDelay, 0x66);
    assert_eq!(rtd.information().unwrap(), "?I,RTD,2.01");
}

#[test]
fn status_reports_not_ready() {
    let expectations = vec![
        Transaction::Write(0x66, "Status".as_bytes().to_vec(), false),
        Transaction::Read(0x66, vec![254, 0, 0, 0, 0, 0, 0, 0, 0, 0, 0, 0, 0, 0]),
    ];
    let mock = MockBus::new(expectations);
    let mut rtd = EzoRtd::new(mock, NoopDelay, 0x66);
    assert_eq!(rtd.status().unwrap_err(), Error::NotReady);
}

#[test]
fn extract_string_rejects_invalid_utf8() {
    let mock = MockBus::new(vec![]);
    let rtd = EzoRtd::new(mock, NoopDelay, 0x66);
    assert_eq!(rtd.extract_string(&[1, 0xff, 0xfe, 0]).unwrap_err(), Error::ParseError);
    assert_eq!(rtd.extract_string(&[1, 104, 105, 0, 33]).unwrap(), "hi");
}
