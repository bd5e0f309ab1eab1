//! Driver for an EZO RTD temperature sensor on an I2C bus: a command is
//! written, and after a pause a response of fourteen bytes is read. The
//! first byte is a status code, the rest a NUL-terminated text.
use crate::decimal::Decimal;
use crate::parse::{atom_of, atom_value, chars_of};
use crate::val::{Term, Val};
use vstd::prelude::*;
use vstd::utf8::{decode_utf8, valid_utf8};

verus! {

/// Size of the sensor's response buffer.
pub const RESPONSE_LEN: usize = 14;

/// The ways in which talking to the sensor fails.
#[derive(Clone, Copy, Debug, PartialEq, Eq, Structural)]
pub enum Error {
    /// I2C bus error
    I2c,
    /// Still processing, not ready
    NotReady,
    /// Syntax Error
    SyntaxError,
    /// Error parsing response
    ParseError,
}

/// An I2C master, as the driver uses it.
pub trait I2cBus {
    /// Writes `bytes` to the device at `address`.
    fn write(&mut self, address: u8, bytes: &[u8]) -> (r: Result<(), ()>);

    /// Fills `buffer` with bytes read from the device at `address`.
    fn read(&mut self, address: u8, buffer: &mut Vec<u8>) -> (r: Result<(), ()>)
        ensures
            final(buffer)@.len() == old(buffer)@.len(),
    ;
}

/// A source of pauses.
pub trait Pause {
    /// Waits `ms` milliseconds.
    fn delay_ms(&mut self, ms: u16);
}

/// What a response's status code says.
pub open spec fn status_of(code: u8) -> Result<(), Error> {
    if code == 254 {
        Err(Error::NotReady)
    } else if code == 2 {
        Err(Error::SyntaxError)
    } else if code == 1 {
        Ok(())
    } else {
        Err(Error::ParseError)
    }
}

/// The position of the first NUL byte of `b`, or its length.
pub open spec fn text_end(b: Seq<u8>) -> int
    decreases b.len(),
{
    if b.len() == 0 {
        0
    } else if b[0] == 0 {
        0
    } else {
        1 + text_end(b.subrange(1, b.len() as int))
    }
}

/// The text of a response: the bytes after the status code, up to the first
/// NUL, read as UTF-8.
pub open spec fn text_of(b: Seq<u8>) -> Result<Seq<char>, Error> {
    let t = b.subrange(1, text_end(b));
    if valid_utf8(t) {
        Ok(decode_utf8(t))
    } else {
        Err(Error::ParseError)
    }
}

/// What a buffer of response bytes says: its text where the status code is
/// a success.
pub open spec fn response_of(b: Seq<u8>) -> Result<Seq<char>, Error> {
    match status_of(b[0]) {
        Err(e) => Err(e),
        Ok(()) => text_of(b),
    }
}

/// The model of a text result.
pub open spec fn text_outcome(r: Result<String, Error>) -> Result<Seq<char>, Error> {
    match r {
        Ok(s) => Ok(s@),
        Err(e) => Err(e),
    }
}

/// The value of a reading, as a count of decimal units: the number that
/// the text of a response gives.
pub open spec fn reading_of(text: Seq<char>) -> Result<int, Error> {
    match atom_value(text) {
        Ok(Term::Num(n)) => if crate::decimal::fits_i64(n * crate::decimal::SCALE) {
            Ok(n * crate::decimal::SCALE)
        } else {
            Err(Error::ParseError)
        },
        Ok(Term::Float(u)) => Ok(u),
        _ => Err(Error::ParseError),
    }
}

/// Relies on `String::from_utf8`: success exactly on valid UTF-8, and then
/// the decoded characters.
#[verifier::external_body]
fn utf8_to_string(bytes: Vec<u8>) -> (r: Option<String>)
    ensures
        r is Some <==> valid_utf8(bytes@),
        r matches Some(s) ==> s@ == decode_utf8(bytes@),
{
    String::from_utf8(bytes).ok()
}

/// Sensor configuration
pub struct EzoRtd<I2C, Delay> {
    /// I2C master device to use to communicate with the sensor
    i2c: I2C,
    /// Delay device to be able to sleep in-between commands
    delay: Delay,
    /// I2C address
    address: u8,
}

fn zeroed_buffer() -> (r: Vec<u8>)
    ensures
        r@.len() == RESPONSE_LEN,
{
    let mut b: Vec<u8> = Vec::new();
    let mut i: usize = 0;
    while i < RESPONSE_LEN
        invariant
            i <= RESPONSE_LEN,
            b@.len() == i,
        decreases RESPONSE_LEN - i,
    {
        b.push(0);
        i = i + 1;
    }
    b
}

impl<I2C: I2cBus, Delay: Pause> EzoRtd<I2C, Delay> {
    pub fn new(i2c: I2C, delay: Delay, address: u8) -> (r: Self)
        ensures
            r.address() == address,
    {
        Self { i2c, delay, address }
    }

    pub closed spec fn address(&self) -> u8 {
        self.address
    }

    /// Writes a command to the sensor.
    pub fn send_command(&mut self, command: &str) -> (r: Result<(), Error>)
        ensures
            r is Ok || r == Err::<(), Error>(Error::I2c),
            final(self).address() == old(self).address(),
    {
        match self.i2c.write(self.address, command.as_bytes()) {
            Ok(()) => Ok(()),
            Err(()) => Err(Error::I2c),
        }
    }

    /// Reads a response into `buf` and checks its status code.
    pub fn read_response(&mut self, buf: &mut Vec<u8>) -> (r: Result<(), Error>)
        requires
            old(buf)@.len() > 0,
        ensures
            final(buf)@.len() == old(buf)@.len(),
            final(self).address() == old(self).address(),
            r == Err::<(), Error>(Error::I2c) || r == status_of(final(buf)@[0]),
    {
        match self.i2c.read(self.address, buf) {
            Ok(()) => {},
            Err(()) => {
                return Err(Error::I2c);
            },
        }
        self.validate_response_code(buf)
    }

    /// What the status code at the start of `buf` says.
    pub fn validate_response_code(&self, buf: &[u8]) -> (r: Result<(), Error>)
        requires
            buf@.len() > 0,
        ensures
            r == status_of(buf@[0]),
    {
        match buf[0] {
            254 => Err(Error::NotReady),
            2 => Err(Error::SyntaxError),
            1 => Ok(()),
            _ => Err(Error::ParseError),
        }
    }

    /// The text of a response: the bytes after the status code, up to the
    /// first NUL.
    pub fn extract_string(&self, buf: &[u8]) -> (r: Result<String, Error>)
        requires
            buf@.len() > 0,
            buf@[0] != 0,
        ensures
            text_outcome(r) == text_of(buf@),
    {
        let mut end: usize = 0;
        while end < buf.len() && buf[end] != 0
            invariant
                end <= buf@.len(),
                forall|j: int| 0 <= j < end ==> buf@[j] != 0,
            decreases buf@.len() - end,
        {
            end = end + 1;
        }
        proof {
            lemma_text_end(buf@, end as int);
        }
        let mut text: Vec<u8> = Vec::new();
        let mut i: usize = 1;
        while i < end
            invariant
                1 <= end <= buf@.len(),
                1 <= i <= end,
                text@ == buf@.subrange(1, i as int),
            decreases end - i,
        {
            text.push(buf[i]);
            assert(buf@.subrange(1, i + 1) =~= buf@.subrange(1, i as int).push(buf@[i as int]));
            i = i + 1;
        }
        match utf8_to_string(text) {
            Some(s) => Ok(s),
            None => Err(Error::ParseError),
        }
    }

    /// Sends `command`, waits `wait` milliseconds and reads the response's
    /// text.
    fn query(&mut self, command: &str, wait: u16) -> (r: Result<String, Error>)
        ensures
            r == Err::<String, Error>(Error::I2c) || exists|b: Seq<u8>|
                b.len() == RESPONSE_LEN && text_outcome(r) == response_of(b),
    {
        self.send_command(command)?;
        self.delay.delay_ms(wait);
        let mut buffer = zeroed_buffer();
        match self.read_response(&mut buffer) {
            Ok(()) => {},
            Err(e) => {
                assert(e == Error::I2c || status_of(buffer@[0]) == Err::<(), Error>(e));
                return Err(e);
            },
        }
        let r = self.extract_string(buffer.as_slice());
        assert(text_outcome(r) == response_of(buffer@));
        r
    }

    /// The device information that the `i` command reports.
    pub fn information(&mut self) -> (r: Result<String, Error>)
        ensures
            r == Err::<String, Error>(Error::I2c) || exists|b: Seq<u8>|
                b.len() == RESPONSE_LEN && text_outcome(r) == response_of(b),
    {
        self.query("i", 600)
    }

    /// The device status that the `Status` command reports.
    pub fn status(&mut self) -> (r: Result<String, Error>)
        ensures
            r == Err::<String, Error>(Error::I2c) || exists|b: Seq<u8>|
                b.len() == RESPONSE_LEN && text_outcome(r) == response_of(b),
    {
        self.query("Status", 300)
    }

    /// A temperature reading (the `R` command), as a decimal.
    pub fn read(&mut self) -> (r: Result<Decimal, Error>)
        ensures
            r == Err::<Decimal, Error>(Error::I2c) || exists|b: Seq<u8>|
                b.len() == RESPONSE_LEN && match response_of(b) {
                    Err(e) => r == Err::<Decimal, Error>(e),
                    Ok(text) => match reading_of(text) {
                        Err(e) => r == Err::<Decimal, Error>(e),
                        Ok(u) => r matches Ok(d) && d.units == u,
                    },
                },
    {
        let text = self.query("R", 600)?;
        let cs = chars_of(text.as_str());
        match atom_of(&cs) {
            Ok(Val::Num(n)) => match Decimal::from_whole(n) {
                Some(d) => Ok(d),
                None => Err(Error::ParseError),
            },
            Ok(Val::Float(d)) => Ok(d),
            _ => Err(Error::ParseError),
        }
    }
}

proof fn lemma_text_end(b: Seq<u8>, end: int)
    requires
        0 <= end <= b.len(),
        forall|j: int| 0 <= j < end ==> b[j] != 0,
        end == b.len() || b[end] == 0,
    ensures
        text_end(b) == end,
    decreases b.len(),
{
    if b.len() > 0 && end > 0 {
        let t = b.subrange(1, b.len() as int);
        assert forall|j: int| 0 <= j < end - 1 implies t[j] != 0 by {
            assert(t[j] == b[j + 1]);
        }
        lemma_text_end(t, end - 1);
    }
}

} // verus!
