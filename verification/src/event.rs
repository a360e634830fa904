//! DTMF digits and received telephone events.

use vstd::prelude::*;

use crate::rtp::{MediaTime, Mid};

verus! {

/// A DTMF digit or telephony event (RFC 4733 section 3.2, RFC 4734).
#[derive(Debug, Clone, Copy, PartialEq, Eq, Structural)]
pub enum Dtmf {
    D0,
    D1,
    D2,
    D3,
    D4,
    D5,
    D6,
    D7,
    D8,
    D9,
    /// The `*` key.
    Star,
    /// The `#` key.
    Pound,
    A,
    B,
    C,
    D,
    /// Hook flash.
    Flash,
}

/// The ASCII upper-case form of `c`; any other character stands for itself.
pub open spec fn ascii_upper(c: char) -> char {
    if 'a' <= c && c <= 'z' {
        (c as int - 32) as char
    } else {
        c
    }
}

/// The characters on a dialpad.
pub open spec fn is_dialpad_char(c: char) -> bool {
    ||| '0' <= c && c <= '9'
    ||| c == '*'
    ||| c == '#'
    ||| 'A' <= c && c <= 'D'
}

impl Dtmf {
    /// The event code that RFC 4733 assigns to this event.
    pub open spec fn code(self) -> u8 {
        match self {
            Dtmf::D0 => 0,
            Dtmf::D1 => 1,
            Dtmf::D2 => 2,
            Dtmf::D3 => 3,
            Dtmf::D4 => 4,
            Dtmf::D5 => 5,
            Dtmf::D6 => 6,
            Dtmf::D7 => 7,
            Dtmf::D8 => 8,
            Dtmf::D9 => 9,
            Dtmf::Star => 10,
            Dtmf::Pound => 11,
            Dtmf::A => 12,
            Dtmf::B => 13,
            Dtmf::C => 14,
            Dtmf::D => 15,
            Dtmf::Flash => 16,
        }
    }

    /// The key of a dialpad that this event stands for. Flash has none.
    pub open spec fn key(self) -> Option<char> {
        match self {
            Dtmf::Star => Some('*'),
            Dtmf::Pound => Some('#'),
            Dtmf::A => Some('A'),
            Dtmf::B => Some('B'),
            Dtmf::C => Some('C'),
            Dtmf::D => Some('D'),
            Dtmf::Flash => None,
            digit => Some(('0' as int + digit.code()) as char),
        }
    }

    /// The event with the given code, if there is one.
    pub open spec fn of_code(code: u8) -> Option<Dtmf> {
        match code {
            0 => Some(Dtmf::D0),
            1 => Some(Dtmf::D1),
            2 => Some(Dtmf::D2),
            3 => Some(Dtmf::D3),
            4 => Some(Dtmf::D4),
            5 => Some(Dtmf::D5),
            6 => Some(Dtmf::D6),
            7 => Some(Dtmf::D7),
            8 => Some(Dtmf::D8),
            9 => Some(Dtmf::D9),
            10 => Some(Dtmf::Star),
            11 => Some(Dtmf::Pound),
            12 => Some(Dtmf::A),
            13 => Some(Dtmf::B),
            14 => Some(Dtmf::C),
            15 => Some(Dtmf::D),
            16 => Some(Dtmf::Flash),
            _ => None,
        }
    }

    /// The event that the given character dials, if there is one.
    pub open spec fn of_char(c: char) -> Option<Dtmf> {
        match ascii_upper(c) {
            '0' => Some(Dtmf::D0),
            '1' => Some(Dtmf::D1),
            '2' => Some(Dtmf::D2),
            '3' => Some(Dtmf::D3),
            '4' => Some(Dtmf::D4),
            '5' => Some(Dtmf::D5),
            '6' => Some(Dtmf::D6),
            '7' => Some(Dtmf::D7),
            '8' => Some(Dtmf::D8),
            '9' => Some(Dtmf::D9),
            '*' => Some(Dtmf::Star),
            '#' => Some(Dtmf::Pound),
            'A' => Some(Dtmf::A),
            'B' => Some(Dtmf::B),
            'C' => Some(Dtmf::C),
            'D' => Some(Dtmf::D),
            _ => None,
        }
    }

    /// The RFC 4733 event code for this event.
    pub fn event_code(&self) -> (r: u8)
        ensures
            r == self.code(),
            match *self {
                Dtmf::D0 => r == 0,
                Dtmf::D1 => r == 1,
                Dtmf::D2 => r == 2,
                Dtmf::D3 => r == 3,
                Dtmf::D4 => r == 4,
                Dtmf::D5 => r == 5,
                Dtmf::D6 => r == 6,
                Dtmf::D7 => r == 7,
                Dtmf::D8 => r == 8,
                Dtmf::D9 => r == 9,
                Dtmf::Star => r == 10,
                Dtmf::Pound => r == 11,
                Dtmf::A => r == 12,
                Dtmf::B => r == 13,
                Dtmf::C => r == 14,
                Dtmf::D => r == 15,
                Dtmf::Flash => r == 16,
            },
    {
        match self {
            Dtmf::D0 => 0,
            Dtmf::D1 => 1,
            Dtmf::D2 => 2,
            Dtmf::D3 => 3,
            Dtmf::D4 => 4,
            Dtmf::D5 => 5,
            Dtmf::D6 => 6,
            Dtmf::D7 => 7,
            Dtmf::D8 => 8,
            Dtmf::D9 => 9,
            Dtmf::Star => 10,
            Dtmf::Pound => 11,
            Dtmf::A => 12,
            Dtmf::B => 13,
            Dtmf::C => 14,
            Dtmf::D => 15,
            Dtmf::Flash => 16,
        }
    }

    /// Creates a [`Dtmf`] from an RFC 4733 event code, if it is a known event.
    pub fn from_event_code(code: u8) -> (r: Option<Dtmf>)
        ensures
            r == Dtmf::of_code(code),
            match r {
                Some(d) => d.code() == code,
                None => code > 16,
            },
            match r {
                Some(Dtmf::D0) => code == 0,
                Some(Dtmf::D1) => code == 1,
                Some(Dtmf::D2) => code == 2,
                Some(Dtmf::D3) => code == 3,
                Some(Dtmf::D4) => code == 4,
                Some(Dtmf::D5) => code == 5,
                Some(Dtmf::D6) => code == 6,
                Some(Dtmf::D7) => code == 7,
                Some(Dtmf::D8) => code == 8,
                Some(Dtmf::D9) => code == 9,
                Some(Dtmf::Star) => code == 10,
                Some(Dtmf::Pound) => code == 11,
                Some(Dtmf::A) => code == 12,
                Some(Dtmf::B) => code == 13,
                Some(Dtmf::C) => code == 14,
                Some(Dtmf::D) => code == 15,
                Some(Dtmf::Flash) => code == 16,
                None => code > 16,
            },
    {
        let d: Dtmf = match code {
            0 => Dtmf::D0,
            1 => Dtmf::D1,
            2 => Dtmf::D2,
            3 => Dtmf::D3,
            4 => Dtmf::D4,
            5 => Dtmf::D5,
            6 => Dtmf::D6,
            7 => Dtmf::D7,
            8 => Dtmf::D8,
            9 => Dtmf::D9,
            10 => Dtmf::Star,
            11 => Dtmf::Pound,
            12 => Dtmf::A,
            13 => Dtmf::B,
            14 => Dtmf::C,
            15 => Dtmf::D,
            16 => Dtmf::Flash,
            _ => return None,
        };
        Some(d)
    }

    /// The dialpad character for this event, if any.
    pub fn to_char(&self) -> (r: Option<char>)
        ensures
            r == self.key(),
            match *self {
                Dtmf::D0 => r == Some('0'),
                Dtmf::D1 => r == Some('1'),
                Dtmf::D2 => r == Some('2'),
                Dtmf::D3 => r == Some('3'),
                Dtmf::D4 => r == Some('4'),
                Dtmf::D5 => r == Some('5'),
                Dtmf::D6 => r == Some('6'),
                Dtmf::D7 => r == Some('7'),
                Dtmf::D8 => r == Some('8'),
                Dtmf::D9 => r == Some('9'),
                Dtmf::Star => r == Some('*'),
                Dtmf::Pound => r == Some('#'),
                Dtmf::A => r == Some('A'),
                Dtmf::B => r == Some('B'),
                Dtmf::C => r == Some('C'),
                Dtmf::D => r == Some('D'),
                Dtmf::Flash => r == None::<char>,
            },
    {
        let c: char = match self {
            Dtmf::D0 => '0',
            Dtmf::D1 => '1',
            Dtmf::D2 => '2',
            Dtmf::D3 => '3',
            Dtmf::D4 => '4',
            Dtmf::D5 => '5',
            Dtmf::D6 => '6',
            Dtmf::D7 => '7',
            Dtmf::D8 => '8',
            Dtmf::D9 => '9',
            Dtmf::Star => '*',
            Dtmf::Pound => '#',
            Dtmf::A => 'A',
            Dtmf::B => 'B',
            Dtmf::C => 'C',
            Dtmf::D => 'D',
            Dtmf::Flash => return None,
        };
        Some(c)
    }

    /// Parses a dialpad character (`0`-`9`, `*`, `#`, `A`-`D`) into an event.
    /// The letters are accepted in lower case too.
    pub fn from_char(c: char) -> (r: Option<Dtmf>)
        ensures
            r == Dtmf::of_char(c),
            match r {
                Some(d) => d.key() == Some(ascii_upper(c)),
                None => !is_dialpad_char(ascii_upper(c)),
            },
            match r {
                Some(Dtmf::D0) => c == '0',
                Some(Dtmf::D1) => c == '1',
                Some(Dtmf::D2) => c == '2',
                Some(Dtmf::D3) => c == '3',
                Some(Dtmf::D4) => c == '4',
                Some(Dtmf::D5) => c == '5',
                Some(Dtmf::D6) => c == '6',
                Some(Dtmf::D7) => c == '7',
                Some(Dtmf::D8) => c == '8',
                Some(Dtmf::D9) => c == '9',
                Some(Dtmf::Star) => c == '*',
                Some(Dtmf::Pound) => c == '#',
                Some(Dtmf::A) => c == 'A' || c == 'a',
                Some(Dtmf::B) => c == 'B' || c == 'b',
                Some(Dtmf::C) => c == 'C' || c == 'c',
                Some(Dtmf::D) => c == 'D' || c == 'd',
                Some(Dtmf::Flash) => false,
                None => {
                    &&& !('0' <= c && c <= '9')
                    &&& c != '*'
                    &&& c != '#'
                    &&& !('A' <= c && c <= 'D')
                    &&& !('a' <= c && c <= 'd')
                },
            },
    {
        let d: Dtmf = match c {
            '0' => Dtmf::D0,
            '1' => Dtmf::D1,
            '2' => Dtmf::D2,
            '3' => Dtmf::D3,
            '4' => Dtmf::D4,
            '5' => Dtmf::D5,
            '6' => Dtmf::D6,
            '7' => Dtmf::D7,
            '8' => Dtmf::D8,
            '9' => Dtmf::D9,
            '*' => Dtmf::Star,
            '#' => Dtmf::Pound,
            'A' | 'a' => Dtmf::A,
            'B' | 'b' => Dtmf::B,
            'C' | 'c' => Dtmf::C,
            'D' | 'd' => Dtmf::D,
            _ => return None,
        };
        Some(d)
    }
}

/// Each event has the code that RFC 4733 gives it: the digits have their own
/// value, and `*`, `#`, `A` to `D` and Flash follow in this order.
pub proof fn law_code_of_each_event(d: Dtmf)
    ensures
        match d {
            Dtmf::D0 => d.code() == 0,
            Dtmf::D1 => d.code() == 1,
            Dtmf::D2 => d.code() == 2,
            Dtmf::D3 => d.code() == 3,
            Dtmf::D4 => d.code() == 4,
            Dtmf::D5 => d.code() == 5,
            Dtmf::D6 => d.code() == 6,
            Dtmf::D7 => d.code() == 7,
            Dtmf::D8 => d.code() == 8,
            Dtmf::D9 => d.code() == 9,
            Dtmf::Star => d.code() == 10,
            Dtmf::Pound => d.code() == 11,
            Dtmf::A => d.code() == 12,
            Dtmf::B => d.code() == 13,
            Dtmf::C => d.code() == 14,
            Dtmf::D => d.code() == 15,
            Dtmf::Flash => d.code() == 16,
        },
{
}

/// Each code stands for the event that RFC 4733 gives it, and no code above
/// that of Flash stands for any.
pub proof fn law_event_of_each_code(code: u8)
    ensures
        match Dtmf::of_code(code) {
            Some(Dtmf::D0) => code == 0,
            Some(Dtmf::D1) => code == 1,
            Some(Dtmf::D2) => code == 2,
            Some(Dtmf::D3) => code == 3,
            Some(Dtmf::D4) => code == 4,
            Some(Dtmf::D5) => code == 5,
            Some(Dtmf::D6) => code == 6,
            Some(Dtmf::D7) => code == 7,
            Some(Dtmf::D8) => code == 8,
            Some(Dtmf::D9) => code == 9,
            Some(Dtmf::Star) => code == 10,
            Some(Dtmf::Pound) => code == 11,
            Some(Dtmf::A) => code == 12,
            Some(Dtmf::B) => code == 13,
            Some(Dtmf::C) => code == 14,
            Some(Dtmf::D) => code == 15,
            Some(Dtmf::Flash) => code == 16,
            None => code > 16,
        },
{
}

/// Each event has its own key by name. The key of a digit is its value counted
/// from the character `0`, and that of a letter counts from `A`.
pub proof fn law_key_of_each_event(d: Dtmf)
    ensures
        match d {
            Dtmf::Star => d.key() == Some('*'),
            Dtmf::Pound => d.key() == Some('#'),
            Dtmf::A => d.key() == Some('A'),
            Dtmf::B => d.key() == Some('B'),
            Dtmf::C => d.key() == Some('C'),
            Dtmf::D => d.key() == Some('D'),
            Dtmf::Flash => d.key() is None,
            _ => d.key() matches Some(c) && c as int == '0' as int + d.code(),
        },
        d.code() <= 9 <==> (d.key() matches Some(c) && '0' <= c && c <= '9'),
        12 <= d.code() <= 15 ==> (d.key() matches Some(c) && c as int == 'A' as int + d.code() - 12),
{
}

/// Each character dials the event by that name, a letter in either case, and no
/// other character dials any.
pub proof fn law_event_of_each_char(c: char)
    ensures
        match Dtmf::of_char(c) {
            Some(Dtmf::D0) => c == '0',
            Some(Dtmf::D1) => c == '1',
            Some(Dtmf::D2) => c == '2',
            Some(Dtmf::D3) => c == '3',
            Some(Dtmf::D4) => c == '4',
            Some(Dtmf::D5) => c == '5',
            Some(Dtmf::D6) => c == '6',
            Some(Dtmf::D7) => c == '7',
            Some(Dtmf::D8) => c == '8',
            Some(Dtmf::D9) => c == '9',
            Some(Dtmf::Star) => c == '*',
            Some(Dtmf::Pound) => c == '#',
            Some(Dtmf::A) => c == 'A' || c == 'a',
            Some(Dtmf::B) => c == 'B' || c == 'b',
            Some(Dtmf::C) => c == 'C' || c == 'c',
            Some(Dtmf::D) => c == 'D' || c == 'd',
            Some(Dtmf::Flash) => false,
            None => {
                &&& !('0' <= c && c <= '9')
                &&& c != '*'
                &&& c != '#'
                &&& !('A' <= c && c <= 'D')
                &&& !('a' <= c && c <= 'd')
            },
        },
        '0' <= c && c <= '9' ==> (Dtmf::of_char(c) matches Some(d) && d.code() == c as int
            - '0' as int),
{
}

/// No two events share an event code.
pub proof fn law_event_codes_are_distinct(a: Dtmf, b: Dtmf)
    requires
        a.code() == b.code(),
    ensures
        a == b,
{
}

/// Decoding the code of an event gives that event back, and the event decoded
/// from a code has that code. A code decodes exactly when it is at most 16.
pub proof fn law_event_code_roundtrip(d: Dtmf, code: u8)
    ensures
        Dtmf::of_code(d.code()) == Some(d),
        Dtmf::of_code(code) is Some <==> code <= 16,
        Dtmf::of_code(code) matches Some(e) ==> e.code() == code,
{
}

/// Every event but Flash has a key on the dialpad, and no two events share one.
pub proof fn law_keys_are_distinct(a: Dtmf, b: Dtmf)
    ensures
        a.key() is None <==> a == Dtmf::Flash,
        a.key() matches Some(c) ==> is_dialpad_char(c),
        a.key() is Some && a.key() == b.key() ==> a == b,
{
}

/// Parsing the key of an event gives that event back, and the event parsed from
/// a character has that character, in upper case, for its key. A character
/// parses exactly when its upper-case form is on the dialpad, so the case of a
/// letter does not matter and Flash is never parsed.
pub proof fn law_char_roundtrip(d: Dtmf, c: char)
    ensures
        d.key() matches Some(key) ==> Dtmf::of_char(key) == Some(d),
        Dtmf::of_char(c) is Some <==> is_dialpad_char(ascii_upper(c)),
        Dtmf::of_char(c) matches Some(e) ==> e.key() == Some(ascii_upper(c)) && e != Dtmf::Flash,
        Dtmf::of_char(c) == Dtmf::of_char(ascii_upper(c)),
{
}

/// A received telephone event (DTMF).
///
/// One `DtmfEvent` is emitted per completed tone, once its final (end) packet
/// has been received.
#[derive(Debug, Clone, PartialEq, Eq)]
pub struct DtmfEvent {
    /// The media (m-line) the event was received on.
    pub mid: Mid,
    /// The raw RFC 4733 event code.
    pub event: u8,
    /// The decoded DTMF digit, if the event code is a known DTMF event.
    pub dtmf: Option<Dtmf>,
    /// The reported volume, in -dBm0 (0-63).
    pub volume: u8,
    /// The total duration of the tone, in the payload clock rate.
    pub duration: MediaTime,
}

} // verus!
