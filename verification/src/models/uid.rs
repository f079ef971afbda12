//! Identifiers: a four-byte prefix followed by a timestamp in microseconds,
//! most significant byte first.
use vstd::prelude::*;
use vstd::pervasive::unreached;
use vstd::string::StringExecFns;
use vstd::utf8::is_ascii_chars;
use crate::text::{chars_of, decimal_digits, push_decimal, string_of};

verus! {

broadcast use vstd::string::group_string_axioms;

/// Error type for identifier creation failures.
#[derive(Debug, PartialEq)]
pub enum PrefixError {
    /// The prefix is empty or longer than four bytes.
    InvalidPrefixLength(String),
    /// The prefix holds a character outside ASCII.
    InvalidUtf8,
    /// The bytes of an identifier are not twelve; holds their number.
    InvalidLength(usize),
}

/// What a `PrefixError` says, with the message as a sequence of
/// characters.
pub enum PrefixErrorView {
    InvalidPrefixLength(Seq<char>),
    InvalidUtf8,
    InvalidLength(nat),
}

impl View for PrefixError {
    type V = PrefixErrorView;

    open spec fn view(&self) -> PrefixErrorView {
        match self {
            PrefixError::InvalidPrefixLength(m) => PrefixErrorView::InvalidPrefixLength(m@),
            PrefixError::InvalidUtf8 => PrefixErrorView::InvalidUtf8,
            PrefixError::InvalidLength(n) => PrefixErrorView::InvalidLength(*n as nat),
        }
    }
}

impl PrefixError {
    /// The text shown for the error.
    pub open spec fn display(&self) -> Seq<char> {
        match self {
            PrefixError::InvalidPrefixLength(m) => "Invalid prefix length: Expected 1 to 4 bytes. Received: "@
                + m@,
            PrefixError::InvalidUtf8 => "Invalid UTF-8 input"@,
            PrefixError::InvalidLength(n) => "Invalid identifier length: Expected 12 bytes. Received: "@
                + decimal_digits(*n as nat),
        }
    }

    /// The text shown for the error.
    pub fn to_string(&self) -> (s: String)
        ensures
            s@ == self.display(),
    {
        match self {
            PrefixError::InvalidPrefixLength(m) => "Invalid prefix length: Expected 1 to 4 bytes. Received: "
                .to_owned().concat(m.as_str()),
            PrefixError::InvalidUtf8 => "Invalid UTF-8 input".to_owned(),
            PrefixError::InvalidLength(n) => {
                let mut digits: Vec<char> = Vec::new();
                push_decimal(&mut digits, *n as u64);
                assert(digits@ =~= decimal_digits(*n as nat));
                "Invalid identifier length: Expected 12 bytes. Received: ".to_owned().concat(
                    string_of(&digits).as_str(),
                )
            },
        }
    }
}

/// The four bytes of a prefix text: its characters as bytes, then zeros.
pub open spec fn padded(s: Seq<char>) -> Seq<u8> {
    Seq::new(
        4,
        |i: int|
            if i < s.len() {
                s[i] as u8
            } else {
                0u8
            },
    )
}

/// The prefix that a text gives: a text with a character outside ASCII is
/// refused, then a text of no or of more than four characters, with a
/// message that ends in its length.
pub open spec fn prefix_of(s: Seq<char>) -> Result<Seq<u8>, PrefixErrorView> {
    if !is_ascii_chars(s) {
        Err(PrefixErrorView::InvalidUtf8)
    } else if s.len() == 0 || s.len() > 4 {
        Err(
            PrefixErrorView::InvalidPrefixLength(
                "Expected 1 to 4 bytes. Received: "@ + decimal_digits(s.len()),
            ),
        )
    } else {
        Ok(padded(s))
    }
}

/// A result with its array, if any, replaced by its bytes, and its error,
/// if any, by what the error says.
pub open spec fn prefix_outcome<const N: usize>(r: Result<[u8; N], PrefixError>) -> Result<
    Seq<u8>,
    PrefixErrorView,
> {
    match r {
        Ok(bytes) => Ok(bytes@),
        Err(e) => Err(e@),
    }
}

/// Generates a 4-byte prefix from the input string. If the input string is
/// shorter than 4 bytes, it pads the result with zeros.
pub fn prefix(input: &str) -> (out: Result<[u8; 4], PrefixError>)
    ensures
        prefix_outcome(out) == prefix_of(input@),
{
    if !input.is_ascii() {
        return Err(PrefixError::InvalidUtf8);
    }
    let chars = chars_of(input);
    let len = chars.len();
    if len == 0 || len > 4 {
        let mut digits: Vec<char> = Vec::new();
        push_decimal(&mut digits, len as u64);
        assert(digits@ =~= decimal_digits(len as nat));
        let message = "Expected 1 to 4 bytes. Received: ".to_owned().concat(
            string_of(&digits).as_str(),
        );
        return Err(PrefixError::InvalidPrefixLength(message));
    }
    let mut result: [u8; 4] = [0u8; 4];
    let mut i: usize = 0;
    while i < len
        invariant
            i <= len <= 4,
            len == chars.len(),
            chars@ == input@,
            is_ascii_chars(input@),
            forall|k: int| 0 <= k < i ==> result@[k] == input@[k] as u8,
            forall|k: int| i <= k < 4 ==> result@[k] == 0u8,
        decreases len - i,
    {
        result[i] = chars[i] as u8;
        i += 1;
    }
    assert(result@ =~= padded(input@));
    Ok(result)
}

/// The eight bytes of `x`, most significant first.
pub open spec fn be_bytes(x: u64) -> Seq<u8> {
    seq![
        (x / 0x100_0000_0000_0000) as u8,
        (x / 0x1_0000_0000_0000 % 256) as u8,
        (x / 0x100_0000_0000 % 256) as u8,
        (x / 0x1_0000_0000 % 256) as u8,
        (x / 0x100_0000 % 256) as u8,
        (x / 0x1_0000 % 256) as u8,
        (x / 0x100 % 256) as u8,
        (x % 256) as u8,
    ]
}

/// The number that eight bytes write, most significant first.
pub open spec fn from_be_bytes(s: Seq<u8>) -> int
    recommends
        s.len() == 8,
{
    s[0] * 0x100_0000_0000_0000 + s[1] * 0x1_0000_0000_0000 + s[2] * 0x100_0000_0000 + s[3]
        * 0x1_0000_0000 + s[4] * 0x100_0000 + s[5] * 0x1_0000 + s[6] * 0x100 + s[7]
}

/// Represents a concatenated ID consisting of a prefix and a timestamp.
///
/// ```text
/// V V V V  W W W W W W W W
/// |_____|  |_____________|
///    |            |
///  Prefix     Timestamp
/// ```
#[derive(Debug)]
pub struct GlobalId(pub [u8; 12]);

impl View for GlobalId {
    type V = Seq<u8>;

    open spec fn view(&self) -> Seq<u8> {
        self.0@
    }
}

impl GlobalId {
    /// The twelve bytes of the identifier with the given prefix and
    /// timestamp.
    pub fn assemble(prefix: [u8; 4], timestamp: u64) -> (id: [u8; 12])
        ensures
            id@.len() == 12,
            id@ == prefix@ + be_bytes(timestamp),
    {
        let id: [u8; 12] = [
            prefix[0],
            prefix[1],
            prefix[2],
            prefix[3],
            (timestamp / 0x100_0000_0000_0000) as u8,
            (timestamp / 0x1_0000_0000_0000 % 256) as u8,
            (timestamp / 0x100_0000_0000 % 256) as u8,
            (timestamp / 0x1_0000_0000 % 256) as u8,
            (timestamp / 0x100_0000 % 256) as u8,
            (timestamp / 0x1_0000 % 256) as u8,
            (timestamp / 0x100 % 256) as u8,
            (timestamp % 256) as u8,
        ];
        assert(id@ =~= prefix@ + be_bytes(timestamp));
        id
    }

    /// Generates a concatenated ID using the given prefix string and the
    /// current reading of the clock. The prefix is a way to provide human
    /// readable context to a global ID, similar to a `tag`; it must hold
    /// one to four ASCII characters.
    pub fn new(pfx: &str) -> (id: [u8; 12])
        requires
            prefix_of(pfx@) is Ok,
        ensures
            id@.len() == 12,
            id@.subrange(0, 4) == padded(pfx@),
            exists|t: u64| id@ == padded(pfx@) + be_bytes(t),
    {
        match GlobalId::try_new(pfx) {
            Ok(id) => id,
            Err(_) => unreached(),
        }
    }

    /// Generates a concatenated ID as `new` does, and refuses a prefix
    /// that `prefix` refuses.
    pub fn try_new(pfx: &str) -> (out: Result<[u8; 12], PrefixError>)
        ensures
            match prefix_of(pfx@) {
                Ok(p) => out matches Ok(id) && id@.len() == 12 && id@.subrange(0, 4) == p
                    && exists|t: u64| id@ == p + be_bytes(t),
                Err(e) => out matches Err(err) && err@ == e,
            },
    {
        match prefix(pfx) {
            Ok(id_prefix) => {
                let timestamp = crate::utils::timestamp();
                let id = GlobalId::assemble(id_prefix, timestamp);
                assert(id@.subrange(0, 4) =~= id_prefix@);
                Ok(id)
            },
            Err(e) => Err(e),
        }
    }

    /// Converts the GlobalID to a Vec<u8>.
    pub fn to_vec(&self) -> (out: Vec<u8>)
        ensures
            out@ == self@,
    {
        let mut out: Vec<u8> = Vec::new();
        let mut i: usize = 0;
        while i < 12
            invariant
                i <= 12,
                out@ == self@.take(i as int),
            decreases 12 - i,
        {
            out.push(self.0[i]);
            assert(self@.take(i + 1) =~= self@.take(i as int).push(self@[i as int]));
            i += 1;
        }
        assert(self@.take(12) =~= self@);
        out
    }

    /// Converts a Vec<u8> of twelve bytes to a GlobalId.
    pub fn from_vec(vec: Vec<u8>) -> (out: GlobalId)
        requires
            vec@.len() == 12,
        ensures
            out@ == vec@,
    {
        let mut global_id: [u8; 12] = [0u8; 12];
        let mut i: usize = 0;
        while i < 12
            invariant
                i <= 12,
                vec@.len() == 12,
                forall|k: int| 0 <= k < i ==> global_id@[k] == vec@[k],
            decreases 12 - i,
        {
            global_id[i] = vec[i];
            i += 1;
        }
        assert(global_id@ =~= vec@);
        GlobalId(global_id)
    }

    /// Converts a Vec<u8> to a GlobalId, and refuses one that does not
    /// hold exactly twelve bytes.
    pub fn try_from_vec(vec: Vec<u8>) -> (out: Result<GlobalId, PrefixError>)
        ensures
            match out {
                Ok(id) => vec@.len() == 12 && id@ == vec@,
                Err(e) => vec@.len() != 12 && e == PrefixError::InvalidLength(vec.len()),
            },
    {
        if vec.len() != 12 {
            Err(PrefixError::InvalidLength(vec.len()))
        } else {
            Ok(GlobalId::from_vec(vec))
        }
    }

    /// Returns the four bytes of the prefix.
    pub fn get_prefix(&self) -> (out: [u8; 4])
        ensures
            out@ == self@.subrange(0, 4),
    {
        let out: [u8; 4] = [self.0[0], self.0[1], self.0[2], self.0[3]];
        assert(out@ =~= self@.subrange(0, 4));
        out
    }

    /// Returns the prefix string from the GlobalId: each of the four
    /// bytes of the prefix as one character.
    pub fn get_prefix_str(&self) -> (out: String)
        ensures
            out@ == Seq::new(4, |i: int| self@[i] as char),
    {
        let mut chars: Vec<char> = Vec::new();
        chars.push(self.0[0] as char);
        chars.push(self.0[1] as char);
        chars.push(self.0[2] as char);
        chars.push(self.0[3] as char);
        assert(chars@ =~= Seq::new(4, |i: int| self@[i] as char));
        string_of(&chars)
    }

    /// Returns the timestamp from the GlobalId.
    pub fn get_timestamp(&self) -> (out: u64)
        ensures
            out == from_be_bytes(self@.subrange(4, 12)),
    {
        let b = &self.0;
        b[4] as u64 * 0x100_0000_0000_0000 + b[5] as u64 * 0x1_0000_0000_0000 + b[6] as u64
            * 0x100_0000_0000 + b[7] as u64 * 0x1_0000_0000 + b[8] as u64 * 0x100_0000 + b[9] as u64
            * 0x1_0000 + b[10] as u64 * 0x100 + b[11] as u64
    }
}

/// The upper-case form of the character with the code `b`, as Unicode
/// gives it for the characters up to U+00FF: one character but for the
/// sharp s, which becomes `SS`.
pub open spec fn uppercase_of_byte(b: u8) -> Seq<char> {
    if 0x61 <= b <= 0x7a || (0xe0 <= b <= 0xfe && b != 0xf7) {
        seq![(b - 0x20) as char]
    } else if b == 0xb5 {
        seq![0x39cu32 as char]
    } else if b == 0xdf {
        seq!['S', 'S']
    } else if b == 0xff {
        seq![0x178u32 as char]
    } else {
        seq![b as char]
    }
}

/// The upper-case hexadecimal digit for `n`.
pub open spec fn hex_digit(n: int) -> char
    recommends
        0 <= n < 16,
{
    if n < 10 {
        (n + 48) as char
    } else {
        (n + 55) as char
    }
}

/// The two upper-case hexadecimal digits of the byte `b`.
pub open spec fn hex_of_byte(b: u8) -> Seq<char> {
    seq![hex_digit(b as int / 16), hex_digit(b as int % 16)]
}

/// The bytes of `s` from `from` on, each as two hexadecimal digits.
pub open spec fn hex_of_bytes(s: Seq<u8>, from: int) -> Seq<char>
    decreases s.len() - from,
{
    if from < 0 || from >= s.len() {
        Seq::empty()
    } else {
        hex_of_byte(s[from]) + hex_of_bytes(s, from + 1)
    }
}

/// The display form of the twelve bytes of an identifier: the four prefix
/// bytes as upper-case characters, then the eight timestamp bytes as
/// sixteen upper-case hexadecimal digits.
pub open spec fn display_of(s: Seq<u8>) -> Seq<char> {
    uppercase_of_byte(s[0]) + uppercase_of_byte(s[1]) + uppercase_of_byte(s[2])
        + uppercase_of_byte(s[3]) + hex_of_bytes(s, 4)
}

/// Appends the upper-case form of the character with the code `b`.
fn push_uppercase(out: &mut Vec<char>, b: u8)
    ensures
        final(out)@ == old(out)@ + uppercase_of_byte(b),
{
    if (0x61 <= b && b <= 0x7a) || (0xe0 <= b && b <= 0xfe && b != 0xf7) {
        out.push((b - 0x20) as char);
    } else if b == 0xb5 {
        out.push('\u{39c}');
    } else if b == 0xdf {
        out.push('S');
        out.push('S');
    } else if b == 0xff {
        out.push('\u{178}');
    } else {
        out.push(b as char);
    }
    assert(final(out)@ =~= old(out)@ + uppercase_of_byte(b));
}

/// The upper-case hexadecimal digit for `n`.
fn hex_digit_char(n: u8) -> (c: char)
    requires
        n < 16,
    ensures
        c == hex_digit(n as int),
{
    if n < 10 {
        (n + 48) as char
    } else {
        (n + 55) as char
    }
}

impl GlobalId {
    /// Formats the GlobalId as a human-readable string.
    ///
    /// The first 4 bytes are represented as upper-case characters, the
    /// remaining 8 bytes as hexadecimal digits.
    pub fn to_string(&self) -> (out: String)
        ensures
            out@ == display_of(self@),
    {
        let mut chars: Vec<char> = Vec::new();
        push_uppercase(&mut chars, self.0[0]);
        push_uppercase(&mut chars, self.0[1]);
        push_uppercase(&mut chars, self.0[2]);
        push_uppercase(&mut chars, self.0[3]);
        let ghost head = chars@;
        let mut k: usize = 4;
        while k < 12
            invariant
                4 <= k <= 12,
                chars@ + hex_of_bytes(self@, k as int) == head + hex_of_bytes(self@, 4),
            decreases 12 - k,
        {
            let b = self.0[k];
            let ghost before = chars@;
            chars.push(hex_digit_char(b / 16));
            chars.push(hex_digit_char(b % 16));
            assert(chars@ =~= before + hex_of_byte(b));
            assert(before + hex_of_bytes(self@, k as int) =~= (before + hex_of_byte(b))
                + hex_of_bytes(self@, k + 1));
            k += 1;
        }
        assert(chars@ + hex_of_bytes(self@, 12) =~= chars@);
        string_of(&chars)
    }
}

/// An identifier is what its bytes are: reading the bytes of an
/// identifier back gives the same identifier.
pub proof fn lemma_bytes_round_trip(id: GlobalId, back: GlobalId)
    requires
        back@ == id@,
    ensures
        back == id,
{
    assert(back.0@ =~= id.0@);
    assert(back.0 == id.0);
}

/// The eight bytes of a timestamp write that timestamp.
pub proof fn lemma_timestamp_round_trip(x: u64)
    ensures
        be_bytes(x).len() == 8,
        from_be_bytes(be_bytes(x)) == x,
{
    let b0: u64 = x / 0x100_0000_0000_0000;
    let b1: u64 = x / 0x1_0000_0000_0000 % 256;
    let b2: u64 = x / 0x100_0000_0000 % 256;
    let b3: u64 = x / 0x1_0000_0000 % 256;
    let b4: u64 = x / 0x100_0000 % 256;
    let b5: u64 = x / 0x1_0000 % 256;
    let b6: u64 = x / 0x100 % 256;
    let b7: u64 = x % 256;
    assert(b0 < 256 && b0 * 0x100_0000_0000_0000 + b1 * 0x1_0000_0000_0000 + b2 * 0x100_0000_0000
        + b3 * 0x1_0000_0000 + b4 * 0x100_0000 + b5 * 0x1_0000 + b6 * 0x100 + b7 == x)
        by (bit_vector)
        requires
            b0 == x / 0x100_0000_0000_0000,
            b1 == x / 0x1_0000_0000_0000 % 256,
            b2 == x / 0x100_0000_0000 % 256,
            b3 == x / 0x1_0000_0000 % 256,
            b4 == x / 0x100_0000 % 256,
            b5 == x / 0x1_0000 % 256,
            b6 == x / 0x100 % 256,
            b7 == x % 256,
    ;
    let s = be_bytes(x);
    assert(s[0] == b0 && s[1] == b1 && s[2] == b2 && s[3] == b3 && s[4] == b4 && s[5] == b5 && s[6]
        == b6 && s[7] == b7);
}

/// An identifier put together from a prefix and a timestamp gives both
/// back.
pub proof fn lemma_assembled_parts(prefix: Seq<u8>, timestamp: u64, id: Seq<u8>)
    requires
        prefix.len() == 4,
        id == prefix + be_bytes(timestamp),
    ensures
        id.len() == 12,
        id.subrange(0, 4) == prefix,
        from_be_bytes(id.subrange(4, 12)) == timestamp,
{
    assert(id.subrange(0, 4) =~= prefix);
    assert(id.subrange(4, 12) =~= be_bytes(timestamp));
    lemma_timestamp_round_trip(timestamp);
}

} // verus!
