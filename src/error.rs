use vstd::prelude::*;
use vstd::string::StringExecFns;

verus! {

/// The error that every codec operation returns.
#[derive(Debug)]
pub enum PduError {
    /// A declared length violates its invariant.
    InvalidLength { expected: usize, actual: usize },
    /// A fixed header field violates a structural constraint.
    InvalidHeader(String),
    /// The TPKT version byte is not 3.
    UnsupportedVersion(u8),
    /// An unknown enumerated value, an unexpected tag or a malformed string.
    ParseError(String),
    /// A failure of the underlying sink or source.
    IoError(String),
    /// A read would cross the end of the source buffer.
    InsufficientData { needed: usize, available: usize },
    /// A PDU-type byte outside its closed set.
    InvalidPduType(u8),
}

/// What an error is, without its free-form text.
#[derive(Debug, Clone, Copy, PartialEq, Eq, Structural)]
pub enum ErrorKind {
    InvalidLength { expected: usize, actual: usize },
    InvalidHeader,
    UnsupportedVersion(u8),
    ParseError,
    IoError,
    InsufficientData { needed: usize, available: usize },
    InvalidPduType(u8),
}

impl PduError {
    pub open spec fn spec_kind(&self) -> ErrorKind {
        match self {
            PduError::InvalidLength { expected, actual } => ErrorKind::InvalidLength {
                expected: *expected,
                actual: *actual,
            },
            PduError::InvalidHeader(_) => ErrorKind::InvalidHeader,
            PduError::UnsupportedVersion(v) => ErrorKind::UnsupportedVersion(*v),
            PduError::ParseError(_) => ErrorKind::ParseError,
            PduError::IoError(_) => ErrorKind::IoError,
            PduError::InsufficientData { needed, available } => ErrorKind::InsufficientData {
                needed: *needed,
                available: *available,
            },
            PduError::InvalidPduType(t) => ErrorKind::InvalidPduType(*t),
        }
    }

    /// The kind of this error.
    pub fn kind(&self) -> (k: ErrorKind)
        ensures
            k == self.spec_kind(),
    {
        match self {
            PduError::InvalidLength { expected, actual } => ErrorKind::InvalidLength {
                expected: *expected,
                actual: *actual,
            },
            PduError::InvalidHeader(_) => ErrorKind::InvalidHeader,
            PduError::UnsupportedVersion(v) => ErrorKind::UnsupportedVersion(*v),
            PduError::ParseError(_) => ErrorKind::ParseError,
            PduError::IoError(_) => ErrorKind::IoError,
            PduError::InsufficientData { needed, available } => ErrorKind::InsufficientData {
                needed: *needed,
                available: *available,
            },
            PduError::InvalidPduType(t) => ErrorKind::InvalidPduType(*t),
        }
    }

    /// A parse error with the given message.
    pub fn parse(msg: &str) -> (e: PduError)
        ensures
            e.spec_kind() == ErrorKind::ParseError,
    {
        PduError::ParseError(msg.to_owned())
    }
}

/// Appends `t` to `s`.
pub(crate) fn push_str(s: &mut String, t: &str)
    ensures
        final(s)@ == old(s)@ + t@,
{
    s.append(t);
}

/// Relies on `String::push`: appends `c` to `s`.
#[verifier::external_body]
fn push_char(s: &mut String, c: char)
    ensures
        final(s)@ == old(s)@.push(c),
{
    s.push(c)
}

/// The character of a digit below 16, in lower case.
pub open spec fn digit_char(d: nat) -> char {
    if d == 0 {
        '0'
    } else if d == 1 {
        '1'
    } else if d == 2 {
        '2'
    } else if d == 3 {
        '3'
    } else if d == 4 {
        '4'
    } else if d == 5 {
        '5'
    } else if d == 6 {
        '6'
    } else if d == 7 {
        '7'
    } else if d == 8 {
        '8'
    } else if d == 9 {
        '9'
    } else if d == 10 {
        'a'
    } else if d == 11 {
        'b'
    } else if d == 12 {
        'c'
    } else if d == 13 {
        'd'
    } else if d == 14 {
        'e'
    } else {
        'f'
    }
}

/// The decimal digits of `n`, most significant first.
pub open spec fn decimal(n: nat) -> Seq<char>
    decreases n,
{
    if n < 10 {
        seq![digit_char(n)]
    } else {
        decimal(n / 10).push(digit_char(n % 10))
    }
}

/// The lower-case hexadecimal digits of `n`, most significant first.
pub open spec fn hex(n: nat) -> Seq<char>
    decreases n,
{
    if n < 16 {
        seq![digit_char(n)]
    } else {
        hex(n / 16).push(digit_char(n % 16))
    }
}

/// The digits of `n` in base `b`, 10 or 16.
pub open spec fn digits(n: nat, b: nat) -> Seq<char> {
    if b == 16 {
        hex(n)
    } else {
        decimal(n)
    }
}

fn digit(d: usize) -> (c: char)
    requires
        d < 16,
    ensures
        c == digit_char(d as nat),
{
    if d == 0 {
        '0'
    } else if d == 1 {
        '1'
    } else if d == 2 {
        '2'
    } else if d == 3 {
        '3'
    } else if d == 4 {
        '4'
    } else if d == 5 {
        '5'
    } else if d == 6 {
        '6'
    } else if d == 7 {
        '7'
    } else if d == 8 {
        '8'
    } else if d == 9 {
        '9'
    } else if d == 10 {
        'a'
    } else if d == 11 {
        'b'
    } else if d == 12 {
        'c'
    } else if d == 13 {
        'd'
    } else if d == 14 {
        'e'
    } else {
        'f'
    }
}

/// Appends the digits of `n` in base `b`.
fn push_digits(s: &mut String, n: usize, b: usize)
    requires
        b == 10 || b == 16,
    ensures
        final(s)@ == old(s)@ + digits(n as nat, b as nat),
    decreases n,
{
    if n < b {
        push_char(s, digit(n));
        assert(final(s)@ =~= old(s)@ + digits(n as nat, b as nat));
    } else {
        push_digits(s, n / b, b);
        push_char(s, digit(n % b));
        assert(final(s)@ =~= old(s)@ + digits(n as nat, b as nat));
    }
}

impl PduError {
    /// The error as text: what went wrong, with the counts or the byte
    /// (in hexadecimal) that it concerns.
    pub fn to_string(&self) -> (r: String)
        ensures
            self matches PduError::InvalidLength { expected, actual } ==> r@ == "Invalid length: expected "@
                + digits(expected as nat, 10) + ", got "@ + digits(actual as nat, 10),
            self matches PduError::UnsupportedVersion(v) ==> r@ == "Unsupported version: "@ + digits(
                v as nat,
                10,
            ),
            self matches PduError::InsufficientData { needed, available } ==> r@ == "Insufficient data: need "@
                + digits(needed as nat, 10) + " bytes, got "@ + digits(available as nat, 10),
            self matches PduError::InvalidPduType(t) ==> r@ == "Invalid PDU type: 0x"@ + digits(t as nat, 16),
            self matches PduError::InvalidHeader(m) ==> r@ == "Invalid header: "@ + m@,
            self matches PduError::ParseError(m) ==> r@ == "Parse error: "@ + m@,
            self matches PduError::IoError(m) ==> r@ == "IO error: "@ + m@,
    {
        let mut s = String::new();
        proof {
            assert(s@ == Seq::<char>::empty());
        }
        match self {
            PduError::InvalidLength { expected, actual } => {
                push_str(&mut s, "Invalid length: expected ");
                push_digits(&mut s, *expected, 10);
                push_str(&mut s, ", got ");
                push_digits(&mut s, *actual, 10);
            },
            PduError::InvalidHeader(m) => {
                push_str(&mut s, "Invalid header: ");
                push_str(&mut s, m.as_str());
            },
            PduError::UnsupportedVersion(v) => {
                push_str(&mut s, "Unsupported version: ");
                push_digits(&mut s, *v as usize, 10);
            },
            PduError::ParseError(m) => {
                push_str(&mut s, "Parse error: ");
                push_str(&mut s, m.as_str());
            },
            PduError::IoError(m) => {
                push_str(&mut s, "IO error: ");
                push_str(&mut s, m.as_str());
            },
            PduError::InsufficientData { needed, available } => {
                push_str(&mut s, "Insufficient data: need ");
                push_digits(&mut s, *needed, 10);
                push_str(&mut s, " bytes, got ");
                push_digits(&mut s, *available, 10);
            },
            PduError::InvalidPduType(t) => {
                push_str(&mut s, "Invalid PDU type: 0x");
                push_digits(&mut s, *t as usize, 16);
            },
        }
        assert(Seq::<char>::empty() + "Invalid length: expected "@ =~= "Invalid length: expected "@);
        assert(Seq::<char>::empty() + "Unsupported version: "@ =~= "Unsupported version: "@);
        assert(Seq::<char>::empty() + "Insufficient data: need "@ =~= "Insufficient data: need "@);
        assert(Seq::<char>::empty() + "Invalid PDU type: 0x"@ =~= "Invalid PDU type: 0x"@);
        assert(Seq::<char>::empty() + "Invalid header: "@ =~= "Invalid header: "@);
        assert(Seq::<char>::empty() + "Parse error: "@ =~= "Parse error: "@);
        assert(Seq::<char>::empty() + "IO error: "@ =~= "IO error: "@);
        s
    }
}

/// A byte as two lower-case hexadecimal digits.
pub open spec fn hex2(b: u8) -> Seq<char> {
    seq![digit_char((b / 16) as nat), digit_char((b % 16) as nat)]
}

/// The text of a tag mismatch: the expected and the observed tag bytes.
pub open spec fn tag_mismatch_text(expected: u8, got: u8) -> Seq<char> {
    "Expected tag 0x"@ + hex2(expected) + ", got 0x"@ + hex2(got)
}

impl PduError {
    /// A parse error for a tag byte `got` where `expected` was due; its text
    /// names both in hexadecimal.
    pub fn tag_mismatch(expected: u8, got: u8) -> (e: PduError)
        ensures
            e matches PduError::ParseError(m) && m@ == tag_mismatch_text(expected, got),
    {
        let mut m = String::new();
        push_str(&mut m, "Expected tag 0x");
        push_char(&mut m, digit((expected / 16) as usize));
        push_char(&mut m, digit((expected % 16) as usize));
        push_str(&mut m, ", got 0x");
        push_char(&mut m, digit((got / 16) as usize));
        push_char(&mut m, digit((got % 16) as usize));
        assert(m@ =~= tag_mismatch_text(expected, got));
        PduError::ParseError(m)
    }
}

/// Result of a codec operation.
pub type Result<T> = core::result::Result<T, PduError>;

/// A decoding outcome with each error reduced to its kind.
pub open spec fn outcome<T>(r: core::result::Result<T, PduError>) -> core::result::Result<T, ErrorKind> {
    match r {
        Ok(v) => Ok(v),
        Err(e) => Err(e.spec_kind()),
    }
}

} // verus!
