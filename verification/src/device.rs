//! Typed identifiers parsed from kernel registry names.
//!
//! A graphics card directory is named `card<N>` and a temperature sensor
//! file is named `temp<N>_input`; both parsers accept exactly those shapes
//! and report the offending raw string otherwise.

use vstd::prelude::*;

verus! {

/// A graphics card, identified by its index in the kernel registry.
#[derive(Clone, Copy, Debug, PartialEq, Eq, Structural)]
pub struct Card(pub u32);

/// Selects which `temp<N>_input` sensor file of a monitor to read.
#[derive(Clone, Copy, Debug, PartialEq, Eq, Structural)]
pub struct TempInput(pub u32);

/// Verbosity of the daemon's diagnostic output.
#[derive(Clone, Copy, Debug, PartialEq, Eq, Structural)]
pub enum LogLevel {
    Off,
    Error,
    Warn,
    Info,
    Debug,
    Trace,
}

/// Failure to parse a raw registry name; carries the offending string.
#[derive(Clone, Debug)]
pub enum AmdGpuError {
    InvalidCard(String),
    InvalidTempInput(String),
}

impl PartialEq for AmdGpuError {
    fn eq(&self, other: &AmdGpuError) -> (r: bool) {
        match (self, other) {
            (AmdGpuError::InvalidCard(a), AmdGpuError::InvalidCard(b)) => *a == *b,
            (AmdGpuError::InvalidTempInput(a), AmdGpuError::InvalidTempInput(b)) => *a == *b,
            _ => false,
        }
    }
}

impl vstd::std_specs::cmp::PartialEqSpecImpl for AmdGpuError {
    open spec fn obeys_eq_spec() -> bool {
        true
    }

    open spec fn eq_spec(&self, other: &AmdGpuError) -> bool {
        match (self, other) {
            (AmdGpuError::InvalidCard(a), AmdGpuError::InvalidCard(b)) => a@ == b@,
            (AmdGpuError::InvalidTempInput(a), AmdGpuError::InvalidTempInput(b)) => a@ == b@,
            _ => false,
        }
    }
}

/// A decimal digit character.
pub open spec fn is_digit(c: char) -> bool {
    48 <= c as u32 && c as u32 <= 57
}

/// Numeric value of one decimal digit character.
pub open spec fn digit_val(c: char) -> int {
    c as u32 - 48
}

/// Value of a most-significant-first decimal digit string.
pub open spec fn digits_val(s: Seq<char>) -> int
    decreases s.len(),
{
    if s.len() == 0 {
        0
    } else {
        digits_val(s.drop_last()) * 10 + digit_val(s.last())
    }
}

/// A name of the shape `card<digits>` whose index fits in a `u32`.
pub open spec fn card_name_parses(s: Seq<char>) -> bool {
    &&& s.len() > 4
    &&& s[0] == 'c'
    &&& s[1] == 'a'
    &&& s[2] == 'r'
    &&& s[3] == 'd'
    &&& (forall|i: int| 4 <= i < s.len() ==> is_digit(#[trigger] s[i]))
    &&& digits_val(s.skip(4)) <= u32::MAX
}

/// The index carried by a `card<digits>` name.
pub open spec fn card_index(s: Seq<char>) -> int {
    digits_val(s.skip(4))
}

proof fn lemma_digits_val_nonneg(s: Seq<char>)
    requires
        forall|j: int| 0 <= j < s.len() ==> is_digit(#[trigger] s[j]),
    ensures
        digits_val(s) >= 0,
    decreases s.len(),
{
    if s.len() > 0 {
        lemma_digits_val_nonneg(s.drop_last());
    }
}

/// Reading further digits never shrinks the value of the string read so far.
proof fn lemma_digits_val_prefix(s: Seq<char>, i: int)
    requires
        0 <= i <= s.len(),
        forall|j: int| 0 <= j < s.len() ==> is_digit(#[trigger] s[j]),
    ensures
        digits_val(s.subrange(0, i)) <= digits_val(s),
    decreases s.len() - i,
{
    if i == s.len() {
        assert(s.subrange(0, i) =~= s);
    } else {
        let p = s.subrange(0, i);
        let q = s.subrange(0, i + 1);
        assert(q.drop_last() =~= p);
        lemma_digits_val_nonneg(p);
        assert(digits_val(q) == digits_val(p) * 10 + digit_val(q.last()));
        assert(digits_val(p) * 10 >= digits_val(p)) by (nonlinear_arith)
            requires digits_val(p) >= 0;
        lemma_digits_val_prefix(s, i + 1);
    }
}

impl Card {
    /// Parses a registry directory name of the shape `card<digits>`.
    pub fn parse(s: &str) -> (r: Result<Card, AmdGpuError>)
        ensures
            card_name_parses(s@) ==> (r matches Ok(c) && c.0 == card_index(s@)),
            !card_name_parses(s@) ==> (r matches Err(AmdGpuError::InvalidCard(raw))
                && raw@ == s@),
    {
        let n = s.unicode_len();
        if n < 5 || s.get_char(0) != 'c' || s.get_char(1) != 'a' || s.get_char(2) != 'r'
            || s.get_char(3) != 'd' {
            return Err(AmdGpuError::InvalidCard(s.to_owned()));
        }
        let ghost d = s@.subrange(4, n as int);
        proof {
            assert(d =~= s@.skip(4));
        }
        match parse_decimal(s, 4, n) {
            Some(v) => {
                proof {
                    assert forall|i: int| 4 <= i < s@.len() implies is_digit(#[trigger] s@[i]) by {
                        assert(is_digit(d[i - 4]));
                    }
                }
                Ok(Card(v))
            },
            None => {
                proof {
                    if card_name_parses(s@) {
                        assert forall|j: int| 0 <= j < d.len() implies is_digit(#[trigger] d[j]) by {
                            assert(is_digit(s@[j + 4]));
                        }
                    }
                }
                Err(AmdGpuError::InvalidCard(s.to_owned()))
            },
        }
    }
}

impl core::str::FromStr for Card {
    type Err = AmdGpuError;

    fn from_str(s: &str) -> Result<Card, AmdGpuError> {
        Card::parse(s)
    }
}

/// A name of the shape `temp<digits>_input` whose index fits in a `u32`.
pub open spec fn temp_input_parses(s: Seq<char>) -> bool {
    &&& s.len() >= 11
    &&& s[0] == 't'
    &&& s[1] == 'e'
    &&& s[2] == 'm'
    &&& s[3] == 'p'
    &&& s[s.len() - 6] == '_'
    &&& s[s.len() - 5] == 'i'
    &&& s[s.len() - 4] == 'n'
    &&& s[s.len() - 3] == 'p'
    &&& s[s.len() - 2] == 'u'
    &&& s[s.len() - 1] == 't'
    &&& (forall|i: int| 4 <= i < s.len() - 6 ==> is_digit(#[trigger] s[i]))
    &&& digits_val(s.subrange(4, s.len() - 6)) <= u32::MAX
}

/// The index carried by a `temp<digits>_input` name.
pub open spec fn temp_input_index(s: Seq<char>) -> int {
    digits_val(s.subrange(4, s.len() - 6))
}

impl TempInput {
    /// Parses a sensor file name of the shape `temp<digits>_input`.
    pub fn parse(s: &str) -> (r: Result<TempInput, AmdGpuError>)
        ensures
            temp_input_parses(s@) ==> (r matches Ok(t) && t.0 == temp_input_index(s@)),
            !temp_input_parses(s@) ==> (r matches Err(AmdGpuError::InvalidTempInput(raw))
                && raw@ == s@),
    {
        let n = s.unicode_len();
        if n < 11 || s.get_char(0) != 't' || s.get_char(1) != 'e' || s.get_char(2) != 'm'
            || s.get_char(3) != 'p' || s.get_char(n - 6) != '_' || s.get_char(n - 5) != 'i'
            || s.get_char(n - 4) != 'n' || s.get_char(n - 3) != 'p' || s.get_char(n - 2) != 'u'
            || s.get_char(n - 1) != 't' {
            return Err(AmdGpuError::InvalidTempInput(s.to_owned()));
        }
        let ghost d = s@.subrange(4, n - 6);
        match parse_decimal(s, 4, n - 6) {
            Some(v) => {
                proof {
                    assert forall|i: int| 4 <= i < s@.len() - 6 implies is_digit(
                        #[trigger] s@[i],
                    ) by {
                        assert(is_digit(d[i - 4]));
                    }
                }
                Ok(TempInput(v))
            },
            None => {
                proof {
                    if temp_input_parses(s@) {
                        assert forall|j: int| 0 <= j < d.len() implies is_digit(
                            #[trigger] d[j],
                        ) by {
                            assert(is_digit(s@[j + 4]));
                        }
                    }
                }
                Err(AmdGpuError::InvalidTempInput(s.to_owned()))
            },
        }
    }
}

impl core::str::FromStr for TempInput {
    type Err = AmdGpuError;

    fn from_str(s: &str) -> Result<TempInput, AmdGpuError> {
        TempInput::parse(s)
    }
}

/// Reads the decimal digits of `s` between character positions `from` and
/// `to`; `None` when the range is not all digits or the value does not fit
/// in a `u32`.
fn parse_decimal(s: &str, from: usize, to: usize) -> (r: Option<u32>)
    requires
        from <= to <= s@.len(),
    ensures
        ({
            let d = s@.subrange(from as int, to as int);
            &&& (r matches Some(v) <==> (d.len() > 0
                && (forall|i: int| 0 <= i < d.len() ==> is_digit(#[trigger] d[i]))
                && digits_val(d) <= u32::MAX))
            &&& (r matches Some(v) ==> v == digits_val(d))
        }),
    {
    let ghost d = s@.subrange(from as int, to as int);
    if from == to {
        return None;
    }
    let mut val: u64 = 0;
    let mut i: usize = from;
    while i < to
        invariant
            from <= i <= to <= s@.len(),
            d == s@.subrange(from as int, to as int),
            forall|j: int| 0 <= j < i - from ==> is_digit(#[trigger] d[j]),
            val == digits_val(d.subrange(0, i - from)),
            val <= u32::MAX,
        decreases to - i,
    {
        let c = s.get_char(i);
        let u = c as u32;
        if u < 48 || u > 57 {
            assert(!is_digit(d[i - from]));
            return None;
        }
        proof {
            assert(d.subrange(0, i - from + 1).drop_last() =~= d.subrange(0, i - from));
        }
        val = val * 10 + (u - 48) as u64;
        i = i + 1;
        if val > 0xffff_ffff {
            proof {
                if forall|j: int| 0 <= j < d.len() ==> is_digit(#[trigger] d[j]) {
                    lemma_digits_val_prefix(d, i - from);
                }
            }
            return None;
        }
    }
    proof {
        assert(d.subrange(0, (to - from) as int) =~= d);
    }
    Some(val as u32)
}

} // verus!
