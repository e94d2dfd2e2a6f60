//! Simple text vector format (`.fvec`): one directive per line.
//!
//! `CLOCK hz`, `PIN n TYPE`, `PIN a-b TYPE`, `ZERO`, `ONES`,
//! `TOGGLE p1 p2 ...`, `LABEL name`, `0x<40 hex digits>`, a 160-character
//! binary vector, each vector optionally followed by `REPEAT n`.
//! Empty lines and lines starting with `#` are skipped; a `#` word after a
//! directive starts a trailing comment.

use vstd::prelude::*;
use crate::text::{
    chars_of, contains_char, dec_chars, dec_error_kind, eq_str, int_error_message, int_error_text, lines,
    parse_dec_max, parse_unsigned, push_chars, push_decimal, push_str, remove_char, split, split_chars,
    split_lines, split_words, str_to_uppercase, string_from_chars, trim, trimmed, uint_parse, upper_text,
    without_char, words, IntErrorKind,
};
use crate::vector::format::{
    PinConfig, PinType, Vector, binary_error_message, binary_vector_ok, hex_error_message, hex_vector_ok,
    hex_pair_value, is_one_char,
    byte_bit, zero_bits, ones_bits,
};

verus! {

/// A vector entry of an `.fvec` file.
#[derive(Debug, Clone)]
pub struct FvecVector {
    pub vector: Vector,
    pub repeat: u32,
    pub label: Option<String>,
}

/// Parsed `.fvec` file.
#[derive(Debug, Clone)]
pub struct FvecProgram {
    pub clock_hz: u32,
    pub pin_config: PinConfig,
    pub vectors: Vec<FvecVector>,
}

impl Default for FvecProgram {
    fn default() -> (r: FvecProgram)
        ensures
            r.clock_hz == 100_000_000,
            forall|p: int| 0 <= p < 160 ==> r.pin_config.types[p] == PinType::Bidi,
            r.vectors@.len() == 0,
    {
        FvecProgram { clock_hz: 100_000_000, pin_config: PinConfig::default(), vectors: Vec::new() }
    }
}

/// `.fvec` parsing error.
#[derive(Debug)]
pub enum FvecError {
    /// A line (1-based) that could not be parsed, with a message.
    Parse { line: usize, msg: String },
}

/// What one directive line means.
pub enum LineSpec {
    Clock(u32),
    Pin(int, PinType),
    PinRange(int, int, PinType),
    Vector(Seq<bool>, u32),
    Label(Seq<char>),
    Skip,
    Error,
}

/// Parsed line result.
enum ParsedLine {
    Clock(u32),
    Pin(usize, PinType),
    PinRange(usize, usize, PinType),
    Vector(Vector, u32),
    Label(String),
    Skip,
}

/// The pin type named by `s` (case-insensitive).
pub open spec fn pin_type_spec(s: Seq<char>) -> Option<PinType> {
    let u = str_to_uppercase(s);
    if u == "BIDI"@ || u == "BIDIRECTIONAL"@ || u == "IO"@ {
        Some(PinType::Bidi)
    } else if u == "INPUT"@ || u == "IN"@ || u == "I"@ {
        Some(PinType::Input)
    } else if u == "OUTPUT"@ || u == "OUT"@ || u == "O"@ {
        Some(PinType::Output)
    } else if u == "OC"@ || u == "OPENCOLLECTOR"@ || u == "OPEN_COLLECTOR"@ {
        Some(PinType::OpenCollector)
    } else if u == "PULSE"@ || u == "P"@ {
        Some(PinType::Pulse)
    } else if u == "NPULSE"@ || u == "NP"@ {
        Some(PinType::NPulse)
    } else if u == "ERROR"@ || u == "ERRORTRIG"@ || u == "ERROR_TRIG"@ {
        Some(PinType::ErrorTrig)
    } else if u == "VECCLK"@ || u == "VEC_CLK"@ || u == "CLOCK"@ {
        Some(PinType::VecClk)
    } else if u == "VECCLKEN"@ || u == "VEC_CLK_EN"@ || u == "CLOCKEN"@ {
        Some(PinType::VecClkEn)
    } else {
        None
    }
}

/// Each pin type's name in `.fvec` text (its first spelling).
pub open spec fn pin_type_name(t: PinType) -> Seq<char> {
    match t {
        PinType::Bidi => "BIDI"@,
        PinType::Input => "INPUT"@,
        PinType::Output => "OUTPUT"@,
        PinType::OpenCollector => "OC"@,
        PinType::Pulse => "PULSE"@,
        PinType::NPulse => "NPULSE"@,
        PinType::ErrorTrig => "ERROR"@,
        PinType::VecClk => "VECCLK"@,
        PinType::VecClkEn => "VECCLKEN"@,
    }
}

/// Every spelling of a pin type word, upper-cased, names exactly that
/// type: a type's name reads back as that type (`PULSE` as `Pulse`,
/// `NPULSE` as `NPulse`, ...), and so does each other spelling (`P` as
/// `Pulse`, `NP` as `NPulse`, ...), so words of different types never read
/// as the same type.
pub proof fn lemma_pin_type_words(s: Seq<char>, t: PinType)
    ensures
        str_to_uppercase(s) == pin_type_name(t) ==> pin_type_spec(s) == Some(t),
        str_to_uppercase(s) == "BIDIRECTIONAL"@ ==> pin_type_spec(s) == Some(PinType::Bidi),
        str_to_uppercase(s) == "IO"@ ==> pin_type_spec(s) == Some(PinType::Bidi),
        str_to_uppercase(s) == "IN"@ ==> pin_type_spec(s) == Some(PinType::Input),
        str_to_uppercase(s) == "I"@ ==> pin_type_spec(s) == Some(PinType::Input),
        str_to_uppercase(s) == "OUT"@ ==> pin_type_spec(s) == Some(PinType::Output),
        str_to_uppercase(s) == "O"@ ==> pin_type_spec(s) == Some(PinType::Output),
        str_to_uppercase(s) == "OPENCOLLECTOR"@ ==> pin_type_spec(s) == Some(PinType::OpenCollector),
        str_to_uppercase(s) == "OPEN_COLLECTOR"@ ==> pin_type_spec(s) == Some(PinType::OpenCollector),
        str_to_uppercase(s) == "P"@ ==> pin_type_spec(s) == Some(PinType::Pulse),
        str_to_uppercase(s) == "NP"@ ==> pin_type_spec(s) == Some(PinType::NPulse),
        str_to_uppercase(s) == "ERRORTRIG"@ ==> pin_type_spec(s) == Some(PinType::ErrorTrig),
        str_to_uppercase(s) == "ERROR_TRIG"@ ==> pin_type_spec(s) == Some(PinType::ErrorTrig),
        str_to_uppercase(s) == "VEC_CLK"@ ==> pin_type_spec(s) == Some(PinType::VecClk),
        str_to_uppercase(s) == "CLOCK"@ ==> pin_type_spec(s) == Some(PinType::VecClk),
        str_to_uppercase(s) == "VEC_CLK_EN"@ ==> pin_type_spec(s) == Some(PinType::VecClkEn),
        str_to_uppercase(s) == "CLOCKEN"@ ==> pin_type_spec(s) == Some(PinType::VecClkEn),
{
    reveal_strlit("BIDI");
    reveal_strlit("BIDIRECTIONAL");
    reveal_strlit("IO");
    reveal_strlit("INPUT");
    reveal_strlit("IN");
    reveal_strlit("I");
    reveal_strlit("OUTPUT");
    reveal_strlit("OUT");
    reveal_strlit("O");
    reveal_strlit("OC");
    reveal_strlit("OPENCOLLECTOR");
    reveal_strlit("OPEN_COLLECTOR");
    reveal_strlit("PULSE");
    reveal_strlit("P");
    reveal_strlit("NPULSE");
    reveal_strlit("NP");
    reveal_strlit("ERROR");
    reveal_strlit("ERRORTRIG");
    reveal_strlit("ERROR_TRIG");
    reveal_strlit("VECCLK");
    reveal_strlit("VEC_CLK");
    reveal_strlit("CLOCK");
    reveal_strlit("VECCLKEN");
    reveal_strlit("VEC_CLK_EN");
    reveal_strlit("CLOCKEN");
    assert("BIDI"@.len() != "INPUT"@.len());
    assert("BIDI"@.len() != "IN"@.len());
    assert("BIDI"@.len() != "I"@.len());
    assert("BIDIRECTIONAL"@.len() != "INPUT"@.len());
    assert("BIDIRECTIONAL"@.len() != "IN"@.len());
    assert("BIDIRECTIONAL"@.len() != "I"@.len());
    assert("IO"@.len() != "INPUT"@.len());
    assert("IO"@[1] != "IN"@[1]);
    assert("IO"@.len() != "I"@.len());
    assert("BIDI"@.len() != "OUTPUT"@.len());
    assert("BIDI"@.len() != "OUT"@.len());
    assert("BIDI"@.len() != "O"@.len());
    assert("BIDIRECTIONAL"@.len() != "OUTPUT"@.len());
    assert("BIDIRECTIONAL"@.len() != "OUT"@.len());
    assert("BIDIRECTIONAL"@.len() != "O"@.len());
    assert("IO"@.len() != "OUTPUT"@.len());
    assert("IO"@.len() != "OUT"@.len());
    assert("IO"@.len() != "O"@.len());
    assert("BIDI"@.len() != "OC"@.len());
    assert("BIDI"@.len() != "OPENCOLLECTOR"@.len());
    assert("BIDI"@.len() != "OPEN_COLLECTOR"@.len());
    assert("BIDIRECTIONAL"@.len() != "OC"@.len());
    assert("BIDIRECTIONAL"@[0] != "OPENCOLLECTOR"@[0]);
    assert("BIDIRECTIONAL"@.len() != "OPEN_COLLECTOR"@.len());
    assert("IO"@[0] != "OC"@[0]);
    assert("IO"@.len() != "OPENCOLLECTOR"@.len());
    assert("IO"@.len() != "OPEN_COLLECTOR"@.len());
    assert("BIDI"@.len() != "PULSE"@.len());
    assert("BIDI"@.len() != "P"@.len());
    assert("BIDIRECTIONAL"@.len() != "PULSE"@.len());
    assert("BIDIRECTIONAL"@.len() != "P"@.len());
    assert("IO"@.len() != "PULSE"@.len());
    assert("IO"@.len() != "P"@.len());
    assert("BIDI"@.len() != "NPULSE"@.len());
    assert("BIDI"@.len() != "NP"@.len());
    assert("BIDIRECTIONAL"@.len() != "NPULSE"@.len());
    assert("BIDIRECTIONAL"@.len() != "NP"@.len());
    assert("IO"@.len() != "NPULSE"@.len());
    assert("IO"@[0] != "NP"@[0]);
    assert("BIDI"@.len() != "ERROR"@.len());
    assert("BIDI"@.len() != "ERRORTRIG"@.len());
    assert("BIDI"@.len() != "ERROR_TRIG"@.len());
    assert("BIDIRECTIONAL"@.len() != "ERROR"@.len());
    assert("BIDIRECTIONAL"@.len() != "ERRORTRIG"@.len());
    assert("BIDIRECTIONAL"@.len() != "ERROR_TRIG"@.len());
    assert("IO"@.len() != "ERROR"@.len());
    assert("IO"@.len() != "ERRORTRIG"@.len());
    assert("IO"@.len() != "ERROR_TRIG"@.len());
    assert("BIDI"@.len() != "VECCLK"@.len());
    assert("BIDI"@.len() != "VEC_CLK"@.len());
    assert("BIDI"@.len() != "CLOCK"@.len());
    assert("BIDIRECTIONAL"@.len() != "VECCLK"@.len());
    assert("BIDIRECTIONAL"@.len() != "VEC_CLK"@.len());
    assert("BIDIRECTIONAL"@.len() != "CLOCK"@.len());
    assert("IO"@.len() != "VECCLK"@.len());
    assert("IO"@.len() != "VEC_CLK"@.len());
    assert("IO"@.len() != "CLOCK"@.len());
    assert("BIDI"@.len() != "VECCLKEN"@.len());
    assert("BIDI"@.len() != "VEC_CLK_EN"@.len());
    assert("BIDI"@.len() != "CLOCKEN"@.len());
    assert("BIDIRECTIONAL"@.len() != "VECCLKEN"@.len());
    assert("BIDIRECTIONAL"@.len() != "VEC_CLK_EN"@.len());
    assert("BIDIRECTIONAL"@.len() != "CLOCKEN"@.len());
    assert("IO"@.len() != "VECCLKEN"@.len());
    assert("IO"@.len() != "VEC_CLK_EN"@.len());
    assert("IO"@.len() != "CLOCKEN"@.len());
    assert("INPUT"@.len() != "OUTPUT"@.len());
    assert("INPUT"@.len() != "OUT"@.len());
    assert("INPUT"@.len() != "O"@.len());
    assert("IN"@.len() != "OUTPUT"@.len());
    assert("IN"@.len() != "OUT"@.len());
    assert("IN"@.len() != "O"@.len());
    assert("I"@.len() != "OUTPUT"@.len());
    assert("I"@.len() != "OUT"@.len());
    assert("I"@[0] != "O"@[0]);
    assert("INPUT"@.len() != "OC"@.len());
    assert("INPUT"@.len() != "OPENCOLLECTOR"@.len());
    assert("INPUT"@.len() != "OPEN_COLLECTOR"@.len());
    assert("IN"@[0] != "OC"@[0]);
    assert("IN"@.len() != "OPENCOLLECTOR"@.len());
    assert("IN"@.len() != "OPEN_COLLECTOR"@.len());
    assert("I"@.len() != "OC"@.len());
    assert("I"@.len() != "OPENCOLLECTOR"@.len());
    assert("I"@.len() != "OPEN_COLLECTOR"@.len());
    assert("INPUT"@[0] != "PULSE"@[0]);
    assert("INPUT"@.len() != "P"@.len());
    assert("IN"@.len() != "PULSE"@.len());
    assert("IN"@.len() != "P"@.len());
    assert("I"@.len() != "PULSE"@.len());
    assert("I"@[0] != "P"@[0]);
    assert("INPUT"@.len() != "NPULSE"@.len());
    assert("INPUT"@.len() != "NP"@.len());
    assert("IN"@.len() != "NPULSE"@.len());
    assert("IN"@[0] != "NP"@[0]);
    assert("I"@.len() != "NPULSE"@.len());
    assert("I"@.len() != "NP"@.len());
    assert("INPUT"@[0] != "ERROR"@[0]);
    assert("INPUT"@.len() != "ERRORTRIG"@.len());
    assert("INPUT"@.len() != "ERROR_TRIG"@.len());
    assert("IN"@.len() != "ERROR"@.len());
    assert("IN"@.len() != "ERRORTRIG"@.len());
    assert("IN"@.len() != "ERROR_TRIG"@.len());
    assert("I"@.len() != "ERROR"@.len());
    assert("I"@.len() != "ERRORTRIG"@.len());
    assert("I"@.len() != "ERROR_TRIG"@.len());
    assert("INPUT"@.len() != "VECCLK"@.len());
    assert("INPUT"@.len() != "VEC_CLK"@.len());
    assert("INPUT"@[0] != "CLOCK"@[0]);
    assert("IN"@.len() != "VECCLK"@.len());
    assert("IN"@.len() != "VEC_CLK"@.len());
    assert("IN"@.len() != "CLOCK"@.len());
    assert("I"@.len() != "VECCLK"@.len());
    assert("I"@.len() != "VEC_CLK"@.len());
    assert("I"@.len() != "CLOCK"@.len());
    assert("INPUT"@.len() != "VECCLKEN"@.len());
    assert("INPUT"@.len() != "VEC_CLK_EN"@.len());
    assert("INPUT"@.len() != "CLOCKEN"@.len());
    assert("IN"@.len() != "VECCLKEN"@.len());
    assert("IN"@.len() != "VEC_CLK_EN"@.len());
    assert("IN"@.len() != "CLOCKEN"@.len());
    assert("I"@.len() != "VECCLKEN"@.len());
    assert("I"@.len() != "VEC_CLK_EN"@.len());
    assert("I"@.len() != "CLOCKEN"@.len());
    assert("OUTPUT"@.len() != "OC"@.len());
    assert("OUTPUT"@.len() != "OPENCOLLECTOR"@.len());
    assert("OUTPUT"@.len() != "OPEN_COLLECTOR"@.len());
    assert("OUT"@.len() != "OC"@.len());
    assert("OUT"@.len() != "OPENCOLLECTOR"@.len());
    assert("OUT"@.len() != "OPEN_COLLECTOR"@.len());
    assert("O"@.len() != "OC"@.len());
    assert("O"@.len() != "OPENCOLLECTOR"@.len());
    assert("O"@.len() != "OPEN_COLLECTOR"@.len());
    assert("OUTPUT"@.len() != "PULSE"@.len());
    assert("OUTPUT"@.len() != "P"@.len());
    assert("OUT"@.len() != "PULSE"@.len());
    assert("OUT"@.len() != "P"@.len());
    assert("O"@.len() != "PULSE"@.len());
    assert("O"@[0] != "P"@[0]);
    assert("OUTPUT"@[0] != "NPULSE"@[0]);
    assert("OUTPUT"@.len() != "NP"@.len());
    assert("OUT"@.len() != "NPULSE"@.len());
    assert("OUT"@.len() != "NP"@.len());
    assert("O"@.len() != "NPULSE"@.len());
    assert("O"@.len() != "NP"@.len());
    assert("OUTPUT"@.len() != "ERROR"@.len());
    assert("OUTPUT"@.len() != "ERRORTRIG"@.len());
    assert("OUTPUT"@.len() != "ERROR_TRIG"@.len());
    assert("OUT"@.len() != "ERROR"@.len());
    assert("OUT"@.len() != "ERRORTRIG"@.len());
    assert("OUT"@.len() != "ERROR_TRIG"@.len());
    assert("O"@.len() != "ERROR"@.len());
    assert("O"@.len() != "ERRORTRIG"@.len());
    assert("O"@.len() != "ERROR_TRIG"@.len());
    assert("OUTPUT"@[0] != "VECCLK"@[0]);
    assert("OUTPUT"@.len() != "VEC_CLK"@.len());
    assert("OUTPUT"@.len() != "CLOCK"@.len());
    assert("OUT"@.len() != "VECCLK"@.len());
    assert("OUT"@.len() != "VEC_CLK"@.len());
    assert("OUT"@.len() != "CLOCK"@.len());
    assert("O"@.len() != "VECCLK"@.len());
    assert("O"@.len() != "VEC_CLK"@.len());
    assert("O"@.len() != "CLOCK"@.len());
    assert("OUTPUT"@.len() != "VECCLKEN"@.len());
    assert("OUTPUT"@.len() != "VEC_CLK_EN"@.len());
    assert("OUTPUT"@.len() != "CLOCKEN"@.len());
    assert("OUT"@.len() != "VECCLKEN"@.len());
    assert("OUT"@.len() != "VEC_CLK_EN"@.len());
    assert("OUT"@.len() != "CLOCKEN"@.len());
    assert("O"@.len() != "VECCLKEN"@.len());
    assert("O"@.len() != "VEC_CLK_EN"@.len());
    assert("O"@.len() != "CLOCKEN"@.len());
    assert("OC"@.len() != "PULSE"@.len());
    assert("OC"@.len() != "P"@.len());
    assert("OPENCOLLECTOR"@.len() != "PULSE"@.len());
    assert("OPENCOLLECTOR"@.len() != "P"@.len());
    assert("OPEN_COLLECTOR"@.len() != "PULSE"@.len());
    assert("OPEN_COLLECTOR"@.len() != "P"@.len());
    assert("OC"@.len() != "NPULSE"@.len());
    assert("OC"@[0] != "NP"@[0]);
    assert("OPENCOLLECTOR"@.len() != "NPULSE"@.len());
    assert("OPENCOLLECTOR"@.len() != "NP"@.len());
    assert("OPEN_COLLECTOR"@.len() != "NPULSE"@.len());
    assert("OPEN_COLLECTOR"@.len() != "NP"@.len());
    assert("OC"@.len() != "ERROR"@.len());
    assert("OC"@.len() != "ERRORTRIG"@.len());
    assert("OC"@.len() != "ERROR_TRIG"@.len());
    assert("OPENCOLLECTOR"@.len() != "ERROR"@.len());
    assert("OPENCOLLECTOR"@.len() != "ERRORTRIG"@.len());
    assert("OPENCOLLECTOR"@.len() != "ERROR_TRIG"@.len());
    assert("OPEN_COLLECTOR"@.len() != "ERROR"@.len());
    assert("OPEN_COLLECTOR"@.len() != "ERRORTRIG"@.len());
    assert("OPEN_COLLECTOR"@.len() != "ERROR_TRIG"@.len());
    assert("OC"@.len() != "VECCLK"@.len());
    assert("OC"@.len() != "VEC_CLK"@.len());
    assert("OC"@.len() != "CLOCK"@.len());
    assert("OPENCOLLECTOR"@.len() != "VECCLK"@.len());
    assert("OPENCOLLECTOR"@.len() != "VEC_CLK"@.len());
    assert("OPENCOLLECTOR"@.len() != "CLOCK"@.len());
    assert("OPEN_COLLECTOR"@.len() != "VECCLK"@.len());
    assert("OPEN_COLLECTOR"@.len() != "VEC_CLK"@.len());
    assert("OPEN_COLLECTOR"@.len() != "CLOCK"@.len());
    assert("OC"@.len() != "VECCLKEN"@.len());
    assert("OC"@.len() != "VEC_CLK_EN"@.len());
    assert("OC"@.len() != "CLOCKEN"@.len());
    assert("OPENCOLLECTOR"@.len() != "VECCLKEN"@.len());
    assert("OPENCOLLECTOR"@.len() != "VEC_CLK_EN"@.len());
    assert("OPENCOLLECTOR"@.len() != "CLOCKEN"@.len());
    assert("OPEN_COLLECTOR"@.len() != "VECCLKEN"@.len());
    assert("OPEN_COLLECTOR"@.len() != "VEC_CLK_EN"@.len());
    assert("OPEN_COLLECTOR"@.len() != "CLOCKEN"@.len());
    assert("PULSE"@.len() != "NPULSE"@.len());
    assert("PULSE"@.len() != "NP"@.len());
    assert("P"@.len() != "NPULSE"@.len());
    assert("P"@.len() != "NP"@.len());
    assert("PULSE"@[0] != "ERROR"@[0]);
    assert("PULSE"@.len() != "ERRORTRIG"@.len());
    assert("PULSE"@.len() != "ERROR_TRIG"@.len());
    assert("P"@.len() != "ERROR"@.len());
    assert("P"@.len() != "ERRORTRIG"@.len());
    assert("P"@.len() != "ERROR_TRIG"@.len());
    assert("PULSE"@.len() != "VECCLK"@.len());
    assert("PULSE"@.len() != "VEC_CLK"@.len());
    assert("PULSE"@[0] != "CLOCK"@[0]);
    assert("P"@.len() != "VECCLK"@.len());
    assert("P"@.len() != "VEC_CLK"@.len());
    assert("P"@.len() != "CLOCK"@.len());
    assert("PULSE"@.len() != "VECCLKEN"@.len());
    assert("PULSE"@.len() != "VEC_CLK_EN"@.len());
    assert("PULSE"@.len() != "CLOCKEN"@.len());
    assert("P"@.len() != "VECCLKEN"@.len());
    assert("P"@.len() != "VEC_CLK_EN"@.len());
    assert("P"@.len() != "CLOCKEN"@.len());
    assert("NPULSE"@.len() != "ERROR"@.len());
    assert("NPULSE"@.len() != "ERRORTRIG"@.len());
    assert("NPULSE"@.len() != "ERROR_TRIG"@.len());
    assert("NP"@.len() != "ERROR"@.len());
    assert("NP"@.len() != "ERRORTRIG"@.len());
    assert("NP"@.len() != "ERROR_TRIG"@.len());
    assert("NPULSE"@[0] != "VECCLK"@[0]);
    assert("NPULSE"@.len() != "VEC_CLK"@.len());
    assert("NPULSE"@.len() != "CLOCK"@.len());
    assert("NP"@.len() != "VECCLK"@.len());
    assert("NP"@.len() != "VEC_CLK"@.len());
    assert("NP"@.len() != "CLOCK"@.len());
    assert("NPULSE"@.len() != "VECCLKEN"@.len());
    assert("NPULSE"@.len() != "VEC_CLK_EN"@.len());
    assert("NPULSE"@.len() != "CLOCKEN"@.len());
    assert("NP"@.len() != "VECCLKEN"@.len());
    assert("NP"@.len() != "VEC_CLK_EN"@.len());
    assert("NP"@.len() != "CLOCKEN"@.len());
    assert("ERROR"@.len() != "VECCLK"@.len());
    assert("ERROR"@.len() != "VEC_CLK"@.len());
    assert("ERROR"@[0] != "CLOCK"@[0]);
    assert("ERRORTRIG"@.len() != "VECCLK"@.len());
    assert("ERRORTRIG"@.len() != "VEC_CLK"@.len());
    assert("ERRORTRIG"@.len() != "CLOCK"@.len());
    assert("ERROR_TRIG"@.len() != "VECCLK"@.len());
    assert("ERROR_TRIG"@.len() != "VEC_CLK"@.len());
    assert("ERROR_TRIG"@.len() != "CLOCK"@.len());
    assert("ERROR"@.len() != "VECCLKEN"@.len());
    assert("ERROR"@.len() != "VEC_CLK_EN"@.len());
    assert("ERROR"@.len() != "CLOCKEN"@.len());
    assert("ERRORTRIG"@.len() != "VECCLKEN"@.len());
    assert("ERRORTRIG"@.len() != "VEC_CLK_EN"@.len());
    assert("ERRORTRIG"@.len() != "CLOCKEN"@.len());
    assert("ERROR_TRIG"@.len() != "VECCLKEN"@.len());
    assert("ERROR_TRIG"@[0] != "VEC_CLK_EN"@[0]);
    assert("ERROR_TRIG"@.len() != "CLOCKEN"@.len());
    assert("VECCLK"@.len() != "VECCLKEN"@.len());
    assert("VECCLK"@.len() != "VEC_CLK_EN"@.len());
    assert("VECCLK"@.len() != "CLOCKEN"@.len());
    assert("VEC_CLK"@.len() != "VECCLKEN"@.len());
    assert("VEC_CLK"@.len() != "VEC_CLK_EN"@.len());
    assert("VEC_CLK"@[0] != "CLOCKEN"@[0]);
    assert("CLOCK"@.len() != "VECCLKEN"@.len());
    assert("CLOCK"@.len() != "VEC_CLK_EN"@.len());
    assert("CLOCK"@.len() != "CLOCKEN"@.len());
}

/// The repeat count of a line's words: the number after the first
/// `REPEAT` (underscores ignored), 1 when there is none, `None` when it is
/// missing or not a `u32`.
pub open spec fn repeat_spec(w: Seq<Seq<char>>, i: int) -> Option<int>
    decreases w.len() - i,
{
    if i >= w.len() {
        Some(1)
    } else if str_to_uppercase(w[i]) == "REPEAT"@ {
        if i + 1 >= w.len() {
            None
        } else {
            parse_unsigned(remove_char(w[i + 1], '_'), u32::MAX as int)
        }
    } else {
        repeat_spec(w, i + 1)
    }
}

/// Whether a word ends the pin list of a `TOGGLE` line: `REPEAT`, or the
/// start of a trailing comment.
pub open spec fn ends_pin_list(word: Seq<char>) -> bool {
    str_to_uppercase(word) == "REPEAT"@ || (word.len() > 0 && word[0] == '#')
}

/// The bits after toggling the pins listed in `w[i..]` up to the first
/// `REPEAT` or comment; `None` when a pin is not a number below 160.
pub open spec fn toggles_spec(bits: Seq<bool>, w: Seq<Seq<char>>, i: int) -> Option<Seq<bool>>
    decreases w.len() - i,
{
    if i >= w.len() || ends_pin_list(w[i]) {
        Some(bits)
    } else {
        match parse_unsigned(w[i], usize::MAX as int) {
            Some(p) => if p < 160 {
                toggles_spec(bits.update(p, !bits[p]), w, i + 1)
            } else {
                None
            },
            None => None,
        }
    }
}

/// Whether `u` looks like a binary vector: non-empty, only `0 1 X Z H L -`.
pub open spec fn is_binary_seq(u: Seq<char>) -> bool {
    u.len() > 0 && forall|i: int| 0 <= i < u.len() ==> {
        let c = #[trigger] u[i];
        c == '0' || c == '1' || c == 'X' || c == 'Z' || c == 'H' || c == 'L' || c == '-'
    }
}

/// The bits spelled by 40 hex digits.
pub open spec fn hex_bits(t: Seq<char>) -> Seq<bool> {
    Seq::new(160, |p: int| byte_bit(hex_pair_value(t, p / 8) as u8, (p % 8) as u8))
}

/// The bits spelled by 160 pin characters.
pub open spec fn binary_bits(t: Seq<char>) -> Seq<bool> {
    Seq::new(160, |p: int| is_one_char(t[p]))
}

/// A vector line's meaning, given its bits or an error.
pub open spec fn vector_line(bits: Option<Seq<bool>>, w: Seq<Seq<char>>) -> LineSpec {
    match bits {
        None => LineSpec::Error,
        Some(b) => match repeat_spec(w, 0) {
            Some(r) => LineSpec::Vector(b, r as u32),
            None => LineSpec::Error,
        },
    }
}

/// The meaning of a directive with words `w`, after the vector `prev`.
pub open spec fn line_spec(w: Seq<Seq<char>>, prev: Seq<bool>) -> LineSpec {
    if w.len() == 0 {
        LineSpec::Skip
    } else {
        let u = str_to_uppercase(w[0]);
        if u == "CLOCK"@ {
            if w.len() < 2 {
                LineSpec::Error
            } else {
                match parse_unsigned(remove_char(w[1], '_'), u32::MAX as int) {
                    Some(h) => LineSpec::Clock(h as u32),
                    None => LineSpec::Error,
                }
            }
        } else if u == "PIN"@ {
            if w.len() < 3 {
                LineSpec::Error
            } else {
                match pin_type_spec(w[2]) {
                    None => LineSpec::Error,
                    Some(t) => if w[1].contains('-') {
                        let r = split(w[1], '-');
                        if r.len() != 2 {
                            LineSpec::Error
                        } else {
                            match (parse_unsigned(r[0], usize::MAX as int), parse_unsigned(r[1], usize::MAX as int)) {
                                (Some(a), Some(b)) => if a >= 160 || b >= 160 {
                                    LineSpec::Error
                                } else {
                                    LineSpec::PinRange(a, b, t)
                                },
                                _ => LineSpec::Error,
                            }
                        }
                    } else {
                        match parse_unsigned(w[1], usize::MAX as int) {
                            Some(p) => if p >= 160 {
                                LineSpec::Error
                            } else {
                                LineSpec::Pin(p, t)
                            },
                            None => LineSpec::Error,
                        }
                    },
                }
            }
        } else if u == "ZERO"@ {
            vector_line(Some(zero_bits()), w)
        } else if u == "ONES"@ {
            vector_line(Some(ones_bits()), w)
        } else if u == "TOGGLE"@ {
            if w.len() < 2 {
                LineSpec::Error
            } else {
                vector_line(toggles_spec(prev, w, 1), w)
            }
        } else if u == "LABEL"@ {
            if w.len() < 2 {
                LineSpec::Error
            } else {
                LineSpec::Label(w[1])
            }
        } else if u.len() >= 2 && u[0] == '0' && (u[1] == 'X' || u[1] == 'x') {
            let t = trim(w[0].skip(2));
            if w[0].len() >= 2 && hex_vector_ok(t) {
                vector_line(Some(hex_bits(t)), w)
            } else {
                LineSpec::Error
            }
        } else if is_binary_seq(u) {
            let t = trim(w[0]);
            if binary_vector_ok(t) {
                vector_line(Some(binary_bits(t)), w)
            } else {
                LineSpec::Error
            }
        } else {
            LineSpec::Error
        }
    }
}

/// The message of a failed number parse (empty when it succeeds).
pub open spec fn parse_error_text(r: Result<int, IntErrorKind>) -> Seq<char> {
    match r {
        Err(e) => int_error_text(e),
        Ok(_) => seq![],
    }
}

/// What is wrong with the repeat count of a line's words from `w[i]` on:
/// a `REPEAT` without a count, or a count that is no `u32`.
pub open spec fn repeat_error(w: Seq<Seq<char>>, i: int) -> Seq<char>
    decreases w.len() - i,
{
    if i >= w.len() {
        seq![]
    } else if str_to_uppercase(w[i]) == "REPEAT"@ {
        if i + 1 >= w.len() {
            "REPEAT requires a count"@
        } else {
            "Invalid repeat count: "@ + parse_error_text(uint_parse(remove_char(w[i + 1], '_'), 10, u32::MAX as int))
        }
    } else {
        repeat_error(w, i + 1)
    }
}

/// What is wrong with the pins to toggle in `w[i..]`, toggling `bits`: the
/// first pin that is no number, or is 160 or more.
pub open spec fn toggle_error(bits: Seq<bool>, w: Seq<Seq<char>>, i: int) -> Seq<char>
    decreases w.len() - i,
{
    if i >= w.len() || ends_pin_list(w[i]) {
        seq![]
    } else {
        match parse_unsigned(w[i], usize::MAX as int) {
            Some(p) => if p < 160 {
                toggle_error(bits.update(p, !bits[p]), w, i + 1)
            } else {
                "Pin "@ + dec_chars(p as nat) + " out of range (0-159)"@
            },
            None => "Invalid pin number '"@ + w[i] + "': "@ + parse_error_text(uint_parse(w[i], 10, usize::MAX as int)),
        }
    }
}

/// What is wrong with a `PIN` line whose type is known: the pin or range.
pub open spec fn pin_error(spec_word: Seq<char>) -> Seq<char> {
    if spec_word.contains('-') {
        let r = split(spec_word, '-');
        if r.len() != 2 {
            "Invalid pin range: "@ + spec_word
        } else if parse_unsigned(r[0], usize::MAX as int) is None {
            "Invalid pin number: "@ + parse_error_text(uint_parse(r[0], 10, usize::MAX as int))
        } else if parse_unsigned(r[1], usize::MAX as int) is None {
            "Invalid pin number: "@ + parse_error_text(uint_parse(r[1], 10, usize::MAX as int))
        } else {
            "Pin number out of range (0-159)"@
        }
    } else if parse_unsigned(spec_word, usize::MAX as int) is None {
        "Invalid pin number: "@ + parse_error_text(uint_parse(spec_word, 10, usize::MAX as int))
    } else {
        "Pin number out of range (0-159)"@
    }
}

/// The message of a line that is refused (see `line_spec`), given its
/// words and the vector before it.
pub open spec fn line_error(w: Seq<Seq<char>>, prev: Seq<bool>) -> Seq<char> {
    let u = str_to_uppercase(w[0]);
    if u == "CLOCK"@ {
        if w.len() < 2 {
            "CLOCK requires frequency value"@
        } else {
            "Invalid clock frequency: "@ + parse_error_text(uint_parse(remove_char(w[1], '_'), 10, u32::MAX as int))
        }
    } else if u == "PIN"@ {
        if w.len() < 3 {
            "PIN requires pin number/range and type"@
        } else if pin_type_spec(w[2]) is None {
            "Unknown pin type: "@ + w[2]
        } else {
            pin_error(w[1])
        }
    } else if u == "ZERO"@ || u == "ONES"@ {
        repeat_error(w, 0)
    } else if u == "TOGGLE"@ {
        if w.len() < 2 {
            "TOGGLE requires at least one pin number"@
        } else if toggles_spec(prev, w, 1) is None {
            toggle_error(prev, w, 1)
        } else {
            repeat_error(w, 0)
        }
    } else if u == "LABEL"@ {
        "LABEL requires a name"@
    } else if u.len() >= 2 && u[0] == '0' && (u[1] == 'X' || u[1] == 'x') {
        if w[0].len() < 2 {
            "Invalid hex vector"@
        } else if !hex_vector_ok(trim(w[0].skip(2))) {
            hex_error_message(trim(w[0].skip(2)))
        } else {
            repeat_error(w, 0)
        }
    } else if is_binary_seq(u) {
        if !binary_vector_ok(trim(w[0])) {
            binary_error_message(trim(w[0]))
        } else {
            repeat_error(w, 0)
        }
    } else {
        "Unknown directive: "@ + w[0]
    }
}

/// Whether an executed line result agrees with its meaning.
spec fn parsed_agrees(r: Result<ParsedLine, String>, s: LineSpec) -> bool {
    match s {
        LineSpec::Clock(h) => r matches Ok(ParsedLine::Clock(x)) && x == h,
        LineSpec::Pin(p, t) => r matches Ok(ParsedLine::Pin(x, y)) && x == p && y == t,
        LineSpec::PinRange(a, b, t) => r matches Ok(ParsedLine::PinRange(x, y, z)) && x == a && y
            == b && z == t,
        LineSpec::Vector(bits, n) => r matches Ok(ParsedLine::Vector(v, m)) && v@ == bits && m == n,
        LineSpec::Label(name) => r matches Ok(ParsedLine::Label(l)) && l@ == name,
        LineSpec::Skip => r matches Ok(ParsedLine::Skip),
        LineSpec::Error => r is Err,
    }
}

fn err_msg(m: &str) -> (r: String)
    ensures
        r@ == m@,
{
    let c = chars_of(m);
    string_from_chars(&c)
}

/// `prefix` followed by `text`.
fn message_with(prefix: &str, text: &[char]) -> (r: String)
    ensures
        r@ == prefix@ + text@,
{
    let mut m: Vec<char> = Vec::new();
    push_str(&mut m, prefix);
    push_chars(&mut m, text);
    string_from_chars(&m)
}

/// `prefix` followed by the message of a parse error.
fn parse_error_message(prefix: &str, k: IntErrorKind) -> (r: String)
    ensures
        r@ == prefix@ + int_error_text(k),
{
    let mut m: Vec<char> = Vec::new();
    push_str(&mut m, prefix);
    push_str(&mut m, int_error_message(k));
    string_from_chars(&m)
}

/// Parse pin type string.
fn parse_pin_type(s: &[char]) -> (r: Result<PinType, String>)
    ensures
        match pin_type_spec(s@) {
            Some(t) => r == Ok::<PinType, String>(t),
            None => r matches Err(m) && m@ == "Unknown pin type: "@ + s@,
        },
{
    let u = upper_text(s);
    let u = u.as_slice();
    if eq_str(u, "BIDI") || eq_str(u, "BIDIRECTIONAL") || eq_str(u, "IO") {
        Ok(PinType::Bidi)
    } else if eq_str(u, "INPUT") || eq_str(u, "IN") || eq_str(u, "I") {
        Ok(PinType::Input)
    } else if eq_str(u, "OUTPUT") || eq_str(u, "OUT") || eq_str(u, "O") {
        Ok(PinType::Output)
    } else if eq_str(u, "OC") || eq_str(u, "OPENCOLLECTOR") || eq_str(u, "OPEN_COLLECTOR") {
        Ok(PinType::OpenCollector)
    } else if eq_str(u, "PULSE") || eq_str(u, "P") {
        Ok(PinType::Pulse)
    } else if eq_str(u, "NPULSE") || eq_str(u, "NP") {
        Ok(PinType::NPulse)
    } else if eq_str(u, "ERROR") || eq_str(u, "ERRORTRIG") || eq_str(u, "ERROR_TRIG") {
        Ok(PinType::ErrorTrig)
    } else if eq_str(u, "VECCLK") || eq_str(u, "VEC_CLK") || eq_str(u, "CLOCK") {
        Ok(PinType::VecClk)
    } else if eq_str(u, "VECCLKEN") || eq_str(u, "VEC_CLK_EN") || eq_str(u, "CLOCKEN") {
        Ok(PinType::VecClkEn)
    } else {
        Err(message_with("Unknown pin type: ", s))
    }
}

/// Parse repeat count from words (e.g. `REPEAT 1000`); 1 when absent.
fn parse_repeat(parts: &Vec<Vec<char>>) -> (r: Result<u32, String>)
    ensures
        match repeat_spec(words_view(parts@), 0) {
            Some(n) => r == Ok::<u32, String>(n as u32),
            None => r matches Err(m) && m@ == repeat_error(words_view(parts@), 0),
        },
{
    let ghost w = words_view(parts@);
    let mut i: usize = 0;
    while i < parts.len()
        invariant
            i <= parts@.len(),
            w == words_view(parts@),
            repeat_spec(w, 0) == repeat_spec(w, i as int),
            repeat_error(w, 0) == repeat_error(w, i as int),
        decreases parts.len() - i,
    {
        if eq_str(upper_text(&parts[i]).as_slice(), "REPEAT") {
            if i + 1 >= parts.len() {
                return Err(err_msg("REPEAT requires a count"));
            }
            let digits = without_char(&parts[i + 1], '_');
            return match parse_dec_max(&digits, 0xFFFF_FFFF) {
                Some(n) => Ok(n as u32),
                None => Err(parse_error_message("Invalid repeat count: ", dec_error_kind(&digits, 0xFFFF_FFFF))),
            };
        }
        i = i + 1;
    }
    Ok(1)
}

/// The character sequences of a list of words.
pub open spec fn words_view(v: Seq<Vec<char>>) -> Seq<Seq<char>> {
    Seq::new(v.len(), |i: int| v[i]@)
}

/// Check if the upper-cased token looks like a binary vector.
fn is_binary_string(s: &[char]) -> (r: bool)
    ensures
        r == is_binary_seq(str_to_uppercase(s@)),
{
    let u = upper_text(s);
    if u.len() == 0 {
        return false;
    }
    let mut i: usize = 0;
    while i < u.len()
        invariant
            i <= u@.len(),
            u@ == str_to_uppercase(s@),
            forall|k: int| 0 <= k < i ==> {
                let c = #[trigger] u@[k];
                c == '0' || c == '1' || c == 'X' || c == 'Z' || c == 'H' || c == 'L' || c == '-'
            },
        decreases u.len() - i,
    {
        let c = u[i];
        if !(c == '0' || c == '1' || c == 'X' || c == 'Z' || c == 'H' || c == 'L' || c == '-') {
            assert(u@[i as int] == c);
            return false;
        }
        i = i + 1;
    }
    true
}


/// Toggle the pins listed in `parts[1..]` (up to `REPEAT` or a comment) in `prev`.
fn toggle_pins(parts: &Vec<Vec<char>>, prev: &Vector) -> (r: Result<Vector, String>)
    requires
        parts@.len() >= 1,
    ensures
        match toggles_spec(prev@, words_view(parts@), 1) {
            Some(b) => r matches Ok(v) && v@ == b,
            None => r matches Err(m) && m@ == toggle_error(prev@, words_view(parts@), 1),
        },
{
    let ghost w = words_view(parts@);
    let mut vec = *prev;
    let mut k: usize = 1;
    let mut done = false;
    while k < parts.len() && !done
        invariant
            1 <= k <= parts@.len(),
            w == words_view(parts@),
            toggles_spec(prev@, w, 1) == toggles_spec(vec@, w, k as int),
            toggle_error(prev@, w, 1) == toggle_error(vec@, w, k as int),
            done ==> ends_pin_list(w[k as int]) && k < parts@.len(),
        decreases parts.len() - k, if done { 0int } else { 1int },
    {
        if eq_str(upper_text(&parts[k]).as_slice(), "REPEAT") || (parts[k].len() > 0 && parts[k][0] == '#') {
            done = true;
        } else {
            match parse_dec_max(&parts[k], usize::MAX as u64) {
                Some(p) => {
                    if p >= 160 {
                        let mut m: Vec<char> = Vec::new();
                        push_str(&mut m, "Pin ");
                        push_decimal(&mut m, p);
                        push_str(&mut m, " out of range (0-159)");
                        return Err(string_from_chars(&m));
                    }
                    let pin = p as usize;
                    let cur = vec.get_bit(pin);
                    vec.set_bit(pin, !cur);
                },
                None => {
                    let kind = dec_error_kind(&parts[k], usize::MAX as u64);
                    let mut m: Vec<char> = Vec::new();
                    push_str(&mut m, "Invalid pin number '");
                    push_chars(&mut m, &parts[k]);
                    push_str(&mut m, "': ");
                    push_str(&mut m, int_error_message(kind));
                    return Err(string_from_chars(&m));
                },
            }
            k = k + 1;
        }
    }
    Ok(vec)
}

/// Parse a single (trimmed, non-empty) line.
fn parse_line(line: &[char], prev: &Vector, current_label: &mut Option<String>) -> (r: Result<
    ParsedLine,
    String,
>)
    ensures
        parsed_agrees(r, line_spec(words(line@), prev@)),
        line_spec(words(line@), prev@) is Error ==> (r matches Err(m) && m@ == line_error(words(line@), prev@)),
        *final(current_label) == *old(current_label),
{
    let parts = split_words(line);
    let ghost w = words_view(parts@);
    assert(w =~= words(line@));
    if parts.len() == 0 {
        return Ok(ParsedLine::Skip);
    }
    let head = &parts[0];
    let hu = upper_text(head);
    let hu = hu.as_slice();
    if eq_str(hu, "CLOCK") {
        if parts.len() < 2 {
            return Err(err_msg("CLOCK requires frequency value"));
        }
        let digits = without_char(&parts[1], '_');
        return match parse_dec_max(&digits, 0xFFFF_FFFF) {
            Some(h) => Ok(ParsedLine::Clock(h as u32)),
            None => Err(parse_error_message("Invalid clock frequency: ", dec_error_kind(&digits, 0xFFFF_FFFF))),
        };
    }
    if eq_str(hu, "PIN") {
        if parts.len() < 3 {
            return Err(err_msg("PIN requires pin number/range and type"));
        }
        let pin_type = match parse_pin_type(&parts[2]) {
            Ok(t) => t,
            Err(e) => {
                return Err(e);
            },
        };
        let spec_str = &parts[1];
        if contains_char(spec_str, '-') {
            let range = split_chars(spec_str, '-');
            if range.len() != 2 {
                return Err(message_with("Invalid pin range: ", spec_str));
            }
            let start = match parse_dec_max(&range[0], usize::MAX as u64) {
                Some(x) => x,
                None => {
                    return Err(parse_error_message("Invalid pin number: ", dec_error_kind(&range[0], usize::MAX as u64)));
                },
            };
            let end = match parse_dec_max(&range[1], usize::MAX as u64) {
                Some(x) => x,
                None => {
                    return Err(parse_error_message("Invalid pin number: ", dec_error_kind(&range[1], usize::MAX as u64)));
                },
            };
            if start >= 160 || end >= 160 {
                return Err(err_msg("Pin number out of range (0-159)"));
            }
            return Ok(ParsedLine::PinRange(start as usize, end as usize, pin_type));
        } else {
            let pin = match parse_dec_max(spec_str, usize::MAX as u64) {
                Some(x) => x,
                None => {
                    return Err(parse_error_message("Invalid pin number: ", dec_error_kind(spec_str, usize::MAX as u64)));
                },
            };
            if pin >= 160 {
                return Err(err_msg("Pin number out of range (0-159)"));
            }
            return Ok(ParsedLine::Pin(pin as usize, pin_type));
        }
    }
    if eq_str(hu, "ZERO") {
        let repeat = match parse_repeat(&parts) {
            Ok(n) => n,
            Err(e) => {
                return Err(e);
            },
        };
        return Ok(ParsedLine::Vector(Vector::zero(), repeat));
    }
    if eq_str(hu, "ONES") {
        let repeat = match parse_repeat(&parts) {
            Ok(n) => n,
            Err(e) => {
                return Err(e);
            },
        };
        return Ok(ParsedLine::Vector(Vector::ones(), repeat));
    }
    if eq_str(hu, "TOGGLE") {
        if parts.len() < 2 {
            return Err(err_msg("TOGGLE requires at least one pin number"));
        }
        let vec = match toggle_pins(&parts, prev) {
            Ok(v) => v,
            Err(e) => {
                return Err(e);
            },
        };
        let repeat = match parse_repeat(&parts) {
            Ok(n) => n,
            Err(e) => {
                return Err(e);
            },
        };
        return Ok(ParsedLine::Vector(vec, repeat));
    }
    if eq_str(hu, "LABEL") {
        if parts.len() < 2 {
            return Err(err_msg("LABEL requires a name"));
        }
        return Ok(ParsedLine::Label(string_from_chars(&parts[1])));
    }
    if hu.len() >= 2 && hu[0] == '0' && (hu[1] == 'X' || hu[1] == 'x') {
        if head.len() < 2 {
            return Err(err_msg("Invalid hex vector"));
        }
        let hex = crate::text::slice_range(head, 2, head.len());
        assert(hex@ =~= w[0].skip(2));
        let hs = string_from_chars(&hex);
        let vec = match Vector::from_hex(hs.as_str()) {
            Ok(v) => v,
            Err(e) => {
                return Err(e);
            },
        };
        assert(vec@ =~= hex_bits(trim(w[0].skip(2))));
        let repeat = match parse_repeat(&parts) {
            Ok(n) => n,
            Err(e) => {
                return Err(e);
            },
        };
        return Ok(ParsedLine::Vector(vec, repeat));
    }
    if is_binary_string(head) {
        let hs = string_from_chars(head);
        let vec = match Vector::from_binary(hs.as_str()) {
            Ok(v) => v,
            Err(e) => {
                return Err(e);
            },
        };
        assert(vec@ =~= binary_bits(trim(w[0])));
        let repeat = match parse_repeat(&parts) {
            Ok(n) => n,
            Err(e) => {
                return Err(e);
            },
        };
        return Ok(ParsedLine::Vector(vec, repeat));
    }
    Err(message_with("Unknown directive: ", head))
}


/// The abstract state of a program being parsed.
pub struct ProgModel {
    pub clock: u32,
    pub pins: Seq<PinType>,
    pub entries: Seq<(Seq<bool>, u32, Option<Seq<char>>)>,
    pub prev: Seq<bool>,
    pub label: Option<Seq<char>>,
    /// The 1-based number of the first line that failed, if any.
    pub error: Option<int>,
}

pub open spec fn initial_model() -> ProgModel {
    ProgModel {
        clock: 100_000_000,
        pins: Seq::new(160, |p: int| PinType::Bidi),
        entries: seq![],
        prev: zero_bits(),
        label: None,
        error: None,
    }
}

/// Whether a trimmed line is skipped (empty or a comment).
pub open spec fn skipped(t: Seq<char>) -> bool {
    t.len() == 0 || t[0] == '#'
}

/// The state after the line with 0-based index `idx`.
pub open spec fn apply_line(m: ProgModel, idx: int, line: Seq<char>) -> ProgModel {
    let t = trim(line);
    if m.error is Some || skipped(t) {
        m
    } else {
        match line_spec(words(t), m.prev) {
            LineSpec::Error => ProgModel { error: Some(idx + 1), ..m },
            LineSpec::Clock(h) => ProgModel { clock: h, ..m },
            LineSpec::Pin(p, ty) => ProgModel { pins: m.pins.update(p, ty), ..m },
            LineSpec::PinRange(a, b, ty) => ProgModel {
                pins: Seq::new(160, |q: int| if a <= q <= b { ty } else { m.pins[q] }),
                ..m
            },
            LineSpec::Vector(bits, n) => ProgModel {
                entries: m.entries.push((bits, n, m.label)),
                prev: bits,
                label: None,
                ..m
            },
            LineSpec::Label(name) => ProgModel { label: Some(name), ..m },
            LineSpec::Skip => m,
        }
    }
}

/// The state after all of `ls`.
pub open spec fn prog_model(ls: Seq<Seq<char>>) -> ProgModel
    decreases ls.len(),
{
    if ls.len() == 0 {
        initial_model()
    } else {
        apply_line(prog_model(ls.drop_last()), ls.len() - 1, ls.last())
    }
}

pub open spec fn label_view(l: Option<String>) -> Option<Seq<char>> {
    match l {
        Some(s) => Some(s@),
        None => None,
    }
}

/// Whether `p` holds what the model `m` describes.
pub open spec fn program_matches(p: FvecProgram, m: ProgModel) -> bool {
    &&& p.clock_hz == m.clock
    &&& p.pin_config.types@ == m.pins
    &&& p.vectors@.len() == m.entries.len()
    &&& forall|i: int|
        0 <= i < m.entries.len() ==> {
            let e = #[trigger] p.vectors@[i];
            e.vector@ == m.entries[i].0 && e.repeat == m.entries[i].1 && label_view(e.label)
                == m.entries[i].2
        }
}

/// Sum of the repeat counts.
pub open spec fn total_repeats(v: Seq<FvecVector>) -> int
    decreases v.len(),
{
    if v.len() == 0 {
        0
    } else {
        total_repeats(v.drop_last()) + v.last().repeat
    }
}

impl FvecProgram {
    /// Parse FVEC text.
    pub fn from_str(s: &str) -> (r: Result<Self, FvecError>)
        ensures
            match r {
                Ok(p) => prog_model(lines(s@)).error is None && program_matches(p, prog_model(lines(s@))),
                Err(FvecError::Parse { line, msg }) => prog_model(lines(s@)).error == Some(line as int) && 1 <= line
                    <= lines(s@).len() && msg@ == line_error(
                    words(trim(lines(s@)[line - 1])),
                    prog_model(lines(s@).take(line - 1)).prev,
                ),
            },
    {
        let chars = chars_of(s);
        let ls = split_lines(&chars);
        let ghost all = lines(s@);
        let mut program = FvecProgram::default();
        let mut prev_vector = Vector::zero();
        let mut current_label: Option<String> = None;
        let mut i: usize = 0;
        assert(program.pin_config.types@ =~= initial_model().pins);
        while i < ls.len()
            invariant
                i <= ls@.len() == all.len(),
                all == lines(s@),
                forall|k: int| 0 <= k < ls@.len() ==> #[trigger] ls@[k]@ == all[k],
                prog_model(all.take(i as int)).error is None,
                program_matches(program, prog_model(all.take(i as int))),
                prev_vector@ == prog_model(all.take(i as int)).prev,
                label_view(current_label) == prog_model(all.take(i as int)).label,
            decreases ls.len() - i,
        {
            let ghost m = prog_model(all.take(i as int));
            assert(all.take(i + 1).drop_last() =~= all.take(i as int));
            let line = trimmed(&ls[i]);
            if line.len() == 0 || line[0] == '#' {
                i = i + 1;
                continue;
            }
            let parsed = parse_line(&line, &prev_vector, &mut current_label);
            proof {
                assert(words(line@) == words(trim(all[i as int])));
            }
            match parsed {
                Ok(ParsedLine::Clock(hz)) => {
                    program.clock_hz = hz;
                },
                Ok(ParsedLine::Pin(pin, pin_type)) => {
                    program.pin_config.types[pin] = pin_type;
                    assert(program.pin_config.types@ =~= m.pins.update(pin as int, pin_type));
                },
                Ok(ParsedLine::PinRange(start, end, pin_type)) => {
                    let mut pin = start;
                    let ghost vb = program.vectors@;
                    while pin <= end
                        invariant
                            start <= pin,
                            pin == start || pin <= end + 1,
                            end < 160,
                            program.clock_hz == m.clock,
                            program.vectors@ == vb,
                            forall|q: int| 0 <= q < 160 ==> program.pin_config.types[q] == if start <= q < pin {
                                pin_type
                            } else {
                                m.pins[q]
                            },
                        decreases end + 1 - pin,
                    {
                        program.pin_config.types[pin] = pin_type;
                        pin = pin + 1;
                    }
                    assert(program.pin_config.types@ =~= Seq::new(160, |q: int| if start <= q <= end { pin_type } else { m.pins[q] }));
                    assert(program_matches(program, prog_model(all.take(i + 1))));
                },
                Ok(ParsedLine::Vector(vec, repeat)) => {
                    let label = current_label.take();
                    program.vectors.push(FvecVector { vector: vec, repeat, label });
                    prev_vector = vec;
                    assert(program_matches(program, prog_model(all.take(i + 1))));
                },
                Ok(ParsedLine::Label(name)) => {
                    current_label = Some(name);
                },
                Ok(ParsedLine::Skip) => {},
                Err(msg) => {
                    proof {
                        lemma_error_persists(all, i as int + 1);
                    }
                    return Err(FvecError::Parse { line: i + 1, msg });
                },
            }
            i = i + 1;
        }
        assert(all.take(all.len() as int) =~= all);
        Ok(program)
    }

    /// Total vector count after expanding repeats.
    pub fn total_vectors(&self) -> (r: u64)
        requires
            total_repeats(self.vectors@) <= u64::MAX,
        ensures
            r == total_repeats(self.vectors@),
    {
        let mut sum: u64 = 0;
        let mut i: usize = 0;
        while i < self.vectors.len()
            invariant
                i <= self.vectors@.len(),
                sum == total_repeats(self.vectors@.take(i as int)),
                total_repeats(self.vectors@) <= u64::MAX,
            decreases self.vectors.len() - i,
        {
            assert(self.vectors@.take(i + 1).drop_last() =~= self.vectors@.take(i as int));
            proof {
                lemma_total_repeats_prefix(self.vectors@, i as int + 1);
            }
            sum = sum + self.vectors[i].repeat as u64;
            i = i + 1;
        }
        assert(self.vectors@.take(self.vectors@.len() as int) =~= self.vectors@);
        sum
    }
}

proof fn lemma_error_persists(ls: Seq<Seq<char>>, k: int)
    requires
        0 <= k <= ls.len(),
        prog_model(ls.take(k)).error is Some,
    ensures
        prog_model(ls).error == prog_model(ls.take(k)).error,
    decreases ls.len(),
{
    if k < ls.len() {
        assert(ls.drop_last().take(k) =~= ls.take(k));
        lemma_error_persists(ls.drop_last(), k);
    } else {
        assert(ls.take(k) =~= ls);
    }
}

proof fn lemma_total_repeats_prefix(v: Seq<FvecVector>, k: int)
    requires
        0 <= k <= v.len(),
    ensures
        total_repeats(v.take(k)) <= total_repeats(v),
        total_repeats(v.take(k)) >= 0,
    decreases v.len(),
{
    if k < v.len() {
        assert(v.drop_last().take(k) =~= v.take(k));
        lemma_total_repeats_prefix(v.drop_last(), k);
    } else {
        assert(v.take(k) =~= v);
        if v.len() > 0 {
            lemma_total_repeats_prefix(v.drop_last(), v.len() - 1);
            assert(v.drop_last().take(v.len() - 1) =~= v.drop_last());
        }
    }
}

impl FvecError {
    /// `Parse error at line N: message`, as the error is shown.
    pub fn to_string(&self) -> (r: String)
        ensures
            match self {
                FvecError::Parse { line, msg } => r@ == "Parse error at line "@ + crate::text::dec_chars(*line as nat) + ": "@
                    + msg@,
            },
    {
        match self {
            FvecError::Parse { line, msg } => {
                let mut m: Vec<char> = Vec::new();
                crate::text::push_str(&mut m, "Parse error at line ");
                crate::text::push_decimal(&mut m, *line as u64);
                crate::text::push_str(&mut m, ": ");
                crate::text::push_str(&mut m, msg.as_str());
                string_from_chars(m.as_slice())
            },
        }
    }
}

} // verus!
