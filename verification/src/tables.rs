//! The fixed, architecture-defined lookup tables of the computation
//! instruction: computation, destination and jump mnemonics and their bit
//! fields.

use vstd::prelude::*;

use crate::text::str_eq;

verus! {

/// The 7-bit field of a computation mnemonic, or `None` when the mnemonic is
/// not part of the instruction set. The leading bit tells expressions that
/// read the addressed memory cell from those that read the address register.
pub open spec fn comp_code(c: Seq<char>) -> Option<Seq<char>> {
    if c == "0"@ {
        Some("0101010"@)
    } else if c == "1"@ {
        Some("0111111"@)
    } else if c == "-1"@ {
        Some("0111010"@)
    } else if c == "D"@ {
        Some("0001100"@)
    } else if c == "A"@ {
        Some("0110000"@)
    } else if c == "!D"@ {
        Some("0001101"@)
    } else if c == "!A"@ {
        Some("0110001"@)
    } else if c == "-D"@ {
        Some("0001111"@)
    } else if c == "-A"@ {
        Some("0110011"@)
    } else if c == "D+1"@ {
        Some("0011111"@)
    } else if c == "A+1"@ {
        Some("0110111"@)
    } else if c == "D-1"@ {
        Some("0001110"@)
    } else if c == "A-1"@ {
        Some("0110010"@)
    } else if c == "D+A"@ {
        Some("0000010"@)
    } else if c == "D-A"@ {
        Some("0010011"@)
    } else if c == "A-D"@ {
        Some("0000111"@)
    } else if c == "D&A"@ {
        Some("0000000"@)
    } else if c == "D|A"@ {
        Some("0010101"@)
    } else if c == "M"@ {
        Some("1110000"@)
    } else if c == "!M"@ {
        Some("1110001"@)
    } else if c == "-M"@ {
        Some("1110011"@)
    } else if c == "M+1"@ {
        Some("1110111"@)
    } else if c == "M-1"@ {
        Some("1110010"@)
    } else if c == "D+M"@ {
        Some("1000010"@)
    } else if c == "D-M"@ {
        Some("1010011"@)
    } else if c == "M-D"@ {
        Some("1000111"@)
    } else if c == "D&M"@ {
        Some("1000000"@)
    } else if c == "D|M"@ {
        Some("1010101"@)
    } else {
        None
    }
}

/// The 3-bit field of a destination mnemonic; `"null"` stands for a missing
/// destination.
pub open spec fn dest_code(d: Seq<char>) -> Option<Seq<char>> {
    if d == "null"@ {
        Some("000"@)
    } else if d == "M"@ {
        Some("001"@)
    } else if d == "D"@ {
        Some("010"@)
    } else if d == "MD"@ {
        Some("011"@)
    } else if d == "A"@ {
        Some("100"@)
    } else if d == "AM"@ {
        Some("101"@)
    } else if d == "AD"@ {
        Some("110"@)
    } else if d == "AMD"@ {
        Some("111"@)
    } else {
        None
    }
}

/// The 3-bit field of a jump mnemonic; `"null"` stands for a missing jump.
pub open spec fn jump_code(j: Seq<char>) -> Option<Seq<char>> {
    if j == "null"@ {
        Some("000"@)
    } else if j == "JGT"@ {
        Some("001"@)
    } else if j == "JEQ"@ {
        Some("010"@)
    } else if j == "JGE"@ {
        Some("011"@)
    } else if j == "JLT"@ {
        Some("100"@)
    } else if j == "JNE"@ {
        Some("101"@)
    } else if j == "JLE"@ {
        Some("110"@)
    } else if j == "JMP"@ {
        Some("111"@)
    } else {
        None
    }
}

/// Looks up a computation mnemonic's bit field.
pub fn comp_lookup(c: &str) -> (r: Option<&'static str>)
    ensures
        match r {
            Some(b) => comp_code(c@) == Some(b@),
            None => comp_code(c@) is None,
        },
{
    if str_eq(c, "0") {
        Some("0101010")
    } else if str_eq(c, "1") {
        Some("0111111")
    } else if str_eq(c, "-1") {
        Some("0111010")
    } else if str_eq(c, "D") {
        Some("0001100")
    } else if str_eq(c, "A") {
        Some("0110000")
    } else if str_eq(c, "!D") {
        Some("0001101")
    } else if str_eq(c, "!A") {
        Some("0110001")
    } else if str_eq(c, "-D") {
        Some("0001111")
    } else if str_eq(c, "-A") {
        Some("0110011")
    } else if str_eq(c, "D+1") {
        Some("0011111")
    } else if str_eq(c, "A+1") {
        Some("0110111")
    } else if str_eq(c, "D-1") {
        Some("0001110")
    } else if str_eq(c, "A-1") {
        Some("0110010")
    } else if str_eq(c, "D+A") {
        Some("0000010")
    } else if str_eq(c, "D-A") {
        Some("0010011")
    } else if str_eq(c, "A-D") {
        Some("0000111")
    } else if str_eq(c, "D&A") {
        Some("0000000")
    } else if str_eq(c, "D|A") {
        Some("0010101")
    } else if str_eq(c, "M") {
        Some("1110000")
    } else if str_eq(c, "!M") {
        Some("1110001")
    } else if str_eq(c, "-M") {
        Some("1110011")
    } else if str_eq(c, "M+1") {
        Some("1110111")
    } else if str_eq(c, "M-1") {
        Some("1110010")
    } else if str_eq(c, "D+M") {
        Some("1000010")
    } else if str_eq(c, "D-M") {
        Some("1010011")
    } else if str_eq(c, "M-D") {
        Some("1000111")
    } else if str_eq(c, "D&M") {
        Some("1000000")
    } else if str_eq(c, "D|M") {
        Some("1010101")
    } else {
        None
    }
}

/// Looks up a destination mnemonic's bit field.
pub fn dest_lookup(d: &str) -> (r: Option<&'static str>)
    ensures
        match r {
            Some(b) => dest_code(d@) == Some(b@),
            None => dest_code(d@) is None,
        },
{
    if str_eq(d, "null") {
        Some("000")
    } else if str_eq(d, "M") {
        Some("001")
    } else if str_eq(d, "D") {
        Some("010")
    } else if str_eq(d, "MD") {
        Some("011")
    } else if str_eq(d, "A") {
        Some("100")
    } else if str_eq(d, "AM") {
        Some("101")
    } else if str_eq(d, "AD") {
        Some("110")
    } else if str_eq(d, "AMD") {
        Some("111")
    } else {
        None
    }
}

/// Looks up a jump mnemonic's bit field.
pub fn jump_lookup(j: &str) -> (r: Option<&'static str>)
    ensures
        match r {
            Some(b) => jump_code(j@) == Some(b@),
            None => jump_code(j@) is None,
        },
{
    if str_eq(j, "null") {
        Some("000")
    } else if str_eq(j, "JGT") {
        Some("001")
    } else if str_eq(j, "JEQ") {
        Some("010")
    } else if str_eq(j, "JGE") {
        Some("011")
    } else if str_eq(j, "JLT") {
        Some("100")
    } else if str_eq(j, "JNE") {
        Some("101")
    } else if str_eq(j, "JLE") {
        Some("110")
    } else if str_eq(j, "JMP") {
        Some("111")
    } else {
        None
    }
}

} // verus!
