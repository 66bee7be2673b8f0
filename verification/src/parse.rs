//! Parser: classifies tokens, runs the label-binding pass and the encoding
//! pass, and renders each executable instruction as a 16-bit binary line.

use vstd::prelude::*;

use crate::lex::{tokenize, Lexer};
use crate::numeric::{bin_of, bin_string, dec_val, parse_decimal};
use crate::symbols::{reserved_map, reserved_table, SymbolTable};
use crate::tables::{comp_code, comp_lookup, dest_code, dest_lookup, jump_code, jump_lookup};
use crate::text::{digit_char, find_char, find_from, is_digit, lemma_find_from};

verus! {

/// The three mutually exclusive instruction kinds a token can have.
#[derive(Clone, Copy, Debug, PartialEq, Eq, Structural)]
pub enum TokenType {
    /// A label pseudo-instruction: defines a symbol, emits nothing.
    LCommand,
    /// An address instruction: loads a constant or resolved address.
    ACommand,
    /// A computation instruction: ALU operation, destination and jump.
    CCommand,
}

/// A fatal input error, carrying the offending token.
#[derive(Debug, PartialEq, Eq)]
pub enum AsmError {
    /// A label token that is not a parenthesized, non-digit-led name.
    MalformedLabel(String),
    /// An address operand that is neither a name nor a number.
    MalformedOperand(String),
    /// A computation, destination or jump mnemonic outside the fixed tables.
    UnknownMnemonic(String),
    /// A label defined a second time with a conflicting address.
    SymbolConflict(String),
    /// A value that does not fit the 15-bit address space.
    AddressOverflow(String),
}

/// The specification-level image of an `AsmError`.
pub ghost enum Fault {
    MalformedLabel(Seq<char>),
    MalformedOperand(Seq<char>),
    UnknownMnemonic(Seq<char>),
    SymbolConflict(Seq<char>),
    AddressOverflow(Seq<char>),
}

/// What an `AsmError` says, over views.
pub open spec fn fault_of(e: AsmError) -> Fault {
    match e {
        AsmError::MalformedLabel(s) => Fault::MalformedLabel(s@),
        AsmError::MalformedOperand(s) => Fault::MalformedOperand(s@),
        AsmError::UnknownMnemonic(s) => Fault::UnknownMnemonic(s@),
        AsmError::SymbolConflict(s) => Fault::SymbolConflict(s@),
        AsmError::AddressOverflow(s) => Fault::AddressOverflow(s@),
    }
}

/// The mathematical state of a `Parser`: the program counter, the variable
/// allocation cursor and the symbol bindings.
pub ghost struct ParserModel {
    /// Count of executable instructions seen by the resolution pass, capped
    /// at the top of the 15-bit address space.
    pub pc: nat,
    /// Next free variable address.
    pub mem: nat,
    /// Name-to-address bindings.
    pub symbols: Map<Seq<char>, u16>,
}

/// The state a fresh parser starts from: nothing resolved, variables from
/// address 16 up, the architecture aliases pre-bound.
pub open spec fn init_model() -> ParserModel {
    ParserModel { pc: 0, mem: 16, symbols: reserved_map() }
}

/// Classification of a token by its first character: `(` opens a label,
/// `@` opens an address instruction, anything else is a computation.
pub open spec fn spec_token_type(t: Seq<char>) -> TokenType {
    if t.len() > 0 && t[0] == '(' {
        TokenType::LCommand
    } else if t.len() > 0 && t[0] == '@' {
        TokenType::ACommand
    } else {
        TokenType::CCommand
    }
}

/// A well-formed label token: a parenthesized, non-empty name that does not
/// start with a digit.
pub open spec fn valid_label(t: Seq<char>) -> bool {
    t.len() >= 3 && t[0] == '(' && t[t.len() - 1] == ')' && !is_digit(t[1])
}

/// The name inside a label token's parentheses.
pub open spec fn label_name(t: Seq<char>) -> Seq<char> {
    t.subrange(1, t.len() - 1)
}

/// The operand after an address instruction's marker.
pub open spec fn operand_of(t: Seq<char>) -> Seq<char> {
    t.subrange(1, t.len() as int)
}

/// A literal operand: one or more digits and nothing else.
pub open spec fn numeric_operand(op: Seq<char>) -> bool {
    op.len() > 0 && forall|i: int| 0 <= i < op.len() ==> is_digit(op[i])
}

/// A symbolic operand: non-empty and not led by a digit.
pub open spec fn name_operand(op: Seq<char>) -> bool {
    op.len() > 0 && !is_digit(op[0])
}

/// The computation field of a computation token: the text between any `=`
/// and any `;`.
pub open spec fn comp_field(t: Seq<char>) -> Seq<char> {
    let semi = find_from(t, 0, ';');
    let eq = find_from(t, 0, '=');
    if eq < semi {
        t.subrange(eq as int + 1, semi as int)
    } else {
        t.subrange(0, semi as int)
    }
}

/// The destination field of a computation token: the text before `=`, or
/// `"null"` when there is no destination.
pub open spec fn dest_field(t: Seq<char>) -> Seq<char> {
    let semi = find_from(t, 0, ';');
    let eq = find_from(t, 0, '=');
    if eq < semi {
        t.subrange(0, eq as int)
    } else {
        "null"@
    }
}

/// The jump field of a computation token: the text after `;`, or `"null"`
/// when there is no jump.
pub open spec fn jump_field(t: Seq<char>) -> Seq<char> {
    let semi = find_from(t, 0, ';');
    if semi < t.len() {
        t.subrange(semi as int + 1, t.len() as int)
    } else {
        "null"@
    }
}

/// An encoded address line: the leading `0` bit, the operand value in 15
/// binary digits, and the line terminator.
pub open spec fn a_line(v: nat) -> Seq<char> {
    "0"@ + bin_of(v, 15) + "\n"@
}

/// Encoding of a computation token: the fixed `111` prefix and the three
/// looked-up bit fields, or the first unknown mnemonic.
pub open spec fn encode_c(t: Seq<char>) -> Result<Seq<char>, Fault> {
    if comp_code(comp_field(t)) is None {
        Err(Fault::UnknownMnemonic(comp_field(t)))
    } else if dest_code(dest_field(t)) is None {
        Err(Fault::UnknownMnemonic(dest_field(t)))
    } else if jump_code(jump_field(t)) is None {
        Err(Fault::UnknownMnemonic(jump_field(t)))
    } else {
        Ok(
            "111"@ + comp_code(comp_field(t))->Some_0 + dest_code(dest_field(t))->Some_0
                + jump_code(jump_field(t))->Some_0 + "\n"@,
        )
    }
}

/// Encoding of an address token under a given state: a literal encodes
/// itself; a bound name encodes its address; an unbound name is allocated
/// at the variable cursor first.
pub open spec fn encode_a(st: ParserModel, t: Seq<char>) -> Result<(ParserModel, Seq<char>), Fault> {
    let op = operand_of(t);
    if numeric_operand(op) {
        if dec_val(op) < 0x8000 {
            Ok((st, a_line(dec_val(op))))
        } else {
            Err(Fault::AddressOverflow(t))
        }
    } else if !name_operand(op) {
        Err(Fault::MalformedOperand(t))
    } else if st.symbols.contains_key(op) {
        Ok((st, a_line(st.symbols[op] as nat)))
    } else if st.mem < 0x8000 {
        Ok(
            (
                ParserModel { mem: st.mem + 1, symbols: st.symbols.insert(op, st.mem as u16), ..st },
                a_line(st.mem),
            ),
        )
    } else {
        Err(Fault::AddressOverflow(t))
    }
}

/// What the encoding pass does with one token: labels emit nothing, address
/// tokens may extend the symbol bindings, computation tokens are stateless.
pub open spec fn encode_token(st: ParserModel, t: Seq<char>) -> Result<
    (ParserModel, Seq<char>),
    Fault,
> {
    match spec_token_type(t) {
        TokenType::LCommand => Ok((st, Seq::empty())),
        TokenType::ACommand => encode_a(st, t),
        TokenType::CCommand => match encode_c(t) {
            Ok(line) => Ok((st, line)),
            Err(f) => Err(f),
        },
    }
}

/// The program counter after one more executable instruction; positions
/// beyond the 15-bit address space are not told apart, since no label there
/// can be bound.
pub open spec fn next_pc(pc: nat) -> nat {
    if pc < 0x8000 {
        pc + 1
    } else {
        pc
    }
}

/// What the resolution pass does with one token: a label binds its name to
/// the current program counter (a rebind to the same address is a no-op, to
/// a different one a conflict); an executable token advances the counter.
pub open spec fn resolve_token(st: ParserModel, t: Seq<char>) -> Result<ParserModel, Fault> {
    if t.len() == 0 {
        Ok(st)
    } else if spec_token_type(t) == TokenType::LCommand {
        if !valid_label(t) {
            Err(Fault::MalformedLabel(t))
        } else {
            let name = label_name(t);
            if st.symbols.contains_key(name) {
                if st.symbols[name] as nat == st.pc {
                    Ok(st)
                } else {
                    Err(Fault::SymbolConflict(t))
                }
            } else if st.pc < 0x8000 {
                Ok(ParserModel { symbols: st.symbols.insert(name, st.pc as u16), ..st })
            } else {
                Err(Fault::AddressOverflow(t))
            }
        }
    } else {
        Ok(ParserModel { pc: next_pc(st.pc), ..st })
    }
}

/// The resolution pass over a whole token sequence, stopping at the first
/// fatal token.
pub open spec fn resolve_all(st: ParserModel, toks: Seq<Seq<char>>) -> Result<ParserModel, Fault>
    decreases toks.len(),
{
    if toks.len() == 0 {
        Ok(st)
    } else {
        match resolve_token(st, toks[0]) {
            Ok(st2) => resolve_all(st2, toks.drop_first()),
            Err(f) => Err(f),
        }
    }
}

/// The encoding pass over a whole token sequence: one output line per
/// executable token, none for labels, stopping at the first fatal token.
pub open spec fn encode_all(st: ParserModel, toks: Seq<Seq<char>>) -> Result<
    (ParserModel, Seq<Seq<char>>),
    Fault,
>
    decreases toks.len(),
{
    if toks.len() == 0 {
        Ok((st, Seq::empty()))
    } else {
        match encode_token(st, toks[0]) {
            Ok(p) => match encode_all(p.0, toks.drop_first()) {
                Ok(q) => Ok(
                    (
                        q.0,
                        (if p.1.len() == 0 {
                            Seq::<Seq<char>>::empty()
                        } else {
                            seq![p.1]
                        }) + q.1,
                    ),
                ),
                Err(f) => Err(f),
            },
            Err(f) => Err(f),
        }
    }
}

/// The whole pipeline on a source text: tokenize, bind every label, then
/// encode every executable token — or the first fatal input error, with no
/// output at all.
pub open spec fn spec_assemble(src: Seq<char>) -> Result<Seq<Seq<char>>, Fault> {
    let toks = tokenize(src);
    match resolve_all(init_model(), toks) {
        Ok(st) => match encode_all(st, toks) {
            Ok(q) => Ok(q.1),
            Err(f) => Err(f),
        },
        Err(f) => Err(f),
    }
}

/// Translates a complete source text into its binary listing: the resolution
/// pass binds every label first, so references may precede definitions.
pub fn assemble(source: &str) -> (r: Result<Vec<String>, AsmError>)
    ensures
        match r {
            Ok(lines) => {
                &&& spec_assemble(source@) is Ok
                &&& spec_assemble(source@)->Ok_0 == lines.deep_view()
            },
            Err(e) => {
                &&& spec_assemble(source@) is Err
                &&& spec_assemble(source@)->Err_0 == fault_of(e)
            },
        },
{
    let lexer = Lexer::new(source);
    let toks = lexer.lines();
    let ghost gtoks = tokenize(source@);
    let mut parser = Parser::new();
    let n = toks.len();
    proof {
        assert(gtoks.skip(0) =~= gtoks);
    }
    let mut i: usize = 0;
    while i < n
        invariant
            i <= n,
            n == toks.len(),
            gtoks == tokenize(source@),
            toks.deep_view() == gtoks,
            resolve_all(init_model(), gtoks) == resolve_all(parser@, gtoks.skip(i as int)),
        decreases n - i,
    {
        proof {
            assert(toks.deep_view()[i as int] == toks@[i as int]@);
            assert(gtoks.skip(i as int)[0] == gtoks[i as int]);
            assert(gtoks.skip(i as int).drop_first() =~= gtoks.skip(i as int + 1));
        }
        match parser.collect_symbols(toks[i].as_str()) {
            Ok(_) => {},
            Err(e) => {
                return Err(e);
            },
        }
        i = i + 1;
    }
    proof {
        assert(gtoks.skip(n as int) =~= Seq::<Seq<char>>::empty());
    }
    let ghost st1 = parser@;
    let mut out: Vec<String> = Vec::new();
    proof {
        assert(gtoks.skip(0) =~= gtoks);
        assert(out.deep_view() =~= Seq::<Seq<char>>::empty());
    }
    let mut k: usize = 0;
    while k < n
        invariant
            k <= n,
            n == toks.len(),
            gtoks == tokenize(source@),
            toks.deep_view() == gtoks,
            resolve_all(init_model(), gtoks) == Ok::<ParserModel, Fault>(st1),
            match encode_all(parser@, gtoks.skip(k as int)) {
                Ok(q) => {
                    &&& encode_all(st1, gtoks) is Ok
                    &&& encode_all(st1, gtoks)->Ok_0.0 == q.0
                    &&& encode_all(st1, gtoks)->Ok_0.1 == out.deep_view() + q.1
                },
                Err(f) => {
                    &&& encode_all(st1, gtoks) is Err
                    &&& encode_all(st1, gtoks)->Err_0 == f
                },
            },
        decreases n - k,
    {
        proof {
            assert(toks.deep_view()[k as int] == toks@[k as int]@);
            assert(gtoks.skip(k as int)[0] == gtoks[k as int]);
            assert(gtoks.skip(k as int).drop_first() =~= gtoks.skip(k as int + 1));
        }
        let ghost pre = out.deep_view();
        match parser.parse(toks[k].as_str()) {
            Ok(line) => {
                if line.unicode_len() > 0 {
                    out.push(line);
                    proof {
                        assert(out.deep_view() =~= pre.push(line@));
                    }
                }
            },
            Err(e) => {
                return Err(e);
            },
        }
        proof {
            if encode_all(parser@, gtoks.skip(k as int + 1)) is Ok {
                let q = encode_all(parser@, gtoks.skip(k as int + 1))->Ok_0;
                assert(out.deep_view() + q.1 =~= encode_all(st1, gtoks)->Ok_0.1);
            }
        }
        k = k + 1;
    }
    proof {
        assert(gtoks.skip(n as int) =~= Seq::<Seq<char>>::empty());
        assert(out.deep_view() + Seq::<Seq<char>>::empty() =~= out.deep_view());
    }
    Ok(out)
}

/// Translates tokens to binary lines across the two passes, carrying the
/// program counter, the variable cursor and the symbol table.
pub struct Parser {
    pc: u16,
    mem: u16,
    symbols: SymbolTable,
}

impl View for Parser {
    type V = ParserModel;

    closed spec fn view(&self) -> ParserModel {
        ParserModel { pc: self.pc as nat, mem: self.mem as nat, symbols: self.symbols@ }
    }
}

impl Parser {
    /// A parser over a fresh state: the reserved aliases bound, the program
    /// counter at zero, the variable cursor at the first free address.
    pub fn new() -> (p: Parser)
        ensures
            p@ == init_model(),
    {
        Parser { pc: 0, mem: 16, symbols: reserved_table() }
    }

    /// The address a name is currently bound to, if any.
    pub fn lookup(&self, name: &str) -> (r: Option<u16>)
        ensures
            r == if self@.symbols.contains_key(name@) {
                Some(self@.symbols[name@])
            } else {
                None::<u16>
            },
    {
        self.symbols.lookup(name)
    }

    /// Classifies one token by its syntax alone.
    pub fn token_type(&self, token: &str) -> (tt: TokenType)
        ensures
            tt == spec_token_type(token@),
    {
        if token.unicode_len() == 0 {
            return TokenType::CCommand;
        }
        let c = token.get_char(0);
        if c == '(' {
            TokenType::LCommand
        } else if c == '@' {
            TokenType::ACommand
        } else {
            TokenType::CCommand
        }
    }

    /// The 7-bit computation field of a computation token.
    pub fn get_comp_bits(&self, token: &str) -> (r: Result<String, AsmError>)
        ensures
            match r {
                Ok(b) => comp_code(comp_field(token@)) == Some(b@),
                Err(e) => {
                    &&& comp_code(comp_field(token@)) is None
                    &&& fault_of(e) == Fault::UnknownMnemonic(comp_field(token@))
                },
            },
    {
        let c = comp_text(token);
        match comp_lookup(c.as_str()) {
            Some(b) => Ok(b.to_owned()),
            None => Err(AsmError::UnknownMnemonic(c)),
        }
    }

    /// The 3-bit destination field of a computation token.
    pub fn get_dest_bits(&self, token: &str) -> (r: Result<String, AsmError>)
        ensures
            match r {
                Ok(b) => dest_code(dest_field(token@)) == Some(b@),
                Err(e) => {
                    &&& dest_code(dest_field(token@)) is None
                    &&& fault_of(e) == Fault::UnknownMnemonic(dest_field(token@))
                },
            },
    {
        let d = dest_text(token);
        match dest_lookup(d.as_str()) {
            Some(b) => Ok(b.to_owned()),
            None => Err(AsmError::UnknownMnemonic(d)),
        }
    }

    /// The 3-bit jump field of a computation token.
    pub fn get_jump_bits(&self, token: &str) -> (r: Result<String, AsmError>)
        ensures
            match r {
                Ok(b) => jump_code(jump_field(token@)) == Some(b@),
                Err(e) => {
                    &&& jump_code(jump_field(token@)) is None
                    &&& fault_of(e) == Fault::UnknownMnemonic(jump_field(token@))
                },
            },
    {
        let j = jump_text(token);
        match jump_lookup(j.as_str()) {
            Some(b) => Ok(b.to_owned()),
            None => Err(AsmError::UnknownMnemonic(j)),
        }
    }
}

impl Parser {
    /// Resolution pass, one token at a time: binds a label to the current
    /// program counter, or advances the counter past an executable token.
    pub fn collect_symbols(&mut self, token: &str) -> (r: Result<(), AsmError>)
        ensures
            match r {
                Ok(u) => {
                    &&& resolve_token(old(self)@, token@) is Ok
                    &&& resolve_token(old(self)@, token@)->Ok_0 == final(self)@
                },
                Err(e) => {
                    &&& resolve_token(old(self)@, token@) is Err
                    &&& resolve_token(old(self)@, token@)->Err_0 == fault_of(e)
                    &&& final(self)@ == old(self)@
                },
            },
    {
        let n = token.unicode_len();
        if n == 0 {
            return Ok(());
        }
        let tt = self.token_type(token);
        match tt {
            TokenType::LCommand => {
                if n < 3 || token.get_char(n - 1) != ')' || digit_char(token.get_char(1)) {
                    return Err(AsmError::MalformedLabel(token.to_owned()));
                }
                let name = token.substring_char(1, n - 1);
                proof {
                    assert(name@ == label_name(token@));
                }
                match self.symbols.lookup(name) {
                    Some(addr) => {
                        if addr == self.pc {
                            Ok(())
                        } else {
                            Err(AsmError::SymbolConflict(token.to_owned()))
                        }
                    },
                    None => {
                        if self.pc < 0x8000 {
                            let a = self.pc;
                            self.symbols.bind(name, a);
                            Ok(())
                        } else {
                            Err(AsmError::AddressOverflow(token.to_owned()))
                        }
                    },
                }
            },
            _ => {
                if self.pc < 0x8000 {
                    self.pc = self.pc + 1;
                }
                Ok(())
            },
        }
    }

    /// Encoding pass, one token at a time: a label yields the empty string,
    /// an executable token yields its 16-bit binary line (with terminator),
    /// and a fatal input error leaves the parser unchanged.
    pub fn parse(&mut self, token: &str) -> (r: Result<String, AsmError>)
        ensures
            match r {
                Ok(line) => {
                    &&& encode_token(old(self)@, token@) is Ok
                    &&& encode_token(old(self)@, token@)->Ok_0.0 == final(self)@
                    &&& encode_token(old(self)@, token@)->Ok_0.1 == line@
                },
                Err(e) => {
                    &&& encode_token(old(self)@, token@) is Err
                    &&& encode_token(old(self)@, token@)->Err_0 == fault_of(e)
                    &&& final(self)@ == old(self)@
                },
            },
    {
        let tt = self.token_type(token);
        match tt {
            TokenType::LCommand => {
                let out = String::new();
                proof {
                    assert(out@ =~= Seq::<char>::empty());
                }
                Ok(out)
            },
            TokenType::ACommand => self.parse_a(token),
            TokenType::CCommand => {
                let comp = match self.get_comp_bits(token) {
                    Ok(b) => b,
                    Err(e) => {
                        return Err(e);
                    },
                };
                let dest = match self.get_dest_bits(token) {
                    Ok(b) => b,
                    Err(e) => {
                        return Err(e);
                    },
                };
                let jump = match self.get_jump_bits(token) {
                    Ok(b) => b,
                    Err(e) => {
                        return Err(e);
                    },
                };
                let mut out = String::from_str("111");
                out.append(comp.as_str());
                out.append(dest.as_str());
                out.append(jump.as_str());
                out.append("\n");
                Ok(out)
            },
        }
    }

    /// Encodes one address token, allocating a variable when the operand is
    /// an unbound name.
    fn parse_a(&mut self, token: &str) -> (r: Result<String, AsmError>)
        requires
            spec_token_type(token@) == TokenType::ACommand,
        ensures
            match r {
                Ok(line) => {
                    &&& encode_a(old(self)@, token@) is Ok
                    &&& encode_a(old(self)@, token@)->Ok_0.0 == final(self)@
                    &&& encode_a(old(self)@, token@)->Ok_0.1 == line@
                },
                Err(e) => {
                    &&& encode_a(old(self)@, token@) is Err
                    &&& encode_a(old(self)@, token@)->Err_0 == fault_of(e)
                    &&& final(self)@ == old(self)@
                },
            },
    {
        let n = token.unicode_len();
        let op = token.substring_char(1, n);
        proof {
            assert(op@ == operand_of(token@));
        }
        if operand_is_numeric(op) {
            match parse_decimal(op, 0x8000) {
                Some(v) => Ok(a_render(v)),
                None => Err(AsmError::AddressOverflow(token.to_owned())),
            }
        } else if op.unicode_len() == 0 || digit_char(op.get_char(0)) {
            Err(AsmError::MalformedOperand(token.to_owned()))
        } else {
            match self.symbols.lookup(op) {
                Some(v) => Ok(a_render(v)),
                None => {
                    if self.mem < 0x8000 {
                        let m = self.mem;
                        self.symbols.bind(op, m);
                        self.mem = m + 1;
                        Ok(a_render(m))
                    } else {
                        Err(AsmError::AddressOverflow(token.to_owned()))
                    }
                },
            }
        }
    }
}

/// Whether every character of an operand is a digit (and there is one).
fn operand_is_numeric(op: &str) -> (b: bool)
    ensures
        b == numeric_operand(op@),
{
    let n = op.unicode_len();
    if n == 0 {
        return false;
    }
    let mut i: usize = 0;
    while i < n
        invariant
            i <= n,
            n == op@.len(),
            forall|j: int| 0 <= j < i ==> is_digit(op@[j]),
        decreases n - i,
    {
        if !digit_char(op.get_char(i)) {
            return false;
        }
        i = i + 1;
    }
    true
}

/// Renders one address line: leading `0`, fifteen binary digits, newline.
fn a_render(v: u16) -> (s: String)
    ensures
        s@ == a_line(v as nat),
{
    let mut s = String::from_str("0");
    let bits = bin_string(v, 15);
    s.append(bits.as_str());
    s.append("\n");
    s
}

/// The computation field's text.
fn comp_text(token: &str) -> (r: String)
    ensures
        r@ == comp_field(token@),
{
    let semi = find_char(token, 0, ';');
    let eq = find_char(token, 0, '=');
    proof {
        lemma_find_from(token@, 0, ';');
        lemma_find_from(token@, 0, '=');
    }
    if eq < semi {
        token.substring_char(eq + 1, semi).to_owned()
    } else {
        token.substring_char(0, semi).to_owned()
    }
}

/// The destination field's text, `"null"` when missing.
fn dest_text(token: &str) -> (r: String)
    ensures
        r@ == dest_field(token@),
{
    let semi = find_char(token, 0, ';');
    let eq = find_char(token, 0, '=');
    proof {
        lemma_find_from(token@, 0, ';');
        lemma_find_from(token@, 0, '=');
    }
    if eq < semi {
        token.substring_char(0, eq).to_owned()
    } else {
        String::from_str("null")
    }
}

/// The jump field's text, `"null"` when missing.
fn jump_text(token: &str) -> (r: String)
    ensures
        r@ == jump_field(token@),
{
    let n = token.unicode_len();
    let semi = find_char(token, 0, ';');
    proof {
        lemma_find_from(token@, 0, ';');
    }
    if semi < n {
        token.substring_char(semi + 1, n).to_owned()
    } else {
        String::from_str("null")
    }
}

} // verus!
