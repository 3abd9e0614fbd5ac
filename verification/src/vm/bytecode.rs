//! The instruction set: opcodes, instructions and their byte encoding.
use vstd::prelude::*;
use vstd::std_specs::convert::FromSpecImpl;
use crate::util::same_text;
use crate::util::text::{signed_decimal, signed_string};

verus! {

/// The operations of the virtual machine. The order of the variants fixes
/// the byte that encodes each of them.
#[derive(Debug, Clone, Copy, PartialEq, Eq, Hash, Structural)]
pub enum ByteCode {
    /// Stops the machine.
    HALT,
    /// Does nothing.
    NOP,
    /// Discards the top of the stack.
    POP,
    /// Pushes its operand.
    LOADC,
    /// Pushes the frame pointer plus its operand.
    LOADRC,
    /// Pops an address and pushes the stack cell at it.
    LOAD,
    /// Pushes the stack cell at its operand.
    LOADA,
    /// Pops an address and writes the new top of the stack to that stack cell.
    STORE,
    /// Pops a count, appends that many heap cells and pushes the index of the first.
    NEW,
    /// Pops an address and writes the new top of the stack to that heap cell.
    STOREH,
    /// Continues at its operand.
    JUMP,
    /// Pops a value and continues at its operand if the value is 0.
    JUMPZ,
    /// Pushes the frame pointer.
    MARK,
    /// Enters the function whose address is on top of the stack.
    CALL,
    /// Pushes as many zeros as its operand says.
    ALLOC,
    /// Keeps the top and removes as many cells below it as its operand says, and one more.
    SLIDE,
    /// Leaves the current function, cutting the stack at the frame pointer minus its operand.
    RET,
    /// Replaces the two topmost values by their sum.
    ADD,
    /// Replaces the two topmost values by the lower minus the upper.
    SUB,
    /// Replaces the two topmost values by their product.
    MUL,
    /// Replaces the two topmost values by the lower divided by the upper.
    DIV,
    /// Replaces the two topmost values by the remainder of the lower divided by the upper.
    MOD,
    /// Negates the top of the stack.
    NEG,
    /// Replaces the two topmost truth values by their conjunction.
    AND,
    /// Replaces the two topmost truth values by their disjunction.
    OR,
    /// Replaces the topmost truth value by its negation.
    NOT,
    /// Tests whether the two topmost values are equal.
    EQ,
    /// Tests whether the two topmost values differ.
    NEQ,
    /// Tests whether the lower value is less than the upper.
    LE,
    /// Tests whether the lower value is at most the upper.
    LEQ,
    /// Tests whether the lower value is greater than the upper.
    GE,
    /// Tests whether the lower value is at least the upper.
    GEQ,
}

/// How many opcodes there are; their bytes are 0 up to this, exclusive.
pub const OPCODE_COUNT: u8 = 32;

impl ByteCode {
    /// The byte that encodes the opcode.
    pub open spec fn spec_to_u8(self) -> u8 {
        match self {
            ByteCode::HALT => 0,
            ByteCode::NOP => 1,
            ByteCode::POP => 2,
            ByteCode::LOADC => 3,
            ByteCode::LOADRC => 4,
            ByteCode::LOAD => 5,
            ByteCode::LOADA => 6,
            ByteCode::STORE => 7,
            ByteCode::NEW => 8,
            ByteCode::STOREH => 9,
            ByteCode::JUMP => 10,
            ByteCode::JUMPZ => 11,
            ByteCode::MARK => 12,
            ByteCode::CALL => 13,
            ByteCode::ALLOC => 14,
            ByteCode::SLIDE => 15,
            ByteCode::RET => 16,
            ByteCode::ADD => 17,
            ByteCode::SUB => 18,
            ByteCode::MUL => 19,
            ByteCode::DIV => 20,
            ByteCode::MOD => 21,
            ByteCode::NEG => 22,
            ByteCode::AND => 23,
            ByteCode::OR => 24,
            ByteCode::NOT => 25,
            ByteCode::EQ => 26,
            ByteCode::NEQ => 27,
            ByteCode::LE => 28,
            ByteCode::LEQ => 29,
            ByteCode::GE => 30,
            ByteCode::GEQ => 31,
        }
    }

    /// The opcode that a byte encodes, if it encodes one.
    pub open spec fn spec_from_u8(v: u8) -> Option<ByteCode> {
        if v == 0 {
            Some(ByteCode::HALT)
        } else if v == 1 {
            Some(ByteCode::NOP)
        } else if v == 2 {
            Some(ByteCode::POP)
        } else if v == 3 {
            Some(ByteCode::LOADC)
        } else if v == 4 {
            Some(ByteCode::LOADRC)
        } else if v == 5 {
            Some(ByteCode::LOAD)
        } else if v == 6 {
            Some(ByteCode::LOADA)
        } else if v == 7 {
            Some(ByteCode::STORE)
        } else if v == 8 {
            Some(ByteCode::NEW)
        } else if v == 9 {
            Some(ByteCode::STOREH)
        } else if v == 10 {
            Some(ByteCode::JUMP)
        } else if v == 11 {
            Some(ByteCode::JUMPZ)
        } else if v == 12 {
            Some(ByteCode::MARK)
        } else if v == 13 {
            Some(ByteCode::CALL)
        } else if v == 14 {
            Some(ByteCode::ALLOC)
        } else if v == 15 {
            Some(ByteCode::SLIDE)
        } else if v == 16 {
            Some(ByteCode::RET)
        } else if v == 17 {
            Some(ByteCode::ADD)
        } else if v == 18 {
            Some(ByteCode::SUB)
        } else if v == 19 {
            Some(ByteCode::MUL)
        } else if v == 20 {
            Some(ByteCode::DIV)
        } else if v == 21 {
            Some(ByteCode::MOD)
        } else if v == 22 {
            Some(ByteCode::NEG)
        } else if v == 23 {
            Some(ByteCode::AND)
        } else if v == 24 {
            Some(ByteCode::OR)
        } else if v == 25 {
            Some(ByteCode::NOT)
        } else if v == 26 {
            Some(ByteCode::EQ)
        } else if v == 27 {
            Some(ByteCode::NEQ)
        } else if v == 28 {
            Some(ByteCode::LE)
        } else if v == 29 {
            Some(ByteCode::LEQ)
        } else if v == 30 {
            Some(ByteCode::GE)
        } else if v == 31 {
            Some(ByteCode::GEQ)
        } else {
            None
        }
    }

    /// Whether an instruction with this opcode carries an operand.
    pub open spec fn spec_has_operand(self) -> bool {
        match self {
            ByteCode::LOADC
            | ByteCode::LOADRC
            | ByteCode::LOADA
            | ByteCode::JUMP
            | ByteCode::JUMPZ
            | ByteCode::ALLOC
            | ByteCode::SLIDE
            | ByteCode::RET => true,
            _ => false,
        }
    }

    /// The name under which the opcode appears in program listings.
    pub open spec fn spec_name(self) -> Seq<char> {
        match self {
            ByteCode::HALT => "HALT"@,
            ByteCode::NOP => "NOP"@,
            ByteCode::POP => "POP"@,
            ByteCode::LOADC => "LOADC"@,
            ByteCode::LOADRC => "LOADRC"@,
            ByteCode::LOAD => "LOAD"@,
            ByteCode::LOADA => "LOADA"@,
            ByteCode::STORE => "STORE"@,
            ByteCode::NEW => "NEW"@,
            ByteCode::STOREH => "STOREH"@,
            ByteCode::JUMP => "JUMP"@,
            ByteCode::JUMPZ => "JUMPZ"@,
            ByteCode::MARK => "MARK"@,
            ByteCode::CALL => "CALL"@,
            ByteCode::ALLOC => "ALLOC"@,
            ByteCode::SLIDE => "SLIDE"@,
            ByteCode::RET => "RET"@,
            ByteCode::ADD => "ADD"@,
            ByteCode::SUB => "SUB"@,
            ByteCode::MUL => "MUL"@,
            ByteCode::DIV => "DIV"@,
            ByteCode::MOD => "MOD"@,
            ByteCode::NEG => "NEG"@,
            ByteCode::AND => "AND"@,
            ByteCode::OR => "OR"@,
            ByteCode::NOT => "NOT"@,
            ByteCode::EQ => "EQ"@,
            ByteCode::NEQ => "NEQ"@,
            ByteCode::LE => "LE"@,
            ByteCode::LEQ => "LEQ"@,
            ByteCode::GE => "GE"@,
            ByteCode::GEQ => "GEQ"@,
        }
    }

    /// The opcode of the given name, if there is one. Names are matched
    /// exactly, in upper case.
    pub open spec fn spec_from_name(name: Seq<char>) -> Option<ByteCode> {
        if name == "HALT"@ {
            Some(ByteCode::HALT)
        } else if name == "NOP"@ {
            Some(ByteCode::NOP)
        } else if name == "POP"@ {
            Some(ByteCode::POP)
        } else if name == "LOADC"@ {
            Some(ByteCode::LOADC)
        } else if name == "LOADRC"@ {
            Some(ByteCode::LOADRC)
        } else if name == "LOAD"@ {
            Some(ByteCode::LOAD)
        } else if name == "LOADA"@ {
            Some(ByteCode::LOADA)
        } else if name == "STORE"@ {
            Some(ByteCode::STORE)
        } else if name == "NEW"@ {
            Some(ByteCode::NEW)
        } else if name == "STOREH"@ {
            Some(ByteCode::STOREH)
        } else if name == "JUMP"@ {
            Some(ByteCode::JUMP)
        } else if name == "JUMPZ"@ {
            Some(ByteCode::JUMPZ)
        } else if name == "MARK"@ {
            Some(ByteCode::MARK)
        } else if name == "CALL"@ {
            Some(ByteCode::CALL)
        } else if name == "ALLOC"@ {
            Some(ByteCode::ALLOC)
        } else if name == "SLIDE"@ {
            Some(ByteCode::SLIDE)
        } else if name == "RET"@ {
            Some(ByteCode::RET)
        } else if name == "ADD"@ {
            Some(ByteCode::ADD)
        } else if name == "SUB"@ {
            Some(ByteCode::SUB)
        } else if name == "MUL"@ {
            Some(ByteCode::MUL)
        } else if name == "DIV"@ {
            Some(ByteCode::DIV)
        } else if name == "MOD"@ {
            Some(ByteCode::MOD)
        } else if name == "NEG"@ {
            Some(ByteCode::NEG)
        } else if name == "AND"@ {
            Some(ByteCode::AND)
        } else if name == "OR"@ {
            Some(ByteCode::OR)
        } else if name == "NOT"@ {
            Some(ByteCode::NOT)
        } else if name == "EQ"@ {
            Some(ByteCode::EQ)
        } else if name == "NEQ"@ {
            Some(ByteCode::NEQ)
        } else if name == "LE"@ {
            Some(ByteCode::LE)
        } else if name == "LEQ"@ {
            Some(ByteCode::LEQ)
        } else if name == "GE"@ {
            Some(ByteCode::GE)
        } else if name == "GEQ"@ {
            Some(ByteCode::GEQ)
        } else {
            None
        }
    }

    /// The byte that encodes the opcode.
    pub fn to_u8(self) -> (r: u8)
        ensures
            r == self.spec_to_u8(),
            r < OPCODE_COUNT,
    {
        match self {
            ByteCode::HALT => 0,
            ByteCode::NOP => 1,
            ByteCode::POP => 2,
            ByteCode::LOADC => 3,
            ByteCode::LOADRC => 4,
            ByteCode::LOAD => 5,
            ByteCode::LOADA => 6,
            ByteCode::STORE => 7,
            ByteCode::NEW => 8,
            ByteCode::STOREH => 9,
            ByteCode::JUMP => 10,
            ByteCode::JUMPZ => 11,
            ByteCode::MARK => 12,
            ByteCode::CALL => 13,
            ByteCode::ALLOC => 14,
            ByteCode::SLIDE => 15,
            ByteCode::RET => 16,
            ByteCode::ADD => 17,
            ByteCode::SUB => 18,
            ByteCode::MUL => 19,
            ByteCode::DIV => 20,
            ByteCode::MOD => 21,
            ByteCode::NEG => 22,
            ByteCode::AND => 23,
            ByteCode::OR => 24,
            ByteCode::NOT => 25,
            ByteCode::EQ => 26,
            ByteCode::NEQ => 27,
            ByteCode::LE => 28,
            ByteCode::LEQ => 29,
            ByteCode::GE => 30,
            ByteCode::GEQ => 31,
        }
    }

    /// Decodes an opcode byte; bytes from `OPCODE_COUNT` on encode nothing.
    pub fn from_u8(v: u8) -> (r: Option<ByteCode>)
        ensures
            r == Self::spec_from_u8(v),
            r is Some <==> v < OPCODE_COUNT,
            r matches Some(b) ==> b.spec_to_u8() == v,
    {
        if v == 0 {
            Some(ByteCode::HALT)
        } else if v == 1 {
            Some(ByteCode::NOP)
        } else if v == 2 {
            Some(ByteCode::POP)
        } else if v == 3 {
            Some(ByteCode::LOADC)
        } else if v == 4 {
            Some(ByteCode::LOADRC)
        } else if v == 5 {
            Some(ByteCode::LOAD)
        } else if v == 6 {
            Some(ByteCode::LOADA)
        } else if v == 7 {
            Some(ByteCode::STORE)
        } else if v == 8 {
            Some(ByteCode::NEW)
        } else if v == 9 {
            Some(ByteCode::STOREH)
        } else if v == 10 {
            Some(ByteCode::JUMP)
        } else if v == 11 {
            Some(ByteCode::JUMPZ)
        } else if v == 12 {
            Some(ByteCode::MARK)
        } else if v == 13 {
            Some(ByteCode::CALL)
        } else if v == 14 {
            Some(ByteCode::ALLOC)
        } else if v == 15 {
            Some(ByteCode::SLIDE)
        } else if v == 16 {
            Some(ByteCode::RET)
        } else if v == 17 {
            Some(ByteCode::ADD)
        } else if v == 18 {
            Some(ByteCode::SUB)
        } else if v == 19 {
            Some(ByteCode::MUL)
        } else if v == 20 {
            Some(ByteCode::DIV)
        } else if v == 21 {
            Some(ByteCode::MOD)
        } else if v == 22 {
            Some(ByteCode::NEG)
        } else if v == 23 {
            Some(ByteCode::AND)
        } else if v == 24 {
            Some(ByteCode::OR)
        } else if v == 25 {
            Some(ByteCode::NOT)
        } else if v == 26 {
            Some(ByteCode::EQ)
        } else if v == 27 {
            Some(ByteCode::NEQ)
        } else if v == 28 {
            Some(ByteCode::LE)
        } else if v == 29 {
            Some(ByteCode::LEQ)
        } else if v == 30 {
            Some(ByteCode::GE)
        } else if v == 31 {
            Some(ByteCode::GEQ)
        } else {
            None
        }
    }

    /// Whether an instruction with this opcode carries an operand.
    pub fn has_operand(self) -> (r: bool)
        ensures
            r == self.spec_has_operand(),
    {
        match self {
            ByteCode::LOADC
            | ByteCode::LOADRC
            | ByteCode::LOADA
            | ByteCode::JUMP
            | ByteCode::JUMPZ
            | ByteCode::ALLOC
            | ByteCode::SLIDE
            | ByteCode::RET => true,
            _ => false,
        }
    }

    /// The name under which the opcode appears in program listings.
    pub fn name(self) -> (r: &'static str)
        ensures
            r@ == self.spec_name(),
    {
        match self {
            ByteCode::HALT => "HALT",
            ByteCode::NOP => "NOP",
            ByteCode::POP => "POP",
            ByteCode::LOADC => "LOADC",
            ByteCode::LOADRC => "LOADRC",
            ByteCode::LOAD => "LOAD",
            ByteCode::LOADA => "LOADA",
            ByteCode::STORE => "STORE",
            ByteCode::NEW => "NEW",
            ByteCode::STOREH => "STOREH",
            ByteCode::JUMP => "JUMP",
            ByteCode::JUMPZ => "JUMPZ",
            ByteCode::MARK => "MARK",
            ByteCode::CALL => "CALL",
            ByteCode::ALLOC => "ALLOC",
            ByteCode::SLIDE => "SLIDE",
            ByteCode::RET => "RET",
            ByteCode::ADD => "ADD",
            ByteCode::SUB => "SUB",
            ByteCode::MUL => "MUL",
            ByteCode::DIV => "DIV",
            ByteCode::MOD => "MOD",
            ByteCode::NEG => "NEG",
            ByteCode::AND => "AND",
            ByteCode::OR => "OR",
            ByteCode::NOT => "NOT",
            ByteCode::EQ => "EQ",
            ByteCode::NEQ => "NEQ",
            ByteCode::LE => "LE",
            ByteCode::LEQ => "LEQ",
            ByteCode::GE => "GE",
            ByteCode::GEQ => "GEQ",
        }
    }

    /// Finds the opcode with the given name. Names are matched exactly, in
    /// upper case; where no opcode has the name, the result is `None`.
    pub fn from_name(name: &str) -> (r: Option<ByteCode>)
        ensures
            r == Self::spec_from_name(name@),
            r matches Some(b) ==> b.spec_name() == name@,
            r is None ==> forall|b: ByteCode| b.spec_name() != name@,
    {
        proof {
            Self::lemma_from_name(name@);
        }
        let mut v: u8 = 0;
        while v < OPCODE_COUNT
            invariant
                v <= OPCODE_COUNT,
                forall|b: ByteCode| b.spec_to_u8() < v ==> b.spec_name() != name@,
            decreases OPCODE_COUNT - v,
        {
            match Self::from_u8(v) {
                Some(b) => {
                    if same_text(b.name(), name) {
                        proof {
                            if let Some(other) = Self::spec_from_name(name@) {
                                b.lemma_name_determines_opcode(other);
                            }
                        }
                        return Some(b);
                    }
                    assert forall|c: ByteCode| c.spec_to_u8() < v + 1 implies c.spec_name()
                        != name@ by {
                        c.lemma_byte_round_trip();
                    }
                },
                None => {},
            }
            v += 1;
        }
        assert forall|b: ByteCode| b.spec_name() != name@ by {
            b.lemma_byte_round_trip();
        }
        None
    }

    /// `spec_from_name` finds the one opcode that has the name.
    pub proof fn lemma_from_name(name: Seq<char>)
        ensures
            match Self::spec_from_name(name) {
                Some(b) => b.spec_name() == name,
                None => forall|b: ByteCode| b.spec_name() != name,
            },
    {
        match Self::spec_from_name(name) {
            Some(b) => {},
            None => {
                assert forall|b: ByteCode| b.spec_name() != name by {
                    if b.spec_name() == name {
                        assert(Self::spec_from_name(b.spec_name()) is Some);
                    }
                }
            },
        }
    }

    /// No two opcodes share a name, so a name found belongs to one opcode.
    pub proof fn lemma_name_determines_opcode(self, other: ByteCode)
        requires
            self.spec_name() == other.spec_name(),
        ensures
            self == other,
    {
        reveal_strlit("HALT");
        reveal_strlit("NOP");
        reveal_strlit("POP");
        reveal_strlit("LOADC");
        reveal_strlit("LOADRC");
        reveal_strlit("LOAD");
        reveal_strlit("LOADA");
        reveal_strlit("STORE");
        reveal_strlit("NEW");
        reveal_strlit("STOREH");
        reveal_strlit("JUMP");
        reveal_strlit("JUMPZ");
        reveal_strlit("MARK");
        reveal_strlit("CALL");
        reveal_strlit("ALLOC");
        reveal_strlit("SLIDE");
        reveal_strlit("RET");
        reveal_strlit("ADD");
        reveal_strlit("SUB");
        reveal_strlit("MUL");
        reveal_strlit("DIV");
        reveal_strlit("MOD");
        reveal_strlit("NEG");
        reveal_strlit("AND");
        reveal_strlit("OR");
        reveal_strlit("NOT");
        reveal_strlit("EQ");
        reveal_strlit("NEQ");
        reveal_strlit("LE");
        reveal_strlit("LEQ");
        reveal_strlit("GE");
        reveal_strlit("GEQ");
        let a = self.spec_name();
        let b = other.spec_name();
        assert(a.len() == b.len());
        assert(a[0] == b[0]);
        assert(a[1] == b[1]);
        if a.len() > 2 {
            assert(a[2] == b[2]);
        }
        if a.len() > 3 {
            assert(a[3] == b[3]);
        }
        if a.len() > 4 {
            assert(a[4] == b[4]);
        }
        if a.len() > 5 {
            assert(a[5] == b[5]);
        }
    }

    /// Decoding the byte of an opcode gives the opcode back.
    pub proof fn lemma_byte_round_trip(self)
        ensures
            Self::spec_from_u8(self.spec_to_u8()) == Some(self),
            self.spec_to_u8() < OPCODE_COUNT,
    {
    }
}

impl From<ByteCode> for u8 {
    fn from(value: ByteCode) -> (r: u8) {
        value.to_u8()
    }
}

impl FromSpecImpl<ByteCode> for u8 {
    open spec fn obeys_from_spec() -> bool {
        true
    }

    open spec fn from_spec(value: ByteCode) -> u8 {
        value.spec_to_u8()
    }
}

/// A machine instruction: an opcode and, for some opcodes, an operand.
#[derive(Debug, Clone, Copy, PartialEq, Eq, Hash)]
pub struct Inst {
    pub inst: ByteCode,
    pub data: Option<i64>,
}

impl Inst {
    /// Whether the instruction carries an operand exactly when its opcode
    /// takes one. Only such instructions have a byte encoding that can be
    /// read back.
    pub open spec fn well_formed(self) -> bool {
        self.data is Some <==> self.inst.spec_has_operand()
    }

    /// An instruction without an operand.
    pub fn new_inst(inst: ByteCode) -> (r: Inst)
        ensures
            r == (Inst { inst, data: None }),
    {
        Inst { inst, data: None }
    }

    /// An instruction with the operand `data`.
    pub fn new_data(inst: ByteCode, data: i64) -> (r: Inst)
        ensures
            r == (Inst { inst, data: Some(data) }),
    {
        Inst { inst, data: Some(data) }
    }

    /// The line of a program listing that shows the instruction: the name
    /// of the opcode and, behind a space, the operand in decimal.
    pub open spec fn spec_listing(self) -> Seq<char> {
        match self.data {
            Some(d) => self.inst.spec_name() + " "@ + signed_decimal(d as int),
            None => self.inst.spec_name(),
        }
    }

    /// The line of a program listing that shows the instruction.
    pub fn listing(&self) -> (r: String)
        ensures
            r@ == self.spec_listing(),
    {
        let mut out = self.inst.name().to_owned();
        match self.data {
            Some(d) => {
                out.append(" ");
                let digits = signed_string(d);
                out.append(digits.as_str());
            },
            None => {},
        }
        out
    }

    /// Whether the instruction carries an operand exactly when its opcode takes one.
    pub fn is_well_formed(&self) -> (r: bool)
        ensures
            r == self.well_formed(),
    {
        self.data.is_some() == self.inst.has_operand()
    }
}

/// The operand of an instruction that is still to be linked.
#[derive(Debug, Clone, PartialEq, Eq)]
pub enum MetaVar {
    /// No operand.
    Empty,
    /// A literal operand.
    Data(i64),
    /// The position of the named label.
    Label(String),
    /// The number of local variables of the named function.
    LocalAlloc(String),
}

/// An instruction whose operand may still be symbolic.
#[derive(Debug, Clone, PartialEq, Eq)]
pub struct MetaInst {
    pub inst: ByteCode,
    pub var: MetaVar,
}

/// An item of the stream that the code generator emits.
#[derive(Debug, Clone, PartialEq, Eq)]
pub enum MetaAsm {
    /// An instruction.
    Inst(MetaInst),
    /// A named position; it takes no room in the final code.
    Lbl(String),
}

/// What a `MetaVar` holds, with names as sequences of characters.
pub enum MetaVarView {
    Empty,
    Data(i64),
    Label(Seq<char>),
    LocalAlloc(Seq<char>),
}

/// What a `MetaInst` holds, with names as sequences of characters.
pub struct MetaInstView {
    pub inst: ByteCode,
    pub var: MetaVarView,
}

/// What a `MetaAsm` holds, with names as sequences of characters.
pub enum MetaAsmView {
    Inst(MetaInstView),
    Lbl(Seq<char>),
}

impl View for MetaVar {
    type V = MetaVarView;

    open spec fn view(&self) -> MetaVarView {
        match self {
            MetaVar::Empty => MetaVarView::Empty,
            MetaVar::Data(d) => MetaVarView::Data(*d),
            MetaVar::Label(l) => MetaVarView::Label(l@),
            MetaVar::LocalAlloc(f) => MetaVarView::LocalAlloc(f@),
        }
    }
}

impl View for MetaInst {
    type V = MetaInstView;

    open spec fn view(&self) -> MetaInstView {
        MetaInstView { inst: self.inst, var: self.var@ }
    }
}

impl View for MetaAsm {
    type V = MetaAsmView;

    open spec fn view(&self) -> MetaAsmView {
        match self {
            MetaAsm::Inst(i) => MetaAsmView::Inst(i@),
            MetaAsm::Lbl(l) => MetaAsmView::Lbl(l@),
        }
    }
}

/// The view of a stream: the views of its items, in order.
pub open spec fn stream_view(stream: Seq<MetaAsm>) -> Seq<MetaAsmView> {
    Seq::new(stream.len(), |i: int| stream[i]@)
}

/// The stream item for an instruction without an operand.
pub open spec fn asm_inst(inst: ByteCode) -> MetaAsmView {
    MetaAsmView::Inst(MetaInstView { inst, var: MetaVarView::Empty })
}

/// The stream item for an instruction with a literal operand.
pub open spec fn asm_data(inst: ByteCode, data: i64) -> MetaAsmView {
    MetaAsmView::Inst(MetaInstView { inst, var: MetaVarView::Data(data) })
}

/// The stream item for an instruction whose operand is a label's position.
pub open spec fn asm_label(inst: ByteCode, label: Seq<char>) -> MetaAsmView {
    MetaAsmView::Inst(MetaInstView { inst, var: MetaVarView::Label(label) })
}

/// The stream item for an instruction whose operand is a function's number
/// of local variables.
pub open spec fn asm_local_alloc(inst: ByteCode, function: Seq<char>) -> MetaAsmView {
    MetaAsmView::Inst(MetaInstView { inst, var: MetaVarView::LocalAlloc(function) })
}

impl MetaInst {
    /// An instruction without an operand.
    pub fn new_inst(inst: ByteCode) -> (r: MetaInst)
        ensures
            MetaAsmView::Inst(r@) == asm_inst(inst),
    {
        MetaInst { inst, var: MetaVar::Empty }
    }

    /// An instruction with a literal operand.
    pub fn new_data(inst: ByteCode, data: i64) -> (r: MetaInst)
        ensures
            MetaAsmView::Inst(r@) == asm_data(inst, data),
    {
        MetaInst { inst, var: MetaVar::Data(data) }
    }

    /// An instruction whose operand is the position of a label.
    pub fn new_label(inst: ByteCode, label: String) -> (r: MetaInst)
        ensures
            MetaAsmView::Inst(r@) == asm_label(inst, label@),
    {
        MetaInst { inst, var: MetaVar::Label(label) }
    }

    /// An instruction whose operand is the number of locals of a function.
    pub fn new_local_alloc(inst: ByteCode, function: String) -> (r: MetaInst)
        ensures
            MetaAsmView::Inst(r@) == asm_local_alloc(inst, function@),
    {
        MetaInst { inst, var: MetaVar::LocalAlloc(function) }
    }
}

} // verus!
