//! Reading instructions from a listing: one instruction per match of a
//! pattern, an opcode's name followed, where it takes one, by its operand.
use vstd::prelude::*;
use crate::util::text::{parse_i64, spec_parse_i64, trim, trimmed};
use crate::vm::bytecode::{ByteCode, Inst};

verus! {

/// A match of the instruction pattern: the text of its first group, the
/// name, and of its second, the operand with the space before it. A group
/// that took no part in the match is `None`.
pub type Capture = (Option<String>, Option<String>);

/// A match with its texts as sequences of characters.
pub type CaptureView = (Option<Seq<char>>, Option<Seq<char>>);

/// The pattern of an instruction in a listing: letters, then optionally a
/// space and a decimal number.
pub open spec fn instruction_pattern() -> Seq<char> {
    "([[:alpha:]]+)( (-)?[\\d]+)?"@
}

/// The successive matches of a pattern in a text that do not overlap, each
/// with the texts of its first two groups, as the crate `regex` finds them;
/// `None` where the crate does not accept the pattern.
pub uninterp spec fn regex_captures(pattern: Seq<char>, haystack: Seq<char>) -> Option<
    Seq<(Option<Seq<char>>, Option<Seq<char>>)>,
>;

/// The text of an optional string.
pub open spec fn text_view(t: Option<String>) -> Option<Seq<char>> {
    match t {
        Some(s) => Some(s@),
        None => None,
    }
}

/// The matches with their texts as sequences of characters.
pub open spec fn captures_view(caps: Seq<Capture>) -> Seq<CaptureView> {
    Seq::new(caps.len(), |i: int| (text_view(caps[i].0), text_view(caps[i].1)))
}

/// The instruction that a match spells: the opcode of the name, with the
/// operand where the match has one that reads as an integer. A match whose
/// name is no opcode spells nothing.
pub open spec fn inst_of_capture(c: CaptureView) -> Option<Inst> {
    match c.0 {
        None => None,
        Some(name) => match ByteCode::spec_from_name(name) {
            None => None,
            Some(inst) => Some(
                Inst {
                    inst,
                    data: match c.1 {
                        None => None,
                        Some(operand) => spec_parse_i64(trimmed(operand)),
                    },
                },
            ),
        },
    }
}

/// The instructions that a sequence of matches spells, in order.
pub open spec fn insts_of_captures(caps: Seq<CaptureView>) -> Seq<Inst>
    decreases caps.len(),
{
    if caps.len() == 0 {
        Seq::empty()
    } else {
        match inst_of_capture(caps.last()) {
            Some(i) => insts_of_captures(caps.drop_last()).push(i),
            None => insts_of_captures(caps.drop_last()),
        }
    }
}

/// Compiles `pattern` with `Regex::new` of the crate `regex` and walks
/// `haystack` with `Regex::captures_iter`, which yields the successive
/// matches that do not overlap. Of each match it hands out the text of the
/// groups 1 and 2, as `Captures::get` and `Match::as_str` give them. The
/// result is `None` where `Regex::new` reports an error. The contract gives
/// the outcome a name and says nothing else about it.
#[verifier::external_body]
fn find_captures(pattern: &str, haystack: &str) -> (r: Option<Vec<Capture>>)
    ensures
        match r {
            Some(caps) => regex_captures(pattern@, haystack@) == Some(captures_view(caps@)),
            None => regex_captures(pattern@, haystack@) is None,
        },
{
    let re = regex::Regex::new(pattern).ok()?;
    Some(
        re.captures_iter(haystack).map(
            |c| (c.get(1).map(|m| m.as_str().to_string()), c.get(2).map(|m| m.as_str().to_string())),
        ).collect(),
    )
}

/// Turns text into instructions.
pub struct Converter {}

impl Converter {
    /// The instruction that one match spells.
    pub fn capture_to_inst(c: &Capture) -> (r: Option<Inst>)
        ensures
            r == inst_of_capture((text_view(c.0), text_view(c.1))),
    {
        let name = match &c.0 {
            None => {
                return None;
            },
            Some(name) => name,
        };
        let inst = match ByteCode::from_name(name.as_str()) {
            None => {
                return None;
            },
            Some(inst) => inst,
        };
        let data = match &c.1 {
            None => None,
            Some(operand) => parse_i64(trim(operand.as_str())),
        };
        Some(Inst { inst, data })
    }

    /// The instructions that the matches spell, in order. A match whose
    /// name is no opcode is passed over; an operand that does not read as
    /// an integer is left out.
    pub fn captures_to_inst(caps: &Vec<Capture>) -> (r: Vec<Inst>)
        ensures
            r@ == insts_of_captures(captures_view(caps@)),
    {
        let ghost all = captures_view(caps@);
        let mut out: Vec<Inst> = Vec::new();
        let mut i: usize = 0;
        assert(all.take(0) =~= Seq::<CaptureView>::empty());
        while i < caps.len()
            invariant
                i <= caps.len(),
                all == captures_view(caps@),
                out@ == insts_of_captures(all.take(i as int)),
            decreases caps.len() - i,
        {
            proof {
                assert(all.take(i + 1).drop_last() =~= all.take(i as int));
                assert(all.take(i + 1).last() == all[i as int]);
            }
            match Self::capture_to_inst(&caps[i]) {
                Some(inst) => {
                    out.push(inst);
                },
                None => {},
            }
            i += 1;
        }
        assert(all.take(caps.len() as int) =~= all);
        out
    }

    /// Reads a listing. Every match of the instruction pattern whose
    /// letters name an opcode gives one instruction. The call fails only
    /// where the pattern itself is not accepted.
    pub fn raw_to_inst(raw: &str) -> (r: Result<Vec<Inst>, &'static str>)
        ensures
            match regex_captures(instruction_pattern(), raw@) {
                Some(caps) => r is Ok && r->Ok_0@ == insts_of_captures(caps),
                None => r is Err,
            },
    {
        match find_captures("([[:alpha:]]+)( (-)?[\\d]+)?", raw) {
            Some(caps) => Ok(Self::captures_to_inst(&caps)),
            None => Err("The instruction pattern does not compile"),
        }
    }
}

} // verus!
