use crate::parse::{rule_result, Instr, Instruction, ParseError, RollbackableTokenStream, Step};
use crate::tokenize::Tok;
use vstd::prelude::*;

verus! {

/// `<` raises the octave, `>` lowers it.
pub open spec fn octave_rule(ts: Seq<(usize, Tok)>, p: nat) -> Step {
    if p < ts.len() && ts[p as int].1 == Tok::Character(60) {
        Step::Matched(Instr::Octave(1isize), p + 1)
    } else if p < ts.len() && ts[p as int].1 == Tok::Character(62) {
        Step::Matched(Instr::Octave(-1isize), p + 1)
    } else {
        Step::NoMatch
    }
}

pub fn octave(stream: &mut RollbackableTokenStream) -> (r: Result<Option<Instruction>, ParseError>)
    requires
        old(stream).wf(),
    ensures
        rule_result(r, *old(stream), *final(stream), octave_rule(old(stream).toks(), old(stream).pos())),
{
    match stream.take_character() {
        Ok((_, 60)) => Ok(Some(Instruction::Octave(1))),
        Ok((_, 62)) => Ok(Some(Instruction::Octave(-1))),
        _ => Ok(None),
    }
}

} // verus!
