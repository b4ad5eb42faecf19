use crate::parse::{
    char_at, number_at, rule_result, Instr, Instruction, ParseError, RollbackableTokenStream, Step,
};
use crate::tokenize::Tok;
use vstd::prelude::*;

verus! {

/// `t` and a number of beats per minute.
pub open spec fn tempo_rule(ts: Seq<(usize, Tok)>, p: nat) -> Step {
    if char_at(ts, p, 116) {
        match number_at(ts, p + 1) {
            Ok(n) => Step::Matched(Instr::Tempo(n), p + 2),
            Err(e) => Step::Failed(e),
        }
    } else {
        Step::NoMatch
    }
}

pub fn tempo(stream: &mut RollbackableTokenStream) -> (r: Result<Option<Instruction>, ParseError>)
    requires
        old(stream).wf(),
    ensures
        rule_result(r, *old(stream), *final(stream), tempo_rule(old(stream).toks(), old(stream).pos())),
{
    if stream.expect_character(116).is_err() {
        return Ok(None);
    }
    match stream.take_number() {
        Ok((_, tempo)) => Ok(Some(Instruction::Tempo(tempo))),
        Err(e) => Err(e),
    }
}

} // verus!
