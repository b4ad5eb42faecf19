use crate::parse::{
    char_at, number_at, rule_result, Instr, Instruction, ParseError, RollbackableTokenStream, Step,
};
use crate::tokenize::Tok;
use vstd::prelude::*;

verus! {

/// `v` and a volume in percent.
pub open spec fn volume_rule(ts: Seq<(usize, Tok)>, p: nat) -> Step {
    if char_at(ts, p, 118) {
        match number_at(ts, p + 1) {
            Ok(n) => Step::Matched(Instr::Volume(n), p + 2),
            Err(e) => Step::Failed(e),
        }
    } else {
        Step::NoMatch
    }
}

pub fn volume(stream: &mut RollbackableTokenStream) -> (r: Result<Option<Instruction>, ParseError>)
    requires
        old(stream).wf(),
    ensures
        rule_result(r, *old(stream), *final(stream), volume_rule(old(stream).toks(), old(stream).pos())),
{
    if stream.expect_character(118).is_err() {
        return Ok(None);
    }
    match stream.take_number() {
        Ok((_, volume)) => Ok(Some(Instruction::Volume(volume))),
        Err(e) => Err(e),
    }
}

} // verus!
