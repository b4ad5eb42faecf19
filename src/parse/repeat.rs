use crate::parse::{
    char_at, number_at, outcome, parse_stream, stream_spec, Instr, Instruction, ParseError,
    RollbackableTokenStream, Step, PErr, tracks_model, track_model,
};
use crate::tokenize::Tok;
use vstd::prelude::*;

verus! {

/// `[`, a track closed by `]`, then the number of times it is played.
pub open spec fn repeat_rule(ts: Seq<(usize, Tok)>, p: nat) -> Step
    decreases ts.len() - p, 0nat,
{
    if char_at(ts, p, 91) {
        match stream_spec(ts, p + 1, true, Seq::empty(), Seq::empty()) {
            Ok((tracks, e)) => match number_at(ts, e) {
                Ok(n) => Step::Matched(Instr::Repeat(tracks[0], n), e + 1),
                Err(x) => Step::Failed(x),
            },
            Err(x) => Step::Failed(x),
        }
    } else {
        Step::NoMatch
    }
}

/// Reads a repeat block. Its track is read on a second cursor, which the
/// stream takes over once the count is read; the stream's accepted position
/// moves with it.
#[verifier::rlimit(60)]
#[verifier::spinoff_prover]
pub fn repeat(stream: &mut RollbackableTokenStream) -> (r: Result<Option<Instruction>, ParseError>)
    requires
        old(stream).wf(),
    ensures
        final(stream).wf(),
        final(stream).toks() == old(stream).toks(),
        !(r matches Ok(Some(_))) ==> final(stream).base() == old(stream).base(),
        outcome(r, final(stream).pos()) == repeat_rule(old(stream).toks(), old(stream).pos()),
        r matches Ok(Some(_)) ==> final(stream).pos() > old(stream).pos(),
    decreases old(stream).toks().len() - old(stream).pos(), 0nat,
{
    if stream.expect_character(91).is_err() {
        return Ok(None);
    }
    let mut cloned = stream.copy();
    cloned.accept();
    proof {
        cloned.lemma_bounds();
    }
    let ghost start = cloned.pos();
    let mut inside = match parse_stream(&mut cloned, true) {
        Ok(tracks) => tracks,
        Err(e) => {
            return Err(e);
        },
    };
    proof {
        crate::parse::lemma_bracket_single_track(
            old(stream).toks(),
            start,
            Seq::empty(),
            Seq::empty(),
        );
    }
    let ghost e = cloned.pos();
    let ghost body = tracks_model(inside@)[0];
    assert(stream_spec(old(stream).toks(), start, true, Seq::empty(), Seq::empty()) == Ok::<
        _,
        PErr,
    >((tracks_model(inside@), e)));
    let track = inside.remove(0);
    assert(track_model(track@) == body);
    let num = match cloned.take_number() {
        Ok((_, num)) => num,
        Err(err) => {
            return Err(err);
        },
    };
    *stream = cloned;
    let r = Instruction::Repeat(track, num);
    assert(r.model() == Instr::Repeat(body, num));
    Ok(Some(r))
}


/// No `]` stands at or after `p`.
pub open spec fn no_close_from(ts: Seq<(usize, Tok)>, p: nat) -> bool {
    forall|k: nat| p <= k ==> !char_at(ts, k, 93)
}

proof fn lemma_unclosed_track_fails(
    ts: Seq<(usize, Tok)>,
    p: nat,
    done: Seq<Seq<Instr>>,
    cur: Seq<Instr>,
)
    requires
        no_close_from(ts, p),
    ensures
        stream_spec(ts, p, true, done, cur) is Err,
    decreases ts.len() - p,
{
    if p < ts.len() && !char_at(ts, p, 59) {
        assert(!char_at(ts, p, 93));
        crate::parse::lemma_stream_step(ts, p, true, done, cur);
        if let Step::Matched(i, e) = crate::parse::instruction_rule(ts, p) {
            if p < e <= ts.len() {
                lemma_unclosed_track_fails(ts, e, done, cur.push(i));
            }
        }
    }
}

/// A `[` in a track always starts a repeat block, and the block is a hard
/// error when its `]` is missing, and when no count follows the `]`.
pub proof fn lemma_repeat_needs_close_and_count(ts: Seq<(usize, Tok)>, p: nat)
    requires
        char_at(ts, p, 91),
    ensures
        crate::parse::instruction_rule(ts, p) == repeat_rule(ts, p),
        no_close_from(ts, p + 1) ==> repeat_rule(ts, p) is Failed,
        stream_spec(ts, p + 1, true, Seq::empty(), Seq::empty()) matches Ok((_, e)) && !(e
            < ts.len() && ts[e as int].1 is Number) ==> repeat_rule(ts, p) is Failed,
{
    if no_close_from(ts, p + 1) {
        lemma_unclosed_track_fails(ts, p + 1, Seq::empty(), Seq::empty());
    }
}

} // verus!
