use crate::parse::{
    char_at, max_tokens, rule_result, Instr, Instruction, NoteLength, ParseError,
    RollbackableTokenStream, Step,
};
use crate::tokenize::{Tok, TokenKind};
use vstd::prelude::*;

verus! {

/// Puts `x` in front of the elements of a parsed length.
pub open spec fn cons_length(x: NoteLength, r: (Seq<NoteLength>, nat)) -> (Seq<NoteLength>, nat) {
    (seq![x] + r.0, r.1)
}

/// The length written from `p` on, and where it ends: an optional number
/// (the default length without one) and its dots, tied to the next such
/// group by `&`.
pub open spec fn length_from(ts: Seq<(usize, Tok)>, p: nat) -> (Seq<NoteLength>, nat)
    decreases ts.len() - p, 1nat,
{
    if p < ts.len() && ts[p as int].1 is Number {
        cons_length(NoteLength::Length(ts[p as int].1->Number_0), dots_from(ts, p + 1))
    } else {
        cons_length(NoteLength::DefaultLength, dots_from(ts, p))
    }
}

/// The dots from `p` on, then what a `&` ties on.
pub open spec fn dots_from(ts: Seq<(usize, Tok)>, p: nat) -> (Seq<NoteLength>, nat)
    decreases ts.len() - p, 0nat,
{
    if char_at(ts, p, 46) {
        cons_length(NoteLength::Dot, dots_from(ts, p + 1))
    } else if char_at(ts, p, 38) {
        length_from(ts, p + 1)
    } else {
        (Seq::empty(), p)
    }
}

/// Reads a length: numbers, dots and `&`.
pub fn parse_length(stream: &mut RollbackableTokenStream) -> (r: Vec<NoteLength>)
    requires
        old(stream).wf(),
    ensures
        final(stream).wf(),
        final(stream).same_input(old(stream)),
        length_from(old(stream).toks(), old(stream).pos()) == (r@, final(stream).pos()),
        final(stream).pos() >= old(stream).pos(),
{
    let ghost ts = stream.toks();
    let ghost p0 = stream.pos();
    let mut length: Vec<NoteLength> = Vec::new();
    loop
        invariant
            stream.wf(),
            stream.same_input(old(stream)),
            ts == stream.toks(),
            ts == old(stream).toks(),
            p0 == old(stream).pos(),
            stream.pos() >= p0,
            length_from(ts, p0) == (length@ + length_from(ts, stream.pos()).0, length_from(
                ts,
                stream.pos(),
            ).1),
        decreases ts.len() - stream.pos(),
    {
        proof {
            stream.lemma_bounds();
        }
        let ghost before = length@;
        let ghost p = stream.pos();
        let number = match stream.peek() {
            Some(t) => match t.1 {
                TokenKind::Number(n) => Some(n),
                _ => None,
            },
            None => None,
        };
        match number {
            Some(n) => {
                stream.next();
                length.push(NoteLength::Length(n));
            },
            None => {
                length.push(NoteLength::DefaultLength);
            },
        }
        assert(length_from(ts, p) == cons_length(length@.last(), dots_from(ts, stream.pos())));
        assert(before + length_from(ts, p).0 =~= length@ + dots_from(ts, stream.pos()).0);
        while stream.peek_is_character(46)
            invariant
                stream.wf(),
                stream.same_input(old(stream)),
                ts == stream.toks(),
                ts == old(stream).toks(),
                stream.pos() >= p,
                p >= p0,
                length_from(ts, p0) == (length@ + dots_from(ts, stream.pos()).0, dots_from(
                    ts,
                    stream.pos(),
                ).1),
            decreases ts.len() - stream.pos(),
        {
            proof {
                stream.lemma_bounds();
            }
            let ghost q = stream.pos();
            let ghost b = length@;
            stream.next();
            length.push(NoteLength::Dot);
            assert(b + dots_from(ts, q).0 =~= length@ + dots_from(ts, stream.pos()).0);
        }
        if stream.peek_is_character(38) {
            stream.next();
        } else {
            assert(length@ + Seq::<NoteLength>::empty() =~= length@);
            return length;
        }
    }
}

pub fn rest(stream: &mut RollbackableTokenStream) -> (r: Result<Option<Instruction>, ParseError>)
    requires
        old(stream).wf(),
    ensures
        rule_result(r, *old(stream), *final(stream), rest_rule(old(stream).toks(), old(stream).pos())),
{
    if stream.expect_character(114).is_err() {
        return Ok(None);
    }
    let length = parse_length(stream);
    Ok(Some(Instruction::Rest(length)))
}

/// `r` and a length.
pub open spec fn rest_rule(ts: Seq<(usize, Tok)>, p: nat) -> Step {
    if char_at(ts, p, 114) {
        let (l, e) = length_from(ts, p + 1);
        Step::Matched(Instr::Rest(l), e)
    } else {
        Step::NoMatch
    }
}

pub fn length(stream: &mut RollbackableTokenStream) -> (r: Result<Option<Instruction>, ParseError>)
    requires
        old(stream).wf(),
    ensures
        rule_result(r, *old(stream), *final(stream), length_rule(old(stream).toks(), old(stream).pos())),
{
    if stream.expect_character(108).is_err() {
        return Ok(None);
    }
    let length = parse_length(stream);
    Ok(Some(Instruction::Length(length)))
}

/// `l` and a length.
pub open spec fn length_rule(ts: Seq<(usize, Tok)>, p: nat) -> Step {
    if char_at(ts, p, 108) {
        let (l, e) = length_from(ts, p + 1);
        Step::Matched(Instr::Length(l), e)
    } else {
        Step::NoMatch
    }
}

/// The pitch of a note letter, in semitones above the A an octave below.
pub open spec fn pitch_of(c: u8) -> Option<isize> {
    if c == 99 {
        Some(3)
    } else if c == 100 {
        Some(5)
    } else if c == 101 {
        Some(7)
    } else if c == 102 {
        Some(8)
    } else if c == 103 {
        Some(10)
    } else if c == 97 {
        Some(12)
    } else if c == 98 {
        Some(14)
    } else {
        None
    }
}

pub fn character_to_pitch(character: u8) -> (r: Option<isize>)
    ensures
        r == pitch_of(character),
{
    match character {
        99 => Some(3),
        100 => Some(5),
        101 => Some(7),
        102 => Some(8),
        103 => Some(10),
        97 => Some(12),
        98 => Some(14),
        _ => None,
    }
}

/// The pitch after the sharps (`+`) and flats (`-`) from `p` on, and where
/// they end.
pub open spec fn accidentals(ts: Seq<(usize, Tok)>, p: nat, pitch: int) -> (int, nat)
    decreases ts.len() - p,
{
    if char_at(ts, p, 43) {
        accidentals(ts, p + 1, pitch + 1)
    } else if char_at(ts, p, 45) {
        accidentals(ts, p + 1, pitch - 1)
    } else {
        (pitch, p)
    }
}

/// A note letter, its accidentals and a length.
pub open spec fn note_rule(ts: Seq<(usize, Tok)>, p: nat) -> Step {
    if p < ts.len() && ts[p as int].1 is Character && pitch_of(ts[p as int].1->Character_0) is Some {
        let (pitch, q) = accidentals(ts, p + 1, pitch_of(ts[p as int].1->Character_0)->0 as int);
        let (l, e) = length_from(ts, q);
        Step::Matched(Instr::Note(pitch as isize, l), e)
    } else {
        Step::NoMatch
    }
}

pub fn note(stream: &mut RollbackableTokenStream) -> (r: Result<Option<Instruction>, ParseError>)
    requires
        old(stream).wf(),
    ensures
        rule_result(r, *old(stream), *final(stream), note_rule(old(stream).toks(), old(stream).pos())),
{
    let ghost ts = stream.toks();
    let ghost p0 = stream.pos();
    let character = match stream.take_character() {
        Ok((_, c)) => c,
        Err(_) => {
            return Ok(None);
        },
    };
    let mut pitch = match character_to_pitch(character) {
        Some(pitch) => pitch,
        None => {
            return Ok(None);
        },
    };
    let ghost pitch0 = pitch as int;
    while stream.peek_is_character(43) || stream.peek_is_character(45)
        invariant
            stream.wf(),
            stream.same_input(old(stream)),
            ts == stream.toks(),
            ts == old(stream).toks(),
            p0 == old(stream).pos(),
            stream.pos() > p0,
            3 <= pitch0 <= 14,
            pitch0 - (stream.pos() - p0) <= pitch <= pitch0 + (stream.pos() - p0),
            accidentals(ts, (p0 + 1) as nat, pitch0) == accidentals(ts, stream.pos(), pitch as int),
        decreases ts.len() - stream.pos(),
    {
        proof {
            stream.lemma_bounds();
        }
        if stream.peek_is_character(43) {
            pitch = pitch + 1;
        } else {
            pitch = pitch - 1;
        }
        stream.next();
    }
    let length = parse_length(stream);
    Ok(Some(Instruction::Note(pitch, length)))
}

/// `(`, then note letters with accidentals and octave shifts, `)` and a
/// length.
pub open spec fn chord_rule(ts: Seq<(usize, Tok)>, p: nat) -> Step {
    if char_at(ts, p, 40) {
        chord_body(ts, p + 1, 0, Seq::empty())
    } else {
        Step::NoMatch
    }
}

/// The rest of a chord from `p` on, `octave` octaves up, with `notes` read.
pub open spec fn chord_body(ts: Seq<(usize, Tok)>, p: nat, octave: int, notes: Seq<isize>) -> Step
    decreases ts.len() - p, 0nat,
{
    if p >= ts.len() {
        Step::Failed(crate::parse::PErr::UnexpectedEOF)
    } else {
        match ts[p as int].1 {
            Tok::Character(c) => {
                if c == 41 {
                    let (l, e) = length_from(ts, p + 1);
                    Step::Matched(Instr::Chord(notes, l), e)
                } else if c == 60 {
                    chord_body(ts, p + 1, octave + 1, notes)
                } else if c == 62 {
                    chord_body(ts, p + 1, octave - 1, notes)
                } else if pitch_of(c) is Some {
                    chord_accidentals(ts, p + 1, octave, notes, pitch_of(c)->0 as int)
                } else {
                    Step::Failed(crate::parse::PErr::UnexpectedToken(ts[p as int]))
                }
            },
            _ => Step::Failed(crate::parse::PErr::UnexpectedToken(ts[p as int])),
        }
    }
}

/// The accidentals of a chord's note from `p` on, then the rest of the chord.
pub open spec fn chord_accidentals(
    ts: Seq<(usize, Tok)>,
    p: nat,
    octave: int,
    notes: Seq<isize>,
    pitch: int,
) -> Step
    decreases ts.len() - p, 1nat,
{
    if char_at(ts, p, 43) {
        chord_accidentals(ts, p + 1, octave, notes, pitch + 1)
    } else if char_at(ts, p, 45) {
        chord_accidentals(ts, p + 1, octave, notes, pitch - 1)
    } else {
        chord_body(ts, p, octave, notes.push((pitch + octave * 12) as isize))
    }
}

pub fn chord(stream: &mut RollbackableTokenStream) -> (r: Result<Option<Instruction>, ParseError>)
    requires
        old(stream).wf(),
    ensures
        rule_result(r, *old(stream), *final(stream), chord_rule(old(stream).toks(), old(stream).pos())),
{
    let ghost ts = stream.toks();
    let ghost p0 = stream.pos();
    if stream.expect_character(40).is_err() {
        return Ok(None);
    }
    let mut notes: Vec<isize> = Vec::new();
    let mut octave: isize = 0;
    loop
        invariant
            stream.wf(),
            stream.same_input(old(stream)),
            ts == stream.toks(),
            ts == old(stream).toks(),
            p0 == old(stream).pos(),
            stream.pos() > p0,
            -(stream.pos() - p0) <= octave <= stream.pos() - p0,
            chord_rule(ts, p0) == chord_body(ts, stream.pos(), octave as int, notes@),
        decreases ts.len() - stream.pos(),
    {
        proof {
            stream.lemma_bounds();
        }
        let (token_at, x) = match stream.take_character() {
            Ok(t) => t,
            Err(e) => {
                return Err(e);
            },
        };
        if x == 41 {
            let length = parse_length(stream);
            return Ok(Some(Instruction::Chord(notes, length)));
        } else if x == 60 {
            octave = octave + 1;
        } else if x == 62 {
            octave = octave - 1;
        } else {
            match character_to_pitch(x) {
                Some(p) => {
                    let mut pitch: isize = p;
                    let ghost q = stream.pos();
                    while stream.peek_is_character(43) || stream.peek_is_character(45)
                        invariant
                            stream.wf(),
                            stream.same_input(old(stream)),
                            ts == stream.toks(),
                            ts == old(stream).toks(),
                            p0 == old(stream).pos(),
                            stream.pos() >= q,
                            q > p0,
                            -(q - p0) <= octave <= q - p0,
                            3 - (stream.pos() - p0) <= pitch <= 14 + (stream.pos() - p0),
                            chord_rule(ts, p0) == chord_accidentals(
                                ts,
                                stream.pos(),
                                octave as int,
                                notes@,
                                pitch as int,
                            ),
                        decreases ts.len() - stream.pos(),
                    {
                        proof {
                            stream.lemma_bounds();
                        }
                        if stream.peek_is_character(43) {
                            pitch = pitch + 1;
                        } else {
                            pitch = pitch - 1;
                        }
                        stream.next();
                    }
                    proof {
                        stream.lemma_bounds();
                        assert(octave * 12 <= 12 * max_tokens()) by (nonlinear_arith)
                            requires
                                octave <= q - p0,
                                q <= max_tokens(),
                        ;
                        assert(octave * 12 >= -12 * max_tokens()) by (nonlinear_arith)
                            requires
                                octave >= -(q - p0),
                                q <= max_tokens(),
                        ;
                    }
                    notes.push(pitch + octave * 12);
                },
                None => {
                    return Err(ParseError::unexpected_char(token_at, x));
                },
            }
        }
    }
}


/// A length never ends before it starts, nor past the input.
pub proof fn lemma_length_bounds(ts: Seq<(usize, Tok)>, p: nat)
    requires
        p <= ts.len(),
    ensures
        p <= length_from(ts, p).1 <= ts.len(),
        p <= dots_from(ts, p).1 <= ts.len(),
    decreases ts.len() - p,
{
    if p < ts.len() {
        lemma_length_bounds(ts, p + 1);
    }
}

/// Accidentals never end before they start, nor past the input.
pub proof fn lemma_accidentals_bounds(ts: Seq<(usize, Tok)>, p: nat, pitch: int)
    requires
        p <= ts.len(),
    ensures
        p <= accidentals(ts, p, pitch).1 <= ts.len(),
    decreases ts.len() - p,
{
    if p < ts.len() {
        lemma_accidentals_bounds(ts, p + 1, pitch + 1);
        lemma_accidentals_bounds(ts, p + 1, pitch - 1);
    }
}

/// The rest of a chord, when it is read, ends after `p` and within the input.
pub proof fn lemma_chord_bounds_body(ts: Seq<(usize, Tok)>, p: nat, octave: int, notes: Seq<isize>)
    requires
        p <= ts.len(),
    ensures
        chord_body(ts, p, octave, notes) matches Step::Matched(_, e) ==> p < e <= ts.len(),
    decreases ts.len() - p, 0nat,
{
    if p < ts.len() {
        lemma_length_bounds(ts, p + 1);
        lemma_chord_bounds_body(ts, p + 1, octave + 1, notes);
        lemma_chord_bounds_body(ts, p + 1, octave - 1, notes);
        if let Tok::Character(c) = ts[p as int].1 {
            if pitch_of(c) is Some {
                lemma_chord_accidentals_bounds(ts, p + 1, octave, notes, pitch_of(c)->0 as int);
            }
        }
    }
}

proof fn lemma_chord_accidentals_bounds(
    ts: Seq<(usize, Tok)>,
    p: nat,
    octave: int,
    notes: Seq<isize>,
    pitch: int,
)
    requires
        p <= ts.len(),
    ensures
        chord_accidentals(ts, p, octave, notes, pitch) matches Step::Matched(_, e) ==> p <= e
            <= ts.len(),
    decreases ts.len() - p, 1nat,
{
    if char_at(ts, p, 43) {
        lemma_chord_accidentals_bounds(ts, p + 1, octave, notes, pitch + 1);
    } else if char_at(ts, p, 45) {
        lemma_chord_accidentals_bounds(ts, p + 1, octave, notes, pitch - 1);
    } else {
        lemma_chord_bounds_body(ts, p, octave, notes.push((pitch + octave * 12) as isize));
    }
}

} // verus!
