pub mod note;
pub mod octave;
pub mod repeat;
pub mod tempo;
pub mod tone;
pub mod volume;

use crate::tokenize::{concat_text, decimal, number_text, token_text, Tok, Token, TokenKind};
use note::{accidentals, chord, chord_rule, length, length_rule, note, note_rule, rest, rest_rule};
use octave::{octave, octave_rule};
use repeat::{repeat, repeat_rule};
use tempo::{tempo, tempo_rule};
use tone::{synthesize, synthesize_rule, tone, tone_rule, Modifier, ToneModifier};
use volume::{volume, volume_rule};
use vstd::prelude::*;

verus! {

/// One element of a length: the track's default length, a dot that halves
/// the previous element, or `1/n` of a whole note.
#[derive(Clone, Copy, Debug, PartialEq, Eq, Structural)]
pub enum NoteLength {
    DefaultLength,
    Dot,
    Length(usize),
}

/// One instruction of a track. Numeric parameters keep the unit in which the
/// score writes them: `Volume` is in percent.
#[derive(Debug, PartialEq)]
pub enum Instruction {
    Note(isize, Vec<NoteLength>),
    Chord(Vec<isize>, Vec<NoteLength>),
    Rest(Vec<NoteLength>),
    Octave(isize),
    Tempo(usize),
    Volume(usize),
    Repeat(Track, usize),
    Length(Vec<NoteLength>),
    ToneModifier(ToneModifier),
    Synthesize(Vec<Vec<ToneModifier>>),
}

pub type Track = Vec<Instruction>;

pub type ParsedMML = Vec<Track>;

/// The mathematical value of an instruction.
pub enum Instr {
    Note(isize, Seq<NoteLength>),
    Chord(Seq<isize>, Seq<NoteLength>),
    Rest(Seq<NoteLength>),
    Octave(isize),
    Tempo(usize),
    Volume(usize),
    Repeat(Seq<Instr>, usize),
    Length(Seq<NoteLength>),
    ToneModifier(Modifier),
    Synthesize(Seq<Seq<Modifier>>),
}

impl Instruction {
    pub open spec fn model(&self) -> Instr
        decreases self,
    {
        match self {
            Instruction::Note(p, l) => Instr::Note(*p, l@),
            Instruction::Chord(ps, l) => Instr::Chord(ps@, l@),
            Instruction::Rest(l) => Instr::Rest(l@),
            Instruction::Octave(o) => Instr::Octave(*o),
            Instruction::Tempo(t) => Instr::Tempo(*t),
            Instruction::Volume(v) => Instr::Volume(*v),
            Instruction::Repeat(t, n) => Instr::Repeat(track_model(t@), *n),
            Instruction::Length(l) => Instr::Length(l@),
            Instruction::ToneModifier(m) => Instr::ToneModifier(m.model()),
            Instruction::Synthesize(gs) => Instr::Synthesize(groups_model(gs@)),
        }
    }
}

/// The value of each instruction of a track.
pub open spec fn track_model(t: Seq<Instruction>) -> Seq<Instr>
    decreases t,
{
    if t.len() == 0 {
        Seq::empty()
    } else {
        track_model(t.drop_last()).push(t.last().model())
    }
}

/// The value of each track.
pub open spec fn tracks_model(ts: Seq<Track>) -> Seq<Seq<Instr>> {
    Seq::new(ts.len(), |i: int| track_model(ts[i]@))
}

pub open spec fn groups_model(gs: Seq<Vec<ToneModifier>>) -> Seq<Seq<Modifier>> {
    Seq::new(gs.len(), |i: int| Seq::new(gs[i]@.len(), |j: int| gs[i]@[j].model()))
}

/// Why the tokens do not form a score.
#[derive(Debug, PartialEq, Eq)]
pub enum ParseError {
    UnexpectedToken(Token),
    /// Where the parameters start, how many were expected, how many were given.
    WrongParamsNumber(usize, usize, usize),
    UnexpectedEOF,
}

/// The mathematical value of a parse error.
pub enum PErr {
    UnexpectedToken((usize, Tok)),
    WrongParamsNumber(usize, usize, usize),
    UnexpectedEOF,
}

impl DeepView for ParseError {
    type V = PErr;

    open spec fn deep_view(&self) -> PErr {
        match self {
            ParseError::UnexpectedToken(t) => PErr::UnexpectedToken((t.0, t.1.deep_view())),
            ParseError::WrongParamsNumber(a, e, p) => PErr::WrongParamsNumber(*a, *e, *p),
            ParseError::UnexpectedEOF => PErr::UnexpectedEOF,
        }
    }
}

impl ParseError {
    pub fn unexpected_char(position: usize, ch: u8) -> (r: Self)
        ensures
            r.deep_view() == PErr::UnexpectedToken((position, Tok::Character(ch))),
    {
        ParseError::UnexpectedToken((position, TokenKind::Character(ch)))
    }

    /// An error naming the token `t`.
    pub fn unexpected(t: &Token) -> (r: Self)
        ensures
            r.deep_view() == PErr::UnexpectedToken((t.0, t.1.deep_view())),
    {
        ParseError::UnexpectedToken((t.0, t.1.duplicate()))
    }

    /// A one-line diagnostic.
    pub fn message(&self) -> (r: String)
        ensures
            r@ == match self.deep_view() {
                PErr::UnexpectedToken((at, t)) => "Unexpected token "@ + token_text(t) + " at "@
                    + decimal(at as nat),
                PErr::WrongParamsNumber(at, expected, provided) => decimal(provided as nat)
                    + " parameter(s) are provided at "@ + decimal(at as nat) + ", expected "@
                    + decimal(expected as nat) + " parameter(s)"@,
                PErr::UnexpectedEOF => "Unexpected EOF"@,
            },
    {
        match self {
            ParseError::UnexpectedToken(t) => {
                let m = concat_text(String::from_str("Unexpected token "), t.1.text().as_str());
                let m = concat_text(m, " at ");
                concat_text(m, number_text(t.0).as_str())
            },
            ParseError::WrongParamsNumber(at, expected, provided) => {
                let m = concat_text(number_text(*provided), " parameter(s) are provided at ");
                let m = concat_text(m, number_text(*at).as_str());
                let m = concat_text(m, ", expected ");
                let m = concat_text(m, number_text(*expected).as_str());
                concat_text(m, " parameter(s)")
            },
            ParseError::UnexpectedEOF => String::from_str("Unexpected EOF"),
        }
    }
}

/// A bound that every slice of tokens meets: a token takes at least 16
/// bytes, and no slice spans more than `isize::MAX` bytes.
pub open spec fn max_tokens() -> nat {
    (isize::MAX as nat) / 16
}

/// What a grammar rule makes of the tokens from a position on.
pub enum Step {
    /// The rule does not apply here.
    NoMatch,
    /// The rule read an instruction that ends before this position.
    Matched(Instr, nat),
    /// The rule applies but the tokens are malformed.
    Failed(PErr),
}

/// The token at `p`, if any, is the character `c`.
pub open spec fn char_at(ts: Seq<(usize, Tok)>, p: nat, c: u8) -> bool {
    p < ts.len() && ts[p as int].1 == Tok::Character(c)
}

/// The error for an unwanted token at `p`, or the end of input.
pub open spec fn unexpected_at(ts: Seq<(usize, Tok)>, p: nat) -> PErr {
    if p < ts.len() {
        PErr::UnexpectedToken(ts[p as int])
    } else {
        PErr::UnexpectedEOF
    }
}

/// A number token at `p`, or the error for what stands there.
pub open spec fn number_at(ts: Seq<(usize, Tok)>, p: nat) -> Result<usize, PErr> {
    if p < ts.len() && ts[p as int].1 is Number {
        Ok(ts[p as int].1->Number_0)
    } else {
        Err(unexpected_at(ts, p))
    }
}

/// The numbers of a comma-separated list from `p` on, and where it ends.
/// A comma after the last number belongs to the list.
pub open spec fn comma_numbers(ts: Seq<(usize, Tok)>, p: nat) -> (Seq<usize>, nat)
    decreases ts.len() - p,
{
    if p < ts.len() && ts[p as int].1 is Number {
        let n = ts[p as int].1->Number_0;
        if char_at(ts, p + 1, 44) {
            let (rest, e) = comma_numbers(ts, p + 2);
            (seq![n] + rest, e)
        } else {
            (seq![n], p + 1)
        }
    } else {
        (Seq::empty(), p)
    }
}

/// Exactly `n` comma-separated numbers from `p` on, and where they end.
pub open spec fn comma_n_numbers(ts: Seq<(usize, Tok)>, p: nat, n: nat) -> Result<
    (Seq<usize>, nat),
    PErr,
> {
    if p >= ts.len() {
        Err(PErr::UnexpectedEOF)
    } else {
        let (nums, e) = comma_numbers(ts, p);
        if nums.len() == n {
            Ok((nums, e))
        } else {
            Err(PErr::WrongParamsNumber(ts[p as int].0, n as usize, nums.len() as usize))
        }
    }
}

/// What a rule's result says, with `end` where its cursor stopped.
pub open spec fn outcome(r: Result<Option<Instruction>, ParseError>, end: nat) -> Step {
    match r {
        Ok(None) => Step::NoMatch,
        Ok(Some(i)) => Step::Matched(i.model(), end),
        Err(e) => Step::Failed(e.deep_view()),
    }
}

/// A rule run from `before` to `after` gave `r`, and `r` is `step`. A rule
/// that matches has read at least one token.
pub open spec fn rule_result<'a>(
    r: Result<Option<Instruction>, ParseError>,
    before: RollbackableTokenStream<'a>,
    after: RollbackableTokenStream<'a>,
    step: Step,
) -> bool {
    &&& after.wf()
    &&& after.same_input(&before)
    &&& outcome(r, after.pos()) == step
    &&& r matches Ok(Some(_)) ==> after.pos() > before.pos()
}

/// A comma-separated list never ends before it starts, nor past the input.
pub proof fn lemma_comma_numbers_bounds(ts: Seq<(usize, Tok)>, p: nat)
    ensures
        p <= comma_numbers(ts, p).1,
        p <= ts.len() ==> comma_numbers(ts, p).1 <= ts.len(),
    decreases ts.len() - p,
{
    if p < ts.len() && ts[p as int].1 is Number && char_at(ts, p + 1, 44) {
        lemma_comma_numbers_bounds(ts, p + 2);
    }
}

/// A cursor over tokens that can go back to the last accepted position.
pub struct RollbackableTokenStream<'a> {
    tokens: &'a [Token],
    offset: usize,
    cursor: usize,
}

impl<'a> RollbackableTokenStream<'a> {
    /// All the tokens, accepted or not.
    pub closed spec fn toks(&self) -> Seq<(usize, Tok)> {
        self.tokens.deep_view()
    }

    /// Where the last accepted prefix ends.
    pub closed spec fn base(&self) -> nat {
        self.offset as nat
    }

    /// The absolute position of the cursor.
    pub closed spec fn pos(&self) -> nat {
        (self.offset + self.cursor) as nat
    }

    pub closed spec fn wf(&self) -> bool {
        &&& self.offset + self.cursor <= self.tokens@.len()
        &&& self.tokens@.len() <= max_tokens()
    }

    /// Nothing but the cursor moved.
    pub open spec fn same_input(&self, other: &Self) -> bool {
        &&& self.toks() == other.toks()
        &&& self.base() == other.base()
    }

    pub fn new(tokens: &'a [Token]) -> (r: Self)
        requires
            tokens@.len() <= max_tokens(),
        ensures
            r.wf(),
            r.toks() == tokens.deep_view(),
            r.base() == 0,
            r.pos() == 0,
    {
        RollbackableTokenStream { tokens, offset: 0, cursor: 0 }
    }

    /// A second cursor over the same tokens, at the same place.
    pub fn copy(&self) -> (r: Self)
        ensures
            r == *self,
    {
        RollbackableTokenStream { tokens: self.tokens, offset: self.offset, cursor: self.cursor }
    }

    pub proof fn lemma_bounds(&self)
        requires
            self.wf(),
        ensures
            self.base() <= self.pos() <= self.toks().len() <= max_tokens(),
    {
    }

    /// Goes back to the last accepted position.
    pub fn rollback(&mut self)
        requires
            old(self).wf(),
        ensures
            final(self).wf(),
            final(self).same_input(old(self)),
            final(self).pos() == old(self).base(),
    {
        self.cursor = 0;
    }

    /// Accepts what was read: the cursor becomes the new start.
    pub fn accept(&mut self)
        requires
            old(self).wf(),
        ensures
            final(self).wf(),
            final(self).toks() == old(self).toks(),
            final(self).base() == old(self).pos(),
            final(self).pos() == old(self).pos(),
    {
        self.offset = self.offset + self.cursor;
        self.cursor = 0;
    }

    /// The token under the cursor.
    pub fn peek(&self) -> (r: Option<&'a Token>)
        requires
            self.wf(),
        ensures
            self.pos() < self.toks().len() <==> r is Some,
            r matches Some(t) ==> (t.0, t.1.deep_view()) == self.toks()[self.pos() as int],
    {
        let i = self.offset + self.cursor;
        if i < self.tokens.len() {
            let tokens: &'a [Token] = self.tokens;
            Some(&tokens[i])
        } else {
            None
        }
    }

    /// The token under the cursor, which then moves past it.
    pub fn next(&mut self) -> (r: Option<&'a Token>)
        requires
            old(self).wf(),
        ensures
            final(self).wf(),
            final(self).same_input(old(self)),
            old(self).pos() < old(self).toks().len() <==> r is Some,
            r matches Some(t) ==> (t.0, t.1.deep_view()) == old(self).toks()[old(self).pos() as int]
                && final(self).pos() == old(self).pos() + 1,
            r is None ==> final(self).pos() == old(self).pos(),
    {
        let r = self.peek();
        if r.is_some() {
            self.cursor = self.cursor + 1;
        }
        r
    }

    /// The token under the cursor is the character `ch`.
    pub fn peek_is_character(&self, ch: u8) -> (r: bool)
        requires
            self.wf(),
        ensures
            r == char_at(self.toks(), self.pos(), ch),
    {
        match self.peek() {
            Some(t) => match t.1 {
                TokenKind::Character(c) => c == ch,
                _ => false,
            },
            None => false,
        }
    }

    /// No token is left under the cursor.
    pub fn empty(&self) -> (r: bool)
        requires
            self.wf(),
        ensures
            r == (self.pos() >= self.toks().len()),
    {
        self.offset + self.cursor >= self.tokens.len()
    }

    /// Reads a number token.
    pub fn take_number(&mut self) -> (r: Result<(usize, usize), ParseError>)
        requires
            old(self).wf(),
        ensures
            final(self).wf(),
            final(self).same_input(old(self)),
            match r {
                Ok((at, n)) => number_at(old(self).toks(), old(self).pos()) == Ok::<_, PErr>(n)
                    && at == old(self).toks()[old(self).pos() as int].0
                    && final(self).pos() == old(self).pos() + 1,
                Err(e) => number_at(old(self).toks(), old(self).pos()) == Err::<usize, _>(
                    e.deep_view(),
                ) && final(self).pos() == old(self).pos(),
            },
    {
        match self.peek() {
            Some(t) => match t.1 {
                TokenKind::Number(num) => {
                    self.cursor = self.cursor + 1;
                    Ok((t.0, num))
                },
                _ => Err(ParseError::unexpected(t)),
            },
            None => Err(ParseError::UnexpectedEOF),
        }
    }

    /// Reads a character token.
    pub fn take_character(&mut self) -> (r: Result<(usize, u8), ParseError>)
        requires
            old(self).wf(),
        ensures
            final(self).wf(),
            final(self).same_input(old(self)),
            match r {
                Ok((at, c)) => old(self).pos() < old(self).toks().len()
                    && old(self).toks()[old(self).pos() as int] == (at, Tok::Character(c))
                    && final(self).pos() == old(self).pos() + 1,
                Err(e) => !(old(self).pos() < old(self).toks().len()
                    && old(self).toks()[old(self).pos() as int].1 is Character)
                    && e.deep_view() == unexpected_at(old(self).toks(), old(self).pos())
                    && final(self).pos() == old(self).pos(),
            },
    {
        match self.peek() {
            Some(t) => match t.1 {
                TokenKind::Character(ch) => {
                    self.cursor = self.cursor + 1;
                    Ok((t.0, ch))
                },
                _ => Err(ParseError::unexpected(t)),
            },
            None => Err(ParseError::UnexpectedEOF),
        }
    }

    /// Reads a brace-string token.
    pub fn take_brace_string(&mut self) -> (r: Result<(usize, &'a Vec<u8>), ParseError>)
        requires
            old(self).wf(),
        ensures
            final(self).wf(),
            final(self).same_input(old(self)),
            match r {
                Ok((at, s)) => old(self).pos() < old(self).toks().len()
                    && old(self).toks()[old(self).pos() as int] == (at, Tok::BraceString(s@))
                    && final(self).pos() == old(self).pos() + 1,
                Err(e) => !(old(self).pos() < old(self).toks().len()
                    && old(self).toks()[old(self).pos() as int].1 is BraceString)
                    && e.deep_view() == unexpected_at(old(self).toks(), old(self).pos())
                    && final(self).pos() == old(self).pos(),
            },
    {
        match self.peek() {
            Some(t) => match &t.1 {
                TokenKind::BraceString(s) => {
                    self.cursor = self.cursor + 1;
                    Ok((t.0, s))
                },
                _ => Err(ParseError::unexpected(t)),
            },
            None => Err(ParseError::UnexpectedEOF),
        }
    }

    /// Consumes the character `ch`, or fails without moving.
    pub fn expect_character(&mut self, ch: u8) -> (r: Result<(), ParseError>)
        requires
            old(self).wf(),
        ensures
            final(self).wf(),
            final(self).same_input(old(self)),
            r is Ok <==> char_at(old(self).toks(), old(self).pos(), ch),
            r is Ok ==> final(self).pos() == old(self).pos() + 1,
            r matches Err(e) ==> e.deep_view() == unexpected_at(old(self).toks(), old(self).pos())
                && final(self).pos() == old(self).pos(),
    {
        match self.peek() {
            Some(t) => {
                let found = match t.1 {
                    TokenKind::Character(c) => c == ch,
                    _ => false,
                };
                if found {
                    self.cursor = self.cursor + 1;
                    Ok(())
                } else {
                    Err(ParseError::unexpected(t))
                }
            },
            None => Err(ParseError::UnexpectedEOF),
        }
    }

    /// Reads numbers separated by commas, as many as there are.
    pub fn comma_separated_numbers(&mut self) -> (r: Vec<usize>)
        requires
            old(self).wf(),
        ensures
            final(self).wf(),
            final(self).same_input(old(self)),
            comma_numbers(old(self).toks(), old(self).pos()) == (r@, final(self).pos()),
            final(self).pos() >= old(self).pos(),
    {
        let ghost ts = self.toks();
        let ghost p0 = self.pos();
        let mut numbers: Vec<usize> = Vec::new();
        loop
            invariant
                self.wf(),
                self.same_input(old(self)),
                ts == self.toks(),
                ts == old(self).toks(),
                p0 == old(self).pos(),
                self.pos() >= p0,
                comma_numbers(ts, p0) == (numbers@ + comma_numbers(ts, self.pos()).0, comma_numbers(
                    ts,
                    self.pos(),
                ).1),
            decreases ts.len() - self.pos(),
        {
            proof {
                self.lemma_bounds();
            }
            let ghost p = self.pos();
            let ghost before = numbers@;
            match self.take_number() {
                Ok((_, number)) => {
                    numbers.push(number);
                    if self.expect_character(44).is_err() {
                        assert(comma_numbers(ts, p) == (seq![number], p + 1));
                        assert(before + seq![number] =~= numbers@);
                        return numbers;
                    }
                    let ghost rest = comma_numbers(ts, self.pos());
                    assert(comma_numbers(ts, p) == (seq![number] + rest.0, rest.1));
                    assert(before + (seq![number] + rest.0) =~= numbers@ + rest.0);
                },
                Err(_) => {
                    assert(comma_numbers(ts, p) == (Seq::<usize>::empty(), p));
                    assert(numbers@ + Seq::<usize>::empty() =~= numbers@);
                    return numbers;
                },
            }
        }
    }

    /// Reads exactly `n` comma-separated numbers.
    pub fn comma_separated_n_numbers(&mut self, n: usize) -> (r: Result<Vec<usize>, ParseError>)
        requires
            old(self).wf(),
        ensures
            final(self).wf(),
            final(self).pos() >= old(self).pos(),
            final(self).same_input(old(self)),
            match r {
                Ok(v) => comma_n_numbers(old(self).toks(), old(self).pos(), n as nat) == Ok::<
                    _,
                    PErr,
                >((v@, final(self).pos())),
                Err(e) => comma_n_numbers(old(self).toks(), old(self).pos(), n as nat) == Err::<
                    (Seq<usize>, nat),
                    _,
                >(e.deep_view()),
            },
    {
        let params_at = match self.peek() {
            Some(t) => t.0,
            None => {
                return Err(ParseError::UnexpectedEOF);
            },
        };
        let numbers = self.comma_separated_numbers();
        if numbers.len() == n {
            Ok(numbers)
        } else {
            Err(ParseError::WrongParamsNumber(params_at, n, numbers.len()))
        }
    }

    /// How far the cursor stands from the last accepted position.
    pub fn cursor(&self) -> (r: usize)
        requires
            self.wf(),
        ensures
            r == self.pos() - self.base(),
    {
        self.cursor
    }
}


/// The first rule that applies at `p`, tried in this order: note, rest,
/// chord, length, octave, tempo, synthesized tone, tone, volume, repeat.
pub open spec fn instruction_rule(ts: Seq<(usize, Tok)>, p: nat) -> Step
    decreases ts.len() - p, 1nat,
{
    if !(note_rule(ts, p) is NoMatch) {
        note_rule(ts, p)
    } else if !(rest_rule(ts, p) is NoMatch) {
        rest_rule(ts, p)
    } else if !(chord_rule(ts, p) is NoMatch) {
        chord_rule(ts, p)
    } else if !(length_rule(ts, p) is NoMatch) {
        length_rule(ts, p)
    } else if !(octave_rule(ts, p) is NoMatch) {
        octave_rule(ts, p)
    } else if !(tempo_rule(ts, p) is NoMatch) {
        tempo_rule(ts, p)
    } else if !(synthesize_rule(ts, p) is NoMatch) {
        synthesize_rule(ts, p)
    } else if !(tone_rule(ts, p) is NoMatch) {
        tone_rule(ts, p)
    } else if !(volume_rule(ts, p) is NoMatch) {
        volume_rule(ts, p)
    } else {
        repeat_rule(ts, p)
    }
}

/// The tracks read from `p` on, with the tracks `done` and the track `cur`
/// read so far, and where reading stopped. Inside a bracket a `;` is an
/// error and `]` ends the single track; outside, `;` starts a new track and
/// `]` is an error.
pub open spec fn stream_spec(
    ts: Seq<(usize, Tok)>,
    p: nat,
    inside: bool,
    done: Seq<Seq<Instr>>,
    cur: Seq<Instr>,
) -> Result<(Seq<Seq<Instr>>, nat), PErr>
    decreases ts.len() - p, 2nat,
{
    if p >= ts.len() {
        if inside {
            Err(PErr::UnexpectedEOF)
        } else if cur.len() > 0 {
            Ok((done.push(cur), p))
        } else {
            Ok((done, p))
        }
    } else if char_at(ts, p, 59) {
        if inside {
            Err(PErr::UnexpectedToken(ts[p as int]))
        } else {
            stream_spec(ts, p + 1, inside, done.push(cur), Seq::empty())
        }
    } else if char_at(ts, p, 93) {
        if inside {
            Ok((seq![cur], p + 1))
        } else {
            Err(PErr::UnexpectedToken(ts[p as int]))
        }
    } else {
        match instruction_rule(ts, p) {
            // always taken: see `lemma_instruction_bounds`
            Step::Matched(i, e) => if p < e <= ts.len() {
                stream_spec(ts, e, inside, done, cur.push(i))
            } else {
                Err(unexpected_at(ts, p))
            },
            Step::Failed(x) => Err(x),
            Step::NoMatch => Err(PErr::UnexpectedToken(ts[p as int])),
        }
    }
}

/// One step of `stream_spec`: what the rules make of the token at `p`.
pub proof fn lemma_stream_step(
    ts: Seq<(usize, Tok)>,
    p: nat,
    inside: bool,
    done: Seq<Seq<Instr>>,
    cur: Seq<Instr>,
)
    requires
        p < ts.len(),
        !char_at(ts, p, 59),
        !char_at(ts, p, 93),
    ensures
        stream_spec(ts, p, inside, done, cur) == match instruction_rule(ts, p) {
            Step::Matched(i, e) => if p < e <= ts.len() {
                stream_spec(ts, e, inside, done, cur.push(i))
            } else {
                Err(unexpected_at(ts, p))
            },
            Step::Failed(x) => Err(x),
            Step::NoMatch => Err(PErr::UnexpectedToken(ts[p as int])),
        },
{
}

/// Every instruction read spans at least one token and ends within the
/// input, so the guard `p < e <= ts.len()` of `stream_spec` always holds.
pub proof fn lemma_instruction_bounds(ts: Seq<(usize, Tok)>, p: nat)
    ensures
        instruction_rule(ts, p) matches Step::Matched(_, e) ==> p < e <= ts.len(),
    decreases ts.len() - p, 1nat,
{
    if p < ts.len() {
        if let Tok::Character(c) = ts[p as int].1 {
            if let Some(pitch) = note::pitch_of(c) {
                note::lemma_accidentals_bounds(ts, p + 1, pitch as int);
                note::lemma_length_bounds(ts, accidentals(ts, p + 1, pitch as int).1);
            }
        }
        note::lemma_length_bounds(ts, p + 1);
        note::lemma_chord_bounds_body(ts, p + 1, 0, Seq::empty());
        tone::lemma_tone_bounds(ts, p);
        tone::lemma_synthesize_bounds(ts, p + 2, seq![Seq::empty()]);
        lemma_repeat_bounds(ts, p);
    }
}

/// A repeat block, when it is read, ends after `p` and within the input.
pub proof fn lemma_repeat_bounds(ts: Seq<(usize, Tok)>, p: nat)
    ensures
        repeat_rule(ts, p) matches Step::Matched(_, e) ==> p < e <= ts.len(),
    decreases ts.len() - p, 0nat,
{
    if char_at(ts, p, 91) {
        lemma_stream_bounds(ts, p + 1, true, Seq::empty(), Seq::empty());
    }
}

/// Reading tracks never ends before it starts, nor past the input.
pub proof fn lemma_stream_bounds(
    ts: Seq<(usize, Tok)>,
    p: nat,
    inside: bool,
    done: Seq<Seq<Instr>>,
    cur: Seq<Instr>,
)
    ensures
        stream_spec(ts, p, inside, done, cur) matches Ok((_, e)) ==> p <= e && (p <= ts.len() ==> e
            <= ts.len()),
    decreases ts.len() - p, 2nat,
{
    if p < ts.len() {
        if char_at(ts, p, 59) {
            lemma_stream_bounds(ts, p + 1, inside, done.push(cur), Seq::empty());
        } else if !char_at(ts, p, 93) {
            lemma_stream_step(ts, p, inside, done, cur);
            lemma_instruction_bounds(ts, p);
            if let Step::Matched(i, e) = instruction_rule(ts, p) {
                lemma_stream_bounds(ts, e, inside, done, cur.push(i));
            }
        }
    }
}

/// Inside a bracket, reading gives a single track.
pub proof fn lemma_bracket_single_track(
    ts: Seq<(usize, Tok)>,
    p: nat,
    done: Seq<Seq<Instr>>,
    cur: Seq<Instr>,
)
    ensures
        stream_spec(ts, p, true, done, cur) matches Ok((tracks, _)) ==> tracks.len() == 1,
    decreases ts.len() - p,
{
    if p < ts.len() && !char_at(ts, p, 59) && !char_at(ts, p, 93) {
        lemma_stream_step(ts, p, true, done, cur);
        if let Step::Matched(i, e) = instruction_rule(ts, p) {
            if p < e <= ts.len() {
                lemma_bracket_single_track(ts, e, done, cur.push(i));
            }
        }
    }
}

/// The tracks of a whole score.
pub open spec fn parse_spec(ts: Seq<(usize, Tok)>) -> Result<Seq<Seq<Instr>>, PErr> {
    match stream_spec(ts, 0, false, Seq::empty(), Seq::empty()) {
        Ok((tracks, _)) => Ok(tracks),
        Err(e) => Err(e),
    }
}

/// Reads one instruction with the first rule that applies.
pub fn next_instruction(stream: &mut RollbackableTokenStream) -> (r: Result<
    Option<Instruction>,
    ParseError,
>)
    requires
        old(stream).wf(),
        old(stream).pos() == old(stream).base(),
    ensures
        final(stream).wf(),
        final(stream).toks() == old(stream).toks(),
        outcome(r, final(stream).pos()) == instruction_rule(old(stream).toks(), old(stream).pos()),
        r matches Ok(Some(_)) ==> final(stream).pos() > old(stream).pos(),
        !(r matches Ok(Some(_))) ==> final(stream).base() == old(stream).base(),
    decreases old(stream).toks().len() - old(stream).pos(), 1nat,
{
    let r = note(stream);
    if !(r matches Ok(None)) {
        return r;
    }
    stream.rollback();
    let r = rest(stream);
    if !(r matches Ok(None)) {
        return r;
    }
    stream.rollback();
    let r = chord(stream);
    if !(r matches Ok(None)) {
        return r;
    }
    stream.rollback();
    let r = length(stream);
    if !(r matches Ok(None)) {
        return r;
    }
    stream.rollback();
    let r = octave(stream);
    if !(r matches Ok(None)) {
        return r;
    }
    stream.rollback();
    let r = tempo(stream);
    if !(r matches Ok(None)) {
        return r;
    }
    stream.rollback();
    let r = synthesize(stream);
    if !(r matches Ok(None)) {
        return r;
    }
    stream.rollback();
    let r = tone(stream);
    if !(r matches Ok(None)) {
        return r;
    }
    stream.rollback();
    let r = volume(stream);
    if !(r matches Ok(None)) {
        return r;
    }
    stream.rollback();
    repeat(stream)
}

/// Reads tracks up to the end of input, or inside a bracket up to its `]`.
pub fn parse_stream(stream: &mut RollbackableTokenStream, inside_bracket: bool) -> (r: Result<
    ParsedMML,
    ParseError,
>)
    requires
        old(stream).wf(),
        old(stream).pos() == old(stream).base(),
    ensures
        final(stream).wf(),
        final(stream).toks() == old(stream).toks(),
        final(stream).pos() >= old(stream).pos(),
        match r {
            Ok(tracks) => stream_spec(
                old(stream).toks(),
                old(stream).pos(),
                inside_bracket,
                Seq::empty(),
                Seq::empty(),
            ) == Ok::<_, PErr>((tracks_model(tracks@), final(stream).pos())),
            Err(e) => stream_spec(
                old(stream).toks(),
                old(stream).pos(),
                inside_bracket,
                Seq::empty(),
                Seq::empty(),
            ) == Err::<(Seq<Seq<Instr>>, nat), _>(e.deep_view()),
        },
    decreases old(stream).toks().len() - old(stream).pos(), 2nat,
{
    let ghost ts = stream.toks();
    let ghost p0 = stream.pos();
    let mut parsed: Vec<Track> = Vec::new();
    let mut track: Track = Vec::new();
    assert(tracks_model(parsed@) =~= Seq::<Seq<Instr>>::empty());
    assert(track_model(track@) =~= Seq::<Instr>::empty());
    while !stream.empty()
        invariant
            stream.wf(),
            ts == stream.toks(),
            ts == old(stream).toks(),
            p0 == old(stream).pos(),
            stream.pos() == stream.base(),
            stream.pos() >= p0,
            stream_spec(ts, p0, inside_bracket, Seq::empty(), Seq::empty()) == stream_spec(
                ts,
                stream.pos(),
                inside_bracket,
                tracks_model(parsed@),
                track_model(track@),
            ),
        decreases ts.len() - stream.pos(),
    {
        proof {
            stream.lemma_bounds();
        }
        if stream.peek_is_character(59) {
            let token_at = match stream.next() {
                Some(t) => t.0,
                None => 0,
            };
            if inside_bracket {
                return Err(ParseError::unexpected_char(token_at, 59));
            }
            stream.accept();
            let ghost before = tracks_model(parsed@);
            let ghost cur = track_model(track@);
            parsed.push(track);
            track = Vec::new();
            assert(tracks_model(parsed@) =~= before.push(cur));
            assert(track_model(track@) =~= Seq::<Instr>::empty());
        } else if stream.peek_is_character(93) {
            let token_at = match stream.next() {
                Some(t) => t.0,
                None => 0,
            };
            if inside_bracket {
                stream.accept();
                let ghost cur = track_model(track@);
                let mut tracks: Vec<Track> = Vec::new();
                tracks.push(track);
                assert(tracks_model(tracks@) =~= seq![cur]);
                return Ok(tracks);
            } else {
                return Err(ParseError::unexpected_char(token_at, 93));
            }
        } else {
            let ghost p = stream.pos();
            proof {
                lemma_stream_step(ts, p, inside_bracket, tracks_model(parsed@), track_model(track@));
            }
            match next_instruction(stream) {
                Ok(Some(x)) => {
                    let ghost cur = track_model(track@);
                    let ghost old_track = track@;
                    let ghost xm = x.model();
                    track.push(x);
                    assert(track@.drop_last() =~= old_track);
                    assert(track_model(track@) =~= cur.push(xm));
                    stream.accept();
                },
                Ok(None) => {
                    stream.rollback();
                    return match stream.next() {
                        Some(t) => Err(ParseError::unexpected(t)),
                        None => Err(ParseError::UnexpectedEOF),
                    };
                },
                Err(e) => {
                    return Err(e);
                },
            }
        }
    }
    if inside_bracket {
        return Err(ParseError::UnexpectedEOF);
    }
    if track.len() > 0 {
        let ghost before = tracks_model(parsed@);
        let ghost cur = track_model(track@);
        parsed.push(track);
        assert(tracks_model(parsed@) =~= before.push(cur));
    }
    Ok(parsed)
}

/// Parses a whole score into its tracks.
pub fn parse(tokens: &[Token]) -> (r: Result<ParsedMML, ParseError>)
    requires
        tokens@.len() <= max_tokens(),
    ensures
        match r {
            Ok(tracks) => parse_spec(tokens.deep_view()) == Ok::<_, PErr>(tracks_model(tracks@)),
            Err(e) => parse_spec(tokens.deep_view()) == Err::<Seq<Seq<Instr>>, _>(e.deep_view()),
        },
{
    let mut stream = RollbackableTokenStream::new(tokens);
    parse_stream(&mut stream, false)
}

} // verus!
