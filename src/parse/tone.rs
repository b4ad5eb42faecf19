use crate::parse::{
    char_at, comma_n_numbers, number_at, outcome, rule_result, unexpected_at, Instr, Instruction,
    PErr, ParseError, RollbackableTokenStream, Step, groups_model,
};
use crate::tokenize::Tok;
use vstd::prelude::*;

verus! {

/// An effect that a track inserts into its signal chain.
/// `Delay` is in milliseconds with a feedback in thousandths; the filters
/// take a cut-off frequency in hertz.
#[derive(Clone, Copy, Debug, PartialEq, Eq, Structural)]
pub enum Effect {
    Delay { delay: usize, feedback: usize },
    LowPassFilter { cut_off: usize },
    HighPassFilter { cut_off: usize },
}

/// A change to a tone, with parameters in the unit the score writes:
/// `Detune` is (voices, ratio in ten-thousandths), `Envelope` is attack,
/// decay and release in hundredths of a second and sustain in percent,
/// `Gate` is in milliseconds, `Tune` in thousandths, `Volume` in percent.
/// `DefinePCMTone` holds samples in units of 1/128.
#[derive(Clone, Debug, PartialEq, Eq)]
pub enum ToneModifier {
    Tone(usize),
    Detune(usize, usize),
    Envelope(usize, usize, usize, usize),
    DefinePCMTone(Vec<i8>),
    PCMTone(usize),
    Gate(usize),
    Tune(usize),
    Volume(usize),
    Effect(Effect),
}

/// The mathematical value of a tone modifier.
pub enum Modifier {
    Tone(usize),
    Detune(usize, usize),
    Envelope(usize, usize, usize, usize),
    DefinePCMTone(Seq<i8>),
    PCMTone(usize),
    Gate(usize),
    Tune(usize),
    Volume(usize),
    Effect(Effect),
}

impl ToneModifier {
    pub open spec fn model(&self) -> Modifier {
        match self {
            ToneModifier::Tone(n) => Modifier::Tone(*n),
            ToneModifier::Detune(n, r) => Modifier::Detune(*n, *r),
            ToneModifier::Envelope(a, d, s, r) => Modifier::Envelope(*a, *d, *s, *r),
            ToneModifier::DefinePCMTone(p) => Modifier::DefinePCMTone(p@),
            ToneModifier::PCMTone(n) => Modifier::PCMTone(*n),
            ToneModifier::Gate(g) => Modifier::Gate(*g),
            ToneModifier::Tune(t) => Modifier::Tune(*t),
            ToneModifier::Volume(v) => Modifier::Volume(*v),
            ToneModifier::Effect(e) => Modifier::Effect(*e),
        }
    }
}


/// The value of a hexadecimal digit, in either case.
pub open spec fn hex_value(b: u8) -> Option<usize> {
    if 48 <= b <= 57 {
        Some((b - 48) as usize)
    } else if 97 <= b <= 102 {
        Some((b - 97 + 10) as usize)
    } else if 65 <= b <= 70 {
        Some((b - 65 + 10) as usize)
    } else {
        None
    }
}

pub fn hex_to_num(hex: u8) -> (r: Option<usize>)
    ensures
        r == hex_value(hex),
{
    if 48 <= hex && hex <= 57 {
        Some((hex - 48) as usize)
    } else if 97 <= hex && hex <= 102 {
        Some((hex - 97) as usize + 10)
    } else if 65 <= hex && hex <= 70 {
        Some((hex - 65) as usize + 10)
    } else {
        None
    }
}

/// The sample of a hexadecimal digit `d`, `(d - 8) / 8`, in units of 1/128;
/// a byte that is no digit gives silence.
pub open spec fn hex_sample(b: u8) -> i8 {
    match hex_value(b) {
        Some(d) => ((d - 8) * 16) as i8,
        None => 0,
    }
}

/// The samples written as hexadecimal digits, one per byte.
pub open spec fn hex_pcm(s: Seq<u8>) -> Seq<i8> {
    Seq::new(s.len(), |i: int| hex_sample(s[i]))
}

/// Decodes a tone written as hexadecimal digits.
pub fn decode_hex_pcm(s: &Vec<u8>) -> (r: Vec<i8>)
    ensures
        r@ == hex_pcm(s@),
{
    let mut pcm: Vec<i8> = Vec::new();
    let mut i: usize = 0;
    while i < s.len()
        invariant
            i <= s@.len(),
            pcm@ == hex_pcm(s@).subrange(0, i as int),
        decreases s@.len() - i,
    {
        let sample: i8 = match hex_to_num(s[i]) {
            Some(d) => ((d as i8) - 8) * 16,
            None => 0,
        };
        pcm.push(sample);
        i = i + 1;
        assert(pcm@ =~= hex_pcm(s@).subrange(0, i as int));
    }
    assert(pcm@ =~= hex_pcm(s@));
    pcm
}

/// The index of a character in the base64 alphabet `A-Z a-z 0-9 + /`;
/// a character outside it counts as `A`.
pub open spec fn base64_value(ch: u8) -> usize {
    if 65 <= ch <= 90 {
        (ch - 65) as usize
    } else if 97 <= ch <= 122 {
        (ch - 97 + 26) as usize
    } else if 48 <= ch <= 57 {
        (ch - 48 + 52) as usize
    } else if ch == 43 {
        62
    } else if ch == 47 {
        63
    } else {
        0
    }
}

pub fn base64_to_bits(ch: u8) -> (r: usize)
    ensures
        r == base64_value(ch),
        r < 64,
{
    if 65 <= ch && ch <= 90 {
        (ch - 65) as usize
    } else if 97 <= ch && ch <= 122 {
        (ch - 97) as usize + 26
    } else if 48 <= ch && ch <= 57 {
        (ch - 48) as usize + 52
    } else if ch == 43 {
        62
    } else if ch == 47 {
        63
    } else {
        0
    }
}

/// The weight of the `j`-th of six bits, the most significant first.
pub open spec fn bit_weight(j: int) -> nat {
    if j == 0 {
        32
    } else if j == 1 {
        16
    } else if j == 2 {
        8
    } else if j == 3 {
        4
    } else if j == 4 {
        2
    } else if j == 5 {
        1
    } else {
        0
    }
}

/// Step `k` of a delta-coded tone: bit `k % 6` (most significant first) of
/// character `k / 6`; a set bit steps up by one, a clear bit down by one.
pub open spec fn delta_step(s: Seq<u8>, k: int) -> int {
    if (base64_value(s[k / 6]) as nat / bit_weight(k % 6)) % 2 == 1 {
        1
    } else {
        -1
    }
}

/// `x` wrapped into the range of `i8`.
pub open spec fn wrap_i8(x: int) -> i8 {
    ((x + 128) % 256 - 128) as i8
}

/// The 8-bit wrapping accumulator after the first `n` steps.
pub open spec fn delta_level(s: Seq<u8>, n: int) -> i8
    decreases n,
{
    if n <= 0 {
        0
    } else {
        wrap_i8(delta_level(s, n - 1) + delta_step(s, n - 1))
    }
}

/// The samples of a delta-coded tone, in units of 1/128: the accumulator
/// after each of the six steps of each character.
pub open spec fn delta_pcm(s: Seq<u8>) -> Seq<i8> {
    Seq::new(6 * s.len(), |k: int| delta_level(s, k + 1))
}

/// Decodes a tone written as base64 characters of delta bits.
pub fn decode_delta_pcm(s: &Vec<u8>) -> (r: Vec<i8>)
    ensures
        r@ == delta_pcm(s@),
{
    let mut pcm: Vec<i8> = Vec::new();
    let mut acc: i8 = 0;
    let mut i: usize = 0;
    while i < s.len()
        invariant
            i <= s@.len(),
            pcm@.len() == 6 * i,
            acc == delta_level(s@, 6 * i),
            forall|k: int| 0 <= k < 6 * i ==> pcm@[k] == #[trigger] delta_level(s@, k + 1),
        decreases s@.len() - i,
    {
        let bits = base64_to_bits(s[i]);
        let mut weight: usize = 32;
        let mut j: usize = 0;
        while j < 6
            invariant
                i < s@.len(),
                    j <= 6,
                bits == base64_value(s@[i as int]),
                weight == bit_weight(j as int),
                pcm@.len() == 6 * i + j,
                acc == delta_level(s@, 6 * i + j),
                forall|k: int| 0 <= k < 6 * i + j ==> pcm@[k] == #[trigger] delta_level(s@, k + 1),
            decreases 6 - j,
        {
            let ghost k = 6 * i + j;
            assert(k / 6 == i && k % 6 == j) by (nonlinear_arith)
                requires
                    k == 6 * i + j,
                    j < 6,
            ;
            let step: i16 = if (bits / weight) % 2 == 1 {
                1
            } else {
                -1
            };
            assert(step == delta_step(s@, k));
            let next: i16 = acc as i16 + step;
            acc = if next > 127 {
                -128
            } else if next < -128 {
                127
            } else {
                next as i8
            };
            assert(acc == delta_level(s@, k + 1));
            pcm.push(acc);
            weight = weight / 2;
            j = j + 1;
        }
        i = i + 1;
    }
    assert(pcm@ =~= delta_pcm(s@));
    pcm
}

/// A tone modifier that ends before `e`.
pub open spec fn modifier_step(m: Modifier, e: nat) -> Step {
    Step::Matched(Instr::ToneModifier(m), e)
}

/// `n` comma-separated numbers from `q` on, made into a modifier by `f`.
pub open spec fn params_step(
    ts: Seq<(usize, Tok)>,
    q: nat,
    n: nat,
    f: spec_fn(Seq<usize>) -> Modifier,
) -> Step {
    match comma_n_numbers(ts, q, n) {
        Ok((v, e)) => modifier_step(f(v), e),
        Err(x) => Step::Failed(x),
    }
}

/// A number at `q`, made into a modifier by `f`.
pub open spec fn number_step(ts: Seq<(usize, Tok)>, q: nat, f: spec_fn(usize) -> Modifier) -> Step {
    match number_at(ts, q) {
        Ok(n) => modifier_step(f(n), q + 1),
        Err(x) => Step::Failed(x),
    }
}

/// A brace string at `q`, decoded into a tone by `decode`.
pub open spec fn pcm_step(ts: Seq<(usize, Tok)>, q: nat, decode: spec_fn(Seq<u8>) -> Seq<i8>) -> Step {
    if q < ts.len() && ts[q as int].1 is BraceString {
        modifier_step(Modifier::DefinePCMTone(decode(ts[q as int].1->BraceString_0)), q + 1)
    } else {
        Step::Failed(unexpected_at(ts, q))
    }
}

/// `@` and a tone number, or `@` and a letter that names what to change.
pub open spec fn tone_rule(ts: Seq<(usize, Tok)>, p: nat) -> Step {
    if !char_at(ts, p, 64) {
        Step::NoMatch
    } else if p + 1 < ts.len() && ts[(p + 1) as int].1 is Number {
        modifier_step(Modifier::Tone(ts[(p + 1) as int].1->Number_0), p + 2)
    } else if !(p + 1 < ts.len() && ts[(p + 1) as int].1 is Character) {
        Step::Failed(unexpected_at(ts, p + 1))
    } else {
        let c = ts[(p + 1) as int].1->Character_0;
        let q = p + 2;
        if c == 100 {
            params_step(ts, q, 2, |v: Seq<usize>| Modifier::Detune(v[0], v[1]))
        } else if c == 101 {
            params_step(ts, q, 4, |v: Seq<usize>| Modifier::Envelope(v[0], v[1], v[2], v[3]))
        } else if c == 104 {
            pcm_step(ts, q, |s: Seq<u8>| hex_pcm(s))
        } else if c == 110 {
            pcm_step(ts, q, |s: Seq<u8>| delta_pcm(s))
        } else if c == 112 {
            number_step(ts, q, |n: usize| Modifier::PCMTone(n))
        } else if c == 103 {
            number_step(ts, q, |n: usize| Modifier::Gate(n))
        } else if c == 118 {
            number_step(ts, q, |n: usize| Modifier::Volume(n))
        } else if c == 116 {
            number_step(ts, q, |n: usize| Modifier::Tune(n))
        } else if c == 102 {
            effects_rule(ts, q)
        } else {
            Step::Failed(PErr::UnexpectedToken(ts[(p + 1) as int]))
        }
    }
}

/// A letter that names an effect (`d` delay, `l` low-pass, `h` high-pass)
/// and its parameters.
pub open spec fn effects_rule(ts: Seq<(usize, Tok)>, q: nat) -> Step {
    if !(q < ts.len() && ts[q as int].1 is Character) {
        Step::Failed(unexpected_at(ts, q))
    } else {
        let c = ts[q as int].1->Character_0;
        if c == 100 {
            params_step(
                ts,
                q + 1,
                2,
                |v: Seq<usize>| Modifier::Effect(Effect::Delay { delay: v[0], feedback: v[1] }),
            )
        } else if c == 108 {
            params_step(
                ts,
                q + 1,
                1,
                |v: Seq<usize>| Modifier::Effect(Effect::LowPassFilter { cut_off: v[0] }),
            )
        } else if c == 104 {
            params_step(
                ts,
                q + 1,
                1,
                |v: Seq<usize>| Modifier::Effect(Effect::HighPassFilter { cut_off: v[0] }),
            )
        } else {
            Step::Failed(PErr::UnexpectedToken(ts[q as int]))
        }
    }
}

fn effects(stream: &mut RollbackableTokenStream) -> (r: Result<Option<Instruction>, ParseError>)
    requires
        old(stream).wf(),
    ensures
        final(stream).wf(),
        final(stream).same_input(old(stream)),
        outcome(r, final(stream).pos()) == effects_rule(old(stream).toks(), old(stream).pos()),
        r matches Ok(Some(_)) ==> final(stream).pos() > old(stream).pos(),
{
    let (effect_at, effect) = match stream.take_character() {
        Ok(x) => x,
        Err(e) => {
            return Err(e);
        },
    };
    if effect == 100 {
        match stream.comma_separated_n_numbers(2) {
            Ok(params) => {
                let delay = params[0];
                let feedback = params[1];
                Ok(
                    Some(
                        Instruction::ToneModifier(
                            ToneModifier::Effect(Effect::Delay { delay, feedback }),
                        ),
                    ),
                )
            },
            Err(e) => Err(e),
        }
    } else if effect == 108 {
        match stream.comma_separated_n_numbers(1) {
            Ok(params) => {
                let cut_off = params[0];
                Ok(
                    Some(
                        Instruction::ToneModifier(
                            ToneModifier::Effect(Effect::LowPassFilter { cut_off }),
                        ),
                    ),
                )
            },
            Err(e) => Err(e),
        }
    } else if effect == 104 {
        match stream.comma_separated_n_numbers(1) {
            Ok(params) => {
                let cut_off = params[0];
                Ok(
                    Some(
                        Instruction::ToneModifier(
                            ToneModifier::Effect(Effect::HighPassFilter { cut_off }),
                        ),
                    ),
                )
            },
            Err(e) => Err(e),
        }
    } else {
        Err(ParseError::unexpected_char(effect_at, effect))
    }
}

/// A tone modifier read by `tone`, or its error.
fn modifier_result(m: Result<ToneModifier, ParseError>) -> (r: Result<Option<Instruction>, ParseError>)
    ensures
        match m {
            Ok(x) => r == Ok::<_, ParseError>(Some(Instruction::ToneModifier(x))),
            Err(e) => r == Err::<Option<Instruction>, _>(e),
        },
{
    match m {
        Ok(x) => Ok(Some(Instruction::ToneModifier(x))),
        Err(e) => Err(e),
    }
}

pub fn tone(stream: &mut RollbackableTokenStream) -> (r: Result<Option<Instruction>, ParseError>)
    requires
        old(stream).wf(),
    ensures
        rule_result(r, *old(stream), *final(stream), tone_rule(old(stream).toks(), old(stream).pos())),
{
    if stream.expect_character(64).is_err() {
        return Ok(None);
    }
    match stream.take_number() {
        Ok((_, number)) => {
            return Ok(Some(Instruction::ToneModifier(ToneModifier::Tone(number))));
        },
        Err(_) => {},
    }
    let (inst_at, inst) = match stream.take_character() {
        Ok(x) => x,
        Err(e) => {
            return Err(e);
        },
    };
    if inst == 100 {
        modifier_result(
            match stream.comma_separated_n_numbers(2) {
                Ok(params) => Ok(ToneModifier::Detune(params[0], params[1])),
                Err(e) => Err(e),
            },
        )
    } else if inst == 101 {
        modifier_result(
            match stream.comma_separated_n_numbers(4) {
                Ok(params) => Ok(ToneModifier::Envelope(params[0], params[1], params[2], params[3])),
                Err(e) => Err(e),
            },
        )
    } else if inst == 104 {
        modifier_result(
            match stream.take_brace_string() {
                Ok((_, string)) => Ok(ToneModifier::DefinePCMTone(decode_hex_pcm(string))),
                Err(e) => Err(e),
            },
        )
    } else if inst == 110 {
        modifier_result(
            match stream.take_brace_string() {
                Ok((_, string)) => Ok(ToneModifier::DefinePCMTone(decode_delta_pcm(string))),
                Err(e) => Err(e),
            },
        )
    } else if inst == 112 {
        modifier_result(
            match stream.take_number() {
                Ok((_, n)) => Ok(ToneModifier::PCMTone(n)),
                Err(e) => Err(e),
            },
        )
    } else if inst == 103 {
        modifier_result(
            match stream.take_number() {
                Ok((_, n)) => Ok(ToneModifier::Gate(n)),
                Err(e) => Err(e),
            },
        )
    } else if inst == 118 {
        modifier_result(
            match stream.take_number() {
                Ok((_, n)) => Ok(ToneModifier::Volume(n)),
                Err(e) => Err(e),
            },
        )
    } else if inst == 116 {
        modifier_result(
            match stream.take_number() {
                Ok((_, n)) => Ok(ToneModifier::Tune(n)),
                Err(e) => Err(e),
            },
        )
    } else if inst == 102 {
        effects(stream)
    } else {
        Err(ParseError::unexpected_char(inst_at, inst))
    }
}


/// `groups` with `m` added to its last group.
pub open spec fn add_to_last(groups: Seq<Seq<Modifier>>, m: Modifier) -> Seq<Seq<Modifier>> {
    groups.update(groups.len() - 1, groups.last().push(m))
}

/// `@(`, then groups of tone modifiers separated by `,` or `|`, then `)`.
pub open spec fn synthesize_rule(ts: Seq<(usize, Tok)>, p: nat) -> Step {
    if char_at(ts, p, 64) && char_at(ts, p + 1, 40) {
        synthesize_body(ts, p + 2, seq![Seq::empty()])
    } else {
        Step::NoMatch
    }
}

/// The rest of a synthesized tone from `q` on, with `groups` read.
pub open spec fn synthesize_body(ts: Seq<(usize, Tok)>, q: nat, groups: Seq<Seq<Modifier>>) -> Step
    decreases ts.len() - q,
    via synthesize_body_decreases
{
    if char_at(ts, q, 41) {
        Step::Matched(Instr::Synthesize(groups), q + 1)
    } else if char_at(ts, q, 44) || char_at(ts, q, 124) {
        synthesize_body(ts, q + 1, groups.push(Seq::empty()))
    } else {
        match tone_rule(ts, q) {
            Step::Matched(Instr::ToneModifier(m), e) => synthesize_body(ts, e, add_to_last(groups, m)),
            Step::Failed(x) => Step::Failed(x),
            _ => Step::Failed(unexpected_at(ts, q)),
        }
    }
}

#[via_fn]
proof fn synthesize_body_decreases(ts: Seq<(usize, Tok)>, q: nat, groups: Seq<Seq<Modifier>>) {
    lemma_tone_bounds(ts, q);
}

pub fn synthesize(stream: &mut RollbackableTokenStream) -> (r: Result<Option<Instruction>, ParseError>)
    requires
        old(stream).wf(),
    ensures
        rule_result(
            r,
            *old(stream),
            *final(stream),
            synthesize_rule(old(stream).toks(), old(stream).pos()),
        ),
{
    let ghost ts = stream.toks();
    let ghost p0 = stream.pos();
    if stream.expect_character(64).is_err() || stream.expect_character(40).is_err() {
        return Ok(None);
    }
    let mut tones: Vec<Vec<ToneModifier>> = Vec::new();
    tones.push(Vec::new());
    assert(groups_model(tones@) =~~= seq![Seq::<Modifier>::empty()]);
    loop
        invariant
            stream.wf(),
            stream.same_input(old(stream)),
            ts == stream.toks(),
            ts == old(stream).toks(),
            p0 == old(stream).pos(),
            stream.pos() > p0,
            tones@.len() > 0,
            synthesize_rule(ts, p0) == synthesize_body(ts, stream.pos(), groups_model(tones@)),
        decreases ts.len() - stream.pos(),
    {
        proof {
            stream.lemma_bounds();
        }
        if stream.expect_character(41).is_ok() {
            return Ok(Some(Instruction::Synthesize(tones)));
        }
        if stream.expect_character(44).is_ok() || stream.expect_character(124).is_ok() {
            let ghost before = groups_model(tones@);
            tones.push(Vec::new());
            assert(groups_model(tones@) =~~= before.push(Seq::empty()));
        } else if !stream.peek_is_character(64) {
            return match stream.next() {
                Some(t) => Err(ParseError::unexpected(t)),
                None => Err(ParseError::UnexpectedEOF),
            };
        } else {
            match tone(stream) {
                Ok(Some(Instruction::ToneModifier(modifier))) => {
                    let ghost before = groups_model(tones@);
                    let mut last = tones.pop().unwrap();
                    last.push(modifier);
                    tones.push(last);
                    assert(groups_model(tones@) =~~= add_to_last(before, modifier.model()));
                },
                Ok(_) => {
                    return Err(ParseError::UnexpectedEOF);
                },
                Err(e) => {
                    return Err(e);
                },
            }
        }
    }
}


/// A tone modifier, when it is read, spans at least two tokens and ends
/// within the input.
pub proof fn lemma_tone_bounds(ts: Seq<(usize, Tok)>, p: nat)
    ensures
        tone_rule(ts, p) matches Step::Matched(_, e) ==> p + 2 <= e <= ts.len(),
{
    if char_at(ts, p, 64) && p + 1 < ts.len() {
        crate::parse::lemma_comma_numbers_bounds(ts, p + 2);
        crate::parse::lemma_comma_numbers_bounds(ts, p + 3);
    }
}

/// The rest of a synthesized tone, when it is read, ends after `q` and
/// within the input.
pub proof fn lemma_synthesize_bounds(ts: Seq<(usize, Tok)>, q: nat, groups: Seq<Seq<Modifier>>)
    ensures
        synthesize_body(ts, q, groups) matches Step::Matched(_, e) ==> q < e <= ts.len(),
    decreases ts.len() - q,
{
    if !char_at(ts, q, 41) {
        if char_at(ts, q, 44) || char_at(ts, q, 124) {
            lemma_synthesize_bounds(ts, q + 1, groups.push(Seq::empty()));
        } else if let Step::Matched(Instr::ToneModifier(m), e) = tone_rule(ts, q) {
            lemma_tone_bounds(ts, q);
            lemma_synthesize_bounds(ts, e, add_to_last(groups, m));
        }
    }
}

} // verus!
