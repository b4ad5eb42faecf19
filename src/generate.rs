pub mod effects;
pub mod queue;
pub mod schedule;
pub mod tones;

use crate::parse::tone::{Modifier, ToneModifier};
use crate::parse::{groups_model, NoteLength};
use vstd::prelude::*;

verus! {

/// Where a tone's waveform comes from: a built-in waveform or a tone that
/// the track defined from samples, each by its index.
#[derive(Clone, Copy, Debug, PartialEq, Eq, Structural)]
pub enum ToneKind {
    Wave(usize),
    Pcm(usize),
}

/// The timbre of a voice, with the parameters in the unit the score writes:
/// `detune` is (voices, ratio in ten-thousandths), `envelope` is attack,
/// decay and release in hundredths of a second and sustain in percent,
/// `gate` is in milliseconds, `tune` in thousandths, `volume` in percent.
#[derive(Clone, Copy, Debug, PartialEq, Eq)]
pub struct Tone {
    pub tone: ToneKind,
    pub detune: (usize, usize),
    pub envelope: (usize, usize, usize, usize),
    pub gate: usize,
    pub tune: usize,
    pub volume: usize,
}

/// A fresh tone on built-in waveform `wave`: one voice, no envelope but a
/// full sustain, a gate of one millisecond, no tuning, full volume.
pub open spec fn default_tone(wave: usize) -> Tone {
    Tone {
        tone: ToneKind::Wave(wave),
        detune: (1, 0),
        envelope: (0, 0, 100, 0),
        gate: 1,
        tune: 1000,
        volume: 100,
    }
}

/// The tone `t` after modifier `m`, for a track with `waves` built-in
/// waveforms and `pcms` tones defined from samples. An index out of range
/// falls back to the first built-in waveform; defining a tone or inserting an
/// effect leaves the tone as it is.
pub open spec fn modified(t: Tone, m: Modifier, waves: usize, pcms: nat) -> Tone {
    match m {
        Modifier::Tone(n) => Tone {
            tone: ToneKind::Wave(if n < waves { n } else { 0 }),
            ..t
        },
        Modifier::Detune(n, r) => Tone { detune: (n, r), ..t },
        Modifier::Envelope(a, d, s, r) => Tone { envelope: (a, d, s, r), ..t },
        Modifier::PCMTone(n) => Tone {
            tone: if n < pcms { ToneKind::Pcm(n) } else { ToneKind::Wave(0) },
            ..t
        },
        Modifier::Gate(g) => Tone { gate: g, ..t },
        Modifier::Tune(x) => Tone { tune: x, ..t },
        Modifier::Volume(v) => Tone { volume: v, ..t },
        Modifier::DefinePCMTone(_) => t,
        Modifier::Effect(_) => t,
    }
}

impl Tone {
    pub fn new(wave: usize) -> (r: Self)
        ensures
            r == default_tone(wave),
    {
        Tone {
            tone: ToneKind::Wave(wave),
            detune: (1, 0),
            envelope: (0, 0, 100, 0),
            gate: 1,
            tune: 1000,
            volume: 100,
        }
    }

    /// Applies a modifier, for a track with `waves` built-in waveforms and
    /// `pcms` tones defined from samples.
    pub fn modify(&mut self, modifier: &ToneModifier, waves: usize, pcms: usize)
        ensures
            *final(self) == modified(*old(self), modifier.model(), waves, pcms as nat),
    {
        match modifier {
            ToneModifier::Tone(n) => {
                self.tone = ToneKind::Wave(
                    if *n < waves {
                        *n
                    } else {
                        0
                    },
                );
            },
            ToneModifier::Detune(n, r) => {
                self.detune = (*n, *r);
            },
            ToneModifier::Envelope(a, d, s, r) => {
                self.envelope = (*a, *d, *s, *r);
            },
            ToneModifier::PCMTone(n) => {
                self.tone = if *n < pcms {
                    ToneKind::Pcm(*n)
                } else {
                    ToneKind::Wave(0)
                };
            },
            ToneModifier::Gate(g) => {
                self.gate = *g;
            },
            ToneModifier::Tune(t) => {
                self.tune = *t;
            },
            ToneModifier::Volume(v) => {
                self.volume = *v;
            },
            ToneModifier::DefinePCMTone(_) => {},
            ToneModifier::Effect(_) => {},
        }
    }
}

/// How many tones the modifiers of a group define from samples.
pub open spec fn defines(g: Seq<Modifier>) -> nat
    decreases g.len(),
{
    if g.len() == 0 {
        0
    } else {
        defines(g.drop_last()) + if g.last() is DefinePCMTone {
            1nat
        } else {
            0nat
        }
    }
}

/// How many tones the groups before group `i` define from samples.
pub open spec fn defines_before(gs: Seq<Seq<Modifier>>, i: int) -> nat
    decreases i,
{
    if i <= 0 {
        0
    } else {
        defines_before(gs, i - 1) + defines(gs[i - 1])
    }
}

/// The tone of a group of a synthesized tone: a fresh tone on the first
/// built-in waveform with the group's modifiers applied in turn, while the
/// track holds `pcms` tones defined from samples plus those the group has
/// defined so far.
pub open spec fn group_tone(g: Seq<Modifier>, waves: usize, pcms: nat) -> Tone
    decreases g.len(),
{
    if g.len() == 0 {
        default_tone(0)
    } else {
        modified(
            group_tone(g.drop_last(), waves, pcms),
            g.last(),
            waves,
            pcms + defines(g.drop_last()),
        )
    }
}

/// Applies a modifier to every tone of a track.
pub fn modify_all(tones: &mut Vec<Tone>, modifier: &ToneModifier, waves: usize, pcms: usize)
    ensures
        final(tones)@.len() == old(tones)@.len(),
        forall|i: int|
            0 <= i < old(tones)@.len() ==> final(tones)@[i] == modified(
                #[trigger] old(tones)@[i],
                modifier.model(),
                waves,
                pcms as nat,
            ),
{
    let mut i: usize = 0;
    while i < tones.len()
        invariant
            i <= tones@.len(),
            tones@.len() == old(tones)@.len(),
            forall|k: int|
                0 <= k < i ==> tones@[k] == modified(
                    #[trigger] old(tones)@[k],
                    modifier.model(),
                    waves,
                    pcms as nat,
                ),
            forall|k: int| i <= k < tones@.len() ==> tones@[k] == old(tones)@[k],
        decreases tones@.len() - i,
    {
        let mut t = tones[i];
        t.modify(modifier, waves, pcms);
        tones.set(i, t);
        i = i + 1;
    }
}

/// The tones of a synthesized tone, one for each group, for a track with
/// `waves` built-in waveforms and `pcms` tones defined from samples.
/// Tones defined by a group count for the modifiers after them.
pub fn synthesize_tones(groups: &Vec<Vec<ToneModifier>>, waves: usize, pcms: usize) -> (r: Vec<
    Tone,
>)
    requires
        pcms as nat + defines_before(groups_model(groups@), groups@.len() as int) <= usize::MAX,
    ensures
        r@.len() == groups@.len(),
        forall|i: int|
            0 <= i < groups@.len() ==> #[trigger] r@[i] == group_tone(
                groups_model(groups@)[i],
                waves,
                pcms as nat + defines_before(groups_model(groups@), i),
            ),
{
    let ghost gs = groups_model(groups@);
    let mut tones: Vec<Tone> = Vec::new();
    let mut count: usize = pcms;
    let mut i: usize = 0;
    while i < groups.len()
        invariant
            gs == groups_model(groups@),
            i <= groups@.len(),
            tones@.len() == i,
            count == pcms as nat + defines_before(gs, i as int),
            pcms as nat + defines_before(gs, groups@.len() as int) <= usize::MAX,
            forall|k: int|
                0 <= k < i ==> #[trigger] tones@[k] == group_tone(
                    gs[k],
                    waves,
                    pcms as nat + defines_before(gs, k),
                ),
        decreases groups@.len() - i,
    {
        let group = &groups[i];
        let ghost g = gs[i as int];
        let ghost start = count as nat;
        let mut t = Tone::new(0);
        let mut j: usize = 0;
        proof {
            lemma_defines_before_grows(gs, i as int + 1, groups@.len() as int);
        }
        while j < group.len()
            invariant
                g == gs[i as int],
                g.len() == group@.len(),
                forall|k: int| 0 <= k < g.len() ==> g[k] == #[trigger] group@[k].model(),
                j <= group@.len(),
                start + defines(g) <= usize::MAX,
                count == start + defines(g.subrange(0, j as int)),
                t == group_tone(g.subrange(0, j as int), waves, start),
            decreases group@.len() - j,
        {
            let ghost sub = g.subrange(0, j as int);
            let ghost next = g.subrange(0, j as int + 1);
            assert(next.drop_last() =~= sub);
            proof {
                lemma_defines_prefix(g, j as int + 1);
            }
            t.modify(&group[j], waves, count);
            match &group[j] {
                ToneModifier::DefinePCMTone(_) => {
                    count = count + 1;
                },
                _ => {},
            }
            j = j + 1;
        }
        assert(g.subrange(0, j as int) =~= g);
        tones.push(t);
        i = i + 1;
    }
    tones
}

/// The defines of a prefix never exceed those of the whole group.
proof fn lemma_defines_prefix(g: Seq<Modifier>, j: int)
    requires
        0 <= j <= g.len(),
    ensures
        defines(g.subrange(0, j)) <= defines(g),
    decreases g.len() - j,
{
    if j < g.len() {
        lemma_defines_prefix(g, j + 1);
        assert(g.subrange(0, j + 1).drop_last() =~= g.subrange(0, j));
    } else {
        assert(g.subrange(0, j) =~= g);
    }
}

/// The defines before group `i` never exceed those before a later group.
proof fn lemma_defines_before_grows(gs: Seq<Seq<Modifier>>, i: int, j: int)
    requires
        0 <= i <= j,
    ensures
        defines_before(gs, i) <= defines_before(gs, j),
    decreases j - i,
{
    if i < j {
        lemma_defines_before_grows(gs, i, j - 1);
    }
}

/// One summand of a length in whole notes: the track's default length or
/// `1/n`, halved `h` times; `Zero` for a dot with nothing before it.
#[derive(Clone, Copy, Debug, PartialEq, Eq, Structural)]
pub enum LengthTerm {
    Zero,
    Default(usize),
    Fraction(usize, usize),
}

pub open spec fn halvings(t: LengthTerm) -> nat {
    match t {
        LengthTerm::Zero => 0,
        LengthTerm::Default(h) => h as nat,
        LengthTerm::Fraction(_, h) => h as nat,
    }
}

/// `t` halved once more.
pub open spec fn halved(t: LengthTerm) -> LengthTerm {
    match t {
        LengthTerm::Zero => LengthTerm::Zero,
        LengthTerm::Default(h) => LengthTerm::Default((h + 1) as usize),
        LengthTerm::Fraction(n, h) => LengthTerm::Fraction(n, (h + 1) as usize),
    }
}

/// The summands of a length from element `i` on, read left to right:
/// `DefaultLength` starts again from the default, `Dot` halves the summand
/// before it, `Length(n)` starts again from `1/n`.
pub open spec fn length_terms_from(length: Seq<NoteLength>, i: nat, last: LengthTerm) -> Seq<
    LengthTerm,
>
    decreases length.len() - i,
{
    if i >= length.len() {
        Seq::empty()
    } else {
        let t = match length[i as int] {
            NoteLength::DefaultLength => LengthTerm::Default(0),
            NoteLength::Dot => halved(last),
            NoteLength::Length(n) => LengthTerm::Fraction(n, 0),
        };
        seq![t] + length_terms_from(length, i + 1, t)
    }
}

/// The summands of a length; the note lasts their sum.
pub open spec fn length_terms(length: Seq<NoteLength>) -> Seq<LengthTerm> {
    length_terms_from(length, 0, LengthTerm::Zero)
}

pub fn note_length_terms(length: &Vec<NoteLength>) -> (r: Vec<LengthTerm>)
    ensures
        r@ == length_terms(length@),
{
    let mut terms: Vec<LengthTerm> = Vec::new();
    let mut last = LengthTerm::Zero;
    let mut i: usize = 0;
    while i < length.len()
        invariant
            i <= length@.len(),
            halvings(last) <= i,
            length_terms(length@) == terms@ + length_terms_from(length@, i as nat, last),
        decreases length@.len() - i,
    {
        let t = match length[i] {
            NoteLength::DefaultLength => LengthTerm::Default(0),
            NoteLength::Dot => match last {
                LengthTerm::Zero => LengthTerm::Zero,
                LengthTerm::Default(h) => LengthTerm::Default(h + 1),
                LengthTerm::Fraction(n, h) => LengthTerm::Fraction(n, h + 1),
            },
            NoteLength::Length(n) => LengthTerm::Fraction(n, 0),
        };
        let ghost before = terms@;
        terms.push(t);
        assert(before + length_terms_from(length@, i as nat, last) =~= terms@
            + length_terms_from(length@, (i + 1) as nat, t));
        last = t;
        i = i + 1;
    }
    assert(terms@ + Seq::<LengthTerm>::empty() =~= terms@);
    terms
}

/// The two bytes of `v`, least significant first.
pub open spec fn le16(v: nat) -> Seq<u8> {
    seq![(v % 256) as u8, ((v / 256) % 256) as u8]
}

/// The four bytes of `v`, least significant first.
pub open spec fn le32(v: nat) -> Seq<u8> {
    seq![
        (v % 256) as u8,
        ((v / 256) % 256) as u8,
        ((v / 65536) % 256) as u8,
        ((v / 16777216) % 256) as u8,
    ]
}

pub fn u16_to_bytes(value: u16) -> (r: Vec<u8>)
    ensures
        r@ == le16(value as nat),
{
    let mut r: Vec<u8> = Vec::new();
    r.push((value % 256) as u8);
    r.push((value / 256) as u8);
    assert(r@ =~= le16(value as nat));
    r
}

/// The two bytes of a sample in two's complement, least significant first.
pub fn i16_to_bytes(value: i16) -> (r: Vec<u8>)
    ensures
        r@ == le16(value as u16 as nat),
{
    u16_to_bytes(value as u16)
}

pub fn u32_to_bytes(value: u32) -> (r: Vec<u8>)
    ensures
        r@ == le32(value as nat),
{
    let mut r: Vec<u8> = Vec::new();
    r.push((value % 256) as u8);
    r.push(((value / 256) % 256) as u8);
    r.push(((value / 65536) % 256) as u8);
    r.push((value / 16777216) as u8);
    assert(r@ =~= le32(value as nat));
    r
}

/// The bytes of 16-bit samples, two per sample, least significant first.
pub open spec fn samples_bytes(s: Seq<i16>) -> Seq<u8>
    decreases s.len(),
{
    if s.len() == 0 {
        Seq::empty()
    } else {
        samples_bytes(s.drop_last()) + le16(s.last() as u16 as nat)
    }
}

/// The 44-byte header of a RIFF/WAVE file of 16-bit mono PCM at
/// `sample_rate`, with `data_len` bytes of samples.
pub open spec fn riff_header(sample_rate: nat, data_len: nat) -> Seq<u8> {
    seq![82u8, 73, 70, 70] + le32(36 + data_len) + seq![87u8, 65, 86, 69]
        + seq![102u8, 109, 116, 32] + le32(16) + le16(1) + le16(1) + le32(sample_rate) + le32(
        sample_rate * 2,
    ) + le16(2) + le16(16) + seq![100u8, 97, 116, 97] + le32(data_len)
}

/// Appends `tail` to `out`.
fn append_bytes(out: &mut Vec<u8>, tail: Vec<u8>)
    ensures
        final(out)@ == old(out)@ + tail@,
{
    let mut tail = tail;
    out.append(&mut tail);
}

/// A RIFF/WAVE file of 16-bit mono PCM at `sample_rate` holding `samples`.
pub fn riff_from_samples(sample_rate: u32, samples: &Vec<i16>) -> (r: Vec<u8>)
    requires
        sample_rate as nat * 2 <= u32::MAX,
        36 + 2 * samples@.len() <= u32::MAX,
    ensures
        r@ == riff_header(sample_rate as nat, 2 * samples@.len()) + samples_bytes(samples@),
{
    let data_len: u32 = (2 * samples.len()) as u32;
    let mut riff: Vec<u8> = Vec::new();
    riff.push(82);
    riff.push(73);
    riff.push(70);
    riff.push(70);
    append_bytes(&mut riff, u32_to_bytes(36 + data_len));
    riff.push(87);
    riff.push(65);
    riff.push(86);
    riff.push(69);
    riff.push(102);
    riff.push(109);
    riff.push(116);
    riff.push(32);
    append_bytes(&mut riff, u32_to_bytes(16));
    append_bytes(&mut riff, u16_to_bytes(1));
    append_bytes(&mut riff, u16_to_bytes(1));
    append_bytes(&mut riff, u32_to_bytes(sample_rate));
    append_bytes(&mut riff, u32_to_bytes(sample_rate * 2));
    append_bytes(&mut riff, u16_to_bytes(2));
    append_bytes(&mut riff, u16_to_bytes(16));
    riff.push(100);
    riff.push(97);
    riff.push(116);
    riff.push(97);
    append_bytes(&mut riff, u32_to_bytes(data_len));
    assert(riff@ =~= riff_header(sample_rate as nat, 2 * samples@.len()));
    let ghost header = riff@;
    let mut i: usize = 0;
    while i < samples.len()
        invariant
            i <= samples@.len(),
            riff@ == header + samples_bytes(samples@.subrange(0, i as int)),
        decreases samples@.len() - i,
    {
        let ghost prefix = samples@.subrange(0, i as int);
        append_bytes(&mut riff, i16_to_bytes(samples[i]));
        i = i + 1;
        assert(samples@.subrange(0, i as int).drop_last() =~= prefix);
        assert(riff@ =~= header + samples_bytes(samples@.subrange(0, i as int)));
    }
    assert(samples@.subrange(0, i as int) =~= samples@);
    riff
}

} // verus!
