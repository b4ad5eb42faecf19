use composer::generate::effects::FixedLengthQueue;
use composer::generate::queue::TimedQueue;
use composer::generate::schedule::TrackEvents;
use composer::generate::tones::RNG;
use composer::generate::{
    i16_to_bytes, modify_all, note_length_terms, riff_from_samples, synthesize_tones,
    u16_to_bytes, u32_to_bytes, LengthTerm, Tone, ToneKind,
};
use composer::parse::NoteLength::{DefaultLength, Dot, Length};
use composer::parse::tone::{Effect, ToneModifier};

fn key(t: f32) -> u64 {
    t.to_bits() as u64
}

#[test]
fn test_note_queue() {
    let mut queue = TimedQueue::new(vec![(key(3.0), 'a'), (key(1.0), 'b'), (key(2.0), 'c')]);
    assert_eq!(queue.next_before(key(0.5)), None);
    assert_eq!(queue.next_before(key(1.0)), Some('b'));
    assert_eq!(queue.next_before(key(1.0)), None);
    assert_eq!(queue.next_before(key(2.0)), Some('c'));
    assert_eq!(queue.next_before(key(2.0)), None);
    assert_eq!(queue.next_before(key(3.0)), Some('a'));
    assert_eq!(queue.next_before(key(3.0)), None);
    assert_eq!(queue.next_before(key(10.0)), None);
    assert!(queue.is_empty());
}

#[test]
fn queue_drains_each_item_once_in_order() {
    let mut queue = TimedQueue::new(vec![(3, 30), (1, 10), (2, 20)]);
    let mut out = Vec::new();
    for t in [0, 1, 2, 3, 10] {
        while let Some(x) = queue.next_before(t) {
            out.push((t, x));
        }
    }
    assert_eq!(out, vec![(1, 10), (2, 20), (3, 30)]);
}

#[test]
fn queue_keeps_insertion_order_for_equal_keys() {
    let mut queue = TimedQueue::new(vec![(5, 'x'), (5, 'y'), (1, 'z'), (5, 'w')]);
    assert_eq!(queue.len(), 4);
    assert_eq!(queue.get(3), (1, &'z'));
    let mut out = Vec::new();
    while let Some(x) = queue.next_before(5) {
        out.push(x);
    }
    assert_eq!(out, vec!['z', 'x', 'y', 'w']);
}

#[test]
fn fixed_length_queue_is_a_ring() {
    let mut q = FixedLengthQueue::new(3, 0);
    assert_eq!(q.push(1), 0);
    assert_eq!(q.push(2), 0);
    assert_eq!(q.push(3), 0);
    assert_eq!(q.push(4), 1);
    assert_eq!(q.peek(), 2);
    assert_eq!(q.modify(|x| x * 10 + 1), 21);
    assert_eq!(q.push(5), 3);
    assert_eq!(q.push(6), 4);
    assert_eq!(q.push(7), 21);
}

#[test]
fn xorshift_sequence() {
    let mut rng = RNG::new(12345);
    assert_eq!(rng.next(), 13289605635609);
    assert_eq!(rng.next(), 11245129090807876197);
}

#[test]
fn little_endian_bytes() {
    assert_eq!(u16_to_bytes(0x1234), vec![0x34, 0x12]);
    assert_eq!(u32_to_bytes(0x12345678), vec![0x78, 0x56, 0x34, 0x12]);
    assert_eq!(i16_to_bytes(-2), vec![0xfe, 0xff]);
    assert_eq!(i16_to_bytes(32767), vec![0xff, 0x7f]);
}

#[test]
fn riff_container() {
    let riff = riff_from_samples(8000, &vec![0, -1, 256]);
    let mut expected: Vec<u8> = Vec::new();
    expected.extend_from_slice(b"RIFF");
    expected.extend_from_slice(&(36u32 + 6).to_le_bytes());
    expected.extend_from_slice(b"WAVE");
    expected.extend_from_slice(b"fmt ");
    expected.extend_from_slice(&16u32.to_le_bytes());
    expected.extend_from_slice(&1u16.to_le_bytes());
    expected.extend_from_slice(&1u16.to_le_bytes());
    expected.extend_from_slice(&8000u32.to_le_bytes());
    expected.extend_from_slice(&16000u32.to_le_bytes());
    expected.extend_from_slice(&2u16.to_le_bytes());
    expected.extend_from_slice(&16u16.to_le_bytes());
    expected.extend_from_slice(b"data");
    expected.extend_from_slice(&6u32.to_le_bytes());
    expected.extend_from_slice(&[0, 0, 0xff, 0xff, 0, 1]);
    assert_eq!(riff, expected);
    assert_eq!(riff.len(), 50);
}

#[test]
fn tone_modifiers_and_fallbacks() {
    let mut tone = Tone::new(0);
    assert_eq!(tone.detune, (1, 0));
    assert_eq!(tone.envelope, (0, 0, 100, 0));
    assert_eq!(tone.gate, 1);
    tone.modify(&ToneModifier::Tone(5), 7, 0);
    assert_eq!(tone.tone, ToneKind::Wave(5));
    tone.modify(&ToneModifier::Tone(99), 7, 0);
    assert_eq!(tone.tone, ToneKind::Wave(0));
    tone.modify(&ToneModifier::PCMTone(1), 7, 2);
    assert_eq!(tone.tone, ToneKind::Pcm(1));
    tone.modify(&ToneModifier::PCMTone(2), 7, 2);
    assert_eq!(tone.tone, ToneKind::Wave(0));
    tone.modify(&ToneModifier::Detune(3, 20), 7, 2);
    tone.modify(&ToneModifier::Envelope(1, 2, 30, 4), 7, 2);
    tone.modify(&ToneModifier::Gate(10), 7, 2);
    tone.modify(&ToneModifier::Tune(990), 7, 2);
    tone.modify(&ToneModifier::Volume(80), 7, 2);
    let before = tone;
    tone.modify(&ToneModifier::Effect(Effect::LowPassFilter { cut_off: 100 }), 7, 2);
    tone.modify(&ToneModifier::DefinePCMTone(vec![1, 2]), 7, 2);
    assert_eq!(tone, before);
    assert_eq!(tone.detune, (3, 20));
    assert_eq!(tone.envelope, (1, 2, 30, 4));
    assert_eq!((tone.gate, tone.tune, tone.volume), (10, 990, 80));
}

/// The sum of a length's summands, in whole notes.
fn length_value(terms: &[LengthTerm], default: f64) -> f64 {
    terms
        .iter()
        .map(|t| match *t {
            LengthTerm::Zero => 0.0,
            LengthTerm::Default(h) => default / 2f64.powi(h as i32),
            LengthTerm::Fraction(n, h) => 1.0 / n as f64 / 2f64.powi(h as i32),
        })
        .sum()
}

#[test]
fn test_note_length_to_float() {
    let terms = note_length_terms(&vec![DefaultLength, Dot, Dot, Length(2), Dot]);
    assert_eq!(
        terms,
        vec![
            LengthTerm::Default(0),
            LengthTerm::Default(1),
            LengthTerm::Default(2),
            LengthTerm::Fraction(2, 0),
            LengthTerm::Fraction(2, 1),
        ]
    );
    assert_eq!(
        length_value(&terms, 1. / 4.),
        1. / 4. + 1. / 8. + 1. / 16. + 1. / 2. + 1. / 4.
    );
}

#[test]
fn leading_dot_adds_nothing() {
    let terms = note_length_terms(&vec![Dot, Length(4), Dot]);
    assert_eq!(
        terms,
        vec![LengthTerm::Zero, LengthTerm::Fraction(4, 0), LengthTerm::Fraction(4, 1)]
    );
    assert_eq!(length_value(&terms, 0.5), 0.375);
}

fn ringing_names(events: &TrackEvents<&'static str, char>) -> Vec<&'static str> {
    (0..events.ringing_len()).map(|i| *events.ringing_note(i)).collect()
}

#[test]
fn track_events_start_and_retire_notes() {
    // (start, (end, note)) and (activation, effect)
    let mut events = TrackEvents::new(
        vec![(2, (5, "b")), (0, (3, "a")), (4, (4, "empty")), (6, (9, "c"))],
        vec![(4, 'y'), (0, 'x'), (4, 'z')],
    );
    assert_eq!(events.advance(0), vec!['x']);
    assert_eq!(ringing_names(&events), vec!["a"]);
    assert_eq!(events.advance(2), Vec::<char>::new());
    assert_eq!(ringing_names(&events), vec!["a", "b"]);
    assert_eq!(events.advance(3), Vec::<char>::new());
    assert_eq!(ringing_names(&events), vec!["b"]);
    // a note that ends when it starts never rings
    assert_eq!(events.advance(4), vec!['y', 'z']);
    assert_eq!(ringing_names(&events), vec!["b"]);
    assert_eq!(events.advance(5), Vec::<char>::new());
    assert!(ringing_names(&events).is_empty());
    assert!(!events.is_done());
    assert_eq!(events.advance(100), Vec::<char>::new());
    assert!(events.is_done());
}

#[test]
fn modifier_reaches_every_tone() {
    let mut tones = vec![Tone::new(0), Tone::new(3)];
    modify_all(&mut tones, &ToneModifier::Gate(25), 7, 0);
    assert_eq!(tones[0].gate, 25);
    assert_eq!(tones[1].gate, 25);
    assert_eq!(tones[1].tone, ToneKind::Wave(3));
    modify_all(&mut tones, &ToneModifier::PCMTone(0), 7, 0);
    assert_eq!(tones[0].tone, ToneKind::Wave(0));
    assert_eq!(tones[1].tone, ToneKind::Wave(0));
}

#[test]
fn synthesized_tones_see_tones_defined_before_them() {
    let groups = vec![
        vec![ToneModifier::DefinePCMTone(vec![1]), ToneModifier::PCMTone(0)],
        vec![ToneModifier::PCMTone(1), ToneModifier::Volume(50)],
        vec![],
    ];
    let tones = synthesize_tones(&groups, 7, 0);
    assert_eq!(tones.len(), 3);
    assert_eq!(tones[0].tone, ToneKind::Pcm(0));
    assert_eq!(tones[1].tone, ToneKind::Wave(0));
    assert_eq!(tones[1].volume, 50);
    assert_eq!(tones[2], Tone::new(0));
    let tones = synthesize_tones(&groups, 7, 2);
    assert_eq!(tones[1].tone, ToneKind::Pcm(1));
}
