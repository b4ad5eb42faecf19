use composer::parse::note::{chord, length, note, parse_length, rest};
use composer::parse::octave::octave;
use composer::parse::repeat::repeat;
use composer::parse::tempo::tempo;
use composer::parse::tone::{synthesize, tone, Effect, ToneModifier};
use composer::parse::volume::volume;
use composer::parse::{parse, Instruction, NoteLength, ParseError, RollbackableTokenStream};
use composer::parse::Instruction::{Chord, Note, Octave, Repeat, Rest, Tempo};
use composer::parse::NoteLength::{DefaultLength, Dot, Length};
use composer::tokenize::{tokenize, TokenKind};

fn single_parse<T>(parser: fn(&mut RollbackableTokenStream) -> T, mml: &str) -> T {
    let tokens = tokenize(mml).unwrap();
    let mut stream = RollbackableTokenStream::new(&tokens);
    parser(&mut stream)
}

fn first_track_example() -> Vec<Instruction> {
    vec![
        Tempo(150),
        Note(12, vec![DefaultLength]),
        Note(14, vec![Length(8)]),
        Rest(vec![Length(4), Length(8), Dot, Dot]),
        Octave(1),
        Note(3, vec![Length(4)]),
    ]
}

#[test]
fn lib_test_parse() {
    assert_eq!(
        parse(&tokenize("T150ab8r4&8..<c4").unwrap()).unwrap(),
        vec![first_track_example()]
    );
}

#[test]
fn parse_test_parse() {
    assert_eq!(
        parse(&tokenize("T150ab8r4&8..<c4;(cde)4@2[c4d4]2").unwrap()).unwrap(),
        vec![
            first_track_example(),
            vec![
                Instruction::Chord(vec![3, 5, 7], vec![Length(4)]),
                Instruction::ToneModifier(ToneModifier::Tone(2)),
                Instruction::Repeat(
                    vec![
                        Instruction::Note(3, vec![Length(4)]),
                        Instruction::Note(5, vec![Length(4)])
                    ],
                    2
                )
            ]
        ]
    );
}

fn check_parse_length() {
    assert_eq!(
        single_parse(parse_length, "123..&45&A13.&2"),
        vec![Length(123), Dot, Dot, Length(45), DefaultLength]
    );
    assert_eq!(single_parse(parse_length, "C"), vec![DefaultLength]);
}

#[test]
fn parse_test_parse_length() {
    check_parse_length();
}

#[test]
fn lib_test_parse_length() {
    check_parse_length();
}

fn check_note() {
    assert_eq!(
        single_parse(note, "C2.C4"),
        Ok(Some(Note(3, vec![Length(2), Dot])))
    );
    assert_eq!(
        single_parse(note, "E++C"),
        Ok(Some(Note(9, vec![DefaultLength])))
    );
    assert_eq!(single_parse(note, "H"), Ok(None));
}

#[test]
fn parse_test_note() {
    check_note();
}

#[test]
fn lib_test_note() {
    check_note();
}

fn check_rest() {
    assert_eq!(
        single_parse(rest, "R4.R8"),
        Ok(Some(Rest(vec![Length(4), Dot])))
    );
    assert_eq!(single_parse(rest, "C4"), Ok(None));
}

#[test]
fn parse_test_rest() {
    check_rest();
}

#[test]
fn lib_test_rest() {
    check_rest();
}

#[test]
fn test_length() {
    assert_eq!(
        single_parse(length, "L8..L9"),
        Ok(Some(Instruction::Length(vec![Length(8), Dot, Dot])))
    );
    assert_eq!(single_parse(length, "DEF"), Ok(None));
}

fn check_octave() {
    assert_eq!(single_parse(octave, "<"), Ok(Some(Octave(1))));
    assert_eq!(single_parse(octave, ">"), Ok(Some(Octave(-1))));
    assert_eq!(single_parse(octave, "!"), Ok(None));
}

#[test]
fn parse_test_octave() {
    check_octave();
}

#[test]
fn lib_test_octave() {
    check_octave();
}

fn check_tempo() {
    assert_eq!(single_parse(tempo, "T120"), Ok(Some(Tempo(120))));
    assert!(single_parse(tempo, "TA").is_err());
    assert!(single_parse(tempo, "T").is_err());
    assert!(single_parse(tempo, "A").unwrap().is_none());
}

#[test]
fn parse_test_tempo() {
    check_tempo();
}

#[test]
fn lib_test_tempo() {
    check_tempo();
}

/// The volume an instruction sets, as a ratio.
fn volume_ratio(r: Result<Option<Instruction>, ParseError>) -> f32 {
    match r {
        Ok(Some(Instruction::Volume(v))) => v as f32 / 100.0,
        other => panic!("not a volume: {:?}", other),
    }
}

#[test]
fn parse_test_volume() {
    assert_eq!(volume_ratio(single_parse(volume, "V200")), 2.0);
    assert!(single_parse(volume, "VB").is_err());
    assert!(single_parse(volume, "V").is_err());
    assert!(single_parse(volume, "C").unwrap().is_none());
}

#[test]
fn lib_test_volume() {
    assert_eq!(single_parse(volume, "V120"), Ok(Some(Instruction::Volume(120))));
    assert!(single_parse(volume, "VB").is_err());
    assert!(single_parse(volume, "V").is_err());
    assert!(single_parse(volume, "C").unwrap().is_none());
}

fn modifier(r: Result<Option<Instruction>, ParseError>) -> ToneModifier {
    match r {
        Ok(Some(Instruction::ToneModifier(m))) => m,
        other => panic!("not a tone modifier: {:?}", other),
    }
}

#[test]
fn parse_test_tone() {
    assert_eq!(
        single_parse(tone, "@2"),
        Ok(Some(Instruction::ToneModifier(ToneModifier::Tone(2))))
    );
    match modifier(single_parse(tone, "@D2,10000")) {
        ToneModifier::Detune(n, ratio) => {
            assert_eq!(n, 2);
            assert_eq!(ratio as f32 / 10000.0, 1.0);
        }
        other => panic!("not a detune: {:?}", other),
    }
    match modifier(single_parse(tone, "@E0,100,100,200")) {
        ToneModifier::Envelope(a, d, s, r) => {
            let scaled: Vec<f32> = [a, d, s, r].iter().map(|&x| x as f32 / 100.0).collect();
            assert_eq!(scaled, vec![0.0, 1.0, 1.0, 2.0]);
        }
        other => panic!("not an envelope: {:?}", other),
    }
    match modifier(single_parse(tone, "@H{08F}")) {
        ToneModifier::DefinePCMTone(pcm) => {
            let amplitudes: Vec<f32> = pcm.iter().map(|&x| x as f32 / 128.0).collect();
            assert_eq!(amplitudes, vec![-1.0, 0.0, 7.0 / 8.0]);
        }
        other => panic!("not a PCM tone: {:?}", other),
    }
    assert!(single_parse(tone, "@D3").is_err());
    assert!(single_parse(tone, "@D1,10,100").is_err());
    assert!(single_parse(tone, "@E1,10,100").is_err());
    assert!(single_parse(tone, "@E0,1,2,3,4").is_err());
    assert!(single_parse(tone, "@M").is_err());
    assert!(single_parse(tone, "@").is_err());
    assert!(single_parse(tone, "0").unwrap().is_none());
}

#[test]
fn test_chord() {
    assert_eq!(
        single_parse(chord, "(CEG<C->C+)2"),
        Ok(Some(Chord(vec![3, 7, 10, 14, 4], vec![Length(2)])))
    );
    assert!(single_parse(chord, "(CE").is_err());
    assert!(single_parse(chord, "(CEH)").is_err());
    assert_eq!(single_parse(chord, "C4"), Ok(None));
}

#[test]
fn test_repeat() {
    assert_eq!(
        single_parse(repeat, "[CDE]4"),
        Ok(Some(Repeat(
            vec![
                Note(3, vec![DefaultLength]),
                Note(5, vec![DefaultLength]),
                Note(7, vec![DefaultLength])
            ],
            4
        )))
    );
    assert!(single_parse(repeat, "[CDE]").is_err());
    assert!(single_parse(repeat, "[CD;E]").is_err());
    assert!(single_parse(repeat, "[!?]").is_err());
    assert!(single_parse(repeat, "[CDE").is_err());
    assert!(single_parse(repeat, "94").unwrap().is_none());
}

#[test]
fn repeat_block_through_parse() {
    assert_eq!(
        parse(&tokenize("[CDE]4").unwrap()),
        Ok(vec![vec![Repeat(
            vec![
                Note(3, vec![DefaultLength]),
                Note(5, vec![DefaultLength]),
                Note(7, vec![DefaultLength])
            ],
            4
        )]])
    );
    assert_eq!(parse(&tokenize("[CDE]").unwrap()), Err(ParseError::UnexpectedEOF));
    assert_eq!(parse(&tokenize("[CDE").unwrap()), Err(ParseError::UnexpectedEOF));
    assert_eq!(
        parse(&tokenize("CDE]4").unwrap()),
        Err(ParseError::UnexpectedToken((4, TokenKind::Character(b']'))))
    );
}

#[test]
fn nested_repeat_blocks() {
    assert_eq!(
        parse(&tokenize("[c[d]3]2").unwrap()),
        Ok(vec![vec![Repeat(
            vec![
                Note(3, vec![DefaultLength]),
                Repeat(vec![Note(5, vec![DefaultLength])], 3)
            ],
            2
        )]])
    );
}

#[test]
fn parse_error_values() {
    assert_eq!(
        single_parse(tone, "@D3"),
        Err(ParseError::WrongParamsNumber(3, 2, 1))
    );
    assert_eq!(
        single_parse(tone, "@D1,10,100"),
        Err(ParseError::WrongParamsNumber(3, 2, 3))
    );
    assert_eq!(
        single_parse(chord, "(CEH)"),
        Err(ParseError::UnexpectedToken((4, TokenKind::Character(b'h'))))
    );
    assert_eq!(
        single_parse(repeat, "[CD;E]"),
        Err(ParseError::UnexpectedToken((4, TokenKind::Character(b';'))))
    );
    assert_eq!(
        single_parse(repeat, "[!?]"),
        Err(ParseError::UnexpectedToken((2, TokenKind::Character(b'!'))))
    );
    assert_eq!(single_parse(tempo, "T"), Err(ParseError::UnexpectedEOF));
    assert_eq!(
        parse(&tokenize("c ? d").unwrap()),
        Err(ParseError::UnexpectedToken((3, TokenKind::Character(b'?'))))
    );
}

#[test]
fn parse_error_messages() {
    assert_eq!(
        ParseError::UnexpectedToken((4, TokenKind::Character(b'h'))).message(),
        "Unexpected token h at 4"
    );
    assert_eq!(
        ParseError::WrongParamsNumber(3, 2, 1).message(),
        "1 parameter(s) are provided at 3, expected 2 parameter(s)"
    );
    assert_eq!(ParseError::UnexpectedEOF.message(), "Unexpected EOF");
}

#[test]
fn effects_and_tone_parameters() {
    assert_eq!(
        modifier(single_parse(tone, "@FD250,500")),
        ToneModifier::Effect(Effect::Delay { delay: 250, feedback: 500 })
    );
    assert_eq!(
        modifier(single_parse(tone, "@FL800")),
        ToneModifier::Effect(Effect::LowPassFilter { cut_off: 800 })
    );
    assert_eq!(
        modifier(single_parse(tone, "@FH200")),
        ToneModifier::Effect(Effect::HighPassFilter { cut_off: 200 })
    );
    assert_eq!(
        single_parse(tone, "@FX1"),
        Err(ParseError::UnexpectedToken((3, TokenKind::Character(b'x'))))
    );
    assert_eq!(modifier(single_parse(tone, "@G30")), ToneModifier::Gate(30));
    assert_eq!(modifier(single_parse(tone, "@T1010")), ToneModifier::Tune(1010));
    assert_eq!(modifier(single_parse(tone, "@V50")), ToneModifier::Volume(50));
    assert_eq!(modifier(single_parse(tone, "@P1")), ToneModifier::PCMTone(1));
}

#[test]
fn delta_coded_pcm_tone() {
    // 'A' is 000000: six steps down; '/' is 111111: six steps up.
    assert_eq!(
        modifier(single_parse(tone, "@N{A/}")),
        ToneModifier::DefinePCMTone(vec![-1, -2, -3, -4, -5, -6, -5, -4, -3, -2, -1, 0])
    );
    // 'g' is 100000 (index 32).
    assert_eq!(
        modifier(single_parse(tone, "@N{g}")),
        ToneModifier::DefinePCMTone(vec![1, 0, -1, -2, -3, -4])
    );
}

#[test]
fn delta_accumulator_wraps() {
    // 22 characters of '/' give 132 upward steps: past 127 the level wraps to -128.
    let text = format!("@N{{{}}}", "/".repeat(22));
    match modifier(single_parse(tone, &text)) {
        ToneModifier::DefinePCMTone(pcm) => {
            assert_eq!(pcm.len(), 132);
            assert_eq!(pcm[126], 127);
            assert_eq!(pcm[127], -128);
            assert_eq!(pcm[131], -124);
        }
        other => panic!("not a PCM tone: {:?}", other),
    }
}

#[test]
fn synthesize_groups() {
    assert_eq!(
        single_parse(synthesize, "@(@1@V50,@2|@E0,0,50,10)"),
        Ok(Some(Instruction::Synthesize(vec![
            vec![ToneModifier::Tone(1), ToneModifier::Volume(50)],
            vec![ToneModifier::Tone(2)],
            vec![ToneModifier::Envelope(0, 0, 50, 10)],
        ])))
    );
    assert_eq!(
        parse(&tokenize("@(@1)c").unwrap()),
        Ok(vec![vec![
            Instruction::Synthesize(vec![vec![ToneModifier::Tone(1)]]),
            Instruction::Note(3, vec![NoteLength::DefaultLength]),
        ]])
    );
    assert_eq!(single_parse(synthesize, "@(@1"), Err(ParseError::UnexpectedEOF));
    assert_eq!(
        single_parse(synthesize, "@(c)"),
        Err(ParseError::UnexpectedToken((3, TokenKind::Character(b'c'))))
    );
    assert_eq!(single_parse(synthesize, "@1"), Ok(None));
}

#[test]
fn stream_rollback_and_accept() {
    let tokens = tokenize("t120c").unwrap();
    let mut stream = RollbackableTokenStream::new(&tokens);
    assert_eq!(stream.take_character(), Ok((1, b't')));
    assert_eq!(stream.cursor(), 1);
    stream.rollback();
    assert_eq!(stream.cursor(), 0);
    assert_eq!(stream.take_character(), Ok((1, b't')));
    assert_eq!(stream.take_number(), Ok((2, 120)));
    stream.accept();
    assert_eq!(stream.cursor(), 0);
    stream.rollback();
    assert_eq!(stream.expect_character(b'c'), Ok(()));
    assert!(stream.empty());
    assert_eq!(stream.take_number(), Err(ParseError::UnexpectedEOF));
}

#[test]
fn comma_separated_numbers_keep_a_trailing_comma() {
    let tokens = tokenize("1,2,3,c").unwrap();
    let mut stream = RollbackableTokenStream::new(&tokens);
    assert_eq!(stream.comma_separated_numbers(), vec![1, 2, 3]);
    assert_eq!(stream.cursor(), 6);
}
