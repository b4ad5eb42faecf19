//! A compiler for a music macro language: a tokenizer and a backtracking
//! parser that turn score text into tracks of instructions, the integer side
//! of the tone model and of note lengths, and the pieces of the renderer that
//! need no floating point (the schedule that starts and retires a track's
//! notes and effects, the delay line, the noise generator, the RIFF/WAVE
//! container).
pub mod tokenize;
pub mod parse;
pub mod generate;
