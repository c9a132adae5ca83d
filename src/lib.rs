//! Sample-generation engine of a keyboard-played synthesizer, in fixed point.
//!
//! Signal values are `i64` millionths (`fixed::ONE` is 1.0) and times are
//! `i64` microseconds, so one second is also `fixed::ONE`. Arithmetic on
//! signals saturates at the range of `i64`.

pub mod fixed;
pub mod waves;
pub mod envelope;
pub mod input;
pub mod instrument;

pub use fixed::ONE;
pub use waves::{NullWave, IdentityWave, ConstantWave, SinWave, SquareWave, TriWave, RandomWave};
pub use waves::{WaveGenerator, LinearTransform, Oscillator, Randomize};
pub use envelope::Envelope;
pub use input::{KeyCode, KeyEvent, KeyEventKind, KeyboardBuffer, KeyboardBufferEvent};
pub use instrument::Instrument;
