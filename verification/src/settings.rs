//! The configuration surface consumed by the interpreter.

use vstd::prelude::*;

verus! {

/// What the interpreter does when it meets an opcode it does not recognize.
#[derive(Clone, Copy, Debug, PartialEq, Eq, Structural)]
pub enum InvalidOpBehaviour {
    /// Reverse direction and advance once, continuing execution.
    Reflect,
    /// Stop and surface the error.
    Halt,
    /// Advance once without reversing, continuing execution.
    Ignore,
}

/// Interpreter options.  The history entries pair an enable flag with the
/// display color used by an embedding front end; the color has no effect on
/// interpretation.
#[derive(Clone, Copy, Debug)]
pub struct Settings {
    pub pos_history: (bool, [u8; 3]),
    pub get_history: (bool, [u8; 3]),
    pub put_history: (bool, [u8; 3]),
    pub skip_spaces: bool,
    pub render_unicode: bool,
    pub invalid_operation_behaviour: InvalidOpBehaviour,
}

impl Default for Settings {
    /// Position and put tracking on, get tracking off, spaces executed
    /// one by one, non-ASCII cells rendered, invalid opcodes halting.
    fn default() -> (r: Self)
        ensures
            r.pos_history == (true, [128u8, 0u8, 128u8]),
            r.get_history == (false, [255u8, 0u8, 0u8]),
            r.put_history == (true, [0u8, 255u8, 0u8]),
            r.skip_spaces == false,
            r.render_unicode == true,
            r.invalid_operation_behaviour is Halt,
    {
        Settings {
            pos_history: (true, [128, 0, 128]),
            get_history: (false, [255, 0, 0]),
            put_history: (true, [0, 255, 0]),
            skip_spaces: false,
            render_unicode: true,
            invalid_operation_behaviour: InvalidOpBehaviour::Halt,
        }
    }
}

} // verus!
