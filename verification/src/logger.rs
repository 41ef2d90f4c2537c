//! Dual-sink diagnostic logger: every logged line goes to the
//! framebuffer console and, independently, to a serial text stream
//! as an ANSI color escape, the message, and CRLF.

use vstd::prelude::*;

use crate::graphical::{
    content_nonempty, init_framebuffer, init_post, rendered_line, start_row, write_post, Console,
    Framebuffer,
};

verus! {

/// The closed set of colors the console knows how to render.
#[derive(Clone, Copy, PartialEq, Eq, Structural, Debug)]
pub enum Color {
    White,
    Red,
    Green,
    Blue,
    Yellow,
}

/// The ANSI escape sequence that selects `c` on a serial terminal:
/// a reset followed by a bright foreground color.
pub open spec fn escape_sequence_spec(c: Color) -> Seq<char> {
    match c {
        Color::White => "\x1b[m\x1b[97m"@,
        Color::Red => "\x1b[m\x1b[91m"@,
        Color::Green => "\x1b[m\x1b[92m"@,
        Color::Blue => "\x1b[m\x1b[94m"@,
        Color::Yellow => "\x1b[m\x1b[93m"@,
    }
}

impl Color {
    /// The serial escape sequence for this color.
    pub fn escape_sequence(&self) -> (r: &'static str)
        ensures
            r@ == escape_sequence_spec(*self),
    {
        match self {
            Color::White => "\x1b[m\x1b[97m",
            Color::Red => "\x1b[m\x1b[91m",
            Color::Green => "\x1b[m\x1b[92m",
            Color::Blue => "\x1b[m\x1b[94m",
            Color::Yellow => "\x1b[m\x1b[93m",
        }
    }
}

/// The dual-sink logger: the framebuffer console and the text stream
/// bound for the serial transmitter. `serial` models exactly the
/// characters handed to the transmitter, in order.
pub struct Logger {
    pub console: Console,
    pub serial: String,
}

/// One serial line as `log` emits it: the color's escape sequence,
/// the message, then CRLF.
pub open spec fn serial_line(message: Seq<char>, color: Color) -> Seq<char> {
    escape_sequence_spec(color) + message + "\r\n"@
}

/// One-time setup of the logger, required before any `log` call:
/// initializes the framebuffer console (drawing the corner test
/// squares when a framebuffer is present) and an empty serial stream.
pub fn init(framebuffer: Option<Framebuffer>) -> (lg: Logger)
    requires
        framebuffer matches Some(fb) ==> fb.wf(),
    ensures
        init_post(framebuffer, lg.console),
        lg.serial@.len() == 0,
{
    Logger { console: init_framebuffer(framebuffer), serial: String::new() }
}

/// Logs one line to both sinks, unconditionally and independently:
/// renders `message` on the framebuffer console (a no-op without a
/// framebuffer) and appends the ANSI-colorized line to the serial
/// stream. Neither sink ever suppresses the other.
pub fn log(logger: &mut Logger, message: &str, color: Color)
    requires
        old(logger).console.wf(),
    ensures
        final(logger).console.wf(),
        write_post(old(logger).console, final(logger).console),
        old(logger).console.present && content_nonempty(old(logger).console.framebuffer)
            ==> rendered_line(
            old(logger).console.framebuffer,
            final(logger).console.framebuffer,
            message@,
            color,
            start_row(old(logger).console.line_y),
        ),
        final(logger).serial@ == old(logger).serial@ + serial_line(message@, color),
{
    logger.console.write(message, color);
    logger.serial.append(color.escape_sequence());
    logger.serial.append(message);
    logger.serial.append("\r\n");
    proof {
        assert(logger.serial@ =~= old(logger).serial@ + serial_line(message@, color));
    }
}

} // verus!
