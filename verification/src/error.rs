//! The error value shared by every parser, and how it is displayed.
use std::borrow::Cow;
use vstd::prelude::*;
use vstd::slice::{slice_subrange, slice_to_vec};
use vstd::std_specs::convert::FromSpecImpl;
use vstd::string::{to_string_from_display_ensures, StringSliceAdditionalSpecFns};
use vstd::utf8::valid_utf8;

use crate::buffer::{ByteSource, ReadBuffer};
use crate::utils::{decimal, hex_byte, push_decimal, push_hex_byte};

verus! {

/// Where in the input an error occurred, with the bytes around that place.
#[derive(Clone, Debug, Default)]
pub struct EtErrorContext {
    /// Offset of the fault from the start of the stream.
    pub byte: u64,
    /// Number of records that had been handed out before the fault.
    pub record: u64,
    /// Up to 32 bytes of the buffer around the fault.
    pub context: Vec<u8>,
    /// Index in `context` of the byte at which the fault lies.
    pub context_pos: usize,
}

/// An error raised while decoding a stream.
#[derive(Debug)]
pub struct EtError {
    /// A short description of the fault.
    pub msg: Cow<'static, str>,
    /// Position of the fault, where it is known.
    pub context: Option<EtErrorContext>,
    /// True when the only fault is that more bytes were needed.
    pub incomplete: bool,
}

/// The hexadecimal row of the display: every byte in upper-case base 16.
pub open spec fn hex_row(bytes: Seq<u8>) -> Seq<char>
    decreases bytes.len(),
{
    if bytes.len() == 0 {
        Seq::empty()
    } else {
        hex_row(bytes.drop_last()) + hex_byte(bytes.last())
    }
}

/// Two columns for one byte of the text row: a space and the character
/// itself where it is printable ASCII, two spaces otherwise.
pub open spec fn ascii_cell(b: u8) -> Seq<char> {
    if 31 < b && b < 127 {
        seq![' ', b as char]
    } else {
        seq![' ', ' ']
    }
}

/// The text row of the display, two columns for every byte.
pub open spec fn ascii_row(bytes: Seq<u8>) -> Seq<char>
    decreases bytes.len(),
{
    if bytes.len() == 0 {
        Seq::empty()
    } else {
        ascii_row(bytes.drop_last()) + ascii_cell(bytes.last())
    }
}

/// A run of `n` spaces.
pub open spec fn spaces(n: nat) -> Seq<char> {
    Seq::new(n, |i: int| ' ')
}

/// The marker `^^` under the byte at `pos`: two columns of indent for
/// every byte before it.
pub open spec fn caret_row(pos: nat) -> Seq<char> {
    spaces(2 * pos) + seq!['^', '^']
}

/// Everything the display shows for a context: the three rows and the byte
/// offset, each line closed by a line feed.
pub open spec fn context_text(bytes: Seq<u8>, pos: nat, byte: nat) -> Seq<char> {
    hex_row(bytes) + seq!['\n'] + ascii_row(bytes) + seq!['\n'] + caret_row(pos) + seq![' ']
        + decimal(byte) + seq!['\n']
}

/// The bytes of `window` that are kept around the cursor `consumed`: the 16
/// before it and the 16 from it on, as far as the window holds them. A
/// cursor at the very end of a window, 16 bytes or more into it, keeps
/// nothing.
pub open spec fn context_window(window: Seq<u8>, consumed: int) -> Seq<u8> {
    if consumed < 16 {
        if window.len() < consumed + 16 {
            window
        } else {
            window.take(consumed + 16)
        }
    } else if window.len() < consumed + 16 {
        if consumed < window.len() {
            window.skip(consumed - 16)
        } else {
            Seq::empty()
        }
    } else {
        window.subrange(consumed - 16, consumed + 16)
    }
}

/// The index of the cursor in `context_window(window, consumed)`.
pub open spec fn context_index(window: Seq<u8>, consumed: int) -> int {
    if consumed < 16 {
        consumed
    } else if window.len() < consumed + 16 && consumed >= window.len() {
        0
    } else {
        16
    }
}

impl EtErrorContext {
    /// The lines that this context adds to an error's display.
    pub open spec fn text(&self) -> Seq<char> {
        context_text(self.context@, self.context_pos as nat, self.byte as nat)
    }
}

impl EtError {
    /// The complete display of the error: the message on a line of its own,
    /// then the context where there is one.
    pub open spec fn text(&self) -> Seq<char> {
        self.msg@ + seq!['\n'] + match self.context {
            Some(c) => c.text(),
            None => Seq::empty(),
        }
    }

    /// Creates an error that displays `msg`.
    pub fn new(msg: &'static str) -> (e: Self)
        ensures
            e.msg@ == msg@,
            e.context is None,
            !e.incomplete,
    {
        EtError { msg: Cow::Borrowed(msg), context: None, incomplete: false }
    }

    /// Marks the error as one that more input may cure.
    pub fn incomplete(self) -> (e: Self)
        ensures
            e.incomplete,
            e.msg == self.msg,
            e.context == self.context,
    {
        let mut e = self;
        e.incomplete = true;
        e
    }

    /// Records where `buffer` stands: the offset of its cursor in the
    /// stream, the number of records consumed, and the bytes around the
    /// cursor.
    pub fn add_context<S: ByteSource>(self, buffer: &ReadBuffer<'_, S>) -> (e: Self)
        requires
            buffer.wf(),
        ensures
            e.msg == self.msg,
            e.incomplete == self.incomplete,
            e.context matches Some(c) && {
                &&& c.byte == buffer.position()
                &&& c.record == buffer.record_pos
                &&& c.context@ == context_window(buffer.window(), buffer.consumed as int)
                &&& c.context_pos == context_index(buffer.window(), buffer.consumed as int)
            },
    {
        let window = buffer.as_ref();
        let buf_len = window.len();
        let consumed = buffer.consumed;
        let (context, context_pos) = if consumed < 16 {
            if buf_len < consumed + 16 {
                (slice_to_vec(window), consumed)
            } else {
                (slice_to_vec(slice_subrange(window, 0, consumed + 16)), consumed)
            }
        } else if buf_len - consumed < 16 {
            if consumed < buf_len {
                (slice_to_vec(slice_subrange(window, consumed - 16, buf_len)), 16)
            } else {
                (Vec::new(), 0)
            }
        } else {
            (slice_to_vec(slice_subrange(window, consumed - 16, consumed + 16)), 16)
        };
        let mut e = self;
        e.context = Some(
            EtErrorContext {
                record: buffer.record_pos,
                byte: buffer.reader_pos + consumed as u64,
                context,
                context_pos,
            },
        );
        e
    }

    /// The message as a string slice.
    pub fn message(&self) -> (s: &str)
        ensures
            s@ == self.msg@,
    {
        match &self.msg {
            Cow::Borrowed(s) => s,
            Cow::Owned(s) => s.as_str(),
        }
    }

    /// Renders the error as text.
    pub fn to_string(&self) -> (s: String)
        ensures
            s@ == self.text(),
    {
        let mut out = self.message().to_owned();
        out.push('\n');
        let ghost head = out@;
        if let Some(c) = &self.context {
            let ghost start = out@;
            let mut i: usize = 0;
            while i < c.context.len()
                invariant
                    i <= c.context.len(),
                    out@ == start + hex_row(c.context@.take(i as int)),
                decreases c.context.len() - i,
            {
                proof {
                    assert(c.context@.take(i + 1).drop_last() == c.context@.take(i as int));
                }
                push_hex_byte(&mut out, c.context[i]);
                i += 1;
            }
            proof {
                assert(c.context@.take(i as int) == c.context@);
            }
            out.push('\n');
            let ghost start = out@;
            let mut i: usize = 0;
            while i < c.context.len()
                invariant
                    i <= c.context.len(),
                    out@ == start + ascii_row(c.context@.take(i as int)),
                decreases c.context.len() - i,
            {
                proof {
                    assert(c.context@.take(i + 1).drop_last() == c.context@.take(i as int));
                }
                let b = c.context[i];
                out.push(' ');
                if b > 31 && b < 127 {
                    out.push(b as char);
                } else {
                    out.push(' ');
                }
                i += 1;
            }
            proof {
                assert(c.context@.take(i as int) == c.context@);
            }
            out.push('\n');
            let ghost start = out@;
            let mut i: usize = 0;
            while i < c.context_pos
                invariant
                    i <= c.context_pos,
                    out@ == start + spaces((2 * i) as nat),
                decreases c.context_pos - i,
            {
                out.push(' ');
                out.push(' ');
                i += 1;
            }
            let ghost pad = out@;
            out.push('^');
            out.push('^');
            out.push(' ');
            push_decimal(&mut out, c.byte);
            out.push('\n');
            proof {
                assert(pad + seq!['^', '^'] == start + caret_row(c.context_pos as nat));
                assert(out@ == head + c.text());
            }
        }
        proof {
            assert(head == self.msg@ + seq!['\n']);
            assert(out@ == self.text());
        }
        out
    }
}

impl From<&'static str> for EtError {
    fn from(error: &'static str) -> (e: Self) {
        EtError { msg: Cow::Borrowed(error), context: None, incomplete: false }
    }
}

impl FromSpecImpl<&'static str> for EtError {
    open spec fn obeys_from_spec() -> bool {
        true
    }

    open spec fn from_spec(error: &'static str) -> Self {
        EtError { msg: Cow::Borrowed(error), context: None, incomplete: false }
    }
}

impl From<String> for EtError {
    fn from(msg: String) -> (e: Self) {
        EtError { msg: Cow::Owned(msg), context: None, incomplete: false }
    }
}

impl FromSpecImpl<String> for EtError {
    open spec fn obeys_from_spec() -> bool {
        true
    }

    open spec fn from_spec(msg: String) -> Self {
        EtError { msg: Cow::Owned(msg), context: None, incomplete: false }
    }
}

/// The error of `core::str::from_utf8`.
#[verifier::external_type_specification]
#[verifier::external_body]
pub struct ExUtf8Error(core::str::Utf8Error);

/// The error of `String::from_utf8`.
#[verifier::external_type_specification]
#[verifier::external_body]
pub struct ExFromUtf8Error(std::string::FromUtf8Error);

/// The error of parsing an integer from text.
#[verifier::external_type_specification]
#[verifier::external_body]
pub struct ExParseIntError(core::num::ParseIntError);

/// The error of parsing a number with a fraction from text.
#[verifier::external_type_specification]
#[verifier::external_body]
pub struct ExParseFloatError(core::num::ParseFloatError);

/// The error of reading from or writing to a stream.
#[verifier::external_type_specification]
#[verifier::external_body]
pub struct ExIoError(std::io::Error);

/// `core::str::from_utf8` accepts exactly the byte sequences that are valid
/// UTF-8, and hands back a string slice of the same bytes.
pub assume_specification<'a>[ core::str::from_utf8 ](v: &'a [u8]) -> (r: Result<
    &'a str,
    core::str::Utf8Error,
>)
    ensures
        r is Ok <==> valid_utf8(v@),
        r matches Ok(s) ==> s.spec_bytes() == v@,
;

impl From<core::str::Utf8Error> for EtError {
    /// The error's own text becomes the message.
    fn from(error: core::str::Utf8Error) -> (e: Self)
        ensures
            e.msg matches Cow::Owned(text) && to_string_from_display_ensures::<core::str::Utf8Error>(
                &error,
                text,
            ),
            e.context is None,
            !e.incomplete,
    {
        EtError { msg: Cow::Owned(error.to_string()), context: None, incomplete: false }
    }
}

impl FromSpecImpl<core::str::Utf8Error> for EtError {
    open spec fn obeys_from_spec() -> bool {
        false
    }

    open spec fn from_spec(error: core::str::Utf8Error) -> Self {
        arbitrary()
    }
}

impl From<std::string::FromUtf8Error> for EtError {
    /// The error's own text becomes the message.
    fn from(error: std::string::FromUtf8Error) -> (e: Self)
        ensures
            e.msg matches Cow::Owned(text) && to_string_from_display_ensures::<std::string::FromUtf8Error>(
                &error,
                text,
            ),
            e.context is None,
            !e.incomplete,
    {
        EtError { msg: Cow::Owned(error.to_string()), context: None, incomplete: false }
    }
}

impl FromSpecImpl<std::string::FromUtf8Error> for EtError {
    open spec fn obeys_from_spec() -> bool {
        false
    }

    open spec fn from_spec(error: std::string::FromUtf8Error) -> Self {
        arbitrary()
    }
}

impl From<core::num::ParseIntError> for EtError {
    /// The error's own text becomes the message.
    fn from(error: core::num::ParseIntError) -> (e: Self)
        ensures
            e.msg matches Cow::Owned(text) && to_string_from_display_ensures::<core::num::ParseIntError>(
                &error,
                text,
            ),
            e.context is None,
            !e.incomplete,
    {
        EtError { msg: Cow::Owned(error.to_string()), context: None, incomplete: false }
    }
}

impl FromSpecImpl<core::num::ParseIntError> for EtError {
    open spec fn obeys_from_spec() -> bool {
        false
    }

    open spec fn from_spec(error: core::num::ParseIntError) -> Self {
        arbitrary()
    }
}

impl From<core::num::ParseFloatError> for EtError {
    /// The error's own text becomes the message.
    fn from(error: core::num::ParseFloatError) -> (e: Self)
        ensures
            e.msg matches Cow::Owned(text) && to_string_from_display_ensures::<
                core::num::ParseFloatError,
            >(&error, text),
            e.context is None,
            !e.incomplete,
    {
        EtError { msg: Cow::Owned(error.to_string()), context: None, incomplete: false }
    }
}

impl FromSpecImpl<core::num::ParseFloatError> for EtError {
    open spec fn obeys_from_spec() -> bool {
        false
    }

    open spec fn from_spec(error: core::num::ParseFloatError) -> Self {
        arbitrary()
    }
}

impl From<std::io::Error> for EtError {
    /// The error's own text becomes the message.
    fn from(error: std::io::Error) -> (e: Self)
        ensures
            e.msg matches Cow::Owned(text) && to_string_from_display_ensures::<std::io::Error>(
                &error,
                text,
            ),
            e.context is None,
            !e.incomplete,
    {
        EtError { msg: Cow::Owned(error.to_string()), context: None, incomplete: false }
    }
}

impl FromSpecImpl<std::io::Error> for EtError {
    open spec fn obeys_from_spec() -> bool {
        false
    }

    open spec fn from_spec(error: std::io::Error) -> Self {
        arbitrary()
    }
}

/// Tells whether `bytes` are valid UTF-8, and clothes the fault in an
/// error where they are not.
pub fn check_utf8(bytes: &[u8]) -> (r: Result<(), EtError>)
    ensures
        r is Ok <==> valid_utf8(bytes@),
        r matches Err(e) ==> e.context is None && !e.incomplete,
{
    match core::str::from_utf8(bytes) {
        Ok(_) => Ok(()),
        Err(e) => Err(EtError::from(e)),
    }
}

} // verus!
