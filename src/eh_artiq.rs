//! The exception record that crosses from the kernel core to the host, and
//! the bounded message buffer it carries.
use vstd::prelude::*;
use vstd::string::StringSliceAdditionalSpecFns;
use vstd::utf8::{decode_utf8, encode_utf8, valid_utf8};

verus! {

/// Size of the inline message storage of a [`StringBuffer`].
pub const STRING_BUFFER_CAPACITY: usize = 128;

/// Relies on `core::str::from_utf8`: it accepts exactly the well-formed UTF-8
/// byte strings and then returns a string slice over those same bytes.
#[verifier::external_body]
fn str_from_utf8(b: &[u8]) -> (r: Option<&str>)
    ensures
        r is Some <==> valid_utf8(b@),
        r is Some ==> r->Some_0.spec_bytes() == b@,
{
    core::str::from_utf8(b).ok()
}

/// The four bytes of `v`, least significant first.
pub open spec fn le32(v: u32) -> Seq<u8> {
    seq![v as u8, (v >> 8u32) as u8, (v >> 16u32) as u8, (v >> 24u32) as u8]
}

/// The value of four bytes given least significant first.
pub open spec fn le32_value(b0: u8, b1: u8, b2: u8, b3: u8) -> u32 {
    (b0 as u32) | ((b1 as u32) << 8u32) | ((b2 as u32) << 16u32) | ((b3 as u32) << 24u32)
}

proof fn lemma_le32_round_trip(v: u32)
    ensures
        le32_value(v as u8, (v >> 8u32) as u8, (v >> 16u32) as u8, (v >> 24u32) as u8) == v,
{
    assert(((v as u8) as u32) | ((((v >> 8u32) as u8) as u32) << 8u32) | ((((v >> 16u32) as u8)
        as u32) << 16u32) | ((((v >> 24u32) as u8) as u32) << 24u32) == v) by (bit_vector);
}

/// A message of at most [`STRING_BUFFER_CAPACITY`] bytes held inline, or,
/// when `pos` lies past the capacity, a key into the host's message table
/// stored in the first four bytes.
#[derive(Copy, Clone)]
pub struct StringBuffer {
    pub pos: usize,
    pub buf: [u8; 128],
}

impl StringBuffer {
    /// Whether the buffer names a host-resident message.
    pub open spec fn host(&self) -> bool {
        self.pos > STRING_BUFFER_CAPACITY
    }

    /// The on-device message bytes.
    pub open spec fn text(&self) -> Seq<u8> {
        self.buf@.subrange(0, self.pos as int)
    }

    /// The host message key packed into the first four bytes.
    pub open spec fn key(&self) -> u32 {
        le32_value(self.buf@[0], self.buf@[1], self.buf@[2], self.buf@[3])
    }

    /// The bytes of the text that `as_str` shows.
    pub open spec fn shown(&self) -> Seq<u8> {
        if self.host() {
            encode_utf8("<host string>"@)
        } else if valid_utf8(self.text()) {
            self.text()
        } else {
            encode_utf8("<invalid UTF-8>"@)
        }
    }

    /// Appends as much of `s` as fits; the rest is dropped without notice.
    /// A buffer that names a host message is left as it is.
    pub fn copy_str(&mut self, s: &str)
        ensures
            old(self).host() ==> *final(self) == *old(self),
            !old(self).host() ==> ({
                let n = vstd::math::min(
                    s.spec_bytes().len() as int,
                    STRING_BUFFER_CAPACITY - old(self).pos,
                );
                &&& final(self).pos == old(self).pos + n
                &&& final(self).buf@ == old(self).buf@.subrange(0, old(self).pos as int)
                    + s.spec_bytes().subrange(0, n) + old(self).buf@.subrange(
                    old(self).pos + n,
                    STRING_BUFFER_CAPACITY as int,
                )
            }),
    {
        if self.pos > STRING_BUFFER_CAPACITY {
            return ;
        }
        let bytes = s.as_bytes();
        let room = STRING_BUFFER_CAPACITY - self.pos;
        let len = if bytes.len() < room {
            bytes.len()
        } else {
            room
        };
        let start = self.pos;
        let ghost before = self.buf@;
        let mut i: usize = 0;
        while i < len
            invariant
                start == old(self).pos,
                start + len <= STRING_BUFFER_CAPACITY,
                len <= bytes@.len(),
                bytes@ == s.spec_bytes(),
                before == old(self).buf@,
                self.pos == start,
                i <= len,
                self.buf@.len() == STRING_BUFFER_CAPACITY,
                self.buf@ == before.subrange(0, start as int) + bytes@.subrange(0, i as int)
                    + before.subrange(start + i, STRING_BUFFER_CAPACITY as int),
            decreases len - i,
        {
            self.buf[start + i] = bytes[i];
            i = i + 1;
            assert(self.buf@ =~= before.subrange(0, start as int) + bytes@.subrange(0, i as int)
                + before.subrange(start + i, STRING_BUFFER_CAPACITY as int));
        }
        self.pos = start + len;
    }

    /// The on-device message bytes.
    pub fn as_bytes(&self) -> (r: &[u8])
        requires
            !self.host(),
        ensures
            r@ == self.text(),
    {
        vstd::slice::slice_subrange(self.buf.as_slice(), 0, self.pos)
    }

    /// The on-device message as text; a fixed placeholder for a host message
    /// or for bytes that are not UTF-8.
    pub fn as_str(&self) -> (r: &str)
        ensures
            self.host() ==> r@ == "<host string>"@,
            !self.host() && valid_utf8(self.text()) ==> r.spec_bytes() == self.text(),
            !self.host() && !valid_utf8(self.text()) ==> r@ == "<invalid UTF-8>"@,
            r.spec_bytes() == self.shown(),
            !self.host() && valid_utf8(self.text()) ==> r@ == decode_utf8(self.text()),
    {
        broadcast use vstd::utf8::encode_utf8_decode_utf8;

        if self.pos > STRING_BUFFER_CAPACITY {
            "<host string>"
        } else {
            match str_from_utf8(self.as_bytes()) {
                Some(s) => s,
                None => "<invalid UTF-8>",
            }
        }
    }

    /// An empty on-device message.
    pub fn new() -> (r: StringBuffer)
        ensures
            r.pos == 0,
            r.buf@ == Seq::new(STRING_BUFFER_CAPACITY as nat, |i: int| 0u8),
    {
        let r = StringBuffer { buf: [0; 128], pos: 0 };
        assert(r.buf@ =~= Seq::new(STRING_BUFFER_CAPACITY as nat, |i: int| 0u8));
        r
    }

    /// An on-device message holding as much of `s` as fits.
    pub fn from_str(s: &str) -> (r: StringBuffer)
        ensures
            !r.host(),
            r.pos == vstd::math::min(s.spec_bytes().len() as int, STRING_BUFFER_CAPACITY as int),
            r.text() == s.spec_bytes().subrange(
                0,
                vstd::math::min(s.spec_bytes().len() as int, STRING_BUFFER_CAPACITY as int),
            ),
            forall|i: int| r.pos <= i < STRING_BUFFER_CAPACITY ==> r.buf@[i] == 0u8,
    {
        let mut result = StringBuffer::new();
        result.copy_str(s);
        assert(result.text() =~= s.spec_bytes().subrange(
            0,
            vstd::math::min(s.spec_bytes().len() as int, STRING_BUFFER_CAPACITY as int),
        ));
        result
    }

    /// Empties the buffer and zeroes its storage.
    pub fn clear(&mut self)
        ensures
            final(self).pos == 0,
            final(self).buf@ == Seq::new(STRING_BUFFER_CAPACITY as nat, |i: int| 0u8),
    {
        self.pos = 0;
        let mut i: usize = 0;
        while i < STRING_BUFFER_CAPACITY
            invariant
                i <= STRING_BUFFER_CAPACITY,
                self.buf@.len() == STRING_BUFFER_CAPACITY,
                self.pos == 0,
                forall|j: int| 0 <= j < i ==> self.buf@[j] == 0u8,
            decreases STRING_BUFFER_CAPACITY - i,
        {
            self.buf[i] = 0;
            i = i + 1;
        }
        assert(self.buf@ =~= Seq::new(STRING_BUFFER_CAPACITY as nat, |i: int| 0u8));
    }

    /// A buffer naming the host message `message_id`.
    pub fn from_host(message_id: u32) -> (r: StringBuffer)
        ensures
            r.host(),
            r.pos == usize::MAX,
            r.key() == message_id,
            r.buf@.subrange(0, 4) == le32(message_id),
            forall|i: int| 4 <= i < STRING_BUFFER_CAPACITY ==> r.buf@[i] == 0u8,
    {
        let mut result = StringBuffer { buf: [0; 128], pos: usize::MAX };
        result.buf[0] = message_id as u8;
        result.buf[1] = (message_id >> 8u32) as u8;
        result.buf[2] = (message_id >> 16u32) as u8;
        result.buf[3] = (message_id >> 24u32) as u8;
        proof {
            lemma_le32_round_trip(message_id);
        }
        assert(result.buf@.subrange(0, 4) =~= le32(message_id));
        result
    }

    /// Whether the buffer names a host-resident message.
    pub fn is_host(&self) -> (r: bool)
        ensures
            r == self.host(),
    {
        self.pos > STRING_BUFFER_CAPACITY
    }

    /// The host message key packed into the first four bytes.
    pub fn host_key(&self) -> (r: u32)
        ensures
            r == self.key(),
    {
        (self.buf[0] as u32) | ((self.buf[1] as u32) << 8u32) | ((self.buf[2] as u32) << 16u32)
            | ((self.buf[3] as u32) << 24u32)
    }
}

/// Text that is either carried on the device or known to the host only, by
/// a key into its string table.
pub enum ExceptionStr {
    Inline(String),
    Host(u32),
}

/// One exception raised inside a kernel: its identity, where it was raised
/// and its message.
pub struct Exception {
    pub id: u32,
    pub file: ExceptionStr,
    pub line: u32,
    pub column: u32,
    pub function: ExceptionStr,
    pub message: StringBuffer,
}

/// The text of `s`, or a fixed placeholder where it lives on the host.
pub fn exception_str(s: &ExceptionStr) -> (r: &str)
    ensures
        match s {
            ExceptionStr::Host(_) => r@ == "<host string>"@,
            ExceptionStr::Inline(t) => r@ == t@,
        },
{
    match s {
        ExceptionStr::Host(_) => "<host string>",
        ExceptionStr::Inline(t) => t.as_str(),
    }
}

/// Relies on `String::push_str`: the text of `string` is appended.
pub assume_specification[ String::push_str ](s: &mut String, string: &str)
    ensures
        final(s)@ == old(s)@ + string@,
;

/// The decimal digit `d`.
pub open spec fn digit(d: nat) -> char {
    seq!['0', '1', '2', '3', '4', '5', '6', '7', '8', '9'][d as int]
}

/// `n` written in decimal, without sign or leading zeros.
pub open spec fn decimal(n: nat) -> Seq<char>
    decreases n,
{
    if n < 10 {
        seq![digit(n)]
    } else {
        decimal(n / 10).push(digit(n % 10))
    }
}

/// Relies on the `Display` of `u32` as used by `format!`: decimal digits
/// with no sign, padding or leading zeros.
#[verifier::external_body]
fn decimal_string(n: u32) -> (r: String)
    ensures
        r@ == decimal(n as nat),
{
    format!("{}", n)
}

fn push_decimal(out: &mut String, n: u32)
    ensures
        final(out)@ == old(out)@ + decimal(n as nat),
{
    let d = decimal_string(n);
    out.push_str(d.as_str());
}

/// The text shown for a file or function name.
pub open spec fn name_text(s: &ExceptionStr) -> Seq<char> {
    match s {
        ExceptionStr::Host(_) => "<host string>"@,
        ExceptionStr::Inline(t) => t@,
    }
}

/// The text shown for a message: a host message by the four bytes of its
/// key, an on-device one by its text.
pub open spec fn message_text(m: &StringBuffer) -> Seq<char> {
    if m.host() {
        "["@ + decimal(m.buf@[0] as nat) + ", "@ + decimal(m.buf@[1] as nat) + ", "@ + decimal(
            m.buf@[2] as nat,
        ) + ", "@ + decimal(m.buf@[3] as nat) + "]"@
    } else if valid_utf8(m.text()) {
        decode_utf8(m.text())
    } else {
        "<invalid UTF-8>"@
    }
}

impl Exception {
    /// The one-line description of the exception used in diagnostics.
    pub open spec fn description(&self) -> Seq<char> {
        "Exception "@ + decimal(self.id as nat) + " from "@ + name_text(&self.function) + " in "@
            + name_text(&self.file) + ":"@ + decimal(self.line as nat) + ":"@ + decimal(
            self.column as nat,
        ) + ", message: "@ + message_text(&self.message)
    }

    /// Describes the exception: identity, function, place and message.
    pub fn describe(&self) -> (r: String)
        ensures
            r@ == self.description(),
    {
        let mut out = String::new();
        out.push_str("Exception ");
        push_decimal(&mut out, self.id);
        out.push_str(" from ");
        out.push_str(exception_str(&self.function));
        out.push_str(" in ");
        out.push_str(exception_str(&self.file));
        out.push_str(":");
        push_decimal(&mut out, self.line);
        out.push_str(":");
        push_decimal(&mut out, self.column);
        out.push_str(", message: ");
        if self.message.is_host() {
            out.push_str("[");
            push_decimal(&mut out, self.message.buf[0] as u32);
            out.push_str(", ");
            push_decimal(&mut out, self.message.buf[1] as u32);
            out.push_str(", ");
            push_decimal(&mut out, self.message.buf[2] as u32);
            out.push_str(", ");
            push_decimal(&mut out, self.message.buf[3] as u32);
            out.push_str("]");
        } else {
            out.push_str(self.message.as_str());
        }
        assert(out@ =~= self.description());
        out
    }
}

/// Stack state recorded for one exception, for rebuilding the call stack
/// on the host.
#[derive(Copy, Clone, Debug, Default)]
pub struct StackPointerBacktrace {
    pub stack_pointer: usize,
    pub initial_backtrace_size: usize,
    pub current_backtrace_size: usize,
}

/// Text that fits reads back unchanged from a buffer built from it.
pub proof fn lemma_from_str_as_str(s: &str, b: StringBuffer)
    requires
        s.spec_bytes().len() <= STRING_BUFFER_CAPACITY,
        !b.host(),
        b.text() == s.spec_bytes().subrange(
            0,
            vstd::math::min(s.spec_bytes().len() as int, STRING_BUFFER_CAPACITY as int),
        ),
    ensures
        b.shown() == s.spec_bytes(),
{
    vstd::utf8::encode_utf8_valid_utf8(s@);
    assert(s.spec_bytes().subrange(0, s.spec_bytes().len() as int) =~= s.spec_bytes());
}

} // verus!
