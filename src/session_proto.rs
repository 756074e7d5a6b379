//! The framed request/reply protocol spoken with the host over a byte stream.
use vstd::prelude::*;
use vstd::string::StringSliceAdditionalSpecFns;
use vstd::utf8::{encode_utf8, valid_utf8};
use std::collections::BTreeMap;
use crate::wire::{
    be32, be32_at, prefixed, write_u8, write_u32, write_all, write_bytes, write_string, read_u32,
    lemma_be32_at,
};
use crate::eh_artiq::{Exception, ExceptionStr, StackPointerBacktrace, StringBuffer};

verus! {

/// The byte repeated four times to mark the start of every message.
pub const SYNC_BYTE: u8 = 0x5a;

/// Length of the greeting a host sends on a fresh connection.
pub const MAGIC_LEN: usize = 14;

/// Stands in the length field of a string that lives on the host; its key follows.
pub const HOST_STRING: u32 = 0xffff_ffff;

/// A failure of the underlying byte stream.
#[derive(Debug, PartialEq, Eq, Structural, Clone, Copy)]
pub enum IoError {
    /// The stream ended before the message did.
    UnexpectedEnd,
}

#[derive(Debug, PartialEq, Eq, Structural, Clone, Copy)]
pub enum Error {
    WrongMagic,
    UnknownPacket(u8),
    Io(IoError),
}

impl From<IoError> for Error {
    fn from(value: IoError) -> Error {
        Error::Io(value)
    }
}

impl vstd::std_specs::convert::FromSpecImpl<IoError> for Error {
    open spec fn obeys_from_spec() -> bool {
        true
    }

    open spec fn from_spec(v: IoError) -> Error {
        Error::Io(v)
    }
}

#[derive(Debug)]
pub enum Request {
    SystemInfo,
    LoadKernel(Vec<u8>),
    RunKernel,
    RpcReply { tag: Vec<u8> },
    RpcException { id: u32, message: u32, file: u32, line: u32, column: u32, function: u32 },
    UploadSubkernel { id: u32, destination: u8, kernel: Vec<u8> },
}

pub enum Reply {
    SystemInfo { ident: String, finished_cleanly: bool },
    LoadCompleted,
    LoadFailed(String),
    KernelFinished { async_errors: u8 },
    KernelStartupFailed,
    KernelException {
        exceptions: Vec<Option<Exception>>,
        stack_pointers: Vec<StackPointerBacktrace>,
        backtrace: Vec<(usize, usize)>,
        async_errors: u8,
    },
    RpcRequest { is_async: bool },
    ClockFailure,
}

pub open spec fn sync_marker() -> Seq<u8> {
    seq![SYNC_BYTE, SYNC_BYTE, SYNC_BYTE, SYNC_BYTE]
}

/// `ARTIQ coredev` followed by a newline.
pub open spec fn magic() -> Seq<u8> {
    seq![65u8, 82, 84, 73, 81, 32, 99, 111, 114, 101, 100, 101, 118, 10]
}

/// The four bytes before position `p` of `s` form a sync marker.
pub open spec fn sync_at(s: Seq<u8>, p: int) -> bool {
    &&& 4 <= p <= s.len()
    &&& s[p - 4] == SYNC_BYTE
    &&& s[p - 3] == SYNC_BYTE
    &&& s[p - 2] == SYNC_BYTE
    &&& s[p - 1] == SYNC_BYTE
}

/// `p` is the end of the first sync marker in `s`.
pub open spec fn first_sync(s: Seq<u8>, p: int) -> bool {
    sync_at(s, p) && forall|q: int| 4 <= q < p ==> !sync_at(s, q)
}

/// Where the first sync marker of `s` ends, if `s` holds one.
pub open spec fn sync_end(s: Seq<u8>) -> Option<int> {
    if exists|p: int| first_sync(s, p) {
        Some(choose|p: int| first_sync(s, p))
    } else {
        None
    }
}

pub proof fn lemma_first_sync_unique(s: Seq<u8>, p: int, q: int)
    requires
        first_sync(s, p),
        first_sync(s, q),
    ensures
        p == q,
{
}

pub proof fn lemma_sync_end(s: Seq<u8>, p: int)
    requires
        first_sync(s, p),
    ensures
        sync_end(s) == Some(p),
{
    let c = choose|p: int| first_sync(s, p);
    lemma_first_sync_unique(s, p, c);
}

pub open spec fn known_request_tag(t: u8) -> bool {
    t == 3 || t == 5 || t == 6 || t == 7 || t == 8 || t == 9
}

/// Where the request whose tag stands at `p` of `s` ends; past the end of
/// `s` where the stream is cut short.
pub open spec fn request_end(s: Seq<u8>, p: int) -> int {
    let t = s[p];
    if t == 5 || t == 7 {
        if p + 5 <= s.len() {
            p + 5 + be32_at(s, p + 1)
        } else {
            p + 5
        }
    } else if t == 8 {
        p + 25
    } else if t == 9 {
        if p + 10 <= s.len() {
            p + 10 + be32_at(s, p + 6)
        } else {
            p + 10
        }
    } else {
        p + 1
    }
}

/// The bytes of a request after its sync marker: tag, then fields.
pub open spec fn request_bytes(r: &Request) -> Seq<u8> {
    match r {
        Request::SystemInfo => seq![3u8],
        Request::LoadKernel(b) => seq![5u8] + prefixed(b@),
        Request::RunKernel => seq![6u8],
        Request::RpcReply { tag } => seq![7u8] + prefixed(tag@),
        Request::RpcException { id, message, file, line, column, function } => seq![8u8] + be32(
            *id,
        ) + be32(*message) + be32(*file) + be32(*line) + be32(*column) + be32(*function),
        Request::UploadSubkernel { id, destination, kernel } => seq![9u8] + be32(*id) + seq![
            *destination,
        ] + prefixed(kernel@),
    }
}

/// What reading one request from the front of `s` yields: the request is
/// given by its bytes, with the position where it ends.
pub open spec fn read_outcome(s: Seq<u8>, r: Result<(Request, usize), Error>) -> bool {
    match sync_end(s) {
        None => r == Err::<(Request, usize), Error>(Error::Io(IoError::UnexpectedEnd)),
        Some(p) => if p >= s.len() {
            r == Err::<(Request, usize), Error>(Error::Io(IoError::UnexpectedEnd))
        } else if !known_request_tag(s[p]) {
            r == Err::<(Request, usize), Error>(Error::UnknownPacket(s[p]))
        } else if request_end(s, p) > s.len() {
            r == Err::<(Request, usize), Error>(Error::Io(IoError::UnexpectedEnd))
        } else {
            &&& r is Ok
            &&& r->Ok_0.1 == request_end(s, p)
            &&& request_bytes(&r->Ok_0.0) == s.subrange(p, request_end(s, p))
        },
    }
}

/// The wire form of file and function names.
pub open spec fn exception_str_bytes(s: &ExceptionStr) -> Seq<u8> {
    match s {
        ExceptionStr::Host(k) => be32(HOST_STRING) + be32(*k),
        ExceptionStr::Inline(t) => prefixed(encode_utf8(t@)),
    }
}

/// The wire form of an exception message.
pub open spec fn message_bytes(m: &StringBuffer) -> Seq<u8> {
    if m.host() {
        be32(HOST_STRING) + be32(m.key())
    } else if valid_utf8(m.text()) {
        prefixed(m.text())
    } else {
        prefixed(encode_utf8("<invalid UTF-8>"@))
    }
}

pub open spec fn exception_bytes(e: &Exception) -> Seq<u8> {
    be32(e.id) + message_bytes(&e.message) + exception_str_bytes(&e.file) + be32(e.line) + be32(
        e.column,
    ) + exception_str_bytes(&e.function)
}

pub open spec fn exceptions_bytes(s: Seq<Option<Exception>>) -> Seq<u8>
    decreases s.len(),
{
    if s.len() == 0 {
        seq![]
    } else {
        exceptions_bytes(s.drop_last()) + match s.last() {
            Some(e) => exception_bytes(&e),
            None => seq![],
        }
    }
}

pub open spec fn stack_pointers_bytes(s: Seq<StackPointerBacktrace>) -> Seq<u8>
    decreases s.len(),
{
    if s.len() == 0 {
        seq![]
    } else {
        stack_pointers_bytes(s.drop_last()) + be32(s.last().stack_pointer as u32) + be32(
            s.last().initial_backtrace_size as u32,
        ) + be32(s.last().current_backtrace_size as u32)
    }
}

pub open spec fn backtrace_bytes(s: Seq<(usize, usize)>) -> Seq<u8>
    decreases s.len(),
{
    if s.len() == 0 {
        seq![]
    } else {
        backtrace_bytes(s.drop_last()) + be32(s.last().0 as u32) + be32(s.last().1 as u32)
    }
}

pub open spec fn flag(b: bool) -> u8 {
    if b {
        1
    } else {
        0
    }
}

/// The bytes of a reply after its sync marker: tag, then fields.
pub open spec fn reply_bytes(r: &Reply) -> Seq<u8> {
    match r {
        Reply::SystemInfo { ident, finished_cleanly } => seq![2u8] + be32(0x4152_4f52) + prefixed(
            encode_utf8(ident@),
        ) + seq![flag(*finished_cleanly)],
        Reply::LoadCompleted => seq![5u8],
        Reply::LoadFailed(reason) => seq![6u8] + prefixed(encode_utf8(reason@)),
        Reply::KernelFinished { async_errors } => seq![7u8, *async_errors],
        Reply::KernelStartupFailed => seq![8u8],
        Reply::KernelException { exceptions, stack_pointers, backtrace, async_errors } => seq![9u8]
            + be32(exceptions.len() as u32) + exceptions_bytes(exceptions@) + be32(
            stack_pointers.len() as u32,
        ) + stack_pointers_bytes(stack_pointers@) + be32(backtrace.len() as u32)
            + backtrace_bytes(backtrace@) + seq![*async_errors],
        Reply::RpcRequest { is_async } => seq![10u8, flag(*is_async)],
        Reply::ClockFailure => seq![15u8],
    }
}

impl Reply {
    /// Every exception slot of an exception report is filled.
    pub open spec fn wf(&self) -> bool {
        match self {
            Reply::KernelException { exceptions, .. } => forall|i: int|
                0 <= i < exceptions@.len() ==> #[trigger] exceptions@[i] is Some,
            _ => true,
        }
    }
}

/// Checks the greeting at the front of a fresh connection.
pub fn read_magic(reader: &[u8]) -> (r: Result<(), Error>)
    ensures
        reader@.len() < MAGIC_LEN ==> r == Err::<(), Error>(Error::Io(IoError::UnexpectedEnd)),
        reader@.len() >= MAGIC_LEN ==> (r is Ok <==> reader@.subrange(0, MAGIC_LEN as int)
            == magic()),
        reader@.len() >= MAGIC_LEN && r is Err ==> r == Err::<(), Error>(Error::WrongMagic),
{
    let expected: Vec<u8> = vec![65u8, 82, 84, 73, 81, 32, 99, 111, 114, 101, 100, 101, 118, 10];
    assert(expected@ =~= magic());
    if reader.len() < MAGIC_LEN {
        return Err(Error::Io(IoError::UnexpectedEnd));
    }
    let mut i: usize = 0;
    while i < MAGIC_LEN
        invariant
            i <= MAGIC_LEN,
            MAGIC_LEN <= reader@.len(),
            expected@ == magic(),
            forall|j: int| 0 <= j < i ==> reader@[j] == magic()[j],
        decreases MAGIC_LEN - i,
    {
        if reader[i] != expected[i] {
            assert(reader@.subrange(0, MAGIC_LEN as int)[i as int] != magic()[i as int]);
            return Err(Error::WrongMagic);
        }
        i = i + 1;
    }
    assert(reader@.subrange(0, MAGIC_LEN as int) =~= magic());
    Ok(())
}

/// Skips to the end of the first sync marker, returning its position.
pub fn read_sync(reader: &[u8]) -> (r: Result<usize, IoError>)
    ensures
        match r {
            Ok(p) => sync_end(reader@) == Some(p as int),
            Err(e) => sync_end(reader@) is None && e == IoError::UnexpectedEnd,
        },
{
    let mut i: usize = 0;
    while i < reader.len()
        invariant
            i <= reader@.len(),
            forall|q: int| 4 <= q <= i ==> !sync_at(reader@, q),
        decreases reader@.len() - i,
    {
        if i >= 3 && reader[i - 3] == SYNC_BYTE && reader[i - 2] == SYNC_BYTE && reader[i - 1]
            == SYNC_BYTE && reader[i] == SYNC_BYTE {
            assert(first_sync(reader@, i + 1));
            proof {
                lemma_sync_end(reader@, i + 1);
            }
            return Ok(i + 1);
        }
        i = i + 1;
    }
    assert(!exists|p: int| first_sync(reader@, p));
    Err(IoError::UnexpectedEnd)
}

/// Starts a message with the sync marker.
pub fn write_sync(writer: &mut Vec<u8>)
    ensures
        final(writer)@ == old(writer)@ + sync_marker(),
{
    write_u8(writer, SYNC_BYTE);
    write_u8(writer, SYNC_BYTE);
    write_u8(writer, SYNC_BYTE);
    write_u8(writer, SYNC_BYTE);
    assert(writer@ =~= old(writer)@ + sync_marker());
}

/// Reads a length-prefixed byte string that starts at `i`.
fn read_bytes(s: &[u8], i: usize) -> (r: Option<Vec<u8>>)
    requires
        i + 4 <= s@.len(),
    ensures
        match r {
            Some(b) => {
                &&& i + 4 + be32_at(s@, i as int) <= s@.len()
                &&& b@ == s@.subrange(i + 4, i + 4 + be32_at(s@, i as int))
            },
            None => i + 4 + be32_at(s@, i as int) > s@.len(),
        },
{
    let len = read_u32(s, i);
    if len as usize > s.len() - (i + 4) {
        return None;
    }
    let b = vstd::slice::slice_to_vec(vstd::slice::slice_subrange(s, i + 4, i + 4 + len as usize));
    Some(b)
}

proof fn lemma_prefixed(s: Seq<u8>, i: int, b: Seq<u8>)
    requires
        0 <= i,
        i + 4 <= s.len(),
        i + 4 + be32_at(s, i) <= s.len(),
        b == s.subrange(i + 4, i + 4 + be32_at(s, i)),
    ensures
        prefixed(b) == s.subrange(i, i + 4 + be32_at(s, i)),
{
    lemma_be32_at(s, i);
    assert(b.len() as u32 == be32_at(s, i));
    assert(prefixed(b) =~= s.subrange(i, i + 4 + be32_at(s, i)));
}

impl Request {
    /// Reads one request: skips to the first sync marker, then reads the
    /// tag and the fields that it calls for.
    pub fn read_from(reader: &[u8]) -> (r: Result<(Request, usize), Error>)
        ensures
            read_outcome(reader@, r),
    {
        let ghost s = reader@;
        let p = match read_sync(reader) {
            Ok(p) => p,
            Err(e) => {
                return Err(Error::from(e));
            },
        };
        if p >= reader.len() {
            return Err(Error::Io(IoError::UnexpectedEnd));
        }
        let tag = reader[p];
        let q = p + 1;
        let n = reader.len();
        if tag == 3 {
            assert(s.subrange(p as int, q as int) =~= seq![3u8]);
            Ok((Request::SystemInfo, q))
        } else if tag == 6 {
            assert(s.subrange(p as int, q as int) =~= seq![6u8]);
            Ok((Request::RunKernel, q))
        } else if tag == 5 || tag == 7 {
            if n - q < 4 {
                return Err(Error::Io(IoError::UnexpectedEnd));
            }
            match read_bytes(reader, q) {
                None => Err(Error::Io(IoError::UnexpectedEnd)),
                Some(b) => {
                    let end = q + 4 + b.len();
                    proof {
                        lemma_prefixed(s, q as int, b@);
                        assert(s.subrange(p as int, end as int) =~= seq![tag] + s.subrange(
                            q as int,
                            end as int,
                        ));
                    }
                    if tag == 5 {
                        Ok((Request::LoadKernel(b), end))
                    } else {
                        Ok((Request::RpcReply { tag: b }, end))
                    }
                },
            }
        } else if tag == 8 {
            if n - q < 24 {
                return Err(Error::Io(IoError::UnexpectedEnd));
            }
            let id = read_u32(reader, q);
            let message = read_u32(reader, q + 4);
            let file = read_u32(reader, q + 8);
            let line = read_u32(reader, q + 12);
            let column = read_u32(reader, q + 16);
            let function = read_u32(reader, q + 20);
            proof {
                lemma_be32_at(s, q as int);
                lemma_be32_at(s, q + 4);
                lemma_be32_at(s, q + 8);
                lemma_be32_at(s, q + 12);
                lemma_be32_at(s, q + 16);
                lemma_be32_at(s, q + 20);
                assert(be32(id) == s.subrange(q as int, q + 4));
                assert(be32(message) == s.subrange(q + 4, q + 8));
                assert(be32(file) == s.subrange(q + 8, q + 12));
                assert(be32(line) == s.subrange(q + 12, q + 16));
                assert(be32(column) == s.subrange(q + 16, q + 20));
                assert(be32(function) == s.subrange(q + 20, q + 24));
                assert(s.subrange(p as int, q + 24) =~= seq![8u8] + be32(id) + be32(message)
                    + be32(file) + be32(line) + be32(column) + be32(function));
            }
            Ok((Request::RpcException { id, message, file, line, column, function }, q + 24))
        } else if tag == 9 {
            if n - q < 9 {
                return Err(Error::Io(IoError::UnexpectedEnd));
            }
            let id = read_u32(reader, q);
            let destination = reader[q + 4];
            match read_bytes(reader, q + 5) {
                None => Err(Error::Io(IoError::UnexpectedEnd)),
                Some(kernel) => {
                    let end = q + 9 + kernel.len();
                    proof {
                        lemma_be32_at(s, q as int);
                        lemma_prefixed(s, q + 5, kernel@);
                        assert(s.subrange(p as int, end as int) =~= seq![9u8] + be32(id) + seq![
                            destination,
                        ] + prefixed(kernel@));
                    }
                    Ok((Request::UploadSubkernel { id, destination, kernel }, end))
                },
            }
        } else {
            Err(Error::UnknownPacket(tag))
        }
    }
}

/// Writes a file or function name: inline text with its length, or the
/// host marker and the key.
pub fn write_exception_string(writer: &mut Vec<u8>, s: &ExceptionStr)
    ensures
        final(writer)@ == old(writer)@ + exception_str_bytes(s),
{
    match s {
        ExceptionStr::Host(key) => {
            write_u32(writer, HOST_STRING);
            write_u32(writer, *key);
            assert(writer@ =~= old(writer)@ + exception_str_bytes(s));
        },
        ExceptionStr::Inline(t) => {
            write_string(writer, t.as_str());
        },
    }
}

/// Writes an exception message: the host marker and the key for a host
/// message, else the message text with its length.
pub fn write_exception_stringbuffer(writer: &mut Vec<u8>, s: &StringBuffer)
    ensures
        final(writer)@ == old(writer)@ + message_bytes(s),
{
    if s.is_host() {
        write_u32(writer, HOST_STRING);
        write_u32(writer, s.host_key());
        assert(writer@ =~= old(writer)@ + message_bytes(s));
    } else {
        write_string(writer, s.as_str());
    }
}

fn write_exception(writer: &mut Vec<u8>, e: &Exception)
    ensures
        final(writer)@ == old(writer)@ + exception_bytes(e),
{
    write_u32(writer, e.id);
    write_exception_stringbuffer(writer, &e.message);
    write_exception_string(writer, &e.file);
    write_u32(writer, e.line);
    write_u32(writer, e.column);
    write_exception_string(writer, &e.function);
    assert(writer@ =~= old(writer)@ + exception_bytes(e));
}

fn write_exceptions(writer: &mut Vec<u8>, exceptions: &Vec<Option<Exception>>)
    requires
        forall|i: int| 0 <= i < exceptions@.len() ==> #[trigger] exceptions@[i] is Some,
    ensures
        final(writer)@ == old(writer)@ + exceptions_bytes(exceptions@),
{
    let ghost at = writer@;
    let mut i: usize = 0;
    while i < exceptions.len()
        invariant
            forall|i: int| 0 <= i < exceptions@.len() ==> #[trigger] exceptions@[i] is Some,
            i <= exceptions@.len(),
            at == old(writer)@,
            writer@ == at + exceptions_bytes(exceptions@.subrange(0, i as int)),
        decreases exceptions@.len() - i,
    {
        assert(exceptions@[i as int] is Some);
        match &exceptions[i] {
            Some(e) => write_exception(writer, e),
            None => {},
        }
        assert(exceptions@.subrange(0, i + 1).drop_last() =~= exceptions@.subrange(0, i as int));
        i = i + 1;
    }
    assert(exceptions@.subrange(0, exceptions@.len() as int) =~= exceptions@);
}

fn write_stack_pointers(writer: &mut Vec<u8>, stack_pointers: &Vec<StackPointerBacktrace>)
    ensures
        final(writer)@ == old(writer)@ + stack_pointers_bytes(stack_pointers@),
{
    let ghost at = writer@;
    let mut i: usize = 0;
    while i < stack_pointers.len()
        invariant
            i <= stack_pointers@.len(),
            at == old(writer)@,
            writer@ == at + stack_pointers_bytes(stack_pointers@.subrange(0, i as int)),
        decreases stack_pointers@.len() - i,
    {
        let sp = &stack_pointers[i];
        write_u32(writer, sp.stack_pointer as u32);
        write_u32(writer, sp.initial_backtrace_size as u32);
        write_u32(writer, sp.current_backtrace_size as u32);
        assert(stack_pointers@.subrange(0, i + 1).drop_last() =~= stack_pointers@.subrange(
            0,
            i as int,
        ));
        i = i + 1;
    }
    assert(stack_pointers@.subrange(0, stack_pointers@.len() as int) =~= stack_pointers@);
}

fn write_backtrace(writer: &mut Vec<u8>, backtrace: &Vec<(usize, usize)>)
    ensures
        final(writer)@ == old(writer)@ + backtrace_bytes(backtrace@),
{
    let ghost at = writer@;
    let mut i: usize = 0;
    while i < backtrace.len()
        invariant
            i <= backtrace@.len(),
            at == old(writer)@,
            writer@ == at + backtrace_bytes(backtrace@.subrange(0, i as int)),
        decreases backtrace@.len() - i,
    {
        let (addr, sp) = backtrace[i];
        write_u32(writer, addr as u32);
        write_u32(writer, sp as u32);
        assert(backtrace@.subrange(0, i + 1).drop_last() =~= backtrace@.subrange(0, i as int));
        i = i + 1;
    }
    assert(backtrace@.subrange(0, backtrace@.len() as int) =~= backtrace@);
}

impl Reply {
    /// Writes the sync marker, then the reply.
    pub fn write_to(&self, writer: &mut Vec<u8>)
        requires
            self.wf(),
        ensures
            final(writer)@ == old(writer)@ + sync_marker() + reply_bytes(self),
    {
        write_sync(writer);
        match self {
            Reply::SystemInfo { ident, finished_cleanly } => {
                write_u8(writer, 2);
                write_u32(writer, 0x4152_4f52);
                write_string(writer, ident.as_str());
                write_u8(writer, if *finished_cleanly { 1 } else { 0 });
            },
            Reply::LoadCompleted => {
                write_u8(writer, 5);
            },
            Reply::LoadFailed(reason) => {
                write_u8(writer, 6);
                write_string(writer, reason.as_str());
            },
            Reply::KernelFinished { async_errors } => {
                write_u8(writer, 7);
                write_u8(writer, *async_errors);
            },
            Reply::KernelStartupFailed => {
                write_u8(writer, 8);
            },
            Reply::KernelException { exceptions, stack_pointers, backtrace, async_errors } => {
                write_u8(writer, 9);
                write_u32(writer, exceptions.len() as u32);
                write_exceptions(writer, exceptions);
                write_u32(writer, stack_pointers.len() as u32);
                write_stack_pointers(writer, stack_pointers);
                write_u32(writer, backtrace.len() as u32);
                write_backtrace(writer, backtrace);
                write_u8(writer, *async_errors);
            },
            Reply::RpcRequest { is_async } => {
                write_u8(writer, 10);
                write_u8(writer, if *is_async { 1 } else { 0 });
            },
            Reply::ClockFailure => {
                write_u8(writer, 15);
            },
        }
        assert(writer@ =~= old(writer)@ + sync_marker() + reply_bytes(self));
    }
}

/// Device names by RTIO channel number.
pub type DeviceMap = BTreeMap<u32, String>;

/// The name that a channel is reported under.
pub open spec fn channel_name(channel: u32, device_map: Option<Map<u32, String>>) -> Seq<char> {
    match device_map {
        Some(m) => if m.contains_key(channel) {
            m[channel]@
        } else {
            "unknown"@
        },
        None => "unknown"@,
    }
}

pub open spec fn map_view(device_map: &Option<DeviceMap>) -> Option<Map<u32, String>> {
    match device_map {
        Some(m) => Some(m@),
        None => None,
    }
}

/// The configured name of `channel`, or `unknown`.
pub fn _resolve_channel_name(channel: u32, device_map: &Option<DeviceMap>) -> (r: String)
    ensures
        r@ == channel_name(channel, map_view(device_map)),
{
    broadcast use vstd::laws_cmp::group_laws_cmp;
    match device_map {
        Some(dev_map) => match dev_map.get(&channel) {
            Some(val) => val.clone(),
            None => "unknown".to_owned(),
        },
        None => "unknown".to_owned(),
    }
}

/// The channel names installed once at startup, read by diagnostics.
pub struct DeviceNames {
    pub device_map: Option<DeviceMap>,
}

impl DeviceNames {
    /// No names installed yet: every channel resolves to `unknown`.
    pub fn new() -> (r: DeviceNames)
        ensures
            r.device_map is None,
    {
        DeviceNames { device_map: None }
    }

    pub fn set_device_map(&mut self, device_map: DeviceMap)
        ensures
            map_view(&final(self).device_map) == Some(device_map@),
    {
        self.device_map = Some(device_map);
    }

    pub fn resolve_channel_name(&self, channel: u32) -> (r: String)
        ensures
            r@ == channel_name(channel, map_view(&self.device_map)),
    {
        _resolve_channel_name(channel, &self.device_map)
    }
}

/// A message built from a host key is written as the host marker followed
/// by that same key.
pub proof fn lemma_host_message_encoding(message_id: u32, m: StringBuffer)
    requires
        m.host(),
        m.key() == message_id,
    ensures
        message_bytes(&m) == be32(HOST_STRING) + be32(message_id),
{
}

/// Resynchronisation: bytes that hold no sync marker of their own and do
/// not end in a sync byte are skipped exactly, up to and including the
/// marker that follows them.
pub proof fn lemma_resync(garbage: Seq<u8>, rest: Seq<u8>)
    requires
        forall|q: int| 4 <= q <= garbage.len() ==> !sync_at(garbage, q),
        garbage.len() == 0 || garbage.last() != SYNC_BYTE,
    ensures
        sync_end(garbage + sync_marker() + rest) == Some(garbage.len() + 4int),
{
    let s = garbage + sync_marker() + rest;
    let g = garbage.len() as int;
    assert forall|q: int| 4 <= q < g + 4 implies !sync_at(s, q) by {
        if q <= g {
            assert(!sync_at(garbage, q));
            assert(s[q - 4] == garbage[q - 4] && s[q - 3] == garbage[q - 3] && s[q - 2] == garbage[q
                - 2] && s[q - 1] == garbage[q - 1]);
        } else {
            assert(s[g - 1] == garbage[g - 1]);
        }
    }
    assert(sync_at(s, g + 4));
    lemma_sync_end(s, g + 4);
}

proof fn lemma_exceptions_bytes_concat(a: Seq<Option<Exception>>, b: Seq<Option<Exception>>)
    ensures
        exceptions_bytes(a + b) == exceptions_bytes(a) + exceptions_bytes(b),
    decreases b.len(),
{
    if b.len() == 0 {
        assert(a + b =~= a);
        assert(exceptions_bytes(a) + exceptions_bytes(b) =~= exceptions_bytes(a));
    } else {
        lemma_exceptions_bytes_concat(a, b.drop_last());
        assert((a + b).drop_last() =~= a + b.drop_last());
        assert((a + b).last() == b.last());
    }
}

proof fn lemma_exceptions_bytes_split(ex: Seq<Option<Exception>>, i: int)
    requires
        0 <= i < ex.len(),
        ex[i] is Some,
    ensures
        exceptions_bytes(ex) == exceptions_bytes(ex.take(i)) + exception_bytes(&ex[i]->Some_0)
            + exceptions_bytes(ex.skip(i + 1)),
{
    let one = seq![ex[i]];
    assert(ex =~= ex.take(i) + one + ex.skip(i + 1));
    lemma_exceptions_bytes_concat(ex.take(i) + one, ex.skip(i + 1));
    lemma_exceptions_bytes_concat(ex.take(i), one);
    assert(one.drop_last() =~= Seq::<Option<Exception>>::empty());
    assert(exceptions_bytes(Seq::<Option<Exception>>::empty()) == Seq::<u8>::empty());
    assert(exceptions_bytes(one) =~= exception_bytes(&ex[i]->Some_0));
}

/// In an exception report, the `i`-th exception follows the tag, the count
/// and the exceptions before it. Where its message lives on the host, it
/// starts with its id, the host marker and the message key.
#[verifier::rlimit(60)]
pub proof fn lemma_kernel_exception_layout(r: Reply, i: int)
    requires
        r is KernelException,
        0 <= i < r->exceptions@.len(),
        r->exceptions@[i] is Some,
    ensures
        ({
            let ex = r->exceptions@;
            let e = ex[i]->Some_0;
            let at: int = 5 + exceptions_bytes(ex.take(i)).len() as int;
            &&& reply_bytes(&r).subrange(0, 5) == seq![9u8] + be32(ex.len() as u32)
            &&& reply_bytes(&r).subrange(at, at + exception_bytes(&e).len() as int)
                == exception_bytes(&e)
            &&& e.message.host() ==> reply_bytes(&r).subrange(at, at + 12) == be32(e.id) + be32(
                HOST_STRING,
            ) + be32(e.message.key())
        }),
{
    let ex = r->exceptions@;
    let e = ex[i]->Some_0;
    lemma_exceptions_bytes_split(ex, i);
    let at: int = 5 + exceptions_bytes(ex.take(i)).len() as int;
    let eb = exception_bytes(&e);
    let head = seq![9u8] + be32(ex.len() as u32);
    let rb = reply_bytes(&r);
    assert(rb =~= head + exceptions_bytes(ex.take(i)) + eb + (exceptions_bytes(ex.skip(i + 1))
        + be32(r->stack_pointers.len() as u32) + stack_pointers_bytes(r->stack_pointers@) + be32(
        r->backtrace.len() as u32,
    ) + backtrace_bytes(r->backtrace@) + seq![r->KernelException_async_errors]));
    assert(rb.subrange(0, 5) =~= head);
    assert(rb.subrange(at, at + eb.len()) =~= eb);
    if e.message.host() {
        assert(rb.subrange(at, at + 12) =~= eb.subrange(0, 12));
        assert(eb.subrange(0, 12) =~= be32(e.id) + be32(HOST_STRING) + be32(e.message.key()));
    }
}

} // verus!
