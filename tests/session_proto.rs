use std::collections::BTreeMap;
use artiq_ipc::analyzer_proto::Header;
use artiq_ipc::eh_artiq::{Exception, ExceptionStr, StackPointerBacktrace, StringBuffer};
use artiq_ipc::session_proto::{
    read_magic, read_sync, write_exception_string, write_exception_stringbuffer, write_sync,
    DeviceNames, Error, IoError, Reply, Request, _resolve_channel_name,
};

fn be(v: u32) -> Vec<u8> {
    v.to_be_bytes().to_vec()
}

fn prefixed(s: &[u8]) -> Vec<u8> {
    let mut v = be(s.len() as u32);
    v.extend_from_slice(s);
    v
}

#[test]
fn kernel_exception_reply_layout() {
    let on_device = Exception {
        id: 11,
        file: ExceptionStr::Inline(String::from("k.py")),
        line: 12,
        column: 3,
        function: ExceptionStr::Inline(String::from("run")),
        message: StringBuffer::from_str("boom"),
    };
    let on_host = Exception {
        id: 22,
        file: ExceptionStr::Host(0x100),
        line: 40,
        column: 5,
        function: ExceptionStr::Host(0x200),
        message: StringBuffer::from_host(0x300),
    };
    let reply = Reply::KernelException {
        exceptions: vec![Some(on_device), Some(on_host)],
        stack_pointers: vec![StackPointerBacktrace {
            stack_pointer: 0x1000,
            initial_backtrace_size: 2,
            current_backtrace_size: 1,
        }],
        backtrace: vec![(0xaa, 0xbb), (0xcc, 0xdd)],
        async_errors: 4,
    };
    let mut out = Vec::new();
    reply.write_to(&mut out);

    let mut want = vec![0x5a, 0x5a, 0x5a, 0x5a, 9];
    want.extend(be(2));
    want.extend(be(11));
    want.extend(prefixed(b"boom"));
    want.extend(prefixed(b"k.py"));
    want.extend(be(12));
    want.extend(be(3));
    want.extend(prefixed(b"run"));
    want.extend(be(22));
    want.extend(be(0xffff_ffff));
    want.extend(be(0x300));
    want.extend(be(0xffff_ffff));
    want.extend(be(0x100));
    want.extend(be(40));
    want.extend(be(5));
    want.extend(be(0xffff_ffff));
    want.extend(be(0x200));
    want.extend(be(1));
    want.extend(be(0x1000));
    want.extend(be(2));
    want.extend(be(1));
    want.extend(be(2));
    want.extend(be(0xaa));
    want.extend(be(0xbb));
    want.extend(be(0xcc));
    want.extend(be(0xdd));
    want.push(4);
    assert_eq!(out, want);
}

#[test]
fn simple_replies_layout() {
    let cases: Vec<(Reply, Vec<u8>)> = vec![
        (Reply::LoadCompleted, vec![5]),
        (Reply::LoadFailed(String::from("bad")), [vec![6], prefixed(b"bad")].concat()),
        (Reply::KernelFinished { async_errors: 3 }, vec![7, 3]),
        (Reply::KernelStartupFailed, vec![8]),
        (Reply::RpcRequest { is_async: true }, vec![10, 1]),
        (Reply::RpcRequest { is_async: false }, vec![10, 0]),
        (Reply::ClockFailure, vec![15]),
        (
            Reply::SystemInfo { ident: String::from("v1"), finished_cleanly: true },
            [vec![2], b"AROR".to_vec(), prefixed(b"v1"), vec![1]].concat(),
        ),
    ];
    for (reply, body) in cases {
        let mut out = vec![0xee];
        reply.write_to(&mut out);
        let want = [vec![0xee, 0x5a, 0x5a, 0x5a, 0x5a], body].concat();
        assert_eq!(out, want);
    }
}

#[test]
fn host_message_key_comes_back_out() {
    let mut out = Vec::new();
    write_exception_stringbuffer(&mut out, &StringBuffer::from_host(0x0102_0304));
    assert_eq!(out, [be(0xffff_ffff), be(0x0102_0304)].concat());
    let mut out = Vec::new();
    write_exception_stringbuffer(&mut out, &StringBuffer::from_str("hi"));
    assert_eq!(out, prefixed(b"hi"));
}

#[test]
fn exception_string_encodings() {
    let mut out = Vec::new();
    write_exception_string(&mut out, &ExceptionStr::Host(9));
    assert_eq!(out, [be(0xffff_ffff), be(9)].concat());
    let mut out = Vec::new();
    write_exception_string(&mut out, &ExceptionStr::Inline(String::from("héllo")));
    assert_eq!(out, prefixed("héllo".as_bytes()));
}

#[test]
fn write_sync_writes_marker() {
    let mut out = vec![1];
    write_sync(&mut out);
    assert_eq!(out, vec![1, 0x5a, 0x5a, 0x5a, 0x5a]);
}

#[test]
fn read_magic_accepts_greeting() {
    assert_eq!(read_magic(b"ARTIQ coredev\nrest"), Ok(()));
    assert_eq!(read_magic(b"ARTIQ coredev!"), Err(Error::WrongMagic));
    assert_eq!(read_magic(b"ARTIQ"), Err(Error::Io(IoError::UnexpectedEnd)));
}

#[test]
fn read_sync_skips_garbage() {
    let garbage = [1u8, 0x5a, 0x5a, 0x5a, 7, 0, 0x5a, 3];
    let mut stream = garbage.to_vec();
    stream.extend([0x5a, 0x5a, 0x5a, 0x5a, 3]);
    assert_eq!(read_sync(&stream), Ok(garbage.len() + 4));
    let (req, end) = Request::read_from(&stream).unwrap();
    assert!(matches!(req, Request::SystemInfo));
    assert_eq!(end, stream.len());
    assert_eq!(read_sync(&[0x5a, 0x5a, 0x5a]), Err(IoError::UnexpectedEnd));
}

#[test]
fn read_sync_takes_first_marker() {
    let stream = [0x5a, 0x5a, 0x5a, 0x5a, 0x5a, 6];
    assert_eq!(read_sync(&stream), Ok(4));
    assert_eq!(
        Request::read_from(&stream).map(|(_, n)| n).unwrap_err(),
        Error::UnknownPacket(0x5a)
    );
}

#[test]
fn read_every_request() {
    let sync = vec![0x5a, 0x5a, 0x5a, 0x5a];
    let s = [sync.clone(), vec![6]].concat();
    assert!(matches!(Request::read_from(&s), Ok((Request::RunKernel, 5))));

    let s = [sync.clone(), vec![5], prefixed(&[1, 2, 3])].concat();
    match Request::read_from(&s) {
        Ok((Request::LoadKernel(k), n)) => {
            assert_eq!(k, vec![1, 2, 3]);
            assert_eq!(n, s.len());
        }
        _ => panic!("expected LoadKernel"),
    }

    let s = [sync.clone(), vec![7], prefixed(b"tag")].concat();
    match Request::read_from(&s) {
        Ok((Request::RpcReply { tag }, n)) => {
            assert_eq!(tag, b"tag".to_vec());
            assert_eq!(n, s.len());
        }
        _ => panic!("expected RpcReply"),
    }

    let s = [sync.clone(), vec![8], be(1), be(2), be(3), be(4), be(5), be(6), vec![99]].concat();
    match Request::read_from(&s) {
        Ok((Request::RpcException { id, message, file, line, column, function }, n)) => {
            assert_eq!((id, message, file, line, column, function), (1, 2, 3, 4, 5, 6));
            assert_eq!(n, s.len() - 1);
        }
        _ => panic!("expected RpcException"),
    }

    let s = [sync.clone(), vec![9], be(0x0a0b0c0d), vec![2], prefixed(&[4, 5])].concat();
    match Request::read_from(&s) {
        Ok((Request::UploadSubkernel { id, destination, kernel }, n)) => {
            assert_eq!(id, 0x0a0b0c0d);
            assert_eq!(destination, 2);
            assert_eq!(kernel, vec![4, 5]);
            assert_eq!(n, s.len());
        }
        _ => panic!("expected UploadSubkernel"),
    }
}

#[test]
fn bad_requests() {
    let sync = vec![0x5a, 0x5a, 0x5a, 0x5a];
    let s = [sync.clone(), vec![4]].concat();
    assert!(matches!(Request::read_from(&s), Err(Error::UnknownPacket(4))));
    let s = [sync.clone(), vec![5], be(10), vec![1, 2]].concat();
    assert!(matches!(Request::read_from(&s), Err(Error::Io(IoError::UnexpectedEnd))));
    let s = [sync.clone(), vec![8], be(1)].concat();
    assert!(matches!(Request::read_from(&s), Err(Error::Io(IoError::UnexpectedEnd))));
    assert!(matches!(Request::read_from(&sync), Err(Error::Io(IoError::UnexpectedEnd))));
    assert!(matches!(Request::read_from(&[1, 2, 3]), Err(Error::Io(IoError::UnexpectedEnd))));
    assert_eq!(Error::from(IoError::UnexpectedEnd), Error::Io(IoError::UnexpectedEnd));
}

#[test]
fn channel_names_resolve() {
    let mut map = BTreeMap::new();
    map.insert(5u32, String::from("ttl0"));
    assert_eq!(_resolve_channel_name(5, &Some(map.clone())), "ttl0");
    assert_eq!(_resolve_channel_name(6, &Some(map.clone())), "unknown");
    assert_eq!(_resolve_channel_name(5, &None), "unknown");
    let mut names = DeviceNames::new();
    assert_eq!(names.resolve_channel_name(5), "unknown");
    names.set_device_map(map);
    assert_eq!(names.resolve_channel_name(5), "ttl0");
    assert_eq!(names.resolve_channel_name(0), "unknown");
}

#[test]
fn analyzer_header_layout() {
    let h = Header {
        sent_bytes: 0x01020304,
        total_byte_count: 0x1122334455667788,
        overflow_occurred: true,
        log_channel: 9,
        dds_onehot_sel: false,
    };
    let mut out = Vec::new();
    h.write_to(&mut out);
    let want = [be(0x01020304), 0x1122334455667788u64.to_be_bytes().to_vec(), vec![1, 9, 0]]
        .concat();
    assert_eq!(out, want);
}
