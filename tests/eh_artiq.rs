use artiq_ipc::eh_artiq::{exception_str, Exception, ExceptionStr, StackPointerBacktrace, StringBuffer};

#[test]
fn from_str_then_as_str() {
    let b = StringBuffer::from_str("abc");
    assert_eq!(b.as_str(), "abc");
    assert_eq!(b.as_bytes(), b"abc");
    assert!(!b.is_host());
}

#[test]
fn copy_str_appends_and_truncates() {
    let mut b = StringBuffer::new();
    b.copy_str("hello ");
    b.copy_str("world");
    assert_eq!(b.as_str(), "hello world");
    let long = "x".repeat(200);
    let mut c = StringBuffer::from_str("ab");
    c.copy_str(&long);
    assert_eq!(c.pos, 128);
    assert_eq!(c.as_bytes().len(), 128);
    assert!(!c.is_host());
    c.copy_str("more");
    assert_eq!(c.pos, 128);
}

#[test]
fn clear_empties_buffer() {
    let mut b = StringBuffer::from_str("abc");
    b.clear();
    assert_eq!(b.pos, 0);
    assert!(b.buf.iter().all(|&x| x == 0));
    assert_eq!(b.as_str(), "");
}

#[test]
fn invalid_utf8_placeholder() {
    let mut b = StringBuffer::new();
    b.buf[0] = 0xff;
    b.pos = 1;
    assert_eq!(b.as_str(), "<invalid UTF-8>");
}

#[test]
fn host_buffer_keeps_key() {
    let mut b = StringBuffer::from_host(0xdead_beef);
    assert!(b.is_host());
    assert_eq!(b.host_key(), 0xdead_beef);
    assert_eq!(b.as_str(), "<host string>");
    b.copy_str("ignored");
    assert_eq!(b.host_key(), 0xdead_beef);
    assert!(b.is_host());
}

#[test]
fn exception_str_of_host_and_inline() {
    assert_eq!(exception_str(&ExceptionStr::Host(3)), "<host string>");
    assert_eq!(exception_str(&ExceptionStr::Inline(String::from("f.py"))), "f.py");
}

#[test]
fn stack_pointer_backtrace_default_is_zero() {
    let s = StackPointerBacktrace::default();
    assert_eq!(s.stack_pointer, 0);
    assert_eq!(s.initial_backtrace_size, 0);
    assert_eq!(s.current_backtrace_size, 0);
}

#[test]
fn from_host_layout() {
    let b = StringBuffer::from_host(0x0403_0201);
    assert_eq!(b.pos, usize::MAX);
    assert_eq!(&b.buf[..4], &0x0403_0201u32.to_le_bytes());
    assert!(b.buf[4..].iter().all(|&x| x == 0));
    let s = StringBuffer::from_str("xyz");
    assert_eq!(s.pos, 3);
    assert!(s.buf[3..].iter().all(|&x| x == 0));
}

#[test]
fn describe_on_device_exception() {
    let e = Exception {
        id: 42,
        file: ExceptionStr::Inline(String::from("k.py")),
        line: 7,
        column: 0,
        function: ExceptionStr::Host(5),
        message: StringBuffer::from_str("division by zero"),
    };
    assert_eq!(
        e.describe(),
        "Exception 42 from <host string> in k.py:7:0, message: division by zero"
    );
}

#[test]
fn describe_host_message_exception() {
    let e = Exception {
        id: 1,
        file: ExceptionStr::Host(9),
        line: 120,
        column: 33,
        function: ExceptionStr::Inline(String::from("run")),
        message: StringBuffer::from_host(0x0000_0a01),
    };
    assert_eq!(
        e.describe(),
        "Exception 1 from run in <host string>:120:33, message: [1, 10, 0, 0]"
    );
}
