use session_codec::codec::Reader;
use session_codec::message::{Exception, Reply, Request};

fn request_roundtrip(req: Request) -> Request {
    let mut wire: Vec<u8> = Vec::new();
    req.write_to(&mut wire);
    let mut reader = Reader::new(wire);
    let decoded = Request::read_from(&mut reader).unwrap();
    assert_eq!(reader.remaining_len(), 0);
    decoded
}

fn reply_roundtrip(rep: Reply) -> Reply {
    let mut wire: Vec<u8> = Vec::new();
    rep.write_to(&mut wire);
    let mut reader = Reader::new(wire);
    let decoded = Reply::read_from(&mut reader).unwrap();
    assert_eq!(reader.remaining_len(), 0);
    decoded
}

fn sample_exception() -> Exception {
    Exception {
        name: "ZeroDivisionError".to_string(),
        message: "division by zero".to_string(),
        param: [1, 2, 3],
        file: "kernel.py".to_string(),
        line: 42,
        column: 7,
        function: "run".to_string(),
    }
}

#[test]
fn request_roundtrip_log() {
    assert_eq!(request_roundtrip(Request::Log), Request::Log);
}

#[test]
fn request_roundtrip_log_clear() {
    assert_eq!(request_roundtrip(Request::LogClear), Request::LogClear);
}

#[test]
fn request_roundtrip_ident() {
    assert_eq!(request_roundtrip(Request::Ident), Request::Ident);
}

#[test]
fn request_roundtrip_switch_clock() {
    assert_eq!(request_roundtrip(Request::SwitchClock(2)), Request::SwitchClock(2));
}

#[test]
fn request_roundtrip_load_library() {
    let code = vec![0xde, 0xad, 0xbe, 0xef, 0x5a, 0x5a];
    assert_eq!(
        request_roundtrip(Request::LoadLibrary(code.clone())),
        Request::LoadLibrary(code)
    );
}

#[test]
fn request_roundtrip_run_kernel() {
    assert_eq!(request_roundtrip(Request::RunKernel), Request::RunKernel);
}

#[test]
fn request_roundtrip_rpc_reply() {
    let req = Request::RpcReply { tag: "Isb".to_string() };
    assert_eq!(request_roundtrip(req), Request::RpcReply { tag: "Isb".to_string() });
}

#[test]
fn request_roundtrip_rpc_exception() {
    let req = Request::RpcException(sample_exception());
    assert_eq!(request_roundtrip(req), Request::RpcException(sample_exception()));
}

#[test]
fn request_roundtrip_flash_read() {
    let req = Request::FlashRead { key: "idle_kernel".to_string() };
    assert_eq!(request_roundtrip(req), Request::FlashRead { key: "idle_kernel".to_string() });
}

#[test]
fn request_roundtrip_flash_write() {
    let req = Request::FlashWrite { key: "mac".to_string(), value: vec![1, 2, 3, 4, 5, 6] };
    assert_eq!(
        request_roundtrip(req),
        Request::FlashWrite { key: "mac".to_string(), value: vec![1, 2, 3, 4, 5, 6] }
    );
}

#[test]
fn request_roundtrip_flash_remove() {
    let req = Request::FlashRemove { key: "ip".to_string() };
    assert_eq!(request_roundtrip(req), Request::FlashRemove { key: "ip".to_string() });
}

#[test]
fn request_roundtrip_flash_erase() {
    assert_eq!(request_roundtrip(Request::FlashErase), Request::FlashErase);
}

#[test]
fn reply_roundtrip_log() {
    let rep = Reply::Log("boot ok\n".to_string());
    assert_eq!(reply_roundtrip(rep), Reply::Log("boot ok\n".to_string()));
}

#[test]
fn reply_roundtrip_ident() {
    let rep = Reply::Ident("kc705".to_string());
    assert_eq!(reply_roundtrip(rep), Reply::Ident("kc705".to_string()));
}

#[test]
fn reply_roundtrip_clock_switch_completed() {
    assert_eq!(reply_roundtrip(Reply::ClockSwitchCompleted), Reply::ClockSwitchCompleted);
}

#[test]
fn reply_roundtrip_clock_switch_failed() {
    assert_eq!(reply_roundtrip(Reply::ClockSwitchFailed), Reply::ClockSwitchFailed);
}

#[test]
fn reply_roundtrip_load_completed() {
    assert_eq!(reply_roundtrip(Reply::LoadCompleted), Reply::LoadCompleted);
}

#[test]
fn reply_roundtrip_load_failed() {
    assert_eq!(reply_roundtrip(Reply::LoadFailed), Reply::LoadFailed);
}

#[test]
fn reply_roundtrip_kernel_finished() {
    assert_eq!(reply_roundtrip(Reply::KernelFinished), Reply::KernelFinished);
}

#[test]
fn reply_roundtrip_kernel_startup_failed() {
    assert_eq!(reply_roundtrip(Reply::KernelStartupFailed), Reply::KernelStartupFailed);
}

#[test]
fn reply_roundtrip_kernel_exception() {
    let rep = Reply::KernelException(sample_exception());
    assert_eq!(reply_roundtrip(rep), Reply::KernelException(sample_exception()));
}

#[test]
fn reply_roundtrip_rpc_request() {
    let rep = Reply::RpcRequest { service: 99 };
    assert_eq!(reply_roundtrip(rep), Reply::RpcRequest { service: 99 });
}

#[test]
fn reply_roundtrip_flash_read() {
    let rep = Reply::FlashRead(vec![0, 1, 2, 0x5a]);
    assert_eq!(reply_roundtrip(rep), Reply::FlashRead(vec![0, 1, 2, 0x5a]));
}

#[test]
fn reply_roundtrip_flash_ok() {
    assert_eq!(reply_roundtrip(Reply::FlashOk), Reply::FlashOk);
}

#[test]
fn reply_roundtrip_flash_error() {
    assert_eq!(reply_roundtrip(Reply::FlashError), Reply::FlashError);
}

#[test]
fn reply_roundtrip_watchdog_expired() {
    assert_eq!(reply_roundtrip(Reply::WatchdogExpired), Reply::WatchdogExpired);
}

#[test]
fn reply_roundtrip_clock_failure() {
    assert_eq!(reply_roundtrip(Reply::ClockFailure), Reply::ClockFailure);
}

#[test]
fn flash_ok_exact_bytes() {
    let mut wire: Vec<u8> = Vec::new();
    Reply::FlashOk.write_to(&mut wire);
    assert_eq!(wire, vec![0x5a, 0x5a, 0x5a, 0x5a, 0x00, 0x00, 0x00, 0x09, 0x0c]);
}

#[test]
fn ident_payload_opens_with_banner() {
    let mut wire: Vec<u8> = Vec::new();
    Reply::Ident("x".to_string()).write_to(&mut wire);
    assert_eq!(&wire[9..13], &b"AROR"[..]);
    assert_eq!(wire[13], b'x');
}

#[test]
fn exception_empty_fields_roundtrip() {
    let exc = Exception {
        name: String::new(),
        message: String::new(),
        param: [0, 0, 0],
        file: String::new(),
        line: 0,
        column: 0,
        function: String::new(),
    };
    let rep = Reply::KernelException(exc);
    match reply_roundtrip(rep) {
        Reply::KernelException(decoded) => {
            assert_eq!(decoded.name, "");
            assert_eq!(decoded.message, "");
            assert_eq!(decoded.param, [0, 0, 0]);
            assert_eq!(decoded.file, "");
            assert_eq!(decoded.line, 0);
            assert_eq!(decoded.column, 0);
            assert_eq!(decoded.function, "");
        },
        other => panic!("expected a kernel exception, got {:?}", other),
    }
}

#[test]
fn reply_length_field_is_accurate() {
    let samples = vec![
        Reply::Log("hello".to_string()),
        Reply::Ident("lab".to_string()),
        Reply::KernelException(sample_exception()),
        Reply::RpcRequest { service: 7 },
        Reply::FlashRead(vec![1, 2, 3]),
        Reply::FlashOk,
    ];
    for rep in samples {
        let mut wire: Vec<u8> = Vec::new();
        rep.write_to(&mut wire);
        let declared =
            u32::from_be_bytes([wire[4], wire[5], wire[6], wire[7]]) as usize;
        assert_eq!(declared, wire.len());
    }
}

#[test]
fn request_length_field_is_accurate() {
    let samples = vec![
        Request::Log,
        Request::SwitchClock(1),
        Request::LoadLibrary(vec![1, 2, 3]),
        Request::RpcException(sample_exception()),
        Request::FlashWrite { key: "k".to_string(), value: vec![9] },
    ];
    for req in samples {
        let mut wire: Vec<u8> = Vec::new();
        req.write_to(&mut wire);
        let declared =
            u32::from_be_bytes([wire[4], wire[5], wire[6], wire[7]]) as usize;
        assert_eq!(declared, wire.len());
    }
}

#[test]
fn garbage_prefix_resynchronizes() {
    let req = Request::RpcReply { tag: "O".to_string() };
    let mut frame: Vec<u8> = Vec::new();
    req.write_to(&mut frame);

    let mut noisy: Vec<u8> = vec![0x01, 0xfe, 0x99, 0x5a, 0x5a, 0x00];
    noisy.extend(frame.iter().copied());

    let mut clean_reader = Reader::new(frame);
    let mut noisy_reader = Reader::new(noisy);
    let from_clean = Request::read_from(&mut clean_reader).unwrap();
    let from_noisy = Request::read_from(&mut noisy_reader).unwrap();
    assert_eq!(from_clean, from_noisy);
    assert_eq!(from_noisy, Request::RpcReply { tag: "O".to_string() });
}

#[test]
fn two_frames_in_one_stream() {
    let mut wire: Vec<u8> = Vec::new();
    Request::RunKernel.write_to(&mut wire);
    Request::SwitchClock(1).write_to(&mut wire);
    let mut reader = Reader::new(wire);
    assert_eq!(Request::read_from(&mut reader).unwrap(), Request::RunKernel);
    assert_eq!(Request::read_from(&mut reader).unwrap(), Request::SwitchClock(1));
    assert_eq!(reader.remaining_len(), 0);
}
