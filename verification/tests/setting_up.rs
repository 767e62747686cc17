use mdns_reflector::addr::{mdns_addr, unspecified, Ipv4Addr, SocketAddrV4};
use mdns_reflector::sockets::{
    create_recv_sock, create_send_sock, get_interface_details, Details, DetailsError,
    DetailsReply, Role, SetupError, SocketOp, SocketSetup,
};
use mdns_reflector::unix::{setsockopt, setsockopt_args, syscall, SetsockoptArgs, SyscallFailed};
use mdns_reflector::utils::u32_to_usize;

fn all_ops(mut setup: SocketSetup) -> Vec<SocketOp> {
    let mut ops = Vec::new();
    while let Some(op) = setup.pending() {
        ops.push(op);
        setup = setup.report(true).unwrap();
    }
    ops
}

fn failure_at(mut setup: SocketSetup, at: usize) -> SetupError {
    for _ in 0..at {
        setup = setup.report(true).unwrap();
    }
    setup.report(false).unwrap_err()
}

fn send_setup() -> SocketSetup {
    let address = Ipv4Addr::new(192, 168, 1, 1);
    create_send_sock("eth0".to_string(), address, Ipv4Addr::new(255, 255, 255, 0))
}

#[test]
fn receiving_socket_calls() {
    assert_eq!(
        all_ops(create_recv_sock()),
        vec![
            SocketOp::Open,
            SocketOp::SetNonblocking(true),
            SocketOp::SetReuseAddress(true),
            SocketOp::Bind(SocketAddrV4 { ip: unspecified(), port: 5353 }),
            SocketOp::SetMulticastLoopV4(true),
            SocketOp::SetPktInfo(true),
            SocketOp::Register,
        ]
    );
    let mut setup = create_recv_sock();
    while setup.pending().is_some() {
        setup = setup.report(true).unwrap();
    }
    assert_eq!(setup.finish(), Role::Receive);
}

#[test]
fn sending_socket_calls() {
    let address = Ipv4Addr::new(192, 168, 1, 1);
    assert_eq!(
        all_ops(send_setup()),
        vec![
            SocketOp::Open,
            SocketOp::SetNonblocking(true),
            SocketOp::SetReuseAddress(true),
            SocketOp::BindDevice,
            SocketOp::Bind(SocketAddrV4 { ip: address, port: 5353 }),
            SocketOp::JoinMulticastV4 { group: mdns_addr(), interface: address },
            SocketOp::SetMulticastLoopV4(true),
            SocketOp::Register,
        ]
    );
}

#[test]
fn receiving_socket_failures() {
    let contexts = [
        Some("recv socket()"),
        Some("recv setsockopt(SO_NONBLOCK)"),
        Some("recv setsockopt(SO_REUSEADDR)"),
        Some("recv bind()"),
        Some("recv setsockopt(IP_MULTICAST_LOOP)"),
        Some("recv setsockopt(IP_PKTINFO)"),
        None,
    ];
    for (at, context) in contexts.iter().enumerate() {
        let error = failure_at(create_recv_sock(), at);
        assert_eq!(error.op, all_ops(create_recv_sock())[at]);
        assert_eq!(error.context.as_deref(), *context);
    }
}

#[test]
fn sending_socket_failures() {
    let contexts = [
        Some("send socket() failed on eth0"),
        Some("send setsockopt(SO_NONBLOCK) failed on eth0"),
        Some("send setsockopt(SO_REUSEADDR) failed on eth0"),
        Some("send setsockopt(SO_BINDTODEVICE) failed on eth0"),
        Some("send bind() failed on eth0"),
        Some("recv setsockopt(IP_ADD_MEMBERSHIP) failed on eth0"),
        Some("send setsockopt()SO_BINDTODEVICE failed on eth0"),
        None,
    ];
    for (at, context) in contexts.iter().enumerate() {
        let error = failure_at(send_setup(), at);
        assert_eq!(error.op, all_ops(send_setup())[at]);
        assert_eq!(error.context.as_deref(), *context);
    }
}

#[test]
fn network_is_computed() {
    let address = Ipv4Addr::new(192, 168, 77, 5);
    let mask = Ipv4Addr::new(255, 255, 240, 0);
    let mut setup = create_send_sock("br0".to_string(), address, mask);
    while setup.pending().is_some() {
        setup = setup.report(true).unwrap();
    }
    let Role::Send(interface) = setup.finish() else {
        panic!("a sending socket");
    };
    assert_eq!(interface.name, "br0");
    assert_eq!(interface.address, address);
    assert_eq!(interface.mask, mask);
    assert_eq!(interface.network, Ipv4Addr::new(192, 168, 64, 0));
}

#[test]
fn details_of_an_interface() {
    let ask = get_interface_details("eth0", Details::Open, DetailsReply::Opened);
    let mut name = b"eth0".to_vec();
    name.resize(16, 0);
    assert_eq!(ask, Details::AskMask { name: name.clone() });
    let reply = DetailsReply::Ioctl { result: 0, sin_addr: [255, 255, 255, 0] };
    let ask = get_interface_details("eth0", ask, reply);
    let mask = Ipv4Addr::new(255, 255, 255, 0);
    assert_eq!(ask, Details::AskAddress { name, mask });
    let reply = DetailsReply::Ioctl { result: 0, sin_addr: [192, 168, 1, 1] };
    let known = get_interface_details("eth0", ask, reply);
    assert_eq!(known, Details::Known { address: Ipv4Addr::new(192, 168, 1, 1), mask });
}

#[test]
fn unanswered_details_are_unspecified() {
    let reply = DetailsReply::Ioctl { result: -1, sin_addr: [1, 2, 3, 4] };
    let ask = get_interface_details("eth0", Details::Open, DetailsReply::Opened);
    let ask = get_interface_details("eth0", ask, reply);
    assert_eq!(
        ask,
        Details::AskAddress {
            name: b"eth0\0\0\0\0\0\0\0\0\0\0\0\0".to_vec(),
            mask: unspecified()
        }
    );
    assert_eq!(
        get_interface_details("eth0", ask, reply),
        Details::Known { address: unspecified(), mask: unspecified() }
    );
}

#[test]
fn names_in_requests() {
    let request = |name: &str| match get_interface_details(
        name,
        Details::Open,
        DetailsReply::Opened,
    ) {
        Details::AskMask { name } => name,
        other => panic!("{:?}", other),
    };
    assert_eq!(request("abcdefghijklmno"), b"abcdefghijklmno\0".to_vec());
    assert_eq!(request("abcdefghijklmnop"), b"abcdefghijklmno\0".to_vec());
    assert_eq!(request(""), vec![0; 16]);
    assert_ne!(request("eth0"), request("eth1"));
}

#[test]
fn details_that_cannot_be_asked_for() {
    let failed = get_interface_details("eth0", Details::Open, DetailsReply::OpenFailed);
    assert_eq!(failed, Details::Failed(DetailsError::Socket));
    assert_eq!(DetailsError::Socket.context(), "send socket()");
    let failed = get_interface_details("et\0h\0", Details::Open, DetailsReply::Opened);
    assert_eq!(failed, Details::Failed(DetailsError::InteriorNul(2)));
    assert_eq!(
        DetailsError::InteriorNul(2).context(),
        "Failed to convert ifname to CString"
    );
}

#[test]
fn system_calls() {
    assert_eq!(syscall(-1), Err(SyscallFailed));
    assert_eq!(syscall(3), Ok(3));
    assert_eq!(syscall(-2), Ok(-2));
    assert_eq!(setsockopt(-1), Err(SyscallFailed));
    assert_eq!(setsockopt(0), Ok(()));
    assert_eq!(
        setsockopt_args(7, 0, 8, 1),
        SetsockoptArgs { fd: 7, level: 0, name: 8, length: 1 }
    );
    assert_eq!(setsockopt_args(7, 0, 8, 4294967295).length, 4294967295);
    assert_eq!(setsockopt_args(7, 0, 8, 4294967297).length, 1);
}

#[test]
fn widening() {
    assert_eq!(u32_to_usize(0), 0);
    assert_eq!(u32_to_usize(u32::MAX), 4294967295);
}

#[test]
fn devices() {
    let mut setup = send_setup();
    assert_eq!(setup.device(), Some("eth0"));
    while setup.pending() != Some(SocketOp::BindDevice) {
        setup = setup.report(true).unwrap();
    }
    assert_eq!(setup.device(), Some("eth0"));
    assert_eq!(create_recv_sock().device(), None);
}
