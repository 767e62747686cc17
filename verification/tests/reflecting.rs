use mdns_reflector::addr::{broadcast_mdns, Ipv4Addr, SocketAddr, SocketAddrV4};
use mdns_reflector::reflector::{
    expects, packet, reflect, Action, Event, Notice, State, Step, PACKET_SIZE,
};
use mdns_reflector::sockets::{create_send_sock, InterfaceSocket, Role};

fn interface(name: &str, address: [u8; 4], mask: [u8; 4]) -> InterfaceSocket {
    let address = Ipv4Addr::new(address[0], address[1], address[2], address[3]);
    let mask = Ipv4Addr::new(mask[0], mask[1], mask[2], mask[3]);
    let mut setup = create_send_sock(name.to_string(), address, mask);
    while setup.pending().is_some() {
        setup = setup.report(true).unwrap();
    }
    match setup.finish() {
        Role::Send(interface) => interface,
        Role::Receive => panic!("a sending socket"),
    }
}

fn three() -> Vec<InterfaceSocket> {
    vec![
        interface("eth0", [192, 168, 1, 1], [255, 255, 255, 0]),
        interface("eth1", [192, 168, 2, 1], [255, 255, 255, 0]),
        interface("wlan0", [10, 0, 0, 1], [255, 0, 0, 0]),
    ]
}

fn v4(a: u8, b: u8, c: u8, d: u8) -> SocketAddr {
    SocketAddr::V4(SocketAddrV4 { ip: Ipv4Addr::new(a, b, c, d), port: 5353 })
}

/// The interfaces that a packet is sent on, if every other send fails.
fn sent_on(sockets: &Vec<InterfaceSocket>, len: usize, from: SocketAddr) -> Vec<usize> {
    let mut sent = Vec::new();
    let mut step = reflect(sockets, false, State::Receiving, Event::Received { len, from });
    while let Action::Send { socket, len: size, to } = step.action {
        assert_eq!(size, len);
        assert_eq!(to, broadcast_mdns());
        let event = if sent.len() % 2 == 0 { Event::Sent { len } } else { Event::SendFailed };
        sent.push(socket);
        assert!(expects(step.state, event));
        step = reflect(sockets, false, step.state, event);
    }
    assert_eq!(step.state, State::Receiving);
    assert_eq!(step.action, Action::Receive);
    sent
}

#[test]
fn packet_goes_to_every_other_network_in_order() {
    assert_eq!(sent_on(&three(), 40, v4(192, 168, 2, 77)), vec![0, 2]);
    assert_eq!(sent_on(&three(), 40, v4(10, 200, 0, 9)), vec![0, 1]);
    assert_eq!(sent_on(&three(), 40, v4(172, 16, 0, 9)), vec![0, 1, 2]);
}

#[test]
fn own_packets_are_dropped() {
    let event = Event::Received { len: 40, from: v4(192, 168, 2, 1) };
    let step = reflect(&three(), true, State::Receiving, event);
    assert_eq!(
        step,
        Step { state: State::Receiving, notices: vec![], action: Action::Receive }
    );
}

#[test]
fn ipv6_goes_everywhere() {
    assert_eq!(sent_on(&three(), 12, SocketAddr::V6), vec![0, 1, 2]);
    let event = Event::Received { len: 12, from: SocketAddr::V6 };
    let step = reflect(&three(), true, State::Receiving, event);
    assert_eq!(
        step.notices,
        vec![Notice::Data { len: 12 }, Notice::FromIpv6, Notice::RepeatingTo { socket: 0 }]
    );
}

#[test]
fn unmasked_interface_gets_only_ipv6() {
    let sockets = vec![
        interface("tun0", [192, 0, 2, 1], [0, 0, 0, 0]),
        interface("eth0", [192, 168, 1, 1], [255, 255, 255, 0]),
    ];
    assert_eq!(sent_on(&sockets, 40, v4(172, 16, 0, 9)), vec![1]);
    assert_eq!(sent_on(&sockets, 40, SocketAddr::V6), vec![0, 1]);
}

#[test]
fn no_interfaces_no_sends() {
    assert_eq!(sent_on(&Vec::new(), 40, v4(172, 16, 0, 9)), Vec::<usize>::new());
}

#[test]
fn notices_of_a_send() {
    let sockets = three();
    let from = v4(192, 168, 1, 50);
    let step = reflect(&sockets, true, State::Receiving, Event::Received { len: 40, from });
    assert_eq!(step.state, State::Repeating { len: 40, from, socket: 1 });
    assert_eq!(step.notices, vec![Notice::Data { len: 40 }, Notice::RepeatingTo { socket: 1 }]);
    let step = reflect(&sockets, true, step.state, Event::Sent { len: 39 });
    assert_eq!(
        step.notices,
        vec![
            Notice::SizeDiffers { expected: 40, sent: 39 },
            Notice::RepeatingTo { socket: 2 }
        ]
    );
    let step = reflect(&sockets, true, step.state, Event::SendFailed);
    assert_eq!(step.notices, vec![Notice::SendFailed]);
    assert_eq!(step.action, Action::Receive);
}

#[test]
fn failed_receive_is_reported_and_tried_again() {
    let step = reflect(&three(), false, State::Receiving, Event::RecvFailed);
    assert_eq!(
        step,
        Step {
            state: State::Receiving,
            notices: vec![Notice::RecvFailed],
            action: Action::Receive
        }
    );
}

#[test]
fn stops_when_told() {
    let step = reflect(&three(), false, State::Receiving, Event::Cancelled);
    assert_eq!(
        step,
        Step {
            state: State::Stopped,
            notices: vec![Notice::ShuttingDown],
            action: Action::Stop
        }
    );
    assert!(!expects(State::Stopped, Event::Cancelled));
    let repeating = State::Repeating { len: 1, from: SocketAddr::V6, socket: 0 };
    assert!(!expects(repeating, Event::Cancelled));
}

#[test]
fn expected_events() {
    let from = SocketAddr::V6;
    assert!(expects(State::Receiving, Event::Received { len: PACKET_SIZE, from }));
    assert!(!expects(State::Receiving, Event::Received { len: PACKET_SIZE + 1, from }));
    assert!(!expects(State::Receiving, Event::SendFailed));
}

#[test]
fn packet_is_the_start_of_the_buffer() {
    assert_eq!(packet(&[1, 2, 3, 4], 3), &[1, 2, 3]);
    assert_eq!(packet(&[1, 2, 3, 4], 0), &[] as &[u8]);
}

#[test]
fn addresses() {
    let group = broadcast_mdns();
    assert_eq!(group.ip.octets(), [224, 0, 0, 251]);
    assert_eq!(group.ip.bits, 0xE000_00FB);
    assert_eq!(group.port, 5353);
    let network = Ipv4Addr::new(192, 168, 77, 5).and(Ipv4Addr::new(255, 255, 240, 0));
    assert_eq!(network.octets(), [192, 168, 64, 0]);
}

/// What is done after each event of a run.
fn actions(sockets: &Vec<InterfaceSocket>, verbose: bool, events: &[Event]) -> Vec<Action> {
    let mut state = State::Receiving;
    let mut actions = Vec::new();
    for event in events {
        assert!(expects(state, *event));
        let step = reflect(sockets, verbose, state, *event);
        state = step.state;
        actions.push(step.action);
    }
    actions
}

#[test]
fn what_changes_no_action() {
    let from = v4(192, 168, 1, 50);
    let other_port =
        SocketAddr::V4(SocketAddrV4 { ip: Ipv4Addr::new(192, 168, 1, 50), port: 1 });
    let run = [
        Event::Received { len: 9, from },
        Event::Sent { len: 9 },
        Event::Sent { len: 9 },
        Event::Received { len: 7, from: SocketAddr::V6 },
        Event::SendFailed,
    ];
    let alike = [
        Event::Received { len: 9, from: other_port },
        Event::SendFailed,
        Event::Sent { len: 1 },
        Event::Received { len: 7, from: SocketAddr::V6 },
        Event::Sent { len: 7 },
    ];
    let mut renamed = three();
    for socket in &mut renamed {
        socket.name.push('x');
    }
    let done = actions(&three(), false, &run);
    assert_eq!(done[4], Action::Send { socket: 1, len: 7, to: broadcast_mdns() });
    assert_eq!(actions(&three(), true, &run), done);
    assert_eq!(actions(&three(), false, &alike), done);
    assert_eq!(actions(&renamed, false, &run), done);
}

#[test]
fn failed_receive_changes_nothing() {
    let from = v4(192, 168, 1, 50);
    let packet = Event::Received { len: 9, from };
    let plain = actions(&three(), false, &[packet, Event::SendFailed]);
    let failed = actions(
        &three(),
        false,
        &[Event::RecvFailed, Event::RecvFailed, packet, Event::SendFailed],
    );
    assert_eq!(&failed[2..], &plain[..]);
}
