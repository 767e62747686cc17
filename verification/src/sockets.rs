//! The sockets that the reflector listens and repeats on, and how they are set
//! up.

use vstd::prelude::*;
use vstd::string::{StringExecFns, StringSliceAdditionalSpecFns};

#[allow(unused_imports)]
use crate::addr::lemma_octets_value;
use crate::addr::{mdns_addr, unspecified, Ipv4Addr, SocketAddrV4, MDNS_PORT};

verus! {

/// An interface that packets are repeated to.
#[derive(Debug, PartialEq, Eq)]
pub struct InterfaceSocket {
    /// interface name.
    pub name: String,
    /// interface address.
    pub address: Ipv4Addr,
    /// interface mask.
    pub mask: Ipv4Addr,
    /// interface network (computed).
    pub network: Ipv4Addr,
}

impl InterfaceSocket {
    /// The network is that of the address under the mask.
    pub open spec fn wf(self) -> bool {
        self.network == self.address.masked(self.mask)
    }
}

/// One call in the set-up of a socket.
#[derive(Clone, Copy, Debug, PartialEq, Eq, Structural)]
pub enum SocketOp {
    /// Open an IPv4 datagram socket.
    Open,
    /// Make it non-blocking, or blocking.
    SetNonblocking(bool),
    /// Let its address be bound again, or not.
    SetReuseAddress(bool),
    /// Bind it to the device that `SocketSetup::device` names.
    BindDevice,
    /// Bind it to an address.
    Bind(SocketAddrV4),
    /// Let the receiving socket join a group on the interface of this address.
    JoinMulticastV4 { group: Ipv4Addr, interface: Ipv4Addr },
    /// Loop multicast packets back, or not.
    SetMulticastLoopV4(bool),
    /// Tell with each packet where it arrived, or not.
    SetPktInfo(bool),
    /// Hand it to the event loop.
    Register,
}

/// The purpose of a socket.
#[derive(Debug, PartialEq, Eq)]
pub enum Role {
    /// It receives from all interfaces.
    Receive,
    /// It sends on this interface.
    Send(InterfaceSocket),
}

/// A call of a set-up failed.
#[derive(Debug, PartialEq, Eq)]
pub struct SetupError {
    /// The call.
    pub op: SocketOp,
    /// What its error is reported under.
    pub context: Option<String>,
}

/// The set-up of a socket: calls in order, each made once the one before it has
/// succeeded.
#[derive(Debug, PartialEq, Eq)]
pub struct SocketSetup {
    role: Role,
    ops: Vec<SocketOp>,
    done: usize,
}

/// The calls that set up the receiving socket.
pub open spec fn recv_ops() -> Seq<SocketOp> {
    seq![
        SocketOp::Open,
        SocketOp::SetNonblocking(true),
        SocketOp::SetReuseAddress(true),
        SocketOp::Bind(SocketAddrV4 { ip: unspecified(), port: MDNS_PORT }),
        SocketOp::SetMulticastLoopV4(true),
        SocketOp::SetPktInfo(true),
        SocketOp::Register,
    ]
}

/// The calls that set up the sending socket of the interface with this address.
pub open spec fn send_ops(address: Ipv4Addr) -> Seq<SocketOp> {
    seq![
        SocketOp::Open,
        SocketOp::SetNonblocking(true),
        SocketOp::SetReuseAddress(true),
        SocketOp::BindDevice,
        SocketOp::Bind(SocketAddrV4 { ip: address, port: MDNS_PORT }),
        SocketOp::JoinMulticastV4 { group: mdns_addr(), interface: address },
        SocketOp::SetMulticastLoopV4(true),
        SocketOp::Register,
    ]
}

/// What a failed call on the receiving socket is reported under.
pub open spec fn recv_context(op: SocketOp) -> Option<Seq<char>> {
    match op {
        SocketOp::Open => Some("recv socket()"@),
        SocketOp::SetNonblocking(_) => Some("recv setsockopt(SO_NONBLOCK)"@),
        SocketOp::SetReuseAddress(_) => Some("recv setsockopt(SO_REUSEADDR)"@),
        SocketOp::Bind(_) => Some("recv bind()"@),
        SocketOp::SetMulticastLoopV4(_) => Some("recv setsockopt(IP_MULTICAST_LOOP)"@),
        SocketOp::SetPktInfo(_) => Some("recv setsockopt(IP_PKTINFO)"@),
        _ => None,
    }
}

/// What a failed call on a sending socket is reported under, before the name of
/// the interface.
pub open spec fn send_context_prefix(op: SocketOp) -> Option<Seq<char>> {
    match op {
        SocketOp::Open => Some("send socket() failed on "@),
        SocketOp::SetNonblocking(_) => Some("send setsockopt(SO_NONBLOCK) failed on "@),
        SocketOp::SetReuseAddress(_) => Some("send setsockopt(SO_REUSEADDR) failed on "@),
        SocketOp::BindDevice => Some("send setsockopt(SO_BINDTODEVICE) failed on "@),
        SocketOp::Bind(_) => Some("send bind() failed on "@),
        SocketOp::JoinMulticastV4 { .. } => Some(
            "recv setsockopt(IP_ADD_MEMBERSHIP) failed on "@,
        ),
        SocketOp::SetMulticastLoopV4(_) => Some("send setsockopt()SO_BINDTODEVICE failed on "@),
        _ => None,
    }
}

/// What a failed call is reported under.
pub open spec fn context_of(role: Role, op: SocketOp) -> Option<Seq<char>> {
    match role {
        Role::Receive => recv_context(op),
        Role::Send(interface) => match send_context_prefix(op) {
            Some(prefix) => Some(prefix + interface.name@),
            None => None,
        },
    }
}

/// The characters of an optional text.
pub open spec fn text_of(text: Option<String>) -> Option<Seq<char>> {
    match text {
        Some(text) => Some(text@),
        None => None,
    }
}

impl SocketSetup {
    /// The purpose of the socket.
    pub closed spec fn role(self) -> Role {
        self.role
    }

    /// All the calls.
    pub closed spec fn ops(self) -> Seq<SocketOp> {
        self.ops@
    }

    /// How many of them have succeeded.
    pub closed spec fn done(self) -> nat {
        self.done as nat
    }

    /// No more calls have succeeded than there are.
    pub open spec fn wf(self) -> bool {
        self.done() <= self.ops().len()
    }

    /// `next` is this set-up with one more call that has succeeded.
    pub open spec fn advances_to(self, next: SocketSetup) -> bool {
        &&& next.role() == self.role()
        &&& next.ops() == self.ops()
        &&& next.done() == self.done() + 1
    }

    /// What the socket is for, once it is ready.
    pub fn finish(self) -> (role: Role)
        requires
            self.done() == self.ops().len(),
        ensures
            role == self.role(),
    {
        self.role
    }

    /// The call to make now, or none if the socket is ready.
    pub fn pending(&self) -> (op: Option<SocketOp>)
        ensures
            op == (if self.done() < self.ops().len() {
                Some(self.ops()[self.done() as int])
            } else {
                None
            }),
    {
        if self.done < self.ops.len() {
            Some(self.ops[self.done])
        } else {
            None
        }
    }

    /// The device that a sending socket is bound to, named like its interface; a
    /// receiving socket is bound to none.
    pub fn device(&self) -> (name: Option<&str>)
        ensures
            match self.role() {
                Role::Send(interface) => name matches Some(device) && device@ == interface.name@,
                Role::Receive => name is None,
            },
    {
        match &self.role {
            Role::Send(interface) => Some(interface.name.as_str()),
            Role::Receive => None,
        }
    }

    /// Takes the outcome of the pending call. A failure ends the set-up.
    pub fn report(self, ok: bool) -> (outcome: Result<SocketSetup, SetupError>)
        requires
            self.wf(),
            self.done() < self.ops().len(),
        ensures
            outcome is Ok <==> ok,
            outcome matches Ok(next) ==> next.wf() && self.advances_to(next),
            outcome matches Err(error) ==> {
                &&& error.op == self.ops()[self.done() as int]
                &&& text_of(error.context) == context_of(self.role(), error.op)
            },
    {
        if ok {
            assert(self.ops@.len() == self.ops.len());
            let done: usize = self.done + 1;
            Ok(SocketSetup { role: self.role, ops: self.ops, done })
        } else {
            let op: SocketOp = self.ops[self.done];
            let context: Option<String> = match &self.role {
                Role::Receive => recv_message(op),
                Role::Send(interface) => send_message(op, interface.name.as_str()),
            };
            Err(SetupError { op, context })
        }
    }
}

/// What a failed call on the receiving socket is reported under.
fn recv_message(op: SocketOp) -> (message: Option<String>)
    ensures
        text_of(message) == recv_context(op),
{
    let text: &str = match op {
        SocketOp::Open => "recv socket()",
        SocketOp::SetNonblocking(_) => "recv setsockopt(SO_NONBLOCK)",
        SocketOp::SetReuseAddress(_) => "recv setsockopt(SO_REUSEADDR)",
        SocketOp::Bind(_) => "recv bind()",
        SocketOp::SetMulticastLoopV4(_) => "recv setsockopt(IP_MULTICAST_LOOP)",
        SocketOp::SetPktInfo(_) => "recv setsockopt(IP_PKTINFO)",
        _ => {
            return None;
        },
    };
    Some(text.to_owned())
}

/// What a failed call on the sending socket of an interface is reported under.
fn send_message(op: SocketOp, ifname: &str) -> (message: Option<String>)
    ensures
        text_of(message) == (match send_context_prefix(op) {
            Some(prefix) => Some(prefix + ifname@),
            None => None,
        }),
{
    let prefix: &str = match op {
        SocketOp::Open => "send socket() failed on ",
        SocketOp::SetNonblocking(_) => "send setsockopt(SO_NONBLOCK) failed on ",
        SocketOp::SetReuseAddress(_) => "send setsockopt(SO_REUSEADDR) failed on ",
        SocketOp::BindDevice => "send setsockopt(SO_BINDTODEVICE) failed on ",
        SocketOp::Bind(_) => "send bind() failed on ",
        SocketOp::JoinMulticastV4 { .. } => "recv setsockopt(IP_ADD_MEMBERSHIP) failed on ",
        SocketOp::SetMulticastLoopV4(_) => "send setsockopt()SO_BINDTODEVICE failed on ",
        _ => {
            return None;
        },
    };
    let mut message: String = prefix.to_owned();
    message.append(ifname);
    Some(message)
}

/// Begins the set-up of the socket that receives from all interfaces.
pub fn create_recv_sock() -> (setup: SocketSetup)
    ensures
        setup.wf(),
        setup.role() == Role::Receive,
        setup.ops() == recv_ops(),
        setup.done() == 0,
{
    let ops: Vec<SocketOp> = vec![
        SocketOp::Open,
        SocketOp::SetNonblocking(true),
        SocketOp::SetReuseAddress(true),
        SocketOp::Bind(SocketAddrV4 { ip: unspecified(), port: MDNS_PORT }),
        // in case someone else on this host needs the data
        SocketOp::SetMulticastLoopV4(true),
        SocketOp::SetPktInfo(true),
        SocketOp::Register,
    ];
    assert(ops@ =~= recv_ops());
    SocketSetup { role: Role::Receive, ops, done: 0 }
}

/// Begins the set-up of the socket that sends on the interface with this name,
/// address and mask.
pub fn create_send_sock(ifname: String, address: Ipv4Addr, mask: Ipv4Addr) -> (setup: SocketSetup)
    ensures
        setup.wf(),
        setup.role() matches Role::Send(interface) && {
            &&& interface.name == ifname
            &&& interface.address == address
            &&& interface.mask == mask
            &&& interface.wf()
        },
        setup.ops() == send_ops(address),
        setup.done() == 0,
{
    let ops: Vec<SocketOp> = vec![
        SocketOp::Open,
        SocketOp::SetNonblocking(true),
        SocketOp::SetReuseAddress(true),
        SocketOp::BindDevice,
        SocketOp::Bind(SocketAddrV4 { ip: address, port: MDNS_PORT }),
        SocketOp::JoinMulticastV4 { group: mdns_addr(), interface: address },
        // in case someone else on this host needs the data
        SocketOp::SetMulticastLoopV4(true),
        SocketOp::Register,
    ];
    assert(ops@ =~= send_ops(address));
    let network: Ipv4Addr = address.and(mask);
    let interface: InterfaceSocket = InterfaceSocket { name: ifname, address, mask, network };
    SocketSetup { role: Role::Send(interface), ops, done: 0 }
}

/// How far the look at an interface's address and mask has come.
#[derive(Debug, PartialEq, Eq)]
pub enum Details {
    /// A socket is to be opened to ask on.
    Open,
    /// The mask of the interface is to be asked for. The request names the
    /// interface by these bytes.
    AskMask { name: Vec<u8> },
    /// The address of the interface is to be asked for. The request names the
    /// interface by these bytes.
    AskAddress { name: Vec<u8>, mask: Ipv4Addr },
    /// The address and the mask are known.
    Known { address: Ipv4Addr, mask: Ipv4Addr },
    /// They cannot be asked for.
    Failed(DetailsError),
}

/// Why an interface's address and mask cannot be asked for.
#[derive(Clone, Copy, Debug, PartialEq, Eq, Structural)]
pub enum DetailsError {
    /// No socket could be opened.
    Socket,
    /// The name of the interface has a zero byte at this index.
    InteriorNul(usize),
}

/// What a step of the look at an interface came to.
#[derive(Clone, Copy, Debug, PartialEq, Eq)]
pub enum DetailsReply {
    /// The socket is open.
    Opened,
    /// The socket could not be opened.
    OpenFailed,
    /// `ioctl` returned `result`, and these four bytes are in the address of its
    /// answer, in the order in which they stand in memory.
    Ioctl { result: i32, sin_addr: [u8; 4] },
}

/// The index is that of the first zero byte.
pub open spec fn is_first_nul(bytes: Seq<u8>, at: int) -> bool {
    &&& 0 <= at < bytes.len()
    &&& bytes[at] == 0
    &&& forall|j: int| 0 <= j < at ==> #[trigger] bytes[j] != 0
}

/// The `size` bytes by which a request names an interface: the name, cut off to
/// leave room for at least one zero byte, and zero bytes behind it.
pub open spec fn request_name(name: Seq<u8>, size: int) -> Seq<u8> {
    Seq::new(
        size as nat,
        |i: int|
            if i < name.len() && i < size - 1 {
                name[i]
            } else {
                0u8
            },
    )
}

/// The address that an `ioctl` reported, its bytes being in network order; none
/// if the call failed.
pub open spec fn reported_address(result: i32, sin_addr: Seq<u8>) -> Ipv4Addr {
    if result == 0 {
        Ipv4Addr::of(sin_addr[0], sin_addr[1], sin_addr[2], sin_addr[3])
    } else {
        unspecified()
    }
}

/// The reply is one to what the look at the interface waits for.
pub open spec fn details_answers(state: Details, reply: DetailsReply) -> bool {
    match state {
        Details::Open => reply is Opened || reply is OpenFailed,
        Details::AskMask { .. } | Details::AskAddress { .. } => reply is Ioctl,
        _ => false,
    }
}

/// `next` is how the look at the interface of this name goes on.
pub open spec fn details_follow(
    ifname: Seq<u8>,
    state: Details,
    reply: DetailsReply,
    next: Details,
) -> bool {
    match (state, reply) {
        (_, DetailsReply::OpenFailed) => next == Details::Failed(DetailsError::Socket),
        (_, DetailsReply::Opened) => if ifname.contains(0) {
            next matches Details::Failed(DetailsError::InteriorNul(at)) && is_first_nul(
                ifname,
                at as int,
            )
        } else {
            next matches Details::AskMask { name } && name@ == request_name(ifname, 16)
        },
        (Details::AskMask { name }, DetailsReply::Ioctl { result, sin_addr }) => next == (
        Details::AskAddress { name, mask: reported_address(result, sin_addr@) }),
        (Details::AskAddress { mask, .. }, DetailsReply::Ioctl { result, sin_addr }) => next == (
        Details::Known { address: reported_address(result, sin_addr@), mask }),
        (_, _) => true,
    }
}

/// The request of the state, if there is one, names the interface of this name.
pub open spec fn details_fit(ifname: Seq<u8>, state: Details) -> bool {
    match state {
        Details::AskMask { name } => name@ == request_name(ifname, 16),
        Details::AskAddress { name, .. } => name@ == request_name(ifname, 16),
        _ => true,
    }
}

/// `libc::IFNAMSIZ`, the room for an interface's name in a request: on Linux, 16
/// bytes.
#[verifier::external_body]
fn ifnamsiz() -> (size: usize)
    ensures
        size == 16,
{
    libc::IFNAMSIZ
}

impl DetailsError {
    /// What is said with the error: where the socket failed, or, as a note, what was
    /// wrong with the name.
    pub open spec fn context_text(self) -> Seq<char> {
        match self {
            DetailsError::Socket => "send socket()"@,
            DetailsError::InteriorNul(_) => "Failed to convert ifname to CString"@,
        }
    }

    /// What is said with the error: where the socket failed, or, as a note, what was
    /// wrong with the name.
    pub fn context(&self) -> (text: &'static str)
        ensures
            text@ == self.context_text(),
    {
        match self {
            DetailsError::Socket => "send socket()",
            DetailsError::InteriorNul(_) => "Failed to convert ifname to CString",
        }
    }
}

/// The address that an `ioctl` reported.
fn address_of(result: i32, sin_addr: [u8; 4]) -> (address: Ipv4Addr)
    ensures
        address == reported_address(result, sin_addr@),
{
    if result == 0 {
        Ipv4Addr::new(sin_addr[0], sin_addr[1], sin_addr[2], sin_addr[3])
    } else {
        unspecified()
    }
}

/// The bytes by which a request names an interface, or the index of a zero byte
/// in its name.
fn name_for_request(ifname: &str) -> (name: Result<Vec<u8>, usize>)
    ensures
        match name {
            Ok(name) => !ifname.spec_bytes().contains(0) && name@ == request_name(
                ifname.spec_bytes(),
                16,
            ),
            Err(at) => is_first_nul(ifname.spec_bytes(), at as int),
        },
{
    let bytes: &[u8] = ifname.as_bytes();
    for i in 0..bytes.len()
        invariant
            bytes@ == ifname.spec_bytes(),
            forall|j: int| 0 <= j < i ==> #[trigger] bytes@[j] != 0,
    {
        if bytes[i] == 0 {
            return Err(i);
        }
    }
    let size: usize = ifnamsiz();
    let mut name: Vec<u8> = Vec::new();
    for i in 0..size
        invariant
            size == 16,
            name@ == request_name(bytes@, 16).take(i as int),
    {
        // the last byte stays zero
        if i < bytes.len() && i < size - 1 {
            name.push(bytes[i]);
        } else {
            name.push(0);
        }
        assert(name@ =~= request_name(bytes@, 16).take(i + 1));
    }
    assert(name@ =~= request_name(bytes@, 16));
    Ok(name)
}

/// One step of the look at the address and mask of an interface, which starts with
/// `Details::Open`. The mask is asked for first.
pub fn get_interface_details(ifname: &str, state: Details, reply: DetailsReply) -> (next: Details)
    requires
        details_answers(state, reply),
    ensures
        details_follow(ifname.spec_bytes(), state, reply, next),
        details_fit(ifname.spec_bytes(), state) ==> details_fit(ifname.spec_bytes(), next),
{
    match (state, reply) {
        (_, DetailsReply::OpenFailed) => Details::Failed(DetailsError::Socket),
        (_, DetailsReply::Opened) => match name_for_request(ifname) {
            Ok(name) => Details::AskMask { name },
            Err(at) => Details::Failed(DetailsError::InteriorNul(at)),
        },
        (Details::AskMask { name }, DetailsReply::Ioctl { result, sin_addr }) => {
            Details::AskAddress { name, mask: address_of(result, sin_addr) }
        },
        (Details::AskAddress { name: _, mask }, DetailsReply::Ioctl { result, sin_addr }) => {
            Details::Known { address: address_of(result, sin_addr), mask }
        },
        (other, _) => other,
    }
}

/// A set-up makes its calls in order and skips none: after `n` successes exactly the
/// first `n` calls are done, and neither the calls nor the purpose have changed.
pub proof fn law_set_up_in_order(setups: Seq<SocketSetup>, n: int)
    requires
        0 <= n < setups.len(),
        setups[0].done() == 0,
        forall|i: int|
            0 <= i < setups.len() - 1 ==> (#[trigger] setups[i]).advances_to(setups[i + 1]),
    ensures
        setups[n].done() == n,
        setups[n].ops() == setups[0].ops(),
        setups[n].role() == setups[0].role(),
    decreases n,
{
    if n > 0 {
        law_set_up_in_order(setups, n - 1);
        assert(setups[n - 1].advances_to(setups[n - 1 + 1]));
    }
}

/// About an interface with a proper name the system is asked twice, by the same
/// request: it answers first with the mask and then with the address, and these are
/// what is known in the end. An answer that fails stands for the unspecified address.
pub proof fn law_details_are_known(
    ifname: Seq<u8>,
    mask: (i32, [u8; 4]),
    address: (i32, [u8; 4]),
    opened: Details,
    masked: Details,
    last: Details,
)
    requires
        !ifname.contains(0),
        details_follow(ifname, Details::Open, DetailsReply::Opened, opened),
        details_follow(
            ifname,
            opened,
            DetailsReply::Ioctl { result: mask.0, sin_addr: mask.1 },
            masked,
        ),
        details_follow(
            ifname,
            masked,
            DetailsReply::Ioctl { result: address.0, sin_addr: address.1 },
            last,
        ),
    ensures
        opened matches Details::AskMask { name } && name@ == request_name(ifname, 16),
        masked matches Details::AskAddress { name, .. } && name@ == request_name(ifname, 16),
        last == (Details::Known {
            address: reported_address(address.0, address.1@),
            mask: reported_address(mask.0, mask.1@),
        }),
{
}

/// The name in a request is as long as it has to be and ends in a zero byte, and a
/// name that is not too long stands in it whole.
pub proof fn law_request_name(name: Seq<u8>)
    ensures
        request_name(name, 16).len() == 16,
        request_name(name, 16).last() == 0,
        name.len() <= 15 ==> request_name(name, 16).take(name.len() as int) == name,
        name.len() > 15 ==> request_name(name, 16).take(15) == name.take(15),
{
}

/// Two names of interfaces are told apart by their requests as long as neither is
/// too long.
pub proof fn law_requests_differ(one: Seq<u8>, other: Seq<u8>)
    requires
        one.len() <= 15,
        other.len() <= 15,
        !one.contains(0),
        !other.contains(0),
        request_name(one, 16) == request_name(other, 16),
    ensures
        one == other,
{
    let request: Seq<u8> = request_name(one, 16);
    if one.len() < other.len() {
        assert(request[one.len() as int] == 0);
        assert(request_name(other, 16)[one.len() as int] == other[one.len() as int]);
        assert(other.contains(0));
    } else if other.len() < one.len() {
        assert(request_name(other, 16)[other.len() as int] == 0);
        assert(request[other.len() as int] == one[other.len() as int]);
        assert(one.contains(0));
    }
    assert forall|i: int| 0 <= i < one.len() implies one[i] == other[i] by {
        assert(request[i] == one[i]);
        assert(request_name(other, 16)[i] == other[i]);
    }
    assert(one =~= other);
}

/// Every call of a set-up but the last reports its failure under a context; the last
/// reports it as it is.
pub proof fn law_failures_have_contexts(interface: InterfaceSocket, address: Ipv4Addr)
    ensures
        forall|i: int|
            0 <= i < recv_ops().len() ==> (context_of(
                Role::Receive,
                #[trigger] recv_ops()[i],
            ) is Some <==> i < recv_ops().len() - 1),
        forall|i: int|
            0 <= i < send_ops(address).len() ==> (context_of(
                Role::Send(interface),
                #[trigger] send_ops(address)[i],
            ) is Some <==> i < send_ops(address).len() - 1),
{
}

/// The sending socket of an interface is set up by eight calls, each of its kind: among
/// them one that binds it, to the address of the interface and port 5353, and one that
/// joins 224.0.0.251 on that address.
pub proof fn law_sending_socket(
    ifname: String,
    address: Ipv4Addr,
    mask: Ipv4Addr,
    setup: SocketSetup,
)
    requires
        call_ensures(create_send_sock, (ifname, address, mask), setup),
    ensures
        setup.ops().len() == 8,
        forall|i: int|
            0 <= i < 8 ==> {
                &&& (#[trigger] setup.ops()[i]) is Open <==> i == 0
                &&& setup.ops()[i] is SetNonblocking <==> i == 1
                &&& setup.ops()[i] is SetReuseAddress <==> i == 2
                &&& setup.ops()[i] is BindDevice <==> i == 3
                &&& setup.ops()[i] is Bind <==> i == 4
                &&& setup.ops()[i] is JoinMulticastV4 <==> i == 5
                &&& setup.ops()[i] is SetMulticastLoopV4 <==> i == 6
                &&& setup.ops()[i] is Register <==> i == 7
                &&& setup.ops()[i] matches SocketOp::SetNonblocking(on) ==> on
                &&& setup.ops()[i] matches SocketOp::SetReuseAddress(on) ==> on
                &&& setup.ops()[i] matches SocketOp::Bind(to) ==> to.ip.bits == address.bits
                    && to.port == 5353
                &&& setup.ops()[i] matches SocketOp::JoinMulticastV4 { group, interface }
                    ==> group.bits == 0xE000_00FB && interface.bits == address.bits
                &&& setup.ops()[i] matches SocketOp::SetMulticastLoopV4(on) ==> on
            },
{
    lemma_octets_value(224, 0, 0, 251);
}

/// The receiving socket is set up by seven calls, each of its kind: among them one that
/// binds it, to any address and port 5353. It joins no group on its own.
pub proof fn law_receiving_socket(setup: SocketSetup)
    requires
        call_ensures(create_recv_sock, (), setup),
    ensures
        setup.ops().len() == 7,
        forall|i: int|
            0 <= i < 7 ==> {
                &&& (#[trigger] setup.ops()[i]) is Open <==> i == 0
                &&& setup.ops()[i] is SetNonblocking <==> i == 1
                &&& setup.ops()[i] is SetReuseAddress <==> i == 2
                &&& setup.ops()[i] is Bind <==> i == 3
                &&& setup.ops()[i] is SetMulticastLoopV4 <==> i == 4
                &&& setup.ops()[i] is SetPktInfo <==> i == 5
                &&& setup.ops()[i] is Register <==> i == 6
                &&& setup.ops()[i] matches SocketOp::SetNonblocking(on) ==> on
                &&& setup.ops()[i] matches SocketOp::SetReuseAddress(on) ==> on
                &&& setup.ops()[i] matches SocketOp::Bind(to) ==> to.ip.bits == 0 && to.port
                    == 5353
                &&& setup.ops()[i] matches SocketOp::SetMulticastLoopV4(on) ==> on
                &&& setup.ops()[i] matches SocketOp::SetPktInfo(on) ==> on
            },
{
}

/// The set-ups are those after each success in turn.
pub open spec fn succeeds_in_turn(setups: Seq<SocketSetup>) -> bool {
    forall|i: int|
        0 <= i < setups.len() - 1 ==> call_ensures(
            SocketSetup::report,
            (#[trigger] setups[i], true),
            Ok(setups[i + 1]),
        )
}

/// After `n` successes, `n` calls are done.
proof fn lemma_done(setups: Seq<SocketSetup>, n: int)
    requires
        0 <= n < setups.len(),
        succeeds_in_turn(setups),
        setups[0].wf(),
        setups[0].done() == 0,
    ensures
        setups[n].wf(),
        setups[n].done() == n,
        setups[n].ops() == setups[0].ops(),
        setups[n].role() == setups[0].role(),
    decreases n,
{
    if n > 0 {
        lemma_done(setups, n - 1);
        assert(call_ensures(SocketSetup::report, (setups[n - 1], true), Ok(setups[n])));
    }
}

/// What is called for the sending socket of an interface, success after success, until it
/// is ready: it is then the socket of an interface with the name, address and mask given,
/// and with the network that they make.
pub proof fn law_sending_socket_call_by_call(
    ifname: String,
    address: Ipv4Addr,
    mask: Ipv4Addr,
    setups: Seq<SocketSetup>,
    n: int,
    pending: Option<SocketOp>,
    device: Option<&str>,
    role: Role,
)
    requires
        0 <= n < setups.len(),
        n <= 8,
        call_ensures(create_send_sock, (ifname, address, mask), setups[0]),
        succeeds_in_turn(setups),
        call_ensures(SocketSetup::pending, (&setups[n],), pending),
        call_ensures(SocketSetup::device, (&setups[n],), device),
        n == 8 ==> call_ensures(SocketSetup::finish, (setups[n],), role),
    ensures
        n == 0 ==> pending == Some(SocketOp::Open),
        n == 1 ==> pending == Some(SocketOp::SetNonblocking(true)),
        n == 2 ==> pending == Some(SocketOp::SetReuseAddress(true)),
        n == 3 ==> pending == Some(SocketOp::BindDevice),
        n == 4 ==> (pending matches Some(SocketOp::Bind(to)) && to.ip.bits == address.bits
            && to.port == 5353),
        n == 5 ==> (pending matches Some(SocketOp::JoinMulticastV4 { group, interface })
            && group.bits == 0xE000_00FB && interface.bits == address.bits),
        n == 6 ==> pending == Some(SocketOp::SetMulticastLoopV4(true)),
        n == 7 ==> pending == Some(SocketOp::Register),
        n == 8 ==> pending is None,
        device matches Some(name) && name@ == ifname@,
        n < 8 ==> call_requires(SocketSetup::report, (setups[n], true)) && call_requires(
            SocketSetup::report,
            (setups[n], false),
        ),
        n == 8 ==> call_requires(SocketSetup::finish, (setups[n],)),
        n == 8 ==> {
            &&& role matches Role::Send(interface)
            &&& interface.name@ == ifname@
            &&& interface.address.bits == address.bits
            &&& interface.mask.bits == mask.bits
            &&& interface.network.bits == address.bits & mask.bits
        },
{
    lemma_done(setups, n);
    lemma_octets_value(224, 0, 0, 251);
}

/// What is called for the receiving socket, success after success, until it is ready.
pub proof fn law_receiving_socket_call_by_call(
    setups: Seq<SocketSetup>,
    n: int,
    pending: Option<SocketOp>,
    device: Option<&str>,
    role: Role,
)
    requires
        0 <= n < setups.len(),
        n <= 7,
        call_ensures(create_recv_sock, (), setups[0]),
        succeeds_in_turn(setups),
        call_ensures(SocketSetup::pending, (&setups[n],), pending),
        call_ensures(SocketSetup::device, (&setups[n],), device),
        n == 7 ==> call_ensures(SocketSetup::finish, (setups[n],), role),
    ensures
        n == 0 ==> pending == Some(SocketOp::Open),
        n == 1 ==> pending == Some(SocketOp::SetNonblocking(true)),
        n == 2 ==> pending == Some(SocketOp::SetReuseAddress(true)),
        n == 3 ==> (pending matches Some(SocketOp::Bind(to)) && to.ip.bits == 0 && to.port
            == 5353),
        n == 4 ==> pending == Some(SocketOp::SetMulticastLoopV4(true)),
        n == 5 ==> pending == Some(SocketOp::SetPktInfo(true)),
        n == 6 ==> pending == Some(SocketOp::Register),
        n == 7 ==> pending is None,
        device is None,
        n < 7 ==> call_requires(SocketSetup::report, (setups[n], true)) && call_requires(
            SocketSetup::report,
            (setups[n], false),
        ),
        n == 7 ==> call_requires(SocketSetup::finish, (setups[n],)),
        n == 7 ==> role is Receive,
{
    lemma_done(setups, n);
}

/// A set-up goes on after a success and ends with a failure, which names the call that was
/// pending.
pub proof fn law_failure_names_its_call(
    setup: SocketSetup,
    pending: Option<SocketOp>,
    ok: bool,
    outcome: Result<SocketSetup, SetupError>,
)
    requires
        setup.done() < setup.ops().len(),
        call_ensures(SocketSetup::pending, (&setup,), pending),
        call_ensures(SocketSetup::report, (setup, ok), outcome),
    ensures
        ok <==> outcome is Ok,
        outcome matches Err(error) ==> pending == Some(error.op),
{
}

/// What is said if a call for the sending socket of an interface fails after `n`
/// successes: which call it was, and the name of the interface.
pub proof fn law_sending_socket_failures(
    ifname: String,
    address: Ipv4Addr,
    mask: Ipv4Addr,
    setups: Seq<SocketSetup>,
    n: int,
    error: SetupError,
)
    requires
        0 <= n < setups.len(),
        n < 8,
        call_ensures(create_send_sock, (ifname, address, mask), setups[0]),
        succeeds_in_turn(setups),
        call_ensures(SocketSetup::report, (setups[n], false), Err(error)),
    ensures
        n < 7 ==> {
            &&& error.context matches Some(text)
            &&& text@ == (if n == 0 {
                "send socket() failed on "@
            } else if n == 1 {
                "send setsockopt(SO_NONBLOCK) failed on "@
            } else if n == 2 {
                "send setsockopt(SO_REUSEADDR) failed on "@
            } else if n == 3 {
                "send setsockopt(SO_BINDTODEVICE) failed on "@
            } else if n == 4 {
                "send bind() failed on "@
            } else if n == 5 {
                "recv setsockopt(IP_ADD_MEMBERSHIP) failed on "@
            } else {
                "send setsockopt()SO_BINDTODEVICE failed on "@
            }) + ifname@
        },
        n == 7 ==> error.context is None,
{
    lemma_done(setups, n);
}

/// What is said if a call for the receiving socket fails after `n` successes.
pub proof fn law_receiving_socket_failures(setups: Seq<SocketSetup>, n: int, error: SetupError)
    requires
        0 <= n < setups.len(),
        n < 7,
        call_ensures(create_recv_sock, (), setups[0]),
        succeeds_in_turn(setups),
        call_ensures(SocketSetup::report, (setups[n], false), Err(error)),
    ensures
        n < 6 ==> {
            &&& error.context matches Some(text)
            &&& text@ == (if n == 0 {
                "recv socket()"@
            } else if n == 1 {
                "recv setsockopt(SO_NONBLOCK)"@
            } else if n == 2 {
                "recv setsockopt(SO_REUSEADDR)"@
            } else if n == 3 {
                "recv bind()"@
            } else if n == 4 {
                "recv setsockopt(IP_MULTICAST_LOOP)"@
            } else {
                "recv setsockopt(IP_PKTINFO)"@
            })
        },
        n == 6 ==> error.context is None,
{
    lemma_done(setups, n);
}

/// Where the request for the mask succeeded, the four bytes of its answer, the most
/// significant first, are the mask; otherwise all its bits are zero. The same request then
/// asks for the address.
pub proof fn law_mask_is_as_reported(
    ifname: &str,
    name: Vec<u8>,
    result: i32,
    sin_addr: [u8; 4],
    next: Details,
)
    requires
        call_ensures(
            get_interface_details,
            (ifname, Details::AskMask { name }, DetailsReply::Ioctl { result, sin_addr }),
            next,
        ),
    ensures
        next matches Details::AskAddress { name: asked, mask } && {
            &&& asked@ == name@
            &&& result == 0 ==> mask.bits == sin_addr@[0] * 0x100_0000 + sin_addr@[1] * 0x1_0000
                + sin_addr@[2] * 0x100 + sin_addr@[3]
            &&& result != 0 ==> mask.bits == 0
        },
{
    lemma_octets_value(sin_addr@[0], sin_addr@[1], sin_addr@[2], sin_addr@[3]);
}

/// Where the request for the address succeeded, the four bytes of its answer, the most
/// significant first, are the address; otherwise all its bits are zero. The mask stays
/// what it was.
pub proof fn law_address_is_as_reported(
    ifname: &str,
    name: Vec<u8>,
    mask: Ipv4Addr,
    result: i32,
    sin_addr: [u8; 4],
    next: Details,
)
    requires
        call_ensures(
            get_interface_details,
            (ifname, Details::AskAddress { name, mask }, DetailsReply::Ioctl { result, sin_addr }),
            next,
        ),
    ensures
        next matches Details::Known { address, mask: kept } && {
            &&& kept.bits == mask.bits
            &&& result == 0 ==> address.bits == sin_addr@[0] * 0x100_0000 + sin_addr@[1]
                * 0x1_0000 + sin_addr@[2] * 0x100 + sin_addr@[3]
            &&& result != 0 ==> address.bits == 0
        },
{
    lemma_octets_value(sin_addr@[0], sin_addr@[1], sin_addr@[2], sin_addr@[3]);
}

/// Once there is a socket to ask on, the mask is asked for. The request holds up to fifteen
/// bytes of the name, then zero bytes up to the sixteenth. A name with a zero byte in it is
/// refused, with the place of the first one.
pub proof fn law_request_is_for_the_interface(ifname: &str, next: Details)
    requires
        call_ensures(get_interface_details, (ifname, Details::Open, DetailsReply::Opened), next),
    ensures
        next matches Details::AskMask { name } ==> {
            &&& forall|i: int|
                0 <= i < ifname.spec_bytes().len() ==> #[trigger] ifname.spec_bytes()[i] != 0
            &&& name@.len() == 16
            &&& forall|i: int|
                0 <= i < 15 && i < ifname.spec_bytes().len() ==> #[trigger] name@[i]
                    == ifname.spec_bytes()[i]
            &&& forall|i: int|
                0 <= i < 16 && (i == 15 || i >= ifname.spec_bytes().len()) ==> #[trigger] name@[i]
                    == 0
        },
        next matches Details::Failed(DetailsError::InteriorNul(at)) ==> {
            &&& at < ifname.spec_bytes().len()
            &&& ifname.spec_bytes()[at as int] == 0
            &&& forall|i: int| 0 <= i < at ==> #[trigger] ifname.spec_bytes()[i] != 0
        },
        next is AskMask || (next matches Details::Failed(error) && error is InteriorNul),
{
    let bytes: Seq<u8> = ifname.spec_bytes();
    assert forall|i: int| !bytes.contains(0) && 0 <= i < bytes.len() implies #[trigger] bytes[i]
        != 0 by {
        assert(bytes.contains(bytes[i]));
    }
}

/// Without a socket to ask on nothing is asked for, whatever the name.
pub proof fn law_no_socket_no_details(ifname: &str, next: Details)
    requires
        call_ensures(
            get_interface_details,
            (ifname, Details::Open, DetailsReply::OpenFailed),
            next,
        ),
    ensures
        next matches Details::Failed(error) && error is Socket,
{
}

/// Every reply can be handed in where it is waited for.
pub proof fn law_replies_are_taken(
    ifname: &str,
    name: Vec<u8>,
    mask: Ipv4Addr,
    result: i32,
    sin_addr: [u8; 4],
)
    ensures
        call_requires(get_interface_details, (ifname, Details::Open, DetailsReply::Opened)),
        call_requires(get_interface_details, (ifname, Details::Open, DetailsReply::OpenFailed)),
        call_requires(
            get_interface_details,
            (ifname, Details::AskMask { name }, DetailsReply::Ioctl { result, sin_addr }),
        ),
        call_requires(
            get_interface_details,
            (ifname, Details::AskAddress { name, mask }, DetailsReply::Ioctl { result, sin_addr }),
        ),
{
}

/// What is said of each failure: for a zero byte the same, wherever it is.
pub proof fn law_details_errors(error: DetailsError, text: &'static str)
    requires
        call_ensures(DetailsError::context, (&error,), text),
    ensures
        error is Socket ==> text@ == "send socket()"@,
        error is InteriorNul ==> text@ == "Failed to convert ifname to CString"@,
{
}

} // verus!
