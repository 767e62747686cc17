//! Repeating each packet to the other networks.

use vstd::prelude::*;
use vstd::slice::slice_subrange;

#[allow(unused_imports)]
use crate::addr::lemma_octets_value;
use crate::addr::{broadcast_mdns, SocketAddr, SocketAddrV4};
use crate::sockets::InterfaceSocket;

verus! {

/// The size of the buffer that packets are received into.
pub const PACKET_SIZE: usize = 65536;

/// What the reflector is waiting for.
#[derive(Clone, Copy, Debug, PartialEq, Eq, Structural)]
pub enum State {
    /// A packet, or the order to stop.
    Receiving,
    /// The outcome of repeating the packet of `len` bytes from `from` on the
    /// interface at index `socket`.
    Repeating { len: usize, from: SocketAddr, socket: usize },
    /// Nothing more.
    Stopped,
}

/// What the last action came to.
#[derive(Clone, Copy, Debug, PartialEq, Eq, Structural)]
pub enum Event {
    /// The order to stop came while a packet was awaited.
    Cancelled,
    /// Receiving failed.
    RecvFailed,
    /// `len` bytes from `from` are at the start of the buffer.
    Received { len: usize, from: SocketAddr },
    /// The system took `len` bytes of the packet.
    Sent { len: usize },
    /// Sending failed.
    SendFailed,
}

/// What is to be done next.
#[derive(Clone, Copy, Debug, PartialEq, Eq, Structural)]
pub enum Action {
    /// Wait for a packet or for the order to stop.
    Receive,
    /// Send the packet, the first `len` bytes of the buffer, to `to` on the
    /// interface at index `socket`.
    Send { socket: usize, len: usize, to: SocketAddrV4 },
    /// Leave.
    Stop,
}

/// What is to be logged before the next action.
#[derive(Clone, Copy, Debug, PartialEq, Eq, Structural)]
pub enum Notice {
    /// Receiving failed.
    RecvFailed,
    /// A packet of `len` bytes came from another host.
    Data { len: usize },
    /// The packet that is about to be repeated came over IPv6.
    FromIpv6,
    /// The packet is about to be repeated on the interface at this index.
    RepeatingTo { socket: usize },
    /// The system took another number of bytes than the packet has.
    SizeDiffers { expected: usize, sent: usize },
    /// Sending failed.
    SendFailed,
    /// The reflector stops.
    ShuttingDown,
}

/// What follows an event.
#[derive(Debug, PartialEq, Eq)]
pub struct Step {
    pub state: State,
    pub notices: Vec<Notice>,
    pub action: Action,
}

impl InterfaceSocket {
    /// The sender has this interface's own address.
    pub open spec fn sent_by_itself(self, from: SocketAddr) -> bool {
        from matches SocketAddr::V4(v4) && v4.ip == self.address
    }

    /// The sender is on this interface's network.
    pub open spec fn on_network(self, from: SocketAddr) -> bool {
        from matches SocketAddr::V4(v4) && v4.ip.masked(self.mask) == self.network
    }
}

/// The sender is one of the reflector's own interfaces.
pub open spec fn is_loopback(sockets: Seq<InterfaceSocket>, from: SocketAddr) -> bool {
    exists|i: int| 0 <= i < sockets.len() && (#[trigger] sockets[i]).sent_by_itself(from)
}

/// The first interface from index `k` on whose network the sender is not on.
pub open spec fn next_target(sockets: Seq<InterfaceSocket>, from: SocketAddr, k: int) -> Option<int>
    decreases sockets.len() - k,
{
    if k >= sockets.len() {
        None
    } else if !sockets[k].on_network(from) {
        Some(k)
    } else {
        next_target(sockets, from, k + 1)
    }
}

/// Repeating the packet goes on with the interfaces from index `k` on.
pub open spec fn resumed(sockets: Seq<InterfaceSocket>, len: usize, from: SocketAddr, k: int) -> State {
    match next_target(sockets, from, k) {
        Some(i) => State::Repeating { len, from, socket: i as usize },
        None => State::Receiving,
    }
}

/// The event is one that can come in this state.
pub open spec fn expected(state: State, event: Event) -> bool {
    match state {
        State::Receiving => match event {
            Event::Cancelled => true,
            Event::RecvFailed => true,
            Event::Received { len, .. } => len <= PACKET_SIZE,
            _ => false,
        },
        State::Repeating { .. } => event is Sent || event is SendFailed,
        State::Stopped => false,
    }
}

/// The state names an interface that there is, and a packet that the buffer
/// holds.
pub open spec fn fits(sockets: Seq<InterfaceSocket>, state: State) -> bool {
    state matches State::Repeating { len, socket, .. } ==> socket < sockets.len() && len
        <= PACKET_SIZE
}

/// The state that follows.
pub open spec fn next_state(sockets: Seq<InterfaceSocket>, state: State, event: Event) -> State {
    match (state, event) {
        (_, Event::Cancelled) => State::Stopped,
        (_, Event::Received { len, from }) => if is_loopback(sockets, from) {
            State::Receiving
        } else {
            resumed(sockets, len, from, 0)
        },
        // one interface's failure does not keep the packet from the others
        (State::Repeating { len, from, socket }, _) => resumed(sockets, len, from, socket + 1),
        (_, _) => State::Receiving,
    }
}

/// The action that a state waits on.
pub open spec fn action_in(state: State) -> Action {
    match state {
        State::Receiving => Action::Receive,
        State::Repeating { len, socket, .. } => Action::Send { socket, len, to: broadcast_mdns() },
        State::Stopped => Action::Stop,
    }
}

/// What is logged of the event itself.
pub open spec fn event_notices(
    sockets: Seq<InterfaceSocket>,
    state: State,
    event: Event,
) -> Seq<Notice> {
    match (state, event) {
        (_, Event::Cancelled) => seq![Notice::ShuttingDown],
        (_, Event::RecvFailed) => seq![Notice::RecvFailed],
        (_, Event::Received { len, from }) => if is_loopback(sockets, from) {
            seq![]
        } else {
            seq![Notice::Data { len }]
        },
        (State::Repeating { len, .. }, Event::Sent { len: sent }) => if sent == len {
            seq![]
        } else {
            seq![Notice::SizeDiffers { expected: len, sent }]
        },
        (_, Event::Sent { .. }) => seq![],
        (_, Event::SendFailed) => seq![Notice::SendFailed],
    }
}

/// What is logged of the action that a state waits on.
pub open spec fn action_notices(verbose: bool, state: State) -> Seq<Notice> {
    match state {
        State::Repeating { from, socket, .. } => {
            let family: Seq<Notice> = if from is V6 { seq![Notice::FromIpv6] } else { seq![] };
            let target: Seq<Notice> = if verbose {
                seq![Notice::RepeatingTo { socket }]
            } else {
                seq![]
            };
            family + target
        },
        _ => seq![],
    }
}

/// All that is logged before the next action.
pub open spec fn notices_of(
    sockets: Seq<InterfaceSocket>,
    verbose: bool,
    state: State,
    event: Event,
) -> Seq<Notice> {
    event_notices(sockets, state, event) + action_notices(
        verbose,
        next_state(sockets, state, event),
    )
}

/// The next action.
pub open spec fn next_action(
    sockets: Seq<InterfaceSocket>,
    verbose: bool,
    state: State,
    event: Event,
) -> Action {
    action_in(next_state(sockets, state, event))
}

/// Whether the event can come in this state: what `reflect` asks of its caller.
pub fn expects(state: State, event: Event) -> (answer: bool)
    ensures
        answer == expected(state, event),
{
    match (state, event) {
        (State::Receiving, Event::Cancelled) => true,
        (State::Receiving, Event::RecvFailed) => true,
        (State::Receiving, Event::Received { len, from: _ }) => len <= PACKET_SIZE,
        (State::Repeating { .. }, Event::Sent { .. }) => true,
        (State::Repeating { .. }, Event::SendFailed) => true,
        (_, _) => false,
    }
}

/// One step of the reflector, which starts in `State::Receiving`.
pub fn reflect(sockets: &Vec<InterfaceSocket>, verbose: bool, state: State, event: Event) -> (step:
    Step)
    requires
        expected(state, event),
        fits(sockets@, state),
    ensures
        step.state == next_state(sockets@, state, event),
        step.notices@ == notices_of(sockets@, verbose, state, event),
        step.action == next_action(sockets@, verbose, state, event),
        fits(sockets@, step.state),
{
    assert(sockets@.len() == sockets.len());
    let mut notices: Vec<Notice> = Vec::new();
    let next: State = match (state, event) {
        (_, Event::Cancelled) => {
            notices.push(Notice::ShuttingDown);
            State::Stopped
        },
        (_, Event::RecvFailed) => {
            notices.push(Notice::RecvFailed);
            State::Receiving
        },
        (_, Event::Received { len, from }) => {
            if any_own(sockets, from) {
                State::Receiving
            } else {
                notices.push(Notice::Data { len });
                resume(sockets, len, from, 0)
            }
        },
        (State::Repeating { len, from, socket }, Event::Sent { len: sent }) => {
            if sent != len {
                notices.push(Notice::SizeDiffers { expected: len, sent });
            }
            resume(sockets, len, from, socket + 1)
        },
        (State::Repeating { len, from, socket }, Event::SendFailed) => {
            notices.push(Notice::SendFailed);
            resume(sockets, len, from, socket + 1)
        },
        (_, _) => State::Receiving,
    };
    let action: Action = match next {
        State::Receiving => Action::Receive,
        State::Repeating { len, from, socket } => {
            if let SocketAddr::V6 = from {
                notices.push(Notice::FromIpv6);
            }
            if verbose {
                notices.push(Notice::RepeatingTo { socket });
            }
            Action::Send { socket, len, to: broadcast_mdns() }
        },
        State::Stopped => Action::Stop,
    };
    Step { state: next, notices, action }
}

/// The bytes of a packet of `len` bytes that was received into the buffer.
pub fn packet(buffer: &[u8], len: usize) -> (data: &[u8])
    requires
        len <= buffer@.len(),
    ensures
        data@ == buffer@.take(len as int),
{
    slice_subrange(buffer, 0, len)
}

/// Whether the sender is one of the reflector's own interfaces.
fn any_own(sockets: &Vec<InterfaceSocket>, from: SocketAddr) -> (found: bool)
    ensures
        found == is_loopback(sockets@, from),
{
    let source: SocketAddrV4 = match from {
        SocketAddr::V4(v4) => v4,
        SocketAddr::V6 => {
            return false;
        },
    };
    for i in 0..sockets.len()
        invariant
            from == SocketAddr::V4(source),
            forall|j: int|
                0 <= j < i ==> !(#[trigger] sockets@[j]).sent_by_itself(from),
    {
        if sockets[i].address == source.ip {
            assert(sockets@[i as int].sent_by_itself(from));
            return true;
        }
    }
    false
}

/// Goes on repeating the packet with the interfaces from index `start` on.
fn resume(sockets: &Vec<InterfaceSocket>, len: usize, from: SocketAddr, start: usize) -> (state:
    State)
    requires
        start <= sockets.len(),
        len <= PACKET_SIZE,
    ensures
        state == resumed(sockets@, len, from, start as int),
        fits(sockets@, state),
{
    let mut socket: usize = start;
    while socket < sockets.len()
        invariant
            start <= socket <= sockets.len(),
            len <= PACKET_SIZE,
            next_target(sockets@, from, start as int) == next_target(sockets@, from, socket as int),
        decreases sockets.len() - socket,
    {
        let same_network: bool = match from {
            SocketAddr::V4(v4) => v4.ip.and(sockets[socket].mask) == sockets[socket].network,
            SocketAddr::V6 => false,
        };
        if !same_network {
            return State::Repeating { len, from, socket };
        }
        socket += 1;
    }
    State::Receiving
}

/// The interfaces from index `k` on whose network the sender is not on, in
/// ascending order.
pub open spec fn targets_from(sockets: Seq<InterfaceSocket>, from: SocketAddr, k: int) -> Seq<int>
    decreases sockets.len() - k,
{
    if k >= sockets.len() {
        seq![]
    } else if !sockets[k].on_network(from) {
        seq![k] + targets_from(sockets, from, k + 1)
    } else {
        targets_from(sockets, from, k + 1)
    }
}

/// The event is the outcome of a send.
pub open spec fn is_send_outcome(event: Event) -> bool {
    event is Sent || event is SendFailed
}

/// The state after a run of events.
pub open spec fn state_after(
    sockets: Seq<InterfaceSocket>,
    state: State,
    events: Seq<Event>,
) -> State
    decreases events.len(),
{
    if events.len() == 0 {
        state
    } else {
        next_state(sockets, state_after(sockets, state, events.drop_last()), events.last())
    }
}

/// The next target is the first of the remaining ones.
proof fn lemma_next_target(sockets: Seq<InterfaceSocket>, from: SocketAddr, k: int)
    requires
        0 <= k,
    ensures
        match next_target(sockets, from, k) {
            Some(i) => {
                &&& k <= i < sockets.len()
                &&& !sockets[i].on_network(from)
                &&& targets_from(sockets, from, k) == seq![i] + targets_from(sockets, from, i + 1)
            },
            None => targets_from(sockets, from, k) == Seq::<int>::empty(),
        },
    decreases sockets.len() - k,
{
    if k < sockets.len() && sockets[k].on_network(from) {
        lemma_next_target(sockets, from, k + 1);
    }
}

/// What the remaining targets are.
proof fn lemma_targets_from(sockets: Seq<InterfaceSocket>, from: SocketAddr, k: int)
    requires
        0 <= k,
    ensures
        forall|i: int| #[trigger]
            targets_from(sockets, from, k).contains(i) <==> k <= i < sockets.len()
                && !sockets[i].on_network(from),
        forall|m: int, n: int|
            0 <= m < n < targets_from(sockets, from, k).len() ==> #[trigger] targets_from(
                sockets,
                from,
                k,
            )[m] < #[trigger] targets_from(sockets, from, k)[n],
    decreases sockets.len() - k,
{
    let all: Seq<int> = targets_from(sockets, from, k);
    if k < sockets.len() {
        let rest: Seq<int> = targets_from(sockets, from, k + 1);
        lemma_targets_from(sockets, from, k + 1);
        if !sockets[k].on_network(from) {
            assert(all == seq![k] + rest);
            assert forall|i: int| #[trigger]
                all.contains(i) <==> k <= i < sockets.len() && !sockets[i].on_network(from) by {
                if i == k {
                    assert(all[0] == i);
                } else if rest.contains(i) {
                    let n: int = choose|n: int| 0 <= n < rest.len() && rest[n] == i;
                    assert(all[n + 1] == i);
                } else if all.contains(i) {
                    let n: int = choose|n: int| 0 <= n < all.len() && all[n] == i;
                    assert(rest[n - 1] == i);
                }
            }
            assert forall|m: int, n: int| 0 <= m < n < all.len() implies #[trigger] all[m]
                < #[trigger] all[n] by {
                assert(all[n] == rest[n - 1]);
                assert(rest.contains(rest[n - 1]));
                if m > 0 {
                    assert(all[m] == rest[m - 1]);
                }
            }
        }
    }
}

/// Which interfaces a packet is meant for: exactly those whose network its
/// sender is not on, each once, in the order of the interfaces.
pub proof fn law_targets(sockets: Seq<InterfaceSocket>, from: SocketAddr)
    ensures
        forall|i: int| #[trigger]
            targets_from(sockets, from, 0).contains(i) <==> 0 <= i < sockets.len()
                && !sockets[i].on_network(from),
        forall|m: int, n: int|
            0 <= m < n < targets_from(sockets, from, 0).len() ==> #[trigger] targets_from(
                sockets,
                from,
                0,
            )[m] < #[trigger] targets_from(sockets, from, 0)[n],
{
    lemma_targets_from(sockets, from, 0);
}

/// A packet from another host is sent, whole, once on each interface that it is
/// meant for, in order, whatever the sends come to; then the next packet is
/// awaited.
pub proof fn law_packet_reaches_its_targets(
    sockets: Seq<InterfaceSocket>,
    len: usize,
    from: SocketAddr,
    outcomes: Seq<Event>,
)
    requires
        sockets.len() <= usize::MAX,
        !is_loopback(sockets, from),
        outcomes.len() <= targets_from(sockets, from, 0).len(),
        forall|i: int| 0 <= i < outcomes.len() ==> is_send_outcome(#[trigger] outcomes[i]),
    ensures
        ({
            let targets: Seq<int> = targets_from(sockets, from, 0);
            let received: State = next_state(
                sockets,
                State::Receiving,
                Event::Received { len, from },
            );
            let state: State = state_after(sockets, received, outcomes);
            if outcomes.len() < targets.len() {
                let socket: usize = targets[outcomes.len() as int] as usize;
                &&& socket == targets[outcomes.len() as int]
                &&& state == State::Repeating { len, from, socket }
                &&& action_in(state) == Action::Send { socket, len, to: broadcast_mdns() }
            } else {
                &&& state == State::Receiving
                &&& action_in(state) == Action::Receive
            }
        }),
{
    lemma_run(sockets, len, from, outcomes);
    lemma_targets_from(sockets, from, 0);
    let targets: Seq<int> = targets_from(sockets, from, 0);
    if outcomes.len() < targets.len() {
        assert(targets.contains(targets[outcomes.len() as int]));
    }
}

/// After `n` outcomes the packet goes on with the targets from the `n`-th on.
proof fn lemma_run(
    sockets: Seq<InterfaceSocket>,
    len: usize,
    from: SocketAddr,
    outcomes: Seq<Event>,
)
    requires
        sockets.len() <= usize::MAX,
        !is_loopback(sockets, from),
        outcomes.len() <= targets_from(sockets, from, 0).len(),
        forall|i: int| 0 <= i < outcomes.len() ==> is_send_outcome(#[trigger] outcomes[i]),
    ensures
        ({
            let targets: Seq<int> = targets_from(sockets, from, 0);
            let received: State = next_state(
                sockets,
                State::Receiving,
                Event::Received { len, from },
            );
            let state: State = state_after(sockets, received, outcomes);
            if outcomes.len() < targets.len() {
                let socket: int = targets[outcomes.len() as int];
                &&& 0 <= socket < sockets.len()
                &&& state == State::Repeating { len, from, socket: socket as usize }
                &&& targets.skip(outcomes.len() as int + 1) == targets_from(
                    sockets,
                    from,
                    socket + 1,
                )
            } else {
                state == State::Receiving
            }
        }),
    decreases outcomes.len(),
{
    let targets: Seq<int> = targets_from(sockets, from, 0);
    let n: int = outcomes.len() as int;
    if n == 0 {
        lemma_next_target(sockets, from, 0);
        if targets.len() > 0 {
            assert(targets.skip(1) =~= targets_from(sockets, from, targets[0] + 1));
        }
    } else {
        lemma_run(sockets, len, from, outcomes.drop_last());
        let previous: int = targets[n - 1];
        lemma_next_target(sockets, from, previous + 1);
        assert(is_send_outcome(outcomes[n - 1]));
        let rest: Seq<int> = targets_from(sockets, from, previous + 1);
        assert(rest == targets.skip(n));
        if n < targets.len() {
            assert(rest[0] == targets[n]);
            assert(targets.skip(n + 1) =~= rest.skip(1));
            assert(rest.skip(1) =~= targets_from(sockets, from, rest[0] + 1));
        }
    }
}

/// A packet that one of the reflector's own interfaces sent is dropped without a
/// word.
pub proof fn law_own_packets_are_dropped(
    sockets: Seq<InterfaceSocket>,
    verbose: bool,
    len: usize,
    from: SocketAddr,
)
    requires
        is_loopback(sockets, from),
    ensures
        ({
            let event: Event = Event::Received { len, from };
            let state: State = next_state(sockets, State::Receiving, event);
            &&& state == State::Receiving
            &&& notices_of(sockets, verbose, State::Receiving, event) == Seq::<Notice>::empty()
        }),
{
}

/// No packet is ever repeated on the network that it came from: whatever
/// happens, an interface that is sent on is not on the sender's network.
pub proof fn law_never_back_to_its_network(
    sockets: Seq<InterfaceSocket>,
    state: State,
    event: Event,
)
    requires
        sockets.len() <= usize::MAX,
        expected(state, event),
        fits(sockets, state),
    ensures
        next_state(sockets, state, event) matches State::Repeating { from, socket, .. } ==> {
            &&& socket < sockets.len()
            &&& !sockets[socket as int].on_network(from)
        },
{
    match (state, event) {
        (_, Event::Received { len, from }) => {
            lemma_next_target(sockets, from, 0);
        },
        (State::Repeating { len, from, socket }, _) => {
            lemma_next_target(sockets, from, socket + 1);
        },
        _ => {},
    }
}

/// A packet that came over IPv6 is meant for every interface.
pub proof fn law_ipv6_goes_everywhere(sockets: Seq<InterfaceSocket>)
    ensures
        !is_loopback(sockets, SocketAddr::V6),
        targets_from(sockets, SocketAddr::V6, 0) == Seq::new(sockets.len(), |i: int| i),
{
    lemma_ipv6_targets(sockets, 0);
}

/// The same of the interfaces from index `k` on.
proof fn lemma_ipv6_targets(sockets: Seq<InterfaceSocket>, k: int)
    requires
        0 <= k <= sockets.len(),
    ensures
        targets_from(sockets, SocketAddr::V6, k) == Seq::new(
            (sockets.len() - k) as nat,
            |i: int| k + i,
        ),
    decreases sockets.len() - k,
{
    if k < sockets.len() {
        lemma_ipv6_targets(sockets, k + 1);
    }
}

/// An interface whose mask is not known gets no packet that came over IPv4: under
/// the empty mask every sender is on its network.
pub proof fn law_unmasked_interface_is_left_out(socket: InterfaceSocket, source: SocketAddrV4)
    requires
        socket.wf(),
        socket.mask == crate::addr::unspecified(),
    ensures
        socket.on_network(SocketAddr::V4(source)),
{
    let address: u32 = socket.address.bits;
    let sender: u32 = source.ip.bits;
    assert(address & 0 == sender & 0) by (bit_vector);
}

/// The reflector stops on the order to stop and on nothing else, and no event
/// comes after that.
pub proof fn law_stops_when_told(sockets: Seq<InterfaceSocket>, state: State, event: Event)
    requires
        expected(state, event),
    ensures
        next_state(sockets, state, event) is Stopped <==> event is Cancelled,
        !expected(State::Stopped, event),
{
}

/// Each event of the run can come in the state that those before it lead to.
pub open spec fn is_run(sockets: Seq<InterfaceSocket>, events: Seq<Event>) -> bool {
    forall|i: int|
        0 <= i < events.len() ==> expected(
            state_after(sockets, State::Receiving, #[trigger] events.take(i)),
            events[i],
        )
}

/// Runs can be taken in parts: what follows a run depends on nothing but the state it
/// leads to.
pub proof fn law_runs_compose(
    sockets: Seq<InterfaceSocket>,
    state: State,
    first: Seq<Event>,
    then_on: Seq<Event>,
)
    ensures
        state_after(sockets, state, first + then_on) == state_after(
            sockets,
            state_after(sockets, state, first),
            then_on,
        ),
    decreases then_on.len(),
{
    if then_on.len() == 0 {
        assert(first + then_on =~= first);
    } else {
        assert((first + then_on).drop_last() =~= first + then_on.drop_last());
        law_runs_compose(sockets, state, first, then_on.drop_last());
    }
}

/// In every run, whatever happened before, a packet that is being repeated fits the
/// buffer, did not come from the reflector itself, and is sent on an interface whose
/// network its sender is not on.
pub proof fn law_every_run(sockets: Seq<InterfaceSocket>, events: Seq<Event>)
    requires
        sockets.len() <= usize::MAX,
        is_run(sockets, events),
    ensures
        fits(sockets, state_after(sockets, State::Receiving, events)),
        state_after(sockets, State::Receiving, events) matches State::Repeating {
            from,
            socket,
            ..
        } ==> !is_loopback(sockets, from) && !sockets[socket as int].on_network(from),
    decreases events.len(),
{
    if events.len() > 0 {
        let before: Seq<Event> = events.drop_last();
        assert forall|i: int| 0 <= i < before.len() implies expected(
            state_after(sockets, State::Receiving, #[trigger] before.take(i)),
            before[i],
        ) by {
            assert(before.take(i) =~= events.take(i));
        }
        law_every_run(sockets, before);
        assert(events.take(events.len() - 1) =~= before);
        let state: State = state_after(sockets, State::Receiving, before);
        law_never_back_to_its_network(sockets, state, events.last());
        match (state, events.last()) {
            (_, Event::Received { from, .. }) => {
                lemma_next_target(sockets, from, 0);
            },
            (State::Repeating { from, socket, .. }, _) => {
                lemma_next_target(sockets, from, socket + 1);
            },
            _ => {},
        }
    }
}

/// A failed receive changes nothing later: without it, the run leads to the same.
pub proof fn law_failed_receive_changes_nothing(
    sockets: Seq<InterfaceSocket>,
    state: State,
    first: Seq<Event>,
    then_on: Seq<Event>,
)
    requires
        expected(state_after(sockets, state, first), Event::RecvFailed),
    ensures
        state_after(sockets, state, first.push(Event::RecvFailed) + then_on) == state_after(
            sockets,
            state,
            first + then_on,
        ),
{
    assert(first.push(Event::RecvFailed).drop_last() =~= first);
    law_runs_compose(sockets, state, first.push(Event::RecvFailed), then_on);
    law_runs_compose(sockets, state, first, then_on);
}

/// The two senders have the same address.
pub open spec fn same_sender(one: SocketAddr, other: SocketAddr) -> bool {
    match (one, other) {
        (SocketAddr::V4(a), SocketAddr::V4(b)) => a.ip == b.ip,
        (SocketAddr::V6, SocketAddr::V6) => true,
        _ => false,
    }
}

/// The two events are equal, but for the sender's port and for what a send came to.
pub open spec fn alike(one: Event, other: Event) -> bool {
    match (one, other) {
        (Event::Received { len: a, from: x }, Event::Received { len: b, from: y }) => a == b
            && same_sender(x, y),
        _ => one == other || is_send_outcome(one) && is_send_outcome(other),
    }
}

/// The two states are equal, but for the sender's port.
pub open spec fn alike_states(one: State, other: State) -> bool {
    match (one, other) {
        (
            State::Repeating { len: a, from: x, socket: i },
            State::Repeating { len: b, from: y, socket: j },
        ) => a == b && i == j && same_sender(x, y),
        _ => one == other,
    }
}

/// The two lists of interfaces are equal, but for names.
pub open spec fn alike_interfaces(
    one: Seq<InterfaceSocket>,
    other: Seq<InterfaceSocket>,
) -> bool {
    &&& one.len() == other.len()
    &&& forall|i: int|
        0 <= i < one.len() ==> {
            &&& (#[trigger] one[i]).address == other[i].address
            &&& one[i].mask == other[i].mask
            &&& one[i].network == other[i].network
        }
}

/// The next target depends on nothing in which the two cases differ.
proof fn lemma_alike_targets(
    one: Seq<InterfaceSocket>,
    other: Seq<InterfaceSocket>,
    x: SocketAddr,
    y: SocketAddr,
    k: int,
)
    requires
        0 <= k,
        alike_interfaces(one, other),
        same_sender(x, y),
    ensures
        next_target(one, x, k) == next_target(other, y, k),
    decreases one.len() - k,
{
    if k < one.len() {
        assert(one[k].on_network(x) == other[k].on_network(y));
        lemma_alike_targets(one, other, x, y, k + 1);
    }
}

/// Nor does the next state, but for the sender's port.
proof fn lemma_alike_step(
    one: Seq<InterfaceSocket>,
    other: Seq<InterfaceSocket>,
    s: State,
    t: State,
    e: Event,
    f: Event,
)
    requires
        alike_interfaces(one, other),
        alike_states(s, t),
        alike(e, f),
    ensures
        alike_states(next_state(one, s, e), next_state(other, t, f)),
{
    match (e, f) {
        (Event::Received { from: x, .. }, Event::Received { from: y, .. }) => {
            lemma_alike_targets(one, other, x, y, 0);
            assert(forall|i: int|
                0 <= i < one.len() ==> (#[trigger] one[i]).sent_by_itself(x)
                    == other[i].sent_by_itself(y));
            if is_loopback(one, x) {
                let i: int = choose|i: int|
                    0 <= i < one.len() && (#[trigger] one[i]).sent_by_itself(x);
                assert(other[i].sent_by_itself(y));
            }
            if is_loopback(other, y) {
                let i: int = choose|i: int|
                    0 <= i < other.len() && (#[trigger] other[i]).sent_by_itself(y);
                assert(one[i].sent_by_itself(x));
            }
        },
        _ => {
            if let State::Repeating { from: x, socket, .. } = s {
                if let State::Repeating { from: y, .. } = t {
                    lemma_alike_targets(one, other, x, y, socket + 1);
                }
            }
        },
    }
}

/// Neither the names of interfaces nor the ports of senders nor what sends came to
/// change any action: after runs that differ in nothing else, the same is done.
pub proof fn law_what_changes_no_action(
    one: Seq<InterfaceSocket>,
    other: Seq<InterfaceSocket>,
    run: Seq<Event>,
    run_alike: Seq<Event>,
)
    requires
        alike_interfaces(one, other),
        run.len() == run_alike.len(),
        forall|i: int| 0 <= i < run.len() ==> alike(#[trigger] run[i], run_alike[i]),
    ensures
        alike_states(
            state_after(one, State::Receiving, run),
            state_after(other, State::Receiving, run_alike),
        ),
        action_in(state_after(one, State::Receiving, run)) == action_in(
            state_after(other, State::Receiving, run_alike),
        ),
    decreases run.len(),
{
    if run.len() > 0 {
        let before: Seq<Event> = run.drop_last();
        let before_alike: Seq<Event> = run_alike.drop_last();
        assert forall|i: int| 0 <= i < before.len() implies alike(
            #[trigger] before[i],
            before_alike[i],
        ) by {
            assert(alike(run[i], run_alike[i]));
        }
        law_what_changes_no_action(one, other, before, before_alike);
        assert(alike(run[run.len() - 1], run_alike[run.len() - 1]));
        lemma_alike_step(
            one,
            other,
            state_after(one, State::Receiving, before),
            state_after(other, State::Receiving, before_alike),
            run.last(),
            run_alike.last(),
        );
    }
}

/// Verbosity changes no action; it adds to what is logged where a packet is about to be
/// repeated, and nothing else.
pub proof fn law_verbosity_only_logs(
    sockets: Seq<InterfaceSocket>,
    state: State,
    event: Event,
)
    ensures
        next_action(sockets, true, state, event) == next_action(sockets, false, state, event),
        notices_of(sockets, true, state, event) == (match next_state(sockets, state, event) {
            State::Repeating { socket, .. } => notices_of(sockets, false, state, event).push(
                Notice::RepeatingTo { socket },
            ),
            _ => notices_of(sockets, false, state, event),
        }),
{
}

/// Every step does what its new state stands for: it waits for a packet, it sends to
/// 224.0.0.251:5353 as many bytes as the packet has, on the interface that the packet has
/// come to, or it leaves.
pub proof fn law_action_is_that_of_the_state(
    sockets: Vec<InterfaceSocket>,
    verbose: bool,
    state: State,
    event: Event,
    step: Step,
)
    requires
        call_ensures(reflect, (&sockets, verbose, state, event), step),
    ensures
        match step.state {
            State::Receiving => step.action == Action::Receive,
            State::Repeating { len, from, socket } => {
                &&& step.action matches Action::Send { socket: on, len: size, to }
                &&& on == socket
                &&& size == len
                &&& to.ip.bits == 0xE000_00FB
                &&& to.port == 5353
            },
            State::Stopped => step.action == Action::Stop,
        },
{
    lemma_octets_value(224, 0, 0, 251);
}

/// A packet from the address of any interface, whatever its port, is dropped without a
/// word, and the next one is awaited.
pub proof fn law_no_interface_is_answered(
    sockets: Vec<InterfaceSocket>,
    verbose: bool,
    k: int,
    source: SocketAddrV4,
    len: usize,
    step: Step,
)
    requires
        0 <= k < sockets@.len(),
        source.ip.bits == sockets@[k].address.bits,
        call_ensures(
            reflect,
            (
                &sockets,
                verbose,
                State::Receiving,
                Event::Received { len, from: SocketAddr::V4(source) },
            ),
            step,
        ),
    ensures
        step.state == State::Receiving,
        step.action == Action::Receive,
        step.notices@.len() == 0,
{
    assert(sockets@[k].sent_by_itself(SocketAddr::V4(source)));
}

/// A packet from an address that no interface has is taken notice of, with its size, before
/// anything else.
pub proof fn law_other_hosts_are_heard(
    sockets: Vec<InterfaceSocket>,
    verbose: bool,
    from: SocketAddr,
    len: usize,
    step: Step,
)
    requires
        from matches SocketAddr::V4(source) ==> forall|k: int|
            0 <= k < sockets@.len() ==> (#[trigger] sockets@[k]).address.bits != source.ip.bits,
        call_ensures(
            reflect,
            (&sockets, verbose, State::Receiving, Event::Received { len, from }),
            step,
        ),
    ensures
        step.notices@.len() > 0,
        step.notices@[0] == (Notice::Data { len }),
{
    assert(!is_loopback(sockets@, from));
}

/// A packet from another host goes first to the first interface that does not share the
/// network of its sender. If there is none, the next packet is awaited.
pub proof fn law_first_interface(
    sockets: Vec<InterfaceSocket>,
    verbose: bool,
    from: SocketAddr,
    len: usize,
    step: Step,
)
    requires
        from matches SocketAddr::V4(source) ==> forall|k: int|
            0 <= k < sockets@.len() ==> (#[trigger] sockets@[k]).address.bits != source.ip.bits,
        call_ensures(
            reflect,
            (&sockets, verbose, State::Receiving, Event::Received { len, from }),
            step,
        ),
    ensures
        match step.state {
            State::Repeating { len: size, from: sender, socket } => {
                &&& size == len
                &&& sender == from
                &&& socket < sockets@.len()
                &&& from matches SocketAddr::V4(source) ==> {
                    &&& source.ip.bits & sockets@[socket as int].mask.bits
                        != sockets@[socket as int].network.bits
                    &&& forall|k: int|
                        0 <= k < socket ==> source.ip.bits & (#[trigger] sockets@[k]).mask.bits
                            == sockets@[k].network.bits
                }
                &&& from is V6 ==> socket == 0
            },
            State::Receiving => {
                &&& from matches SocketAddr::V4(source) ==> forall|k: int|
                    0 <= k < sockets@.len() ==> source.ip.bits & (#[trigger] sockets@[k]).mask.bits
                        == sockets@[k].network.bits
                &&& from is V6 ==> sockets@.len() == 0
            },
            State::Stopped => false,
        },
{
    assert(sockets@.len() == sockets.len());
    assert(!is_loopback(sockets@, from));
    lemma_skipped(sockets@, from, 0);
    assert(from is V6 && sockets@.len() > 0 ==> !sockets@[0].on_network(from));
}

/// Whatever a send came to, the packet goes on to the next interface that does not share
/// the network of its sender. If there is none, the next packet is awaited.
pub proof fn law_next_interface(
    sockets: Vec<InterfaceSocket>,
    verbose: bool,
    from: SocketAddr,
    len: usize,
    socket: usize,
    outcome: Event,
    step: Step,
)
    requires
        socket < sockets@.len(),
        outcome is Sent || outcome is SendFailed,
        call_ensures(
            reflect,
            (&sockets, verbose, State::Repeating { len, from, socket }, outcome),
            step,
        ),
    ensures
        match step.state {
            State::Repeating { len: size, from: sender, socket: next } => {
                &&& size == len
                &&& sender == from
                &&& socket < next < sockets@.len()
                &&& from matches SocketAddr::V4(source) ==> {
                    &&& source.ip.bits & sockets@[next as int].mask.bits
                        != sockets@[next as int].network.bits
                    &&& forall|k: int|
                        socket < k < next ==> source.ip.bits & (#[trigger] sockets@[k]).mask.bits
                            == sockets@[k].network.bits
                }
                &&& from is V6 ==> next == socket + 1
            },
            State::Receiving => {
                &&& from matches SocketAddr::V4(source) ==> forall|k: int|
                    socket < k < sockets@.len() ==> source.ip.bits & (
                    #[trigger] sockets@[k]).mask.bits == sockets@[k].network.bits
                &&& from is V6 ==> socket + 1 == sockets@.len()
            },
            State::Stopped => false,
        },
{
    assert(sockets@.len() == sockets.len());
    lemma_skipped(sockets@, from, socket + 1);
    assert(from is V6 && socket + 1 < sockets@.len() ==> !sockets@[socket + 1].on_network(from));
}

/// The interfaces that are passed over share the network of the sender.
proof fn lemma_skipped(sockets: Seq<InterfaceSocket>, from: SocketAddr, k: int)
    requires
        0 <= k <= sockets.len(),
    ensures
        match next_target(sockets, from, k) {
            Some(i) => {
                &&& k <= i < sockets.len()
                &&& !sockets[i].on_network(from)
                &&& forall|j: int| k <= j < i ==> (#[trigger] sockets[j]).on_network(from)
            },
            None => forall|j: int|
                k <= j < sockets.len() ==> (#[trigger] sockets[j]).on_network(from),
        },
    decreases sockets.len() - k,
{
    if k < sockets.len() && sockets[k].on_network(from) {
        lemma_skipped(sockets, from, k + 1);
    }
}

/// An order to stop is followed, and a failed receive leads to another.
pub proof fn law_without_a_packet(
    sockets: Vec<InterfaceSocket>,
    verbose: bool,
    stopped: Step,
    failed: Step,
)
    requires
        call_ensures(reflect, (&sockets, verbose, State::Receiving, Event::Cancelled), stopped),
        call_ensures(reflect, (&sockets, verbose, State::Receiving, Event::RecvFailed), failed),
    ensures
        stopped.state == State::Stopped,
        stopped.action == Action::Stop,
        failed.state == State::Receiving,
        failed.action == Action::Receive,
{
}

/// What a step logs, and when: each notice if and only if there is reason for it, and once.
/// What happened comes before what is about to be done, and the interface last.
pub proof fn law_what_is_logged(
    sockets: Vec<InterfaceSocket>,
    verbose: bool,
    state: State,
    event: Event,
    step: Step,
    notice: Notice,
)
    requires
        state is Receiving ==> event is Cancelled || event is RecvFailed || event is Received,
        state is Repeating ==> event is Sent || event is SendFailed,
        !(state is Stopped),
        call_ensures(reflect, (&sockets, verbose, state, event), step),
    ensures
        step.notices@.contains(notice) <==> match notice {
            Notice::RecvFailed => event is RecvFailed,
            Notice::Data { len } => {
                &&& event matches Event::Received { len: size, from }
                &&& len == size
                &&& from matches SocketAddr::V4(source) ==> forall|k: int|
                    0 <= k < sockets@.len() ==> (#[trigger] sockets@[k]).address.bits
                        != source.ip.bits
            },
            Notice::FromIpv6 => step.state matches State::Repeating { from, .. } && from is V6,
            Notice::RepeatingTo { socket } => verbose && (step.state matches State::Repeating {
                socket: on,
                ..
            } && socket == on),
            Notice::SizeDiffers { expected, sent } => {
                &&& state matches State::Repeating { len, .. }
                &&& event matches Event::Sent { len: taken }
                &&& expected == len
                &&& sent == taken
                &&& sent != expected
            },
            Notice::SendFailed => event is SendFailed,
            Notice::ShuttingDown => event is Cancelled,
        },
        step.notices@.no_duplicates(),
        forall|i: int|
            0 < i < step.notices@.len() ==> (#[trigger] step.notices@[i]) is FromIpv6
                || step.notices@[i] is RepeatingTo,
        forall|i: int|
            0 <= i < step.notices@.len() - 1 ==> !((#[trigger] step.notices@[i]) is RepeatingTo),
{
    let first: Seq<Notice> = event_notices(sockets@, state, event);
    let second: Seq<Notice> = action_notices(verbose, step.state);
    let all: Seq<Notice> = step.notices@;
    assert(all == first + second);
    assert(first.len() <= 1 && second.len() <= 2);
    if let Event::Received { len, from } = event {
        if let SocketAddr::V4(source) = from {
            if is_loopback(sockets@, from) {
                let k: int = choose|k: int|
                    0 <= k < sockets@.len() && (#[trigger] sockets@[k]).sent_by_itself(from);
                assert(sockets@[k].address.bits == source.ip.bits);
            } else {
                assert forall|k: int| 0 <= k < sockets@.len() implies (
                #[trigger] sockets@[k]).address.bits != source.ip.bits by {
                    assert(!sockets@[k].sent_by_itself(from));
                }
            }
        }
    }
    assert(all.contains(notice) <==> first.contains(notice) || second.contains(notice)) by {
        if first.contains(notice) {
            assert(all[first.index_of(notice)] == notice);
        }
        if second.contains(notice) {
            assert(all[first.len() + second.index_of(notice)] == notice);
        }
    }
    assert(first.contains(notice) <==> first.len() == 1 && first[0] == notice);
    assert(second.contains(notice) <==> second.len() >= 1 && second[0] == notice || second.len()
        == 2 && second[1] == notice) by {
        if second.len() >= 1 && second[0] == notice {
            assert(second.contains(second[0]));
        }
        if second.len() == 2 && second[1] == notice {
            assert(second.contains(second[1]));
        }
    }
}

/// Which events are expected: while a packet is awaited, the order to stop, a failure, and
/// a packet of up to 65536 bytes; while one is being sent, an outcome of that; and nothing
/// after the end.
pub proof fn law_what_is_expected(state: State, event: Event, answer: bool)
    requires
        call_ensures(expects, (state, event), answer),
    ensures
        answer ==> !(state is Stopped),
        event is Cancelled || event is RecvFailed ==> (answer <==> state is Receiving),
        event matches Event::Received { len, .. } ==> (answer <==> state is Receiving && len
            <= 65536),
        event is Sent || event is SendFailed ==> (answer <==> state is Repeating),
{
}

/// The reflector never gets stuck: it takes whatever is expected at first, and whatever is
/// expected after a step.
pub proof fn law_expected_events_are_taken(
    sockets: Vec<InterfaceSocket>,
    verbose: bool,
    state: State,
    event: Event,
    step: Step,
    next: Event,
)
    requires
        call_ensures(reflect, (&sockets, verbose, state, event), step),
    ensures
        call_ensures(expects, (State::Receiving, next), true) ==> call_requires(
            reflect,
            (&sockets, verbose, State::Receiving, next),
        ),
        call_ensures(expects, (step.state, next), true) ==> call_requires(
            reflect,
            (&sockets, verbose, step.state, next),
        ),
{
}

/// A packet is made of the bytes that were received, all of them and no others.
pub proof fn law_packet_is_what_was_received(buffer: &[u8], len: usize, data: &[u8])
    requires
        len <= buffer@.len(),
        call_ensures(packet, (buffer, len), data),
    ensures
        call_requires(packet, (buffer, len)),
        data@.len() == len,
        forall|i: int| 0 <= i < len ==> #[trigger] data@[i] == buffer@[i],
{
}

/// The life of a packet, step by step: it comes from another host, and every send has an
/// outcome. It is sent on each interface that does not share the network of its sender,
/// once, in the order of the interfaces, and each time whole; then the next packet is
/// awaited.
pub proof fn law_life_of_a_packet(
    sockets: Vec<InterfaceSocket>,
    verbose: bool,
    len: usize,
    source: SocketAddrV4,
    outcomes: Seq<Event>,
    steps: Seq<Step>,
)
    requires
        forall|k: int|
            0 <= k < sockets@.len() ==> (#[trigger] sockets@[k]).address.bits != source.ip.bits,
        steps.len() == outcomes.len() + 1,
        call_ensures(
            reflect,
            (
                &sockets,
                verbose,
                State::Receiving,
                Event::Received { len, from: SocketAddr::V4(source) },
            ),
            steps[0],
        ),
        forall|i: int|
            0 <= i < outcomes.len() ==> {
                &&& (#[trigger] outcomes[i]) is Sent || outcomes[i] is SendFailed
                &&& steps[i].action is Send
                &&& call_ensures(
                    reflect,
                    (&sockets, verbose, steps[i].state, outcomes[i]),
                    steps[i + 1],
                )
            },
        !(steps.last().action is Send),
    ensures
        steps.last().action == Action::Receive,
        forall|i: int|
            0 <= i < outcomes.len() ==> {
                &&& (#[trigger] steps[i]).action matches Action::Send { socket, len: size, to }
                &&& size == len
                &&& to.ip.bits == 0xE000_00FB
                &&& to.port == 5353
                &&& socket < sockets@.len()
                &&& source.ip.bits & sockets@[socket as int].mask.bits
                    != sockets@[socket as int].network.bits
            },
        forall|i: int, j: int|
            0 <= i < j < outcomes.len() ==> {
                &&& (#[trigger] steps[i]).action matches Action::Send { socket: one, .. }
                &&& (#[trigger] steps[j]).action matches Action::Send { socket: other, .. }
                &&& one < other
            },
        forall|k: int|
            0 <= k < sockets@.len() && source.ip.bits & (#[trigger] sockets@[k]).mask.bits
                != sockets@[k].network.bits ==> exists|i: int|
                0 <= i < outcomes.len() && ((#[trigger] steps[i]).action matches Action::Send {
                    socket,
                    ..
                } && socket == k),
{
    lemma_life(sockets, verbose, len, source, outcomes, steps, outcomes.len() as int);
    lemma_octets_value(224, 0, 0, 251);
    assert forall|i: int| 0 <= i < outcomes.len() implies {
        &&& (#[trigger] steps[i]).action matches Action::Send { socket, len: size, to }
        &&& size == len
        &&& to.ip.bits == 0xE000_00FB
        &&& to.port == 5353
        &&& socket < sockets@.len()
        &&& source.ip.bits & sockets@[socket as int].mask.bits
            != sockets@[socket as int].network.bits
    } by {
        lemma_life(sockets, verbose, len, source, outcomes, steps, i);
        assert(outcomes[i] is Sent || outcomes[i] is SendFailed);
    }
    assert forall|i: int, j: int| 0 <= i < j < outcomes.len() implies {
        &&& (#[trigger] steps[i]).action matches Action::Send { socket: one, .. }
        &&& (#[trigger] steps[j]).action matches Action::Send { socket: other, .. }
        &&& one < other
    } by {
        lemma_life(sockets, verbose, len, source, outcomes, steps, j);
    }
}

/// The same up to step `n`: all interfaces before the one that is sent on are done with.
proof fn lemma_life(
    sockets: Vec<InterfaceSocket>,
    verbose: bool,
    len: usize,
    source: SocketAddrV4,
    outcomes: Seq<Event>,
    steps: Seq<Step>,
    n: int,
)
    requires
        0 <= n <= outcomes.len(),
        forall|k: int|
            0 <= k < sockets@.len() ==> (#[trigger] sockets@[k]).address.bits != source.ip.bits,
        steps.len() == outcomes.len() + 1,
        call_ensures(
            reflect,
            (
                &sockets,
                verbose,
                State::Receiving,
                Event::Received { len, from: SocketAddr::V4(source) },
            ),
            steps[0],
        ),
        forall|i: int|
            0 <= i < outcomes.len() ==> {
                &&& (#[trigger] outcomes[i]) is Sent || outcomes[i] is SendFailed
                &&& steps[i].action is Send
                &&& call_ensures(
                    reflect,
                    (&sockets, verbose, steps[i].state, outcomes[i]),
                    steps[i + 1],
                )
            },
    ensures
        match steps[n].state {
            State::Repeating { len: size, from, socket } => {
                &&& size == len
                &&& from == SocketAddr::V4(source)
                &&& socket < sockets@.len()
                &&& steps[n].action == (Action::Send { socket, len, to: broadcast_mdns() })
                &&& source.ip.bits & sockets@[socket as int].mask.bits
                    != sockets@[socket as int].network.bits
                &&& forall|i: int|
                    0 <= i < n ==> ((#[trigger] steps[i]).action matches Action::Send {
                        socket: one,
                        ..
                    } && one < socket)
            },
            State::Receiving => steps[n].action == Action::Receive,
            State::Stopped => false,
        },
        forall|k: int|
            0 <= k < sockets@.len() && (steps[n].state matches State::Repeating { socket, .. }
                ==> k < socket) && source.ip.bits & (#[trigger] sockets@[k]).mask.bits
                != sockets@[k].network.bits ==> exists|i: int|
                0 <= i < n && ((#[trigger] steps[i]).action matches Action::Send { socket, .. }
                    && socket == k),
    decreases n,
{
    let from: SocketAddr = SocketAddr::V4(source);
    if n == 0 {
        law_first_interface(sockets, verbose, from, len, steps[0]);
    } else {
        lemma_life(sockets, verbose, len, source, outcomes, steps, n - 1);
        let outcome: Event = outcomes[n - 1];
        assert(outcome is Sent || outcome is SendFailed);
        assert(steps[n - 1].action is Send);
        assert(call_ensures(reflect, (&sockets, verbose, steps[n - 1].state, outcome), steps[n]));
        if let State::Repeating { len: size, from: sender, socket } = steps[n - 1].state {
            law_next_interface(sockets, verbose, from, len, socket, outcome, steps[n]);
        }
    }
}

} // verus!
