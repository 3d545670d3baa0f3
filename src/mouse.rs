//! The mouse driver: command transport, initialization with wheel detection,
//! and the byte-by-byte path from raw input to events.
use crate::decoder::{
    decode, decode_repeated, is_framed, lemma_position_saturates, packet_delta_x, packet_delta_y,
    saturate_i16, DeviceState,
};
use crate::event::{MouseButton, MouseEvent};
use crate::packet::{assemble_step, packet_len, PacketAssembler};
use crate::ps2::{
    input_ready, mouse_byte_ready, status_input_ready, status_mouse_byte_ready, PortIo,
    MOUSE_CMD_ENABLE_PACKET_STREAMING, MOUSE_CMD_GET_DEVICE_ID, MOUSE_CMD_SET_DEFAULTS,
    MOUSE_CMD_SET_SAMPLE_RATE, POLL_LIMIT, PS2_CMD_ENABLE_SECOND_PORT, PS2_CMD_WRITE_TO_MOUSE,
    PS2_COMMAND_PORT, PS2_DATA_PORT, PS2_STATUS_PORT, WHEEL_DEVICE_ID,
};
use vstd::prelude::*;

verus! {

/// Why talking to the mouse failed.
#[derive(Debug, Clone, Copy, PartialEq, Eq, Structural)]
pub enum MouseError {
    /// No response came within the polling budget.
    Timeout,
    /// The device did not switch to four-byte packets.
    UnsupportedFeature,
}

impl MouseError {
    /// A short description of the failure.
    pub fn reason(&self) -> (r: &'static str)
        ensures
            *self == MouseError::Timeout ==> r@ == "Mouse read timeout"@,
            *self == MouseError::UnsupportedFeature ==> r@ == "Wheel not supported"@,
    {
        match self {
            MouseError::Timeout => "Mouse read timeout",
            MouseError::UnsupportedFeature => "Wheel not supported",
        }
    }
}

/// A PS/2 controller reached through `io`.
///
/// The controller keeps, as ghost state, a record of its port traffic: the
/// outcome of every attempt to receive a byte from the mouse (the byte, or
/// `None` when waiting for it gave up), every status byte read, and every
/// byte written with its port.
pub struct Ps2Controller<P> {
    pub io: P,
    received: Ghost<Seq<Option<u8>>>,
    statuses: Ghost<Seq<u8>>,
    sent: Ghost<Seq<(u16, u8)>>,
}

impl<P: PortIo> Ps2Controller<P> {
    /// The outcomes of all attempts so far to receive a byte from the mouse.
    pub closed spec fn received(&self) -> Seq<Option<u8>> {
        self.received@
    }

    /// The port access the controller goes through.
    pub closed spec fn port(&self) -> P {
        self.io
    }

    /// All status bytes read so far.
    pub closed spec fn statuses(&self) -> Seq<u8> {
        self.statuses@
    }

    /// All writes so far, as (port, byte).
    pub closed spec fn sent(&self) -> Seq<(u16, u8)> {
        self.sent@
    }

    pub fn new(io: P) -> (r: Ps2Controller<P>)
        ensures
            r.port() == io,
            r.received() == Seq::<Option<u8>>::empty(),
            r.statuses() == Seq::<u8>::empty(),
            r.sent() == Seq::<(u16, u8)>::empty(),
    {
        Ps2Controller {
            io,
            received: Ghost(Seq::empty()),
            statuses: Ghost(Seq::empty()),
            sent: Ghost(Seq::empty()),
        }
    }

    /// Reads the status register.
    fn read_status(&mut self) -> (r: u8)
        ensures
            final(self).received() == old(self).received(),
            final(self).statuses() == old(self).statuses().push(r),
            final(self).sent() == old(self).sent(),
    {
        let status = self.io.read_byte(PS2_STATUS_PORT);
        self.statuses = Ghost(self.statuses@.push(status));
        status
    }

    /// Takes a byte from the mouse out of the data port.
    fn receive(&mut self) -> (r: u8)
        ensures
            final(self).received() == old(self).received().push(Some(r)),
            final(self).statuses() == old(self).statuses(),
            final(self).sent() == old(self).sent(),
    {
        let b = self.io.read_byte(PS2_DATA_PORT);
        self.received = Ghost(self.received@.push(Some(b)));
        b
    }

    /// Notes that waiting for a byte from the mouse gave up.
    fn give_up(&mut self)
        ensures
            final(self).received() == old(self).received().push(None),
            final(self).statuses() == old(self).statuses(),
            final(self).sent() == old(self).sent(),
    {
        self.received = Ghost(self.received@.push(None));
    }

    /// Writes `value` to `port`.
    fn write(&mut self, port: u16, value: u8)
        ensures
            final(self).received() == old(self).received(),
            final(self).statuses() == old(self).statuses(),
            final(self).sent() == old(self).sent().push((port, value)),
    {
        self.io.write_byte(port, value);
        self.sent = Ghost(self.sent@.push((port, value)));
    }
}

/// What was added to a record between two of its states.
pub open spec fn since<T>(before: Seq<T>, after: Seq<T>) -> Seq<T> {
    after.subrange(before.len() as int, after.len() as int)
}

/// Whether `st` are the statuses that waiting for the controller to take a
/// byte reads: polls up to the first that shows it ready, and at most
/// `POLL_LIMIT` of them.
pub open spec fn is_write_wait(st: Seq<u8>) -> bool {
    &&& 1 <= st.len() <= POLL_LIMIT
    &&& forall|i: int| 0 <= i < st.len() - 1 ==> !input_ready(#[trigger] st[i])
    &&& input_ready(st.last()) || st.len() == POLL_LIMIT
}

/// Whether `st` are the statuses that waiting for a byte from the mouse
/// reads: polls up to the first that shows one, and at most `POLL_LIMIT` of
/// them.
pub open spec fn is_read_wait(st: Seq<u8>) -> bool {
    &&& 1 <= st.len() <= POLL_LIMIT
    &&& forall|i: int| 0 <= i < st.len() - 1 ==> !mouse_byte_ready(#[trigger] st[i])
    &&& mouse_byte_ready(st.last()) || st.len() == POLL_LIMIT
}

/// Whether `st` are two waits for the controller, the second starting at
/// index `k`.
pub open spec fn is_two_write_waits(st: Seq<u8>, k: int) -> bool {
    &&& 0 <= k <= st.len()
    &&& is_write_wait(st.subrange(0, k))
    &&& is_write_wait(st.subrange(k, st.len() as int))
}

/// The writes that send `bytes` to the mouse, each routed by the controller
/// command that forwards the next data byte to it.
pub open spec fn routed(bytes: Seq<u8>) -> Seq<(u16, u8)>
    decreases bytes.len(),
{
    if bytes.len() == 0 {
        Seq::empty()
    } else {
        routed(bytes.drop_last()) + seq![
            (PS2_COMMAND_PORT, PS2_CMD_WRITE_TO_MOUSE),
            (PS2_DATA_PORT, bytes.last()),
        ]
    }
}

/// The bytes the wheel probe sends, in order: three sample rates, then the
/// request for the device identifier.
pub open spec fn probe_commands() -> Seq<u8> {
    seq![
        MOUSE_CMD_SET_SAMPLE_RATE,
        200u8,
        MOUSE_CMD_SET_SAMPLE_RATE,
        100u8,
        MOUSE_CMD_SET_SAMPLE_RATE,
        80u8,
        MOUSE_CMD_GET_DEVICE_ID,
    ]
}

/// Whether `rs` is what the wheel probe can receive: seven responses, or
/// fewer when the last of them timed out.
pub open spec fn is_probe_trace(rs: Seq<Option<u8>>) -> bool {
    &&& 1 <= rs.len() <= 7
    &&& forall|i: int| 0 <= i < rs.len() - 1 ==> (#[trigger] rs[i]) is Some
    &&& rs.len() < 7 ==> rs.last() is None
}

/// The writes of an initialization that received `n` responses: enabling
/// the auxiliary port and the defaults command and, once that was
/// acknowledged, the probe's commands, one per response it received, and
/// the streaming command.
pub open spec fn init_writes(n: nat) -> Seq<(u16, u8)> {
    let start = seq![(PS2_COMMAND_PORT, PS2_CMD_ENABLE_SECOND_PORT)] + routed(
        seq![MOUSE_CMD_SET_DEFAULTS],
    );
    if n <= 1 {
        start
    } else {
        start + routed(probe_commands().take(n - 2)) + routed(
            seq![MOUSE_CMD_ENABLE_PACKET_STREAMING],
        )
    }
}

/// The result of the wheel probe, given what it received: the last response
/// is the device identifier.
pub open spec fn probe_outcome(rs: Seq<Option<u8>>) -> Result<(), MouseError> {
    if rs.len() == 7 && rs[6] is Some {
        if rs[6] == Some(WHEEL_DEVICE_ID) {
            Ok(())
        } else {
            Err(MouseError::UnsupportedFeature)
        }
    } else {
        Err(MouseError::Timeout)
    }
}

/// The result and the device state of initialization from `s`, given the
/// acknowledgment of the defaults command, the responses of the wheel probe
/// and the acknowledgment of the streaming command.
///
/// Only a missing acknowledgment fails initialization; a failed probe only
/// leaves the device without a wheel.
pub open spec fn init_outcome(
    s: DeviceState,
    defaults_ack: Option<u8>,
    probe: Seq<Option<u8>>,
    streaming_ack: Option<u8>,
) -> (Result<(), MouseError>, DeviceState) {
    if defaults_ack is None {
        (Err(MouseError::Timeout), s)
    } else {
        let configured = DeviceState { has_wheel: probe_outcome(probe) is Ok, ..s };
        if streaming_ack is Some {
            (Ok(()), configured)
        } else {
            (Err(MouseError::Timeout), configured)
        }
    }
}

/// The device state, the pending bytes and the event after one raw byte.
pub open spec fn feed(s: DeviceState, pending: Seq<u8>, byte: u8) -> (
    DeviceState,
    Seq<u8>,
    Option<MouseEvent>,
) {
    let (rest, done) = assemble_step(pending, packet_len(s.has_wheel), byte);
    match done {
        None => (s, rest, None),
        Some(p) => (decode(s, p).0, rest, decode(s, p).1),
    }
}

/// The device state and pending bytes after feeding `bytes` one at a time.
pub open spec fn feed_all(s: DeviceState, pending: Seq<u8>, bytes: Seq<u8>) -> (DeviceState, Seq<u8>)
    decreases bytes.len(),
{
    if bytes.len() == 0 {
        (s, pending)
    } else {
        let (next, rest, _) = feed(s, pending, bytes[0]);
        feed_all(next, rest, bytes.drop_first())
    }
}

/// `packet` written out `n` times in a row.
pub open spec fn repeated(packet: Seq<u8>, n: nat) -> Seq<u8>
    decreases n,
{
    if n == 0 {
        Seq::empty()
    } else {
        repeated(packet, (n - 1) as nat) + packet
    }
}

/// Feeding `a` then `b` is feeding `a + b`.
proof fn lemma_feed_all_append(s: DeviceState, pending: Seq<u8>, a: Seq<u8>, b: Seq<u8>)
    ensures
        feed_all(s, pending, a + b) == feed_all(feed_all(s, pending, a).0, feed_all(s, pending, a).1, b),
    decreases a.len(),
{
    if a.len() == 0 {
        assert(a + b =~= b);
    } else {
        let (next, rest, _) = feed(s, pending, a[0]);
        lemma_feed_all_append(next, rest, a.drop_first(), b);
        assert((a + b).drop_first() =~= a.drop_first() + b);
    }
}

/// Feeding the bytes that complete a packet decodes it once and leaves
/// nothing pending.
proof fn lemma_feed_completes(s: DeviceState, pending: Seq<u8>, bytes: Seq<u8>)
    requires
        bytes.len() >= 1,
        pending.len() + bytes.len() == packet_len(s.has_wheel),
    ensures
        feed_all(s, pending, bytes) == (decode(s, pending + bytes).0, Seq::<u8>::empty()),
    decreases bytes.len(),
{
    let (next, rest, _) = feed(s, pending, bytes[0]);
    let tail = bytes.drop_first();
    if bytes.len() == 1 {
        assert(pending.push(bytes[0]) =~= pending + bytes);
        assert(feed_all(next, rest, tail) == (next, rest));
        assert(next == decode(s, pending + bytes).0);
    } else {
        assert(next == s);
        lemma_feed_completes(next, rest, tail);
        assert(rest + tail =~= pending + bytes);
    }
}

/// Feeding the same packet `n` times, from no pending bytes, is decoding
/// it `n` times: the byte path adds nothing to the decoder.
proof fn lemma_feed_repeated(s: DeviceState, packet: Seq<u8>, n: nat)
    requires
        packet.len() == packet_len(s.has_wheel),
    ensures
        feed_all(s, Seq::empty(), repeated(packet, n)) == (
            decode_repeated(s, packet, n),
            Seq::<u8>::empty(),
        ),
        decode_repeated(s, packet, n).has_wheel == s.has_wheel,
    decreases n,
{
    if n == 0 {
    } else {
        let m = (n - 1) as nat;
        lemma_feed_repeated(s, packet, m);
        lemma_feed_all_append(s, Seq::empty(), repeated(packet, m), packet);
        let before = decode_repeated(s, packet, m);
        lemma_feed_completes(before, Seq::empty(), packet);
        assert(Seq::<u8>::empty() + packet =~= packet);
    }
}

/// The position never wraps on the byte path either: feeding the same
/// framed packet `n` times from no pending bytes moves the position by `n`
/// times its movement, clamped at the bounds of `i16`, for a movement
/// towards positive values. With the largest such movement the position
/// rises to `i16::MAX` and stays there.
pub proof fn lemma_fed_position_saturates(s: DeviceState, packet: Seq<u8>, n: nat)
    requires
        packet.len() == packet_len(s.has_wheel),
        is_framed(packet[0]),
    ensures
        feed_all(s, Seq::empty(), repeated(packet, n)).1 == Seq::<u8>::empty(),
        packet_delta_x(packet) >= 0 ==> feed_all(s, Seq::empty(), repeated(packet, n)).0.x_position
            == saturate_i16(s.x_position + n * packet_delta_x(packet)),
        packet_delta_y(packet) >= 0 ==> feed_all(s, Seq::empty(), repeated(packet, n)).0.y_position
            == saturate_i16(s.y_position + n * packet_delta_y(packet)),
{
    lemma_feed_repeated(s, packet, n);
    lemma_position_saturates(s, packet, n);
}

/// In an initialization whose defaults command was acknowledged and whose
/// wheel probe received all six acknowledgments, a device identifier of 3
/// gives a device with a wheel and four-byte packets, and any other
/// identifier a device without a wheel and three-byte packets. In neither
/// case does the probe fail the initialization, nor change anything else.
pub proof fn lemma_device_id_selects_packet_size(
    s: DeviceState,
    defaults_ack: u8,
    acks: Seq<u8>,
    device_id: u8,
    streaming_ack: Option<u8>,
)
    requires
        acks.len() == 6,
    ensures
        ({
            let probe = acks.map_values(|a: u8| Some(a)).push(Some(device_id));
            let (r, after) = init_outcome(s, Some(defaults_ack), probe, streaming_ack);
            &&& is_probe_trace(probe)
            &&& after.has_wheel == (device_id == WHEEL_DEVICE_ID)
            &&& packet_len(after.has_wheel) == if device_id == WHEEL_DEVICE_ID {
                4nat
            } else {
                3nat
            }
            &&& after == DeviceState { has_wheel: after.has_wheel, ..s }
            &&& r == if streaming_ack is Some {
                Ok::<(), MouseError>(())
            } else {
                Err(MouseError::Timeout)
            }
        }),
{
    let probe = acks.map_values(|a: u8| Some(a)).push(Some(device_id));
    assert forall|i: int| 0 <= i < probe.len() - 1 implies (#[trigger] probe[i]) is Some by {
        assert(probe[i] == Some(acks[i]));
    }
}

/// A record that had `a` as a prefix still has it after one more entry.
proof fn lemma_prefix_push<T>(a: Seq<T>, b: Seq<T>, x: T)
    requires
        a.is_prefix_of(b),
    ensures
        a.is_prefix_of(b.push(x)),
{
    assert(b.push(x).subrange(0, a.len() as int) =~= b.subrange(0, a.len() as int));
}

/// Sending one more byte adds its routed pair of writes.
proof fn lemma_routed_push(bytes: Seq<u8>, b: u8)
    ensures
        routed(bytes.push(b)) == routed(bytes) + seq![
            (PS2_COMMAND_PORT, PS2_CMD_WRITE_TO_MOUSE),
            (PS2_DATA_PORT, b),
        ],
{
    assert(bytes.push(b).drop_last() =~= bytes);
    assert(routed(Seq::<u8>::empty()) == Seq::<(u16, u8)>::empty());
}

/// Sending a single byte is one routed pair of writes.
proof fn lemma_routed_one(b: u8)
    ensures
        routed(seq![b]) == seq![(PS2_COMMAND_PORT, PS2_CMD_WRITE_TO_MOUSE), (PS2_DATA_PORT, b)],
{
    lemma_routed_push(Seq::empty(), b);
    assert(Seq::<u8>::empty().push(b) =~= seq![b]);
    assert(Seq::<(u16, u8)>::empty() + seq![
        (PS2_COMMAND_PORT, PS2_CMD_WRITE_TO_MOUSE),
        (PS2_DATA_PORT, b),
    ] =~= seq![(PS2_COMMAND_PORT, PS2_CMD_WRITE_TO_MOUSE), (PS2_DATA_PORT, b)]);
}

/// The probe's writes grow by one routed byte at a time.
proof fn lemma_probe_writes_step(n: int)
    requires
        0 <= n < 7,
    ensures
        routed(probe_commands().take(n + 1)) == routed(probe_commands().take(n)) + seq![
            (PS2_COMMAND_PORT, PS2_CMD_WRITE_TO_MOUSE),
            (PS2_DATA_PORT, probe_commands()[n]),
        ],
{
    assert(probe_commands().take(n + 1) =~= probe_commands().take(n).push(probe_commands()[n]));
    lemma_routed_push(probe_commands().take(n), probe_commands()[n]);
}

/// Being a prefix is transitive.
proof fn lemma_prefix_trans<T>(a: Seq<T>, b: Seq<T>, c: Seq<T>)
    requires
        a.is_prefix_of(b),
        b.is_prefix_of(c),
    ensures
        a.is_prefix_of(c),
{
    assert(c.subrange(0, a.len() as int) =~= b.subrange(0, a.len() as int));
}

/// A PS/2 mouse: what it remembers between packets and the packet it is
/// receiving.
pub struct Mouse {
    state: DeviceState,
    packet: PacketAssembler,
}

impl Default for Mouse {
    fn default() -> (r: Self)
        ensures
            r.wf(),
            r.device() == (DeviceState {
                left_button: false,
                right_button: false,
                middle_button: false,
                x_position: 0,
                y_position: 0,
                has_wheel: false,
            }),
            r.pending() == Seq::<u8>::empty(),
    {
        Mouse { state: DeviceState::new(), packet: PacketAssembler::new(3) }
    }
}

impl Mouse {
    /// The packet size matches the wheel setting and the assembler is sound.
    pub closed spec fn wf(&self) -> bool {
        &&& self.packet.wf()
        &&& self.packet.size() == packet_len(self.state.has_wheel)
    }

    /// What the driver remembers between packets.
    pub closed spec fn device(&self) -> DeviceState {
        self.state
    }

    /// The bytes received so far of the packet under construction.
    pub closed spec fn pending(&self) -> Seq<u8> {
        self.packet.pending()
    }

    /// Initializes the device: enables the auxiliary port, restores the
    /// defaults, probes for a wheel and starts packet streaming.
    ///
    /// A missing acknowledgment of the defaults or of the streaming command
    /// fails with `Timeout`. Whatever the probe receives, it only decides
    /// whether the device has a wheel, and with it the packet size.
    pub fn init<P: PortIo>(&mut self, ctl: &mut Ps2Controller<P>) -> (r: Result<(), MouseError>)
        requires
            old(self).wf(),
        ensures
            final(self).wf(),
            old(ctl).received().is_prefix_of(final(ctl).received()),
            final(ctl).sent() == old(ctl).sent() + init_writes(
                since(old(ctl).received(), final(ctl).received()).len(),
            ),
            ({
                let rs = since(old(ctl).received(), final(ctl).received());
                &&& rs.len() >= 1
                &&& rs[0] is None ==> {
                    &&& rs.len() == 1
                    &&& r == Err::<(), MouseError>(MouseError::Timeout)
                    &&& final(self).device() == old(self).device()
                    &&& final(self).pending() == old(self).pending()
                }
                &&& rs[0] is Some ==> exists|probe: Seq<Option<u8>>|
                    {
                        &&& is_probe_trace(probe)
                        &&& rs == seq![rs[0]] + probe + seq![rs.last()]
                        &&& (r, final(self).device()) == init_outcome(
                            old(self).device(),
                            rs[0],
                            probe,
                            rs.last(),
                        )
                        &&& final(self).pending() == Seq::<u8>::empty()
                    }
            }),
    {
        let ghost start = ctl.received();
        let ghost sent0 = ctl.sent();
        let ghost opening = seq![(PS2_COMMAND_PORT, PS2_CMD_ENABLE_SECOND_PORT)] + routed(
            seq![MOUSE_CMD_SET_DEFAULTS],
        );
        Self::wait_write(ctl);
        ctl.write(PS2_COMMAND_PORT, PS2_CMD_ENABLE_SECOND_PORT);

        let _ = Self::write_mouse(ctl, MOUSE_CMD_SET_DEFAULTS);
        proof {
            lemma_routed_one(MOUSE_CMD_SET_DEFAULTS);
            assert(ctl.sent() =~= sent0 + opening);
        }
        let defaults = Self::read_response(ctl);
        proof {
            lemma_prefix_push(start, start, ctl.received().last());
        }
        if defaults.is_err() {
            assert(since(start, ctl.received()) =~= seq![None::<u8>]);
            return Err(MouseError::Timeout);
        }
        let ghost after_defaults = ctl.received();

        let probe = Self::enable_wheel(ctl);
        let ghost probe_rs = since(after_defaults, ctl.received());
        let ghost after_probe = ctl.received();
        self.set_wheel(probe.is_ok());

        let _ = Self::write_mouse(ctl, MOUSE_CMD_ENABLE_PACKET_STREAMING);
        let ghost before = ctl.received();
        let streaming = Self::read_response(ctl);
        proof {
            lemma_routed_one(MOUSE_CMD_ENABLE_PACKET_STREAMING);
            assert(ctl.sent() =~= sent0 + (opening + routed(probe_commands().take(probe_rs.len() as int))
                + routed(seq![MOUSE_CMD_ENABLE_PACKET_STREAMING])));
            lemma_prefix_trans(start, after_defaults, after_probe);
            lemma_prefix_push(start, before, ctl.received().last());
            let rs = since(start, ctl.received());
            assert(rs =~= seq![rs[0]] + probe_rs + seq![rs.last()]);
            assert(rs.last() is Some == streaming is Ok);
        }
        match streaming {
            Ok(_) => Ok(()),
            Err(_) => Err(MouseError::Timeout),
        }
    }

    /// Sets whether the device has a wheel, with the matching packet size,
    /// and drops any partial packet.
    fn set_wheel(&mut self, has_wheel: bool)
        requires
            old(self).wf(),
        ensures
            final(self).wf(),
            final(self).device() == (DeviceState { has_wheel, ..old(self).device() }),
            final(self).pending() == Seq::<u8>::empty(),
    {
        self.state.has_wheel = has_wheel;
        self.packet = PacketAssembler::new(if has_wheel { 4 } else { 3 });
    }

    /// Asks the device to switch to four-byte packets with a wheel: sample
    /// rates 200, 100 and 80 in turn, then the device identifier, which is 3
    /// when the switch took place. Each byte sent waits for one response, and
    /// the probe stops at the first that does not come.
    pub fn enable_wheel<P: PortIo>(ctl: &mut Ps2Controller<P>) -> (r: Result<(), MouseError>)
        ensures
            old(ctl).received().is_prefix_of(final(ctl).received()),
            is_probe_trace(since(old(ctl).received(), final(ctl).received())),
            r == probe_outcome(since(old(ctl).received(), final(ctl).received())),
            final(ctl).sent() == old(ctl).sent() + routed(
                probe_commands().take(since(old(ctl).received(), final(ctl).received()).len() as int),
            ),
    {
        let ghost start = ctl.received();
        let ghost sent0 = ctl.sent();
        proof {
            assert(probe_commands()[0] == MOUSE_CMD_SET_SAMPLE_RATE);
            assert(probe_commands()[1] == 200u8);
            assert(probe_commands()[2] == MOUSE_CMD_SET_SAMPLE_RATE);
            assert(probe_commands()[3] == 100u8);
            assert(probe_commands()[4] == MOUSE_CMD_SET_SAMPLE_RATE);
            assert(probe_commands()[5] == 80u8);
            assert(probe_commands()[6] == MOUSE_CMD_GET_DEVICE_ID);
            assert(probe_commands().take(0) =~= Seq::<u8>::empty());
            assert(sent0 + routed(probe_commands().take(0)) =~= sent0);
        }
        let rates: [u8; 3] = [200, 100, 80];
        let mut i: usize = 0;
        while i < 3
            invariant
                0 <= i <= 3,
                start == old(ctl).received(),
                sent0 == old(ctl).sent(),
                start.is_prefix_of(ctl.received()),
                ctl.received().len() == start.len() + 2 * i,
                forall|j: int|
                    start.len() <= j < ctl.received().len() ==> (#[trigger] ctl.received()[j]) is Some,
                ctl.sent() == sent0 + routed(probe_commands().take(2 * i as int)),
                probe_commands()[0] == MOUSE_CMD_SET_SAMPLE_RATE,
                probe_commands()[1] == rates[0],
                probe_commands()[2] == MOUSE_CMD_SET_SAMPLE_RATE,
                probe_commands()[3] == rates[1],
                probe_commands()[4] == MOUSE_CMD_SET_SAMPLE_RATE,
                probe_commands()[5] == rates[2],
            decreases 3 - i,
        {
            let _ = Self::write_mouse(ctl, MOUSE_CMD_SET_SAMPLE_RATE);
            proof {
                lemma_probe_writes_step(2 * i as int);
                assert(ctl.sent() =~= sent0 + routed(probe_commands().take(2 * i + 1)));
            }
            let ghost before = ctl.received();
            let ack = Self::read_response(ctl);
            proof {
                lemma_prefix_push(start, before, ctl.received().last());
            }
            if ack.is_err() {
                return Err(MouseError::Timeout);
            }
            let _ = Self::write_mouse(ctl, rates[i]);
            proof {
                lemma_probe_writes_step(2 * i + 1);
                assert(ctl.sent() =~= sent0 + routed(probe_commands().take(2 * i + 2)));
            }
            let ghost before = ctl.received();
            let ack = Self::read_response(ctl);
            proof {
                lemma_prefix_push(start, before, ctl.received().last());
            }
            if ack.is_err() {
                return Err(MouseError::Timeout);
            }
            i = i + 1;
        }
        let _ = Self::write_mouse(ctl, MOUSE_CMD_GET_DEVICE_ID);
        proof {
            lemma_probe_writes_step(6);
            assert(ctl.sent() =~= sent0 + routed(probe_commands().take(7)));
        }
        let ghost before = ctl.received();
        let response = Self::read_response(ctl);
        proof {
            lemma_prefix_push(start, before, ctl.received().last());
        }
        let device_id = match response {
            Ok(id) => id,
            Err(_) => {
                return Err(MouseError::Timeout);
            },
        };
        if device_id == WHEEL_DEVICE_ID {
            Ok(())
        } else {
            Err(MouseError::UnsupportedFeature)
        }
    }

    /// Sends one byte to the mouse: the controller command that forwards the
    /// next data byte to it, then the byte, each after waiting (within the
    /// polling budget) for the controller to take a byte.
    pub fn write_mouse<P: PortIo>(ctl: &mut Ps2Controller<P>, value: u8) -> (r: Result<(), MouseError>)
        ensures
            r is Ok,
            final(ctl).received() == old(ctl).received(),
            final(ctl).sent() == old(ctl).sent() + seq![
                (PS2_COMMAND_PORT, PS2_CMD_WRITE_TO_MOUSE),
                (PS2_DATA_PORT, value),
            ],
            old(ctl).statuses().is_prefix_of(final(ctl).statuses()),
            exists|k: int|
                is_two_write_waits(#[trigger] since(old(ctl).statuses(), final(ctl).statuses()), k),
    {
        let ghost s0 = ctl.statuses();
        Self::wait_write(ctl);
        let ghost s1 = ctl.statuses();
        ctl.write(PS2_COMMAND_PORT, PS2_CMD_WRITE_TO_MOUSE);
        Self::wait_write(ctl);
        ctl.write(PS2_DATA_PORT, value);
        proof {
            lemma_prefix_trans(s0, s1, ctl.statuses());
            let st = since(s0, ctl.statuses());
            let k = s1.len() - s0.len();
            assert(st.subrange(0, k) =~= since(s0, s1));
            assert(st.subrange(k, st.len() as int) =~= since(s1, ctl.statuses()));
            assert(is_two_write_waits(st, k));
            assert(ctl.sent() =~= old(ctl).sent() + seq![
                (PS2_COMMAND_PORT, PS2_CMD_WRITE_TO_MOUSE),
                (PS2_DATA_PORT, value),
            ]);
        }
        Ok(())
    }

    /// Waits, within the polling budget, for a byte from the mouse and takes
    /// it; fails with `Timeout` when `POLL_LIMIT` statuses show none.
    pub fn read_response<P: PortIo>(ctl: &mut Ps2Controller<P>) -> (r: Result<u8, MouseError>)
        ensures
            final(ctl).received() == old(ctl).received().push(
                match r {
                    Ok(b) => Some(b),
                    Err(_) => None,
                },
            ),
            final(ctl).sent() == old(ctl).sent(),
            old(ctl).statuses().is_prefix_of(final(ctl).statuses()),
            is_read_wait(since(old(ctl).statuses(), final(ctl).statuses())),
            r is Ok <==> mouse_byte_ready(final(ctl).statuses().last()),
            r is Err ==> r == Err::<u8, MouseError>(MouseError::Timeout),
    {
        let mut tries: u32 = 0;
        while tries < POLL_LIMIT
            invariant
                tries <= POLL_LIMIT,
                ctl.received() == old(ctl).received(),
                ctl.sent() == old(ctl).sent(),
                old(ctl).statuses().is_prefix_of(ctl.statuses()),
                ctl.statuses().len() == old(ctl).statuses().len() + tries,
                forall|i: int|
                    old(ctl).statuses().len() <= i < ctl.statuses().len() ==> !mouse_byte_ready(
                        #[trigger] ctl.statuses()[i],
                    ),
            decreases POLL_LIMIT - tries,
        {
            let ghost before = ctl.statuses();
            let ready = Self::can_read(ctl);
            proof {
                assert(ctl.statuses() =~= before.push(ctl.statuses().last()));
                lemma_prefix_push(old(ctl).statuses(), before, ctl.statuses().last());
            }
            if ready {
                return Ok(ctl.receive());
            }
            tries = tries + 1;
        }
        ctl.give_up();
        Err(MouseError::Timeout)
    }

    /// Waits, within the polling budget, until the controller can take a
    /// byte: reads the status until it shows the input buffer empty, at most
    /// `POLL_LIMIT` times, then returns either way.
    pub fn wait_write<P: PortIo>(ctl: &mut Ps2Controller<P>)
        ensures
            final(ctl).received() == old(ctl).received(),
            final(ctl).sent() == old(ctl).sent(),
            old(ctl).statuses().is_prefix_of(final(ctl).statuses()),
            is_write_wait(since(old(ctl).statuses(), final(ctl).statuses())),
    {
        let mut tries: u32 = 0;
        while tries < POLL_LIMIT
            invariant
                tries <= POLL_LIMIT,
                ctl.received() == old(ctl).received(),
                ctl.sent() == old(ctl).sent(),
                old(ctl).statuses().is_prefix_of(ctl.statuses()),
                ctl.statuses().len() == old(ctl).statuses().len() + tries,
                forall|i: int|
                    old(ctl).statuses().len() <= i < ctl.statuses().len() ==> !input_ready(
                        #[trigger] ctl.statuses()[i],
                    ),
            decreases POLL_LIMIT - tries,
        {
            let ghost before = ctl.statuses();
            let status = ctl.read_status();
            proof {
                lemma_prefix_push(old(ctl).statuses(), before, status);
            }
            if status_input_ready(status) {
                return;
            }
            tries = tries + 1;
        }
    }

    /// Reads the status register once: whether a byte from the mouse waits.
    pub fn can_read<P: PortIo>(ctl: &mut Ps2Controller<P>) -> (r: bool)
        ensures
            final(ctl).received() == old(ctl).received(),
            final(ctl).sent() == old(ctl).sent(),
            final(ctl).statuses().len() == old(ctl).statuses().len() + 1,
            final(ctl).statuses().drop_last() == old(ctl).statuses(),
            r == mouse_byte_ready(final(ctl).statuses().last()),
    {
        let status = ctl.read_status();
        assert(ctl.statuses().drop_last() =~= old(ctl).statuses());
        status_mouse_byte_ready(status)
    }

    /// Reads the status once and, when it shows a byte from the mouse, takes
    /// that byte and feeds it; otherwise touches neither the data port nor
    /// the mouse.
    pub fn handle_interrupt<P: PortIo>(&mut self, ctl: &mut Ps2Controller<P>) -> (r: Option<
        MouseEvent,
    >)
        requires
            old(self).wf(),
        ensures
            final(self).wf(),
            final(ctl).sent() == old(ctl).sent(),
            final(ctl).statuses().len() == old(ctl).statuses().len() + 1,
            final(ctl).statuses().drop_last() == old(ctl).statuses(),
            !mouse_byte_ready(final(ctl).statuses().last()) ==> {
                &&& final(ctl).received() == old(ctl).received()
                &&& r is None
                &&& final(self).device() == old(self).device()
                &&& final(self).pending() == old(self).pending()
            },
            mouse_byte_ready(final(ctl).statuses().last()) ==> {
                &&& final(ctl).received().len() == old(ctl).received().len() + 1
                &&& final(ctl).received().drop_last() == old(ctl).received()
                &&& final(ctl).received().last() is Some
                &&& (final(self).device(), final(self).pending(), r) == feed(
                    old(self).device(),
                    old(self).pending(),
                    final(ctl).received().last()->0,
                )
            },
    {
        if !Self::can_read(ctl) {
            return None;
        }
        let byte = ctl.receive();
        assert(ctl.received().drop_last() =~= old(ctl).received());
        self.feed_byte(byte)
    }

    /// Feeds one raw byte: stores it in the packet under construction and,
    /// when it completes the packet, decodes the packet.
    pub fn feed_byte(&mut self, byte: u8) -> (r: Option<MouseEvent>)
        requires
            old(self).wf(),
        ensures
            final(self).wf(),
            (final(self).device(), final(self).pending(), r) == feed(
                old(self).device(),
                old(self).pending(),
                byte,
            ),
    {
        match self.packet.push(byte) {
            None => None,
            Some(buffer) => {
                let ghost p = assemble_step(old(self).pending(), old(self).packet.size(), byte).1->0;
                assert(buffer@[0] == p[0] && buffer@[1] == p[1] && buffer@[2] == p[2]);
                if self.state.has_wheel {
                    assert(buffer@ =~= p);
                }
                self.state.decode_packet(&buffer)
            },
        }
    }

    /// The accumulated pointer position.
    pub fn position(&self) -> (r: (i16, i16))
        ensures
            r == (self.device().x_position, self.device().y_position),
    {
        (self.state.x_position, self.state.y_position)
    }

    /// Whether `button` is held, as far as the packets decoded so far show.
    pub fn is_button_pressed(&self, button: MouseButton) -> (r: bool)
        ensures
            r == match button {
                MouseButton::Left => self.device().left_button,
                MouseButton::Right => self.device().right_button,
                MouseButton::Middle => self.device().middle_button,
            },
    {
        match button {
            MouseButton::Left => self.state.left_button,
            MouseButton::Right => self.state.right_button,
            MouseButton::Middle => self.state.middle_button,
        }
    }

    /// Whether initialization found a wheel.
    pub fn has_wheel(&self) -> (r: bool)
        ensures
            r == self.device().has_wheel,
    {
        self.state.has_wheel
    }

    /// The number of bytes in one packet: 4 with a wheel, 3 without.
    pub fn packet_size(&self) -> (r: usize)
        requires
            self.wf(),
        ensures
            r == packet_len(self.device().has_wheel),
    {
        self.packet.packet_size()
    }

    /// The number of bytes received of the packet under construction.
    pub fn fill_index(&self) -> (r: usize)
        requires
            self.wf(),
        ensures
            r == self.pending().len(),
    {
        self.packet.fill_index()
    }
}

} // verus!
