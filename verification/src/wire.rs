//! The bytes that the processes of a jail exchange over their control socket.
//!
//! The process inside the jail first answers with an error number, most
//! significant byte first, and then sends a message of five bytes for each
//! change of the jailed command: one for its kind, and a number in the byte
//! order of the machine.
use crate::child::Status;
use vstd::prelude::*;

verus! {

/// The length of a message about the jailed command.
pub const MESSAGE_LEN: usize = 5;

/// The order of the bytes of a number.
#[derive(Debug, Clone, Copy, PartialEq, Eq, Structural)]
pub enum ByteOrder {
    /// The least significant byte comes first.
    Little,
    /// The most significant byte comes first.
    Big,
}

/// What a message about the jailed command says.
#[derive(Debug, Clone, Copy, PartialEq, Eq, Structural)]
pub enum Notice {
    /// The status of the command changed.
    Event(Status),
    /// Waiting for the command failed with an error of the system.
    Error(i32),
    /// The kind of the message is not known.
    Unknown,
}

/// The four bytes of a number in two's complement, as a number without sign.
pub open spec fn unsigned(n: i32) -> int {
    if n < 0 {
        n + 0x1_0000_0000
    } else {
        n as int
    }
}

/// The bytes of a number, the most significant first.
pub open spec fn big_endian(n: i32) -> Seq<u8> {
    let u = unsigned(n);
    seq![
        (u / 0x100_0000) as u8,
        (u / 0x1_0000 % 0x100) as u8,
        (u / 0x100 % 0x100) as u8,
        (u % 0x100) as u8,
    ]
}

/// The bytes of a number in the given order.
pub open spec fn number_bytes(order: ByteOrder, n: i32) -> Seq<u8> {
    match order {
        ByteOrder::Big => big_endian(n),
        ByteOrder::Little => big_endian(n).reverse(),
    }
}

/// The number whose bytes are given, the most significant first.
pub open spec fn big_endian_value(b: Seq<u8>) -> i32 {
    let u = b[0] * 0x100_0000 + b[1] * 0x1_0000 + b[2] * 0x100 + b[3];
    if u >= 0x8000_0000 {
        (u - 0x1_0000_0000) as i32
    } else {
        u as i32
    }
}

/// The number whose bytes are given in the given order.
pub open spec fn number_value(order: ByteOrder, b: Seq<u8>) -> i32 {
    match order {
        ByteOrder::Big => big_endian_value(b),
        ByteOrder::Little => big_endian_value(b.reverse()),
    }
}

/// Whether a notice can be sent as a message.
pub open spec fn sendable(notice: Notice) -> bool {
    notice != Notice::Event(Status::Running) && notice != Notice::Unknown
}

/// The kind byte and the number of the message that says what a notice says.
pub open spec fn notice_parts(notice: Notice) -> (u8, i32)
    recommends
        sendable(notice),
{
    match notice {
        Notice::Event(Status::Exited(code)) => (0, code),
        Notice::Event(Status::Signaled(sig, false)) => (1, sig),
        Notice::Event(Status::Signaled(sig, true)) => (2, sig),
        Notice::Event(Status::Stopped(sig)) => (3, sig),
        Notice::Error(errno) => (5, errno),
        _ => (4, 0),
    }
}

/// The message that says what a notice says.
pub open spec fn message(order: ByteOrder, notice: Notice) -> Seq<u8> {
    let (kind, number) = notice_parts(notice);
    seq![kind] + number_bytes(order, number)
}

/// What a message says.
pub open spec fn notice_of(order: ByteOrder, msg: Seq<u8>) -> Notice {
    let number = number_value(order, msg.skip(1));
    if msg[0] == 0 {
        Notice::Event(Status::Exited(number))
    } else if msg[0] == 1 {
        Notice::Event(Status::Signaled(number, false))
    } else if msg[0] == 2 {
        Notice::Event(Status::Signaled(number, true))
    } else if msg[0] == 3 {
        Notice::Event(Status::Stopped(number))
    } else if msg[0] == 4 {
        Notice::Event(Status::Continued)
    } else if msg[0] == 5 {
        Notice::Error(number)
    } else {
        Notice::Unknown
    }
}

/// A number read back from its bytes in the same order is the number.
pub proof fn number_reads_back(order: ByteOrder, n: i32)
    ensures
        number_bytes(order, n).len() == 4,
        number_value(order, number_bytes(order, n)) == n,
{
    let u = unsigned(n);
    let b = big_endian(n);
    assert(b[0] as int == u / 0x100_0000);
    assert(b[1] as int == u / 0x1_0000 % 0x100);
    assert(b[2] as int == u / 0x100 % 0x100);
    assert(b[3] as int == u % 0x100);
    assert(b.reverse().reverse() =~= b);
}

/// A message read back in the same byte order says what was sent.
pub proof fn message_reads_back(order: ByteOrder, notice: Notice)
    requires
        sendable(notice),
    ensures
        message(order, notice).len() == MESSAGE_LEN,
        notice_of(order, message(order, notice)) == notice,
{
    let (kind, number) = notice_parts(notice);
    number_reads_back(order, number);
    let msg = message(order, notice);
    assert(msg.skip(1) =~= number_bytes(order, number));
    assert(msg[0] == kind);
}

/// The number that the bytes 1 and 0 make, by `u16::from_ne_bytes`: 1 where
/// the least significant byte of a number comes first, 256 where it comes
/// last. Which of the two depends on the machine.
#[verifier::external_body]
fn probe_byte_order() -> (r: u16)
    ensures
        r == 1 || r == 256,
{
    u16::from_ne_bytes([1, 0])
}

/// The byte order of the machine: that by which the probe has its value.
pub fn native_byte_order() -> (r: ByteOrder) {
    byte_order_of(probe_byte_order())
}

/// The number that the bytes 1 and 0 make in the given order.
pub open spec fn probe_value(order: ByteOrder) -> int {
    match order {
        ByteOrder::Little => 1,
        ByteOrder::Big => 0x100,
    }
}

/// The byte order in which the bytes 1 and 0 make the given number.
pub fn byte_order_of(probe: u16) -> (r: ByteOrder)
    requires
        probe == 1 || probe == 256,
    ensures
        probe == probe_value(r),
{
    if probe == 1 {
        ByteOrder::Little
    } else {
        ByteOrder::Big
    }
}

/// The bytes of a number, the most significant first.
pub fn to_be_bytes(n: i32) -> (r: [u8; 4])
    ensures
        r@ == big_endian(n),
{
    let wide: i64 = n as i64;
    let u: u64 = if wide < 0 {
        (wide + 0x1_0000_0000) as u64
    } else {
        wide as u64
    };
    let r: [u8; 4] = [
        (u / 0x100_0000) as u8,
        (u / 0x1_0000 % 0x100) as u8,
        (u / 0x100 % 0x100) as u8,
        (u % 0x100) as u8,
    ];
    assert(r@ =~= big_endian(n));
    r
}

/// The number whose bytes are given, the most significant first.
pub fn from_be_bytes(b: [u8; 4]) -> (r: i32)
    ensures
        r == big_endian_value(b@),
{
    let u: u64 = b[0] as u64 * 0x100_0000 + b[1] as u64 * 0x1_0000 + b[2] as u64 * 0x100
        + b[3] as u64;
    if u >= 0x8000_0000 {
        (u as i64 - 0x1_0000_0000) as i32
    } else {
        u as i32
    }
}

/// The bytes of a number in the given order.
pub fn to_bytes(order: ByteOrder, n: i32) -> (r: [u8; 4])
    ensures
        r@ == number_bytes(order, n),
{
    let b = to_be_bytes(n);
    match order {
        ByteOrder::Big => b,
        ByteOrder::Little => {
            let r: [u8; 4] = [b[3], b[2], b[1], b[0]];
            assert(r@ =~= b@.reverse());
            r
        },
    }
}

/// The number whose bytes are given in the given order.
pub fn from_bytes(order: ByteOrder, b: [u8; 4]) -> (r: i32)
    ensures
        r == number_value(order, b@),
{
    match order {
        ByteOrder::Big => from_be_bytes(b),
        ByteOrder::Little => {
            let r: [u8; 4] = [b[3], b[2], b[1], b[0]];
            assert(r@ =~= b@.reverse());
            from_be_bytes(r)
        },
    }
}

/// The message that says what a notice says.
pub fn encode(order: ByteOrder, notice: Notice) -> (r: [u8; 5])
    requires
        sendable(notice),
    ensures
        r@ == message(order, notice),
{
    let (kind, number): (u8, i32) = match notice {
        Notice::Event(Status::Exited(code)) => (0, code),
        Notice::Event(Status::Signaled(sig, dumped)) => if dumped {
            (2, sig)
        } else {
            (1, sig)
        },
        Notice::Event(Status::Stopped(sig)) => (3, sig),
        Notice::Error(errno) => (5, errno),
        _ => (4, 0),
    };
    let c = to_bytes(order, number);
    let r: [u8; 5] = [kind, c[0], c[1], c[2], c[3]];
    assert(r@ =~= message(order, notice));
    r
}

/// What a message says.
pub fn decode(order: ByteOrder, msg: [u8; 5]) -> (r: Notice)
    ensures
        r == notice_of(order, msg@),
{
    let tail: [u8; 4] = [msg[1], msg[2], msg[3], msg[4]];
    assert(tail@ =~= msg@.skip(1));
    let number = from_bytes(order, tail);
    match msg[0] {
        0 => Notice::Event(Status::Exited(number)),
        1 => Notice::Event(Status::Signaled(number, false)),
        2 => Notice::Event(Status::Signaled(number, true)),
        3 => Notice::Event(Status::Stopped(number)),
        4 => Notice::Event(Status::Continued),
        5 => Notice::Error(number),
        _ => Notice::Unknown,
    }
}

/// The bytes of a number are its digits in base 256, of the number itself or
/// of what it lacks to 2 to the power of 32 where it is negative. The byte
/// orders have the same bytes, one the other way round.
pub proof fn bytes_weigh_the_number(n: i32)
    ensures
        ({
            let b = number_bytes(ByteOrder::Big, n);
            let l = number_bytes(ByteOrder::Little, n);
            let weight = b[0] * 0x100_0000 + b[1] * 0x1_0000 + b[2] * 0x100 + b[3];
            &&& b.len() == 4 && l.len() == 4
            &&& b == big_endian(n)
            &&& n >= 0 ==> weight == n
            &&& n < 0 ==> weight == n + 0x1_0000_0000
            &&& l[0] == b[3] && l[1] == b[2] && l[2] == b[1] && l[3] == b[0]
        }),
{
    let u = unsigned(n);
    let b = big_endian(n);
    assert(b[0] as int == u / 0x100_0000);
    assert(b[1] as int == u / 0x1_0000 % 0x100);
    assert(b[2] as int == u / 0x100 % 0x100);
    assert(b[3] as int == u % 0x100);
}

/// Every message of a known kind says something else: two that say the same
/// in one byte order are the same, but for the number of a continuation,
/// which says nothing. Kinds above 5 are not known.
pub proof fn messages_are_told_apart(order: ByteOrder, a: Seq<u8>, b: Seq<u8>)
    requires
        a.len() == 5,
        b.len() == 5,
    ensures
        notice_of(order, a) is Unknown <==> a[0] > 5,
        notice_of(order, a) == notice_of(order, b) && a[0] <= 5 ==> {
            &&& a[0] == b[0]
            &&& a[0] != 4 ==> a == b
        },
{
    if notice_of(order, a) == notice_of(order, b) && a[0] <= 5 && a[0] != 4 {
        let x = a.skip(1);
        let y = b.skip(1);
        assert(number_value(order, x) == number_value(order, y));
        let (s, t) = match order {
            ByteOrder::Big => (x, y),
            ByteOrder::Little => (x.reverse(), y.reverse()),
        };
        assert(big_endian_value(s) == big_endian_value(t));
        lemma_four_bytes(s, t);
        assert(x =~= y) by {
            assert(order is Little ==> x =~= s.reverse() && y =~= t.reverse());
        }
        assert(a =~= seq![a[0]] + x);
        assert(b =~= seq![b[0]] + y);
    }
}

proof fn lemma_four_bytes(s: Seq<u8>, t: Seq<u8>)
    requires
        s.len() == 4,
        t.len() == 4,
        big_endian_value(s) == big_endian_value(t),
    ensures
        s == t,
{
    let u = s[0] * 0x100_0000 + s[1] * 0x1_0000 + s[2] * 0x100 + s[3];
    let v = t[0] * 0x100_0000 + t[1] * 0x1_0000 + t[2] * 0x100 + t[3];
    assert(u == v);
    assert(s =~= t);
}

} // verus!
