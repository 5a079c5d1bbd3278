//! The network side of sockets: the device queues, address parsing, send and receive.
use vstd::prelude::*;
use crate::fs::socket::{Socket, SockAddr};

verus! {

/// The frames a virtio network card has queued in each direction, oldest first.
pub struct VirtioNet {
    pub tx_buf: Vec<Vec<u8>>,
    pub rx_buf: Vec<Vec<u8>>,
}

/// The view of a frame queue.
pub open spec fn frames(q: Seq<Vec<u8>>) -> Seq<Seq<u8>> {
    q.map_values(|f: Vec<u8>| f@)
}

/// A received frame, handed to the network stack.
pub struct VirtioRxToken {
    pub data: Vec<u8>,
}

/// Room for a frame to send; what is written there joins the transmit queue.
pub struct VirtioTxToken {
    pub len: usize,
}

impl VirtioNet {
    pub fn new() -> (n: VirtioNet)
        ensures n.tx_buf@.len() == 0, n.rx_buf@.len() == 0,
    {
        VirtioNet { tx_buf: Vec::new(), rx_buf: Vec::new() }
    }

    /// Queues a received frame.
    pub fn push_rx(&mut self, data: Vec<u8>)
        ensures
            frames(final(self).rx_buf@) == frames(old(self).rx_buf@).push(data@),
            frames(final(self).tx_buf@) == frames(old(self).tx_buf@),
    {
        self.rx_buf.push(data);
        assert(frames(self.rx_buf@) =~= frames(old(self).rx_buf@).push(data@));
    }

    /// Takes the oldest frame to send, if any.
    pub fn pop_tx(&mut self) -> (r: Option<Vec<u8>>)
        ensures
            old(self).tx_buf@.len() == 0 ==> r.is_none() && frames(final(self).tx_buf@) == frames(old(self).tx_buf@),
            old(self).tx_buf@.len() > 0 ==> (r matches Some(f) && f@ == old(self).tx_buf@[0]@)
                && frames(final(self).tx_buf@) == frames(old(self).tx_buf@).skip(1),
            frames(final(self).rx_buf@) == frames(old(self).rx_buf@),
    {
        if self.tx_buf.len() == 0 {
            return None;
        }
        let f = self.tx_buf.remove(0);
        assert(frames(self.tx_buf@) =~= frames(old(self).tx_buf@).skip(1));
        Some(f)
    }

    /// The oldest received frame, with room for an answer.
    pub fn receive(&mut self) -> (r: Option<(VirtioRxToken, VirtioTxToken)>)
        ensures
            old(self).rx_buf@.len() == 0 ==> r.is_none() && frames(final(self).rx_buf@) == frames(old(self).rx_buf@),
            old(self).rx_buf@.len() > 0 ==> (r matches Some(t) && t.0.data@ == old(self).rx_buf@[0]@)
                && frames(final(self).rx_buf@) == frames(old(self).rx_buf@).skip(1),
            frames(final(self).tx_buf@) == frames(old(self).tx_buf@),
    {
        if self.rx_buf.len() == 0 {
            return None;
        }
        let f = self.rx_buf.remove(0);
        assert(frames(self.rx_buf@) =~= frames(old(self).rx_buf@).skip(1));
        Some((VirtioRxToken { data: f }, VirtioTxToken { len: 0 }))
    }

    /// Room to send a frame; there always is.
    pub fn transmit(&mut self) -> (r: Option<VirtioTxToken>)
        ensures r.is_some(),
    {
        Some(VirtioTxToken { len: 0 })
    }

    /// Queues a frame of `len` bytes whose contents `fill` wrote.
    pub fn consume_tx(&mut self, fill: Vec<u8>)
        ensures
            frames(final(self).tx_buf@) == frames(old(self).tx_buf@).push(fill@),
            frames(final(self).rx_buf@) == frames(old(self).rx_buf@),
    {
        self.tx_buf.push(fill);
        assert(frames(self.tx_buf@) =~= frames(old(self).tx_buf@).push(fill@));
    }
}

/// The network stack is ready once the device driver has called in.
pub fn init() {
}

/// Creates a socket on the network stack's side: nothing to do there yet.
pub fn socket_create(domain: i32, sock_type: i32, protocol: i32) -> (r: i64)
    ensures r == 0,
{
    0
}

pub fn socket_bind(sock: &Socket, addr: &[u8]) -> (r: i64)
    ensures r == 0,
{
    0
}

pub fn socket_listen(sock: &Socket, backlog: i32) -> (r: i64)
    ensures r == 0,
{
    0
}

/// No connection is ever pending on the network stack's side.
pub fn socket_accept(sock: &Socket) -> (r: Option<(Socket, SockAddr)>)
    ensures r.is_none(),
{
    None
}

pub fn socket_connect(sock: &Socket, addr: &SockAddr) -> (r: i64)
    ensures r == 0,
{
    0
}

/// What sending `buf` does to a socket.
pub open spec fn send_rel(s0: Socket, s1: Socket, buf: Seq<u8>, r: isize) -> bool {
    &&& (!s0.inner.connected ==> r == -111 && s1.inner.send_buf@ == s0.inner.send_buf@)
    &&& (s0.inner.connected ==> r == buf.len() && s1.inner.send_buf@ == s0.inner.send_buf@ + buf)
    &&& s1.inner.recv_buf@ == s0.inner.recv_buf@
    &&& s1.inner.connected == s0.inner.connected
    &&& s1.inner.listening == s0.inner.listening
    &&& s1.inner.nonblock == s0.inner.nonblock
    &&& s1.inner.handle == s0.inner.handle
    &&& s1.inner.local_addr == s0.inner.local_addr
}

/// What receiving up to `len` bytes does to a socket.
pub open spec fn recv_rel(s0: Socket, s1: Socket, len: usize, r: (isize, Seq<u8>)) -> bool {
    &&& (s0.inner.recv_buf@.len() == 0 ==> r.0 == (if s0.inner.nonblock { -11isize } else { 0isize })
        && r.1 == Seq::<u8>::empty() && s1.inner.recv_buf@ == s0.inner.recv_buf@)
    &&& (s0.inner.recv_buf@.len() > 0 ==> {
        let n = if (len as int) < s0.inner.recv_buf@.len() { len as int } else { s0.inner.recv_buf@.len() as int };
        &&& r.0 == n
        &&& r.1 == s0.inner.recv_buf@.take(n)
        &&& s1.inner.recv_buf@ == s0.inner.recv_buf@.skip(n)
    })
    &&& s1.inner.send_buf@ == s0.inner.send_buf@
    &&& s1.inner.connected == s0.inner.connected
    &&& s1.inner.listening == s0.inner.listening
    &&& s1.inner.nonblock == s0.inner.nonblock
    &&& s1.inner.handle == s0.inner.handle
    &&& s1.inner.local_addr == s0.inner.local_addr
}

/// Queues `buf` for sending: ECONNREFUSED (-111) unless connected.
pub fn socket_send(sock: &mut Socket, buf: &[u8], flags: i32) -> (r: isize)
    requires buf@.len() <= isize::MAX,
    ensures
        send_rel(*old(sock), *final(sock), buf@, r),
{
    if !sock.inner.connected {
        return -111;
    }
    let mut i: usize = 0;
    while i < buf.len()
        invariant
            i <= buf@.len(),
            sock.inner.send_buf@ == old(sock).inner.send_buf@ + buf@.take(i as int),
            sock.inner.recv_buf@ == old(sock).inner.recv_buf@,
            sock.inner.connected == old(sock).inner.connected,
            sock.inner.listening == old(sock).inner.listening,
            sock.inner.nonblock == old(sock).inner.nonblock,
            sock.inner.handle == old(sock).inner.handle,
            sock.inner.local_addr == old(sock).inner.local_addr,
        decreases buf@.len() - i,
    {
        sock.inner.send_buf.push(buf[i]);
        assert(buf@.take(i + 1) =~= buf@.take(i as int).push(buf@[i as int]));
        i = i + 1;
    }
    assert(buf@.take(i as int) =~= buf@);
    buf.len() as isize
}

/// Takes up to `len` received bytes. With none waiting: EAGAIN (-11) in non-blocking mode,
/// else 0.
pub fn socket_recv(sock: &mut Socket, len: usize, flags: i32) -> (r: (isize, Vec<u8>))
    requires len <= isize::MAX,
    ensures
        recv_rel(*old(sock), *final(sock), len, (r.0, r.1@)),
{
    if sock.inner.recv_buf.len() == 0 {
        if sock.inner.nonblock {
            return (-11, Vec::new());
        }
        return (0, Vec::new());
    }
    let n = if len < sock.inner.recv_buf.len() { len } else { sock.inner.recv_buf.len() };
    let out = crate::fs::tmpfile::copy_range(sock.inner.recv_buf.as_slice(), 0, n);
    let rest = crate::fs::tmpfile::copy_range(sock.inner.recv_buf.as_slice(), n, sock.inner.recv_buf.len() - n);
    proof {
        assert(out@ =~= old(sock).inner.recv_buf@.take(n as int));
        assert(rest@ =~= old(sock).inner.recv_buf@.skip(n as int));
    }
    sock.inner.recv_buf = rest;
    (n as isize, out)
}

/// The address in a `sockaddr_in`: family 2 (AF_INET) in the first two bytes (little-endian),
/// the port big-endian in the next two, then the four bytes of the IPv4 address.
pub open spec fn spec_parse_sockaddr(addr: Seq<u8>) -> Option<(u16, Seq<u8>)> {
    if addr.len() < 8 {
        None
    } else if addr[0] as int + 256 * addr[1] as int != 2 {
        None
    } else {
        Some(((256 * addr[2] as int + addr[3] as int) as u16, addr.subrange(4, 8)))
    }
}

pub fn parse_sockaddr(addr: &[u8]) -> (r: Option<SockAddr>)
    ensures
        r.is_some() == spec_parse_sockaddr(addr@).is_some(),
        r matches Some(sa) ==> spec_parse_sockaddr(addr@) == Some((sa.port, sa.ip@)),
{
    if addr.len() < 8 {
        return None;
    }
    let family: u32 = addr[0] as u32 + 256 * (addr[1] as u32);
    if family != 2 {
        return None;
    }
    let port: u16 = (256 * (addr[2] as u32) + addr[3] as u32) as u16;
    let ip: [u8; 4] = [addr[4], addr[5], addr[6], addr[7]];
    assert(ip@ =~= addr@.subrange(4, 8));
    Some(SockAddr { port, ip })
}

} // verus!
