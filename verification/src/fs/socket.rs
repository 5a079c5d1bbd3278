//! Sockets: their addresses, state and buffers.
use vstd::prelude::*;
use super::stat::{FileStat, zero_stat};

verus! {

/// An IPv4 socket address.
#[derive(Debug, Clone, Copy)]
pub struct SockAddr {
    pub port: u16,
    pub ip: [u8; 4],
}

/// The state of a socket.
pub struct SocketInner {
    /// AF_INET=2, AF_UNIX=1
    pub domain: i32,
    /// SOCK_STREAM=1, SOCK_DGRAM=2
    pub sock_type: i32,
    pub protocol: i32,
    pub bound: bool,
    pub listening: bool,
    pub connected: bool,
    pub local_addr: Option<SockAddr>,
    pub peer_addr: Option<SockAddr>,
    /// Bytes received and not yet read, oldest first.
    pub recv_buf: Vec<u8>,
    /// Bytes written and not yet sent, oldest first.
    pub send_buf: Vec<u8>,
    pub nonblock: bool,
    /// The handle of the network stack's socket, once there is one.
    pub handle: Option<usize>,
    pub reuse_addr: bool,
    pub tcp_nodelay: bool,
}

pub struct Socket {
    pub inner: SocketInner,
}

/// Where a socket stands: not yet listening or connected, listening on a port, or connected.
#[derive(Debug, Clone, Copy, PartialEq, Eq, Structural)]
pub enum SocketState {
    Unbound,
    Listening { port: u16 },
    Connected,
}

/// The state of a socket: connected wins; a listening socket reports its local port (0 when
/// it has no local address).
pub open spec fn socket_state(s: SocketInner) -> SocketState {
    if s.connected {
        SocketState::Connected
    } else if s.listening {
        SocketState::Listening { port: match s.local_addr { Some(a) => a.port, None => 0 } }
    } else {
        SocketState::Unbound
    }
}

/// `ioctl` request that sets or clears non-blocking mode.
pub const FIONBIO: u64 = 0x5421;
/// `ioctl` request that asks how many bytes are waiting.
pub const FIONREAD: u64 = 0x541b;

impl Socket {
    pub fn state(&self) -> (r: SocketState)
        ensures r == socket_state(self.inner),
    {
        if self.inner.connected {
            SocketState::Connected
        } else if self.inner.listening {
            let port = match self.inner.local_addr {
                Some(a) => a.port,
                None => 0,
            };
            SocketState::Listening { port }
        } else {
            SocketState::Unbound
        }
    }

    /// A fresh socket: unbound, unconnected, no buffered data.
    pub fn new(domain: i32, sock_type: i32, protocol: i32) -> (s: Socket)
        ensures
            s.inner.domain == domain,
            s.inner.sock_type == sock_type,
            s.inner.protocol == protocol,
            !s.inner.bound && !s.inner.listening && !s.inner.connected,
            s.inner.local_addr.is_none() && s.inner.peer_addr.is_none(),
            s.inner.recv_buf@ == Seq::<u8>::empty(),
            s.inner.send_buf@ == Seq::<u8>::empty(),
            !s.inner.nonblock,
            s.inner.handle.is_none(),
            !s.inner.reuse_addr && !s.inner.tcp_nodelay,
    {
        Socket {
            inner: SocketInner {
                domain,
                sock_type,
                protocol,
                bound: false,
                listening: false,
                connected: false,
                local_addr: None,
                peer_addr: None,
                recv_buf: Vec::new(),
                send_buf: Vec::new(),
                nonblock: false,
                handle: None,
                reuse_addr: false,
                tcp_nodelay: false,
            },
        }
    }

    /// Socket, rwxrwxrwx.
    pub fn stat(&self) -> (st: FileStat)
        ensures st == (FileStat { st_mode: 0o140777u32, ..zero_stat() }),
    {
        FileStat::with_mode(0o140777u32)
    }

    /// Readable when bytes are waiting. A listening socket has no pending connection, since
    /// nothing accepts one for it.
    pub fn can_read(&self) -> (r: bool)
        ensures r == (self.inner.handle.is_none() && !(self.inner.listening && (self.inner.local_addr matches Some(a) && a.port > 0))
            && self.inner.recv_buf@.len() > 0),
    {
        if self.inner.handle.is_some() {
            return false;
        }
        if self.inner.listening {
            match &self.inner.local_addr {
                Some(a) => {
                    if a.port > 0 {
                        return false;
                    }
                },
                None => {},
            }
        }
        self.inner.recv_buf.len() > 0
    }

    /// Writable once connected.
    pub fn can_write(&self) -> (r: bool)
        ensures r == self.inner.connected,
    {
        self.inner.connected
    }

    pub fn set_nonblock(&mut self, nonblock: bool)
        ensures
            final(self).inner.nonblock == nonblock,
            final(self).inner.recv_buf@ == old(self).inner.recv_buf@,
            final(self).inner.send_buf@ == old(self).inner.send_buf@,
            final(self).inner.connected == old(self).inner.connected,
            final(self).inner.listening == old(self).inner.listening,
            final(self).inner.handle == old(self).inner.handle,
            final(self).inner.local_addr == old(self).inner.local_addr,
    {
        self.inner.nonblock = nonblock;
    }

    pub fn is_nonblock(&self) -> (r: bool)
        ensures r == self.inner.nonblock,
    {
        self.inner.nonblock
    }

    /// `FIONBIO` sets non-blocking mode from `val`, the int the argument points to;
    /// `FIONREAD` gives the number of waiting bytes to store there. Every request succeeds.
    pub fn ioctl(&mut self, request: u64, val: i32) -> (r: (isize, Option<i32>))
        ensures
            r.0 == 0,
            request == FIONBIO ==> final(self).inner.nonblock == (val != 0) && r.1.is_none(),
            request == FIONREAD ==> r.1 == Some(old(self).inner.recv_buf@.len() as i32)
                && final(self).inner.nonblock == old(self).inner.nonblock,
            request != FIONBIO && request != FIONREAD ==> r.1.is_none() && final(self).inner.nonblock == old(self).inner.nonblock,
            final(self).inner.recv_buf@ == old(self).inner.recv_buf@,
            final(self).inner.send_buf@ == old(self).inner.send_buf@,
            final(self).inner.connected == old(self).inner.connected,
            final(self).inner.listening == old(self).inner.listening,
            final(self).inner.handle == old(self).inner.handle,
            final(self).inner.local_addr == old(self).inner.local_addr,
    {
        if request == FIONBIO {
            self.inner.nonblock = val != 0;
            (0, None)
        } else if request == FIONREAD {
            (0, Some(self.inner.recv_buf.len() as i32))
        } else {
            (0, None)
        }
    }
}

} // verus!
