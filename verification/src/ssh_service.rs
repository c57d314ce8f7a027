//! The decisions of the SSH tunnel services: which settings a tunnel
//! needs, the SOCKS5 handshake a dynamic proxy speaks, and the pumping of
//! bytes between a client and an SSH channel. Sockets, sessions and
//! threads stay with the caller, which performs each step's action and
//! hands back what happened.

use crate::error::AppError;
use crate::headers::str_eq;
use crate::models::{ServiceDetail, SshTunnelConfig};
use crate::ssh::{host_port, RemoteForwardSpec};
use crate::text::{dec, dec_u64, from_chars, push_chars, push_str, to_chars};
use vstd::prelude::*;

verus! {

// ---------------------------------------------------------------------------
// What a tunnel needs
// ---------------------------------------------------------------------------

/// The error is `InvalidInput` with the message.
pub open spec fn invalid_with<T>(r: Result<T, AppError>, m: Seq<char>) -> bool {
    r matches Err(AppError::InvalidInput(x)) && x@ == m
}

fn invalid<T>(m: &str) -> (r: Result<T, AppError>)
    ensures
        invalid_with(r, m@),
{
    Err(AppError::InvalidInput(String::from_str(m)))
}

/// The target host and port of a local forward. The tunnel settings must
/// be present and of type `local`, and name a target host and port.
pub fn ssh_local_target(detail: &ServiceDetail) -> (r: Result<(String, u16), AppError>)
    ensures
        match detail.ssh_tunnel {
            None => invalid_with(r, "SSH 隧道缺少配置"@),
            Some(cfg) => if cfg.tunnel_type@ != "local"@ {
                r matches Err(AppError::Unsupported(x)) && x@ == "该运行入口仅支持 SSH local forward"@
            } else if cfg.target_host is None {
                invalid_with(r, "SSH local 缺少目标 host"@)
            } else if cfg.target_port is None {
                invalid_with(r, "SSH local 缺少目标 port"@)
            } else {
                r matches Ok((h, p)) && h@ == cfg.target_host->0@ && p == cfg.target_port->0
            },
        },
{
    let cfg = match &detail.ssh_tunnel {
        Some(c) => c,
        None => return invalid("SSH 隧道缺少配置"),
    };
    if !str_eq(cfg.tunnel_type.as_str(), "local") {
        return Err(AppError::Unsupported(String::from_str("该运行入口仅支持 SSH local forward")));
    }
    let host = match &cfg.target_host {
        Some(h) => h.clone(),
        None => return invalid("SSH local 缺少目标 host"),
    };
    let port = match cfg.target_port {
        Some(p) => p,
        None => return invalid("SSH local 缺少目标 port"),
    };
    Ok((host, port))
}

/// The check of a dynamic (SOCKS) tunnel's settings: present and of type
/// `socks`.
pub fn ssh_socks_settings(detail: &ServiceDetail) -> (r: Result<(), AppError>)
    ensures
        match detail.ssh_tunnel {
            None => invalid_with(r, "SSH SOCKS 缺少配置"@),
            Some(cfg) => if cfg.tunnel_type@ != "socks"@ {
                invalid_with(r, "SSH SOCKS 隧道类型必须是 socks"@)
            } else {
                r is Ok
            },
        },
{
    let cfg = match &detail.ssh_tunnel {
        Some(c) => c,
        None => return invalid("SSH SOCKS 缺少配置"),
    };
    if !str_eq(cfg.tunnel_type.as_str(), "socks") {
        return invalid("SSH SOCKS 隧道类型必须是 socks");
    }
    Ok(())
}

/// The remote forward of a service: the tunnel settings must be present,
/// of type `remote`, and name the remote bind host and port and the target
/// host and port (checked in that order).
pub fn remote_forward_spec(detail: &ServiceDetail) -> (r: Result<RemoteForwardSpec, AppError>)
    ensures
        match detail.ssh_tunnel {
            None => invalid_with(r, "SSH remote 缺少配置"@),
            Some(cfg) => if cfg.tunnel_type@ != "remote"@ {
                invalid_with(r, "SSH remote 隧道类型必须是 remote"@)
            } else if cfg.remote_bind_host is None {
                invalid_with(r, "SSH remote 缺少远程绑定 host"@)
            } else if cfg.remote_bind_port is None {
                invalid_with(r, "SSH remote 缺少远程绑定端口"@)
            } else if cfg.target_host is None {
                invalid_with(r, "SSH remote 缺少目标 host"@)
            } else if cfg.target_port is None {
                invalid_with(r, "SSH remote 缺少目标 port"@)
            } else {
                r matches Ok(s) && s.service_id == detail.id && s.remote_bind_host@ == cfg.remote_bind_host->0@
                    && s.remote_bind_port == cfg.remote_bind_port->0 && s.target_host@ == cfg.target_host->0@
                    && s.target_port == cfg.target_port->0
            },
        },
{
    let cfg = match &detail.ssh_tunnel {
        Some(c) => c,
        None => return invalid("SSH remote 缺少配置"),
    };
    if !str_eq(cfg.tunnel_type.as_str(), "remote") {
        return invalid("SSH remote 隧道类型必须是 remote");
    }
    let remote_bind_host = match &cfg.remote_bind_host {
        Some(h) => h.clone(),
        None => return invalid("SSH remote 缺少远程绑定 host"),
    };
    let remote_bind_port = match cfg.remote_bind_port {
        Some(p) => p,
        None => return invalid("SSH remote 缺少远程绑定端口"),
    };
    let target_host = match &cfg.target_host {
        Some(h) => h.clone(),
        None => return invalid("SSH remote 缺少目标 host"),
    };
    let target_port = match cfg.target_port {
        Some(p) => p,
        None => return invalid("SSH remote 缺少目标 port"),
    };
    Ok(RemoteForwardSpec {
        service_id: detail.id.clone(),
        remote_bind_host,
        remote_bind_port,
        target_host,
        target_port,
    })
}

// ---------------------------------------------------------------------------
// The SOCKS5 handshake
// ---------------------------------------------------------------------------

/// The SOCKS protocol version.
pub const SOCKS_VERSION: u8 = 0x05;
/// The method without authentication.
pub const SOCKS_METHOD_NO_AUTH: u8 = 0x00;
/// No acceptable method.
pub const SOCKS_METHOD_NO_ACCEPTABLE: u8 = 0xff;
/// The CONNECT command.
pub const SOCKS_CMD_CONNECT: u8 = 0x01;
/// An IPv4 address follows.
pub const SOCKS_ATYP_IPV4: u8 = 0x01;
/// A domain name follows.
pub const SOCKS_ATYP_DOMAIN: u8 = 0x03;
/// An IPv6 address follows.
pub const SOCKS_ATYP_IPV6: u8 = 0x04;
/// Reply: succeeded.
pub const SOCKS_REP_SUCCEEDED: u8 = 0x00;
/// Reply: general failure.
pub const SOCKS_REP_GENERAL_FAILURE: u8 = 0x01;
/// Reply: command not supported.
pub const SOCKS_REP_COMMAND_NOT_SUPPORTED: u8 = 0x07;
/// Reply: address type not supported.
pub const SOCKS_REP_ADDRESS_TYPE_NOT_SUPPORTED: u8 = 0x08;

/// The ten bytes of a SOCKS5 reply with the given code and an empty IPv4
/// bound address.
pub open spec fn reply_bytes(reply: u8) -> Seq<u8> {
    seq![0x05u8, reply, 0u8, 0x01u8, 0u8, 0u8, 0u8, 0u8, 0u8, 0u8]
}

/// The bytes of a SOCKS5 reply.
pub fn socks5_reply(reply: u8) -> (r: Vec<u8>)
    ensures
        r@ == reply_bytes(reply),
{
    let r = vec![SOCKS_VERSION, reply, 0x00, SOCKS_ATYP_IPV4, 0x00, 0x00, 0x00, 0x00, 0x00, 0x00];
    assert(r@ =~= reply_bytes(reply));
    r
}

/// The number of method bytes that follow a greeting, or the error of a
/// wrong version.
pub fn socks5_greeting(greeting: [u8; 2]) -> (r: Result<usize, AppError>)
    ensures
        greeting[0] != 0x05 ==> invalid_with(r, "SOCKS5 版本无效: "@ + dec(greeting[0] as nat)),
        greeting[0] == 0x05 ==> r == Ok::<usize, AppError>(greeting[1] as usize),
{
    if greeting[0] != SOCKS_VERSION {
        let mut acc = to_chars("SOCKS5 版本无效: ");
        let d = dec_u64(greeting[0] as u64);
        push_chars(&mut acc, d.as_slice());
        return Err(AppError::InvalidInput(from_chars(acc.as_slice())));
    }
    Ok(greeting[1] as usize)
}

/// The answer to the offered methods: the two reply bytes to write, and
/// whether the handshake goes on (only without authentication).
pub fn socks5_method_reply(methods: &[u8]) -> (r: ([u8; 2], Result<(), AppError>))
    ensures
        methods@.contains(0u8) ==> r.0 == [0x05u8, 0x00u8] && r.1 is Ok,
        !methods@.contains(0u8) ==> r.0 == [0x05u8, 0xffu8] && invalid_with(r.1, "SOCKS5 客户端不支持 no-auth"@),
{
    let n = methods.len();
    let mut i: usize = 0;
    while i < n
        invariant
            n == methods@.len(),
            i <= n,
            forall|j: int| 0 <= j < i ==> methods@[j] != 0u8,
        decreases n - i,
    {
        if methods[i] == SOCKS_METHOD_NO_AUTH {
            assert(methods@[i as int] == 0u8);
            return ([SOCKS_VERSION, SOCKS_METHOD_NO_AUTH], Ok(()));
        }
        i = i + 1;
    }
    ([SOCKS_VERSION, SOCKS_METHOD_NO_ACCEPTABLE], invalid("SOCKS5 客户端不支持 no-auth"))
}

/// The kind of address a CONNECT request carries.
#[derive(Debug, Clone, Copy, PartialEq, Eq)]
pub enum SocksAddress {
    /// Four address bytes follow.
    Ipv4,
    /// A length byte and a domain name follow.
    Domain,
    /// Sixteen address bytes follow.
    Ipv6,
}

/// A refusal during the handshake: the reply code to send (if any) and the
/// error.
pub struct SocksRefusal {
    pub reply: Option<u8>,
    pub error: AppError,
}

/// Reads the fixed part of a request: version, command, reserved byte and
/// address type. Anything but a CONNECT with a known address type is
/// refused with the matching reply.
pub fn socks5_request_header(header: [u8; 4]) -> (r: Result<SocksAddress, SocksRefusal>)
    ensures
        header[0] != 0x05 ==> (r matches Err(f) && f.reply == Some(0x01u8) && invalid_with(
            Err::<(), AppError>(f.error),
            "SOCKS5 请求版本无效: "@ + dec(header[0] as nat),
        )),
        header[0] == 0x05 && header[1] != 0x01 ==> (r matches Err(f) && f.reply == Some(0x07u8)
            && (f.error matches AppError::Unsupported(x) && x@ == "SOCKS5 当前仅支持 CONNECT 命令"@)),
        header[0] == 0x05 && header[1] == 0x01 && header[2] != 0 ==> (r matches Err(f) && f.reply
            == Some(0x01u8) && invalid_with(Err::<(), AppError>(f.error), "SOCKS5 RSV 字段无效"@)),
        header[0] == 0x05 && header[1] == 0x01 && header[2] == 0 ==> (if header[3] == 0x01 {
            r == Ok::<SocksAddress, SocksRefusal>(SocksAddress::Ipv4)
        } else if header[3] == 0x03 {
            r == Ok::<SocksAddress, SocksRefusal>(SocksAddress::Domain)
        } else if header[3] == 0x04 {
            r == Ok::<SocksAddress, SocksRefusal>(SocksAddress::Ipv6)
        } else {
            r matches Err(f) && f.reply == Some(0x08u8) && (f.error matches AppError::Unsupported(x)
                && x@ == "SOCKS5 地址类型仅支持 IPv4、域名和 IPv6"@)
        }),
{
    if header[0] != SOCKS_VERSION {
        let mut acc = to_chars("SOCKS5 请求版本无效: ");
        let d = dec_u64(header[0] as u64);
        push_chars(&mut acc, d.as_slice());
        return Err(SocksRefusal {
            reply: Some(SOCKS_REP_GENERAL_FAILURE),
            error: AppError::InvalidInput(from_chars(acc.as_slice())),
        });
    }
    if header[1] != SOCKS_CMD_CONNECT {
        return Err(SocksRefusal {
            reply: Some(SOCKS_REP_COMMAND_NOT_SUPPORTED),
            error: AppError::Unsupported(String::from_str("SOCKS5 当前仅支持 CONNECT 命令")),
        });
    }
    if header[2] != 0 {
        return Err(SocksRefusal {
            reply: Some(SOCKS_REP_GENERAL_FAILURE),
            error: AppError::InvalidInput(String::from_str("SOCKS5 RSV 字段无效")),
        });
    }
    if header[3] == SOCKS_ATYP_IPV4 {
        Ok(SocksAddress::Ipv4)
    } else if header[3] == SOCKS_ATYP_DOMAIN {
        Ok(SocksAddress::Domain)
    } else if header[3] == SOCKS_ATYP_IPV6 {
        Ok(SocksAddress::Ipv6)
    } else {
        Err(SocksRefusal {
            reply: Some(SOCKS_REP_ADDRESS_TYPE_NOT_SUPPORTED),
            error: AppError::Unsupported(String::from_str("SOCKS5 地址类型仅支持 IPv4、域名和 IPv6")),
        })
    }
}

/// An IPv4 address in dotted decimal.
pub open spec fn dotted(a: [u8; 4]) -> Seq<char> {
    dec(a[0] as nat) + "."@ + dec(a[1] as nat) + "."@ + dec(a[2] as nat) + "."@ + dec(a[3] as nat)
}

/// Writes an IPv4 address in dotted decimal.
pub fn ipv4_text(a: [u8; 4]) -> (r: String)
    ensures
        r@ == dotted(a),
{
    let mut acc: Vec<char> = Vec::new();
    let d0 = dec_u64(a[0] as u64);
    push_chars(&mut acc, d0.as_slice());
    push_str(&mut acc, ".");
    let d1 = dec_u64(a[1] as u64);
    push_chars(&mut acc, d1.as_slice());
    push_str(&mut acc, ".");
    let d2 = dec_u64(a[2] as u64);
    push_chars(&mut acc, d2.as_slice());
    push_str(&mut acc, ".");
    let d3 = dec_u64(a[3] as u64);
    push_chars(&mut acc, d3.as_slice());
    from_chars(acc.as_slice())
}

/// Checks a domain's length byte: an empty domain is refused.
pub fn socks5_domain_length(len: u8) -> (r: Result<usize, SocksRefusal>)
    ensures
        len == 0 ==> (r matches Err(f) && f.reply == Some(0x01u8) && invalid_with(
            Err::<(), AppError>(f.error),
            "SOCKS5 域名不能为空"@,
        )),
        len != 0 ==> (r matches Ok(n) && n == len),
{
    if len == 0 {
        return Err(SocksRefusal {
            reply: Some(SOCKS_REP_GENERAL_FAILURE),
            error: AppError::InvalidInput(String::from_str("SOCKS5 域名不能为空")),
        });
    }
    Ok(len as usize)
}

/// Reads a domain name; it must be UTF-8.
pub fn socks5_domain(bytes: Vec<u8>) -> (r: Result<String, AppError>)
    ensures
        vstd::utf8::valid_utf8(bytes@) ==> (r matches Ok(s) && s@ == vstd::utf8::decode_utf8(bytes@)),
        !vstd::utf8::valid_utf8(bytes@) ==> invalid_with(r, "SOCKS5 域名不是 UTF-8"@),
{
    match crate::text::string_from_utf8(bytes) {
        Ok(s) => Ok(s),
        Err(_) => invalid("SOCKS5 域名不是 UTF-8"),
    }
}

/// Reads the port (big-endian); port zero is refused.
pub fn socks5_port(bytes: [u8; 2]) -> (r: Result<u16, SocksRefusal>)
    ensures
        bytes[0] as int * 256 + bytes[1] as int == 0 ==> (r matches Err(f) && f.reply == Some(0x01u8)
            && invalid_with(Err::<(), AppError>(f.error), "SOCKS5 目标端口必须在 1 到 65535 之间"@)),
        bytes[0] as int * 256 + bytes[1] as int != 0 ==> (r matches Ok(p) && p as int == bytes[0] as int
            * 256 + bytes[1] as int),
{
    let port: u16 = (bytes[0] as u16) * 256 + (bytes[1] as u16);
    if port == 0 {
        return Err(SocksRefusal {
            reply: Some(SOCKS_REP_GENERAL_FAILURE),
            error: AppError::InvalidInput(String::from_str("SOCKS5 目标端口必须在 1 到 65535 之间")),
        });
    }
    Ok(port)
}

// ---------------------------------------------------------------------------
// Pumping bytes between a client and a channel
// ---------------------------------------------------------------------------

/// The most bytes read at once.
pub const BRIDGE_BUFFER_SIZE: usize = 16384;

/// The most bytes held for one direction before reading pauses.
pub const MAX_PENDING_BYTES: usize = 2097152;

/// The bytes moved by a bridge.
#[derive(Debug, Clone, Copy, PartialEq, Eq)]
pub struct BridgeMetrics {
    pub bytes_in: u64,
    pub bytes_out: u64,
}

/// Bytes waiting to be written in one direction.
pub struct PendingBytes {
    buf: Vec<u8>,
    start: usize,
}

impl PendingBytes {
    /// The bytes still to be written.
    pub closed spec fn view(&self) -> Seq<u8> {
        self.buf@.skip(self.start as int)
    }

    #[verifier::type_invariant]
    closed spec fn inv(&self) -> bool {
        self.start <= self.buf@.len()
    }

    /// Nothing pending.
    pub fn new() -> (r: PendingBytes)
        ensures
            r@ == Seq::<u8>::empty(),
    {
        let r = PendingBytes { buf: Vec::new(), start: 0 };
        assert(r@ =~= Seq::<u8>::empty());
        r
    }

    /// The number of pending bytes.
    pub fn len(&self) -> (n: usize)
        ensures
            n == self@.len(),
    {
        proof {
            use_type_invariant(self);
        }
        self.buf.len() - self.start
    }

    /// The pending bytes, to be written.
    pub fn as_slice(&self) -> (r: &[u8])
        ensures
            r@ == self@,
    {
        proof {
            use_type_invariant(self);
        }
        let r = vstd::slice::slice_subrange(self.buf.as_slice(), self.start, self.buf.len());
        assert(r@ =~= self@);
        r
    }

    /// Appends bytes that were read.
    pub fn extend(&mut self, data: &[u8])
        ensures
            final(self)@ == old(self)@ + data@,
    {
        proof {
            use_type_invariant(&*self);
        }
        let ghost before = self@;
        let mut buf: Vec<u8> = Vec::new();
        let mut k: usize = self.start;
        let n = self.buf.len();
        while k < n
            invariant
                n == self.buf@.len(),
                self.start <= k <= n,
                buf@ == self.buf@.subrange(self.start as int, k as int),
            decreases n - k,
        {
            buf.push(self.buf[k]);
            k = k + 1;
            assert(buf@ =~= self.buf@.subrange(self.start as int, k as int));
        }
        assert(buf@ =~= before);
        let m = data.len();
        let mut j: usize = 0;
        while j < m
            invariant
                m == data@.len(),
                j <= m,
                buf@ == before + data@.take(j as int),
            decreases m - j,
        {
            buf.push(data[j]);
            j = j + 1;
            assert(buf@ =~= before + data@.take(j as int));
        }
        assert(data@.take(m as int) =~= data@);
        *self = PendingBytes { buf, start: 0 };
        assert(self@ =~= before + data@);
    }

    /// Drops bytes that were written.
    pub fn consume(&mut self, n: usize)
        requires
            n <= old(self)@.len(),
        ensures
            final(self)@ == old(self)@.skip(n as int),
    {
        proof {
            use_type_invariant(&*self);
        }
        let ghost before = self@;
        let len = self.buf.len();
        assert(self@.len() == len - self.start);
        self.start = self.start + n;
        assert(self@ =~= before.skip(n as int));
    }
}

/// The state of a bridge between a client socket and an SSH channel.
pub struct BridgeState {
    /// Read from the client, waiting for the channel.
    pub to_channel: PendingBytes,
    /// Read from the channel, waiting for the client.
    pub to_client: PendingBytes,
    pub client_eof: bool,
    pub channel_eof: bool,
    pub sent_channel_eof: bool,
    pub metrics: BridgeMetrics,
}

/// `a + b`, or `u64::MAX` when that does not fit.
pub open spec fn saturating(a: u64, b: int) -> u64 {
    if a + b > u64::MAX { u64::MAX } else { (a + b) as u64 }
}

impl BridgeState {
    /// A bridge with nothing moved yet.
    pub fn new() -> (r: BridgeState)
        ensures
            r.to_channel@ == Seq::<u8>::empty(),
            r.to_client@ == Seq::<u8>::empty(),
            !r.client_eof && !r.channel_eof && !r.sent_channel_eof,
            r.metrics == (BridgeMetrics { bytes_in: 0, bytes_out: 0 }),
    {
        BridgeState {
            to_channel: PendingBytes::new(),
            to_client: PendingBytes::new(),
            client_eof: false,
            channel_eof: false,
            sent_channel_eof: false,
            metrics: BridgeMetrics { bytes_in: 0, bytes_out: 0 },
        }
    }

    /// Whether to read from the client: it has not ended and not too much
    /// waits for the channel.
    pub fn wants_client_read(&self) -> (r: bool)
        ensures
            r == (!self.client_eof && self.to_channel@.len() < MAX_PENDING_BYTES),
    {
        !self.client_eof && self.to_channel.len() < MAX_PENDING_BYTES
    }

    /// Whether to read from the channel.
    pub fn wants_channel_read(&self) -> (r: bool)
        ensures
            r == (!self.channel_eof && self.to_client@.len() < MAX_PENDING_BYTES),
    {
        !self.channel_eof && self.to_client.len() < MAX_PENDING_BYTES
    }

    /// Takes what a client read gave: no bytes is the end of the client,
    /// otherwise the bytes wait for the channel and count as incoming.
    pub fn client_read(&mut self, data: &[u8])
        ensures
            data@.len() == 0 ==> final(self).client_eof && final(self).to_channel@ == old(self).to_channel@
                && final(self).metrics == old(self).metrics,
            data@.len() > 0 ==> final(self).client_eof == old(self).client_eof && final(self).to_channel@
                == old(self).to_channel@ + data@ && final(self).metrics.bytes_in == saturating(
                old(self).metrics.bytes_in,
                data@.len() as int,
            ) && final(self).metrics.bytes_out == old(self).metrics.bytes_out,
            final(self).to_client@ == old(self).to_client@,
            final(self).channel_eof == old(self).channel_eof,
            final(self).sent_channel_eof == old(self).sent_channel_eof,
    {
        if data.len() == 0 {
            self.client_eof = true;
        } else {
            self.to_channel.extend(data);
            let n = data.len() as u64;
            self.metrics.bytes_in = if self.metrics.bytes_in > u64::MAX - n {
                u64::MAX
            } else {
                self.metrics.bytes_in + n
            };
        }
    }

    /// Takes what a channel read gave: bytes wait for the client and count
    /// as outgoing; no bytes ends the channel only when it reports its end.
    pub fn channel_read(&mut self, data: &[u8], channel_at_eof: bool)
        ensures
            data@.len() == 0 ==> final(self).channel_eof == (old(self).channel_eof || channel_at_eof)
                && final(self).to_client@ == old(self).to_client@ && final(self).metrics == old(self).metrics,
            data@.len() > 0 ==> final(self).channel_eof == old(self).channel_eof && final(self).to_client@
                == old(self).to_client@ + data@ && final(self).metrics.bytes_out == saturating(
                old(self).metrics.bytes_out,
                data@.len() as int,
            ) && final(self).metrics.bytes_in == old(self).metrics.bytes_in,
            final(self).to_channel@ == old(self).to_channel@,
            final(self).client_eof == old(self).client_eof,
            final(self).sent_channel_eof == old(self).sent_channel_eof,
    {
        if data.len() == 0 {
            if channel_at_eof {
                self.channel_eof = true;
            }
        } else {
            self.to_client.extend(data);
            let n = data.len() as u64;
            self.metrics.bytes_out = if self.metrics.bytes_out > u64::MAX - n {
                u64::MAX
            } else {
                self.metrics.bytes_out + n
            };
        }
    }

    /// Whether to send the channel its end: the client ended, everything it
    /// sent was written, and the end was not sent yet.
    pub fn wants_channel_eof(&self) -> (r: bool)
        ensures
            r == (self.client_eof && self.to_channel@.len() == 0 && !self.sent_channel_eof),
    {
        self.client_eof && self.to_channel.len() == 0 && !self.sent_channel_eof
    }

    /// Whether the bridge is done: the channel ended, everything for the
    /// client was written, and the client either ended or has nothing
    /// waiting.
    pub fn finished(&self) -> (r: bool)
        ensures
            r == (self.channel_eof && self.to_client@.len() == 0 && (self.client_eof
                || self.to_channel@.len() == 0)),
    {
        self.channel_eof && self.to_client.len() == 0 && (self.client_eof || self.to_channel.len() == 0)
    }
}

/// Whether a keepalive is due: keepalives are on and the interval passed.
pub fn keepalive_due(interval_ms: u64, elapsed_ms: u64) -> (r: bool)
    ensures
        r == (interval_ms > 0 && elapsed_ms >= interval_ms),
{
    interval_ms > 0 && elapsed_ms >= interval_ms
}

/// The bytes of a remote forward's channel counted from the SSH side: what
/// the channel brought in is incoming.
pub fn remote_forward_metrics(m: BridgeMetrics) -> (r: BridgeMetrics)
    ensures
        r.bytes_in == m.bytes_out,
        r.bytes_out == m.bytes_in,
{
    BridgeMetrics { bytes_in: m.bytes_out, bytes_out: m.bytes_in }
}

/// What is recorded of a finished connection: the bytes moved and the
/// error text (empty on success; nothing counted on failure).
pub fn bridge_outcome(result: Result<BridgeMetrics, AppError>) -> (r: (u64, u64, String))
    ensures
        match result {
            Ok(m) => r.0 == m.bytes_in && r.1 == m.bytes_out && r.2@ == Seq::<char>::empty(),
            Err(e) => r.0 == 0 && r.1 == 0 && r.2@ == e.label() + e.detail(),
        },
{
    match result {
        Ok(m) => {
            let e = String::new();
            assert(e@ =~= Seq::<char>::empty());
            (m.bytes_in, m.bytes_out, e)
        },
        Err(e) => (0, 0, e.message()),
    }
}

/// The log line when a remote forward starts listening.
pub fn remote_listening_message(spec: &RemoteForwardSpec) -> (r: String)
    ensures
        r@ == "SSH remote forward 已在远端监听 "@ + host_port(spec.remote_bind_host@, spec.remote_bind_port)
            + "，转发到 "@ + host_port(spec.target_host@, spec.target_port),
{
    let mut acc = to_chars("SSH remote forward 已在远端监听 ");
    let b = spec.remote_bind_addr();
    push_str(&mut acc, b.as_str());
    push_str(&mut acc, "，转发到 ");
    let t = spec.target_addr();
    push_str(&mut acc, t.as_str());
    from_chars(acc.as_slice())
}

/// The log line when a listening service starts: the label and the address.
pub fn listening_message(label: &str, listen_host: &str, listen_port: u16) -> (r: String)
    ensures
        r@ == label@ + " 已监听 "@ + listen_host@ + ":"@ + dec(listen_port as nat),
{
    let mut acc = to_chars(label);
    push_str(&mut acc, " 已监听 ");
    push_str(&mut acc, listen_host);
    push_str(&mut acc, ":");
    let p = dec_u64(listen_port as u64);
    push_chars(&mut acc, p.as_slice());
    from_chars(acc.as_slice())
}

} // verus!
