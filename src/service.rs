use vstd::prelude::*;

use crate::error::DecodeError;

verus! {

/// Size in bytes of an encoded `Frontend` (the kernel's `struct lb4_key`).
pub const FRONTEND_SIZE: usize = 8;

/// Size in bytes of an encoded `Backend` (the kernel's `struct lb4_service`).
pub const BACKEND_SIZE: usize = 12;

/// An IPv4 socket address: the address as a host-order integer
/// (`10.0.0.1` is `0x0a00_0001`) and the port.
#[derive(Clone, Copy, Debug, PartialEq, Eq, Structural)]
pub struct Addr4 {
    pub ip: u32,
    pub port: u16,
}

/// One slot of a virtual service: address, destination port and slave index.
/// Slave 0 is the master slot of the service; slaves from 1 up each hold one backend.
/// Fields hold plain values; byte order is applied by the codec.
#[derive(Clone, Copy, Debug, Hash, PartialEq, Eq, Structural)]
pub struct Frontend {
    pub address: u32,
    pub dport: u16,
    pub slave: u16,
}

/// One concrete target of a service.
#[derive(Clone, Copy, Debug, PartialEq, Eq, Structural)]
pub struct Backend {
    pub target: u32,
    pub port: u16,
    pub count: u16,
    pub rev_nat_index: u16,
    pub weight: u16,
}

/// The four bytes of `x`, most significant first (network order).
pub open spec fn be32_bytes(x: u32) -> Seq<u8> {
    seq![(x >> 24u32) as u8, (x >> 16u32) as u8, (x >> 8u32) as u8, x as u8]
}

/// The two bytes of `x`, most significant first (network order).
pub open spec fn be16_bytes(x: u16) -> Seq<u8> {
    seq![(x >> 8u16) as u8, x as u8]
}

/// The two bytes of `x`, least significant first (host order of the little-endian
/// machines the kernel program runs on).
pub open spec fn le16_bytes(x: u16) -> Seq<u8> {
    seq![x as u8, (x >> 8u16) as u8]
}

pub open spec fn be32_at(b: Seq<u8>, i: int) -> u32 {
    ((b[i] as u32) << 24u32) | ((b[i + 1] as u32) << 16u32) | ((b[i + 2] as u32) << 8u32) | (
    b[i + 3] as u32)
}

pub open spec fn be16_at(b: Seq<u8>, i: int) -> u16 {
    ((b[i] as u16) << 8u16) | (b[i + 1] as u16)
}

pub open spec fn le16_at(b: Seq<u8>, i: int) -> u16 {
    (b[i] as u16) | ((b[i + 1] as u16) << 8u16)
}

/// The wire form of a frontend: address and port in network order, slave in host order.
pub open spec fn frontend_bytes(f: Frontend) -> Seq<u8> {
    be32_bytes(f.address) + be16_bytes(f.dport) + le16_bytes(f.slave)
}

/// The wire form of a backend: target and port in network order, the rest in host order.
pub open spec fn backend_bytes(b: Backend) -> Seq<u8> {
    be32_bytes(b.target) + be16_bytes(b.port) + le16_bytes(b.count) + le16_bytes(b.rev_nat_index)
        + le16_bytes(b.weight)
}

/// The frontend that an 8-byte record holds.
pub open spec fn frontend_of(b: Seq<u8>) -> Frontend {
    Frontend { address: be32_at(b, 0), dport: be16_at(b, 4), slave: le16_at(b, 6) }
}

/// The backend that a 12-byte record holds.
pub open spec fn backend_of(b: Seq<u8>) -> Backend {
    Backend {
        target: be32_at(b, 0),
        port: be16_at(b, 4),
        count: le16_at(b, 6),
        rev_nat_index: le16_at(b, 8),
        weight: le16_at(b, 10),
    }
}

proof fn lemma_u32_bytes(x: u32)
    by (bit_vector)
    ensures
        (((x >> 24u32) as u8 as u32) << 24u32) | (((x >> 16u32) as u8 as u32) << 16u32) | (((x
            >> 8u32) as u8 as u32) << 8u32) | (x as u8 as u32) == x,
{
}

proof fn lemma_u16_bytes(x: u16)
    by (bit_vector)
    ensures
        (((x >> 8u16) as u8 as u16) << 8u16) | (x as u8 as u16) == x,
        (x as u8 as u16) | (((x >> 8u16) as u8 as u16) << 8u16) == x,
{
}

proof fn lemma_bytes_u32(b0: u8, b1: u8, b2: u8, b3: u8)
    by (bit_vector)
    ensures
        ({
            let x: u32 = ((b0 as u32) << 24u32) | ((b1 as u32) << 16u32) | ((b2 as u32) << 8u32)
                | (b3 as u32);
            &&& (x >> 24u32) as u8 == b0
            &&& (x >> 16u32) as u8 == b1
            &&& (x >> 8u32) as u8 == b2
            &&& x as u8 == b3
        }),
{
}

proof fn lemma_bytes_u16(b0: u8, b1: u8)
    by (bit_vector)
    ensures
        ({
            let x: u16 = ((b0 as u16) << 8u16) | (b1 as u16);
            &&& (x >> 8u16) as u8 == b0
            &&& x as u8 == b1
        }),
        ({
            let y: u16 = (b0 as u16) | ((b1 as u16) << 8u16);
            &&& y as u8 == b0
            &&& (y >> 8u16) as u8 == b1
        }),
{
}

/// Decoding an encoded frontend gives it back, for every field value.
pub proof fn lemma_frontend_round_trip(f: Frontend)
    ensures
        frontend_bytes(f).len() == FRONTEND_SIZE,
        frontend_of(frontend_bytes(f)) == f,
{
    lemma_u32_bytes(f.address);
    lemma_u16_bytes(f.dport);
    lemma_u16_bytes(f.slave);
}

/// Decoding an encoded backend gives it back, for every field value.
pub proof fn lemma_backend_round_trip(b: Backend)
    ensures
        backend_bytes(b).len() == BACKEND_SIZE,
        backend_of(backend_bytes(b)) == b,
{
    lemma_u32_bytes(b.target);
    lemma_u16_bytes(b.port);
    lemma_u16_bytes(b.count);
    lemma_u16_bytes(b.rev_nat_index);
    lemma_u16_bytes(b.weight);
}

/// Encoding a decoded 8-byte record gives the record back.
pub proof fn lemma_frontend_bytes_round_trip(b: Seq<u8>)
    requires
        b.len() == FRONTEND_SIZE,
    ensures
        frontend_bytes(frontend_of(b)) == b,
{
    lemma_bytes_u32(b[0], b[1], b[2], b[3]);
    lemma_bytes_u16(b[4], b[5]);
    lemma_bytes_u16(b[6], b[7]);
    assert(frontend_bytes(frontend_of(b)) =~= b);
}

/// Encoding a decoded 12-byte record gives the record back.
pub proof fn lemma_backend_bytes_round_trip(b: Seq<u8>)
    requires
        b.len() == BACKEND_SIZE,
    ensures
        backend_bytes(backend_of(b)) == b,
{
    lemma_bytes_u32(b[0], b[1], b[2], b[3]);
    lemma_bytes_u16(b[4], b[5]);
    lemma_bytes_u16(b[6], b[7]);
    lemma_bytes_u16(b[8], b[9]);
    lemma_bytes_u16(b[10], b[11]);
    assert(backend_bytes(backend_of(b)) =~= b);
}

fn push_be32(v: &mut Vec<u8>, x: u32)
    ensures
        final(v)@ == old(v)@ + be32_bytes(x),
{
    v.push((x >> 24u32) as u8);
    v.push((x >> 16u32) as u8);
    v.push((x >> 8u32) as u8);
    v.push(x as u8);
    assert(final(v)@ =~= old(v)@ + be32_bytes(x));
}

fn push_be16(v: &mut Vec<u8>, x: u16)
    ensures
        final(v)@ == old(v)@ + be16_bytes(x),
{
    v.push((x >> 8u16) as u8);
    v.push(x as u8);
    assert(final(v)@ =~= old(v)@ + be16_bytes(x));
}

fn push_le16(v: &mut Vec<u8>, x: u16)
    ensures
        final(v)@ == old(v)@ + le16_bytes(x),
{
    v.push(x as u8);
    v.push((x >> 8u16) as u8);
    assert(final(v)@ =~= old(v)@ + le16_bytes(x));
}

fn read_be32(b: &[u8], i: usize) -> (r: u32)
    requires
        i + 4 <= b@.len(),
    ensures
        r == be32_at(b@, i as int),
{
    ((b[i] as u32) << 24u32) | ((b[i + 1] as u32) << 16u32) | ((b[i + 2] as u32) << 8u32) | (b[i
        + 3] as u32)
}

fn read_be16(b: &[u8], i: usize) -> (r: u16)
    requires
        i + 2 <= b@.len(),
    ensures
        r == be16_at(b@, i as int),
{
    ((b[i] as u16) << 8u16) | (b[i + 1] as u16)
}

fn read_le16(b: &[u8], i: usize) -> (r: u16)
    requires
        i + 2 <= b@.len(),
    ensures
        r == le16_at(b@, i as int),
{
    (b[i] as u16) | ((b[i + 1] as u16) << 8u16)
}

impl Addr4 {
    pub fn new(ip: u32, port: u16) -> (r: Addr4)
        ensures
            r.ip == ip,
            r.port == port,
    {
        Addr4 { ip, port }
    }

    /// The address `a.b.c.d:port`.
    pub fn from_octets(a: u8, b: u8, c: u8, d: u8, port: u16) -> (r: Addr4)
        ensures
            r.ip == be32_at(seq![a, b, c, d], 0),
            r.port == port,
    {
        let ip: u32 = ((a as u32) << 24u32) | ((b as u32) << 16u32) | ((c as u32) << 8u32) | (
        d as u32);
        Addr4 { ip, port }
    }

    /// The four octets of the address, first octet first.
    pub fn octets(&self) -> (r: [u8; 4])
        ensures
            r@ == be32_bytes(self.ip),
    {
        let r = [(self.ip >> 24u32) as u8, (self.ip >> 16u32) as u8, (self.ip >> 8u32) as u8, self.ip as u8];
        assert(r@ =~= be32_bytes(self.ip));
        r
    }
}

impl Frontend {
    /// The master slot (slave 0) of the service at `a`.
    pub fn new(a: Addr4) -> (r: Frontend)
        ensures
            r == (Frontend { address: a.ip, dport: a.port, slave: 0 }),
    {
        Frontend { address: a.ip, dport: a.port, slave: 0 }
    }

    /// Points this frontend at slave slot `slave`.
    pub fn slave(&mut self, slave: u16)
        ensures
            *final(self) == (Frontend { slave, ..*old(self) }),
    {
        self.slave = slave;
    }

    /// The service address this slot belongs to.
    pub fn addr(&self) -> (r: Addr4)
        ensures
            r == (Addr4 { ip: self.address, port: self.dport }),
    {
        Addr4 { ip: self.address, port: self.dport }
    }

    /// The 8-byte record the kernel program reads as its key.
    pub fn to_bytes(&self) -> (r: Vec<u8>)
        ensures
            r@ == frontend_bytes(*self),
            r@.len() == FRONTEND_SIZE,
    {
        let mut v: Vec<u8> = Vec::new();
        push_be32(&mut v, self.address);
        push_be16(&mut v, self.dport);
        push_le16(&mut v, self.slave);
        v
    }

    /// Reads a frontend from its record; any 8 bytes decode, other lengths are refused.
    pub fn from_packed(data: &[u8]) -> (r: Result<Frontend, DecodeError>)
        ensures
            data@.len() == FRONTEND_SIZE ==> r == Ok::<Frontend, DecodeError>(frontend_of(data@)),
            data@.len() != FRONTEND_SIZE ==> r == Err::<Frontend, DecodeError>(
                DecodeError::Length { expected: FRONTEND_SIZE, found: data@.len() as usize },
            ),
    {
        if data.len() != FRONTEND_SIZE {
            return Err(DecodeError::Length { expected: FRONTEND_SIZE, found: data.len() });
        }
        Ok(
            Frontend {
                address: read_be32(data, 0),
                dport: read_be16(data, 4),
                slave: read_le16(data, 6),
            },
        )
    }
}

impl Backend {
    /// A backend at `a` with selection count `count`; reverse-NAT index and weight are zero.
    pub fn new(a: Addr4, count: u16) -> (r: Backend)
        ensures
            r == (Backend { target: a.ip, port: a.port, count, rev_nat_index: 0, weight: 0 }),
    {
        Backend { target: a.ip, port: a.port, count, rev_nat_index: 0, weight: 0 }
    }

    /// The all-zero placeholder stored in a master slot.
    pub fn empty() -> (r: Backend)
        ensures
            r == (Backend { target: 0, port: 0, count: 0, rev_nat_index: 0, weight: 0 }),
    {
        Backend { target: 0, port: 0, count: 0, rev_nat_index: 0, weight: 0 }
    }

    /// Sets the selection count.
    pub fn count(&mut self, count: u16)
        ensures
            *final(self) == (Backend { count, ..*old(self) }),
    {
        self.count = count;
    }

    /// The address this backend forwards to.
    pub fn target(&self) -> (r: Addr4)
        ensures
            r == (Addr4 { ip: self.target, port: self.port }),
    {
        Addr4 { ip: self.target, port: self.port }
    }

    /// The 12-byte record the kernel program reads as its value.
    pub fn to_bytes(&self) -> (r: Vec<u8>)
        ensures
            r@ == backend_bytes(*self),
            r@.len() == BACKEND_SIZE,
    {
        let mut v: Vec<u8> = Vec::new();
        push_be32(&mut v, self.target);
        push_be16(&mut v, self.port);
        push_le16(&mut v, self.count);
        push_le16(&mut v, self.rev_nat_index);
        push_le16(&mut v, self.weight);
        v
    }

    /// Reads a backend from its record; any 12 bytes decode, other lengths are refused.
    pub fn from_packed(data: &[u8]) -> (r: Result<Backend, DecodeError>)
        ensures
            data@.len() == BACKEND_SIZE ==> r == Ok::<Backend, DecodeError>(backend_of(data@)),
            data@.len() != BACKEND_SIZE ==> r == Err::<Backend, DecodeError>(
                DecodeError::Length { expected: BACKEND_SIZE, found: data@.len() as usize },
            ),
    {
        if data.len() != BACKEND_SIZE {
            return Err(DecodeError::Length { expected: BACKEND_SIZE, found: data.len() });
        }
        Ok(
            Backend {
                target: read_be32(data, 0),
                port: read_be16(data, 4),
                count: read_le16(data, 6),
                rev_nat_index: read_le16(data, 8),
                weight: read_le16(data, 10),
            },
        )
    }
}

} // verus!
