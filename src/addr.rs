//! Socket addresses, endpoints and allowed IP ranges, and their text forms.
use vstd::prelude::*;
use vstd::string::StringSliceAdditionalSpecFns;
use vstd::arithmetic::div_mod::lemma_fundamental_div_mod_converse;
use crate::error::WgError;
use crate::text::{
    find_byte, find_in, find_pair, find_pair_in, is_field, number_value, parse_fields, parse_number,
    split,
};

verus! {

/// Address family code of IPv4.
pub const AF_INET: u16 = 2;

/// Address family code of IPv6.
pub const AF_INET6: u16 = 10;

/// A generic socket address.
#[derive(Debug, Clone, Copy, PartialEq, Eq)]
pub struct Sockaddr {
    pub sa_family: u16,
    pub sa_data: [u8; 14],
}

/// An IPv4 socket address; the port is held as its two bytes in network order.
#[derive(Debug, Clone, Copy, PartialEq, Eq)]
pub struct SockaddrIn {
    pub sin_family: u16,
    pub sin_port: [u8; 2],
    pub sin_addr: [u8; 4],
    pub sin_zero: [u8; 8],
}

/// An IPv6 socket address; port and address are held in network order.
#[derive(Debug, Clone, Copy, PartialEq, Eq)]
pub struct SockaddrIn6 {
    pub sin6_family: u16,
    pub sin6_port: [u8; 2],
    pub sin6_flowinfo: u32,
    pub sin6_addr: [u8; 16],
    pub sin6_scope_id: u32,
}

/// Where a peer is reached: one of the socket address forms, told apart by
/// the variant.
#[derive(Debug, Clone, Copy, PartialEq, Eq)]
pub enum WgEndpoint {
    Addr(Sockaddr),
    Addr4(SockaddrIn),
    Addr6(SockaddrIn6),
}

/// The address bytes of an allowed range, in network order.
#[derive(Debug, Clone, Copy, PartialEq, Eq)]
pub enum Ip {
    V4([u8; 4]),
    V6([u8; 16]),
}

/// One IP prefix that a peer may use.
#[derive(Debug, Clone, Copy, PartialEq, Eq)]
pub struct WgAllowedIp {
    pub family: u16,
    pub ip: Ip,
    pub cidr: u8,
}

/// The four octets of a dotted-quad IPv4 address: four decimal fields of
/// one to three digits, no leading zero, each at most 255.
pub open spec fn ipv4_of(s: Seq<u8>) -> Option<Seq<u8>> {
    let f = split(s, 46);
    if f.len() == 4 && forall|i: int| 0 <= i < 4 ==> is_field(#[trigger] f[i], false, 3, false, 255) {
        Some(Seq::new(4, |i: int| number_value(f[i], false) as u8))
    } else {
        None
    }
}

/// Colon-separated groups of one to four hex digits; the empty text has none.
pub open spec fn groups_of(s: Seq<u8>) -> Option<Seq<u16>> {
    if s.len() == 0 {
        Some(seq![])
    } else {
        let f = split(s, 58);
        if forall|i: int| 0 <= i < f.len() ==> is_field(#[trigger] f[i], true, 4, true, 65535) {
            Some(Seq::new(f.len(), |i: int| number_value(f[i], true) as u16))
        } else {
            None
        }
    }
}

/// The eight 16-bit segments of an IPv6 address: eight groups, or groups
/// before and after a single `::` that stands for one or more zero groups.
pub open spec fn ipv6_of(s: Seq<u8>) -> Option<Seq<u16>> {
    let p = find_pair(s, 58);
    if p < s.len() {
        match (groups_of(s.subrange(0, p as int)), groups_of(s.subrange(p + 2 as int, s.len() as int))) {
            (Some(h), Some(t)) => if h.len() + t.len() <= 7 {
                Some(joined(h, t))
            } else {
                None
            },
            _ => None,
        }
    } else {
        match groups_of(s) {
            Some(g) => if g.len() == 8 {
                Some(g)
            } else {
                None
            },
            None => None,
        }
    }
}

/// Head groups, zero groups, then tail groups: eight in all.
pub open spec fn joined(h: Seq<u16>, t: Seq<u16>) -> Seq<u16> {
    h + Seq::new((8 - h.len() - t.len()) as nat, |i: int| 0u16) + t
}

pub open spec fn as_segments(v: Seq<u32>) -> Seq<u16> {
    v.map_values(|x: u32| x as u16)
}

/// A port: one to five decimal digits, at most 65535.
pub open spec fn port_of(t: Seq<u8>) -> Option<u16> {
    if is_field(t, false, 5, true, 65535) {
        Some(number_value(t, false) as u16)
    } else {
        None
    }
}

/// A prefix length: one to three decimal digits, at most `max`.
pub open spec fn prefix_of(t: Seq<u8>, max: nat) -> Option<u8> {
    if is_field(t, false, 3, true, max) {
        Some(number_value(t, false) as u8)
    } else {
        None
    }
}

/// `ipv4:port`.
pub open spec fn endpoint4_of(s: Seq<u8>) -> Option<(Seq<u8>, u16)> {
    let p = find_byte(s, 58);
    if p < s.len() {
        match (ipv4_of(s.subrange(0, p as int)), port_of(s.subrange(p + 1 as int, s.len() as int))) {
            (Some(a), Some(port)) => Some((a, port)),
            _ => None,
        }
    } else {
        None
    }
}

/// `[ipv6]:port`.
pub open spec fn endpoint6_of(s: Seq<u8>) -> Option<(Seq<u16>, u16)> {
    let q = find_byte(s, 93);
    if s.len() > 0 && s[0] == 91 && q + 1 < s.len() && s[q + 1 as int] == 58 {
        match (ipv6_of(s.subrange(1, q as int)), port_of(s.subrange(q + 2 as int, s.len() as int))) {
            (Some(a), Some(port)) => Some((a, port)),
            _ => None,
        }
    } else {
        None
    }
}

/// `ipv4/prefix` with a prefix of at most 32.
pub open spec fn range4_of(s: Seq<u8>) -> Option<(Seq<u8>, u8)> {
    let q = find_byte(s, 47);
    if q < s.len() {
        match (ipv4_of(s.subrange(0, q as int)), prefix_of(s.subrange(q + 1 as int, s.len() as int), 32)) {
            (Some(a), Some(c)) => Some((a, c)),
            _ => None,
        }
    } else {
        None
    }
}

/// `ipv6/prefix` with a prefix of at most 128.
pub open spec fn range6_of(s: Seq<u8>) -> Option<(Seq<u16>, u8)> {
    let q = find_byte(s, 47);
    if q < s.len() {
        match (ipv6_of(s.subrange(0, q as int)), prefix_of(s.subrange(q + 1 as int, s.len() as int), 128)) {
            (Some(a), Some(c)) => Some((a, c)),
            _ => None,
        }
    } else {
        None
    }
}

/// The sixteen bytes of eight segments, most significant byte first.
pub open spec fn segment_bytes(g: Seq<u16>) -> Seq<u8> {
    Seq::new(
        16,
        |i: int|
            if i % 2 == 0 {
                (g[i / 2] / 256) as u8
            } else {
                (g[i / 2] % 256) as u8
            },
    )
}

/// The two bytes of a port in network order.
pub open spec fn port_bytes(p: u16) -> Seq<u8> {
    seq![(p / 256) as u8, (p % 256) as u8]
}

pub open spec fn zeros(n: nat) -> Seq<u8> {
    Seq::new(n, |i: int| 0u8)
}

/// `x` is the IPv4 socket address of `a` and port `p`.
pub open spec fn is_sockaddr4(x: SockaddrIn, a: Seq<u8>, p: u16) -> bool {
    &&& x.sin_family == AF_INET
    &&& x.sin_port@ == port_bytes(p)
    &&& x.sin_addr@ == a
    &&& x.sin_zero@ == zeros(8)
}

/// `x` is the IPv6 socket address of segments `g` and port `p`.
pub open spec fn is_sockaddr6(x: SockaddrIn6, g: Seq<u16>, p: u16) -> bool {
    &&& x.sin6_family == AF_INET6
    &&& x.sin6_port@ == port_bytes(p)
    &&& x.sin6_flowinfo == 0
    &&& x.sin6_addr@ == segment_bytes(g)
    &&& x.sin6_scope_id == 0
}

/// Reads `s` as a dotted-quad IPv4 address.
pub fn parse_ipv4(s: &[u8]) -> (r: Option<[u8; 4]>)
    ensures
        match ipv4_of(s@) {
            Some(a) => r matches Some(x) && x@ == a,
            None => r is None,
        },
{
    let n = s.len();
    assert(s@.subrange(0, n as int) =~= s@);
    match parse_fields(s, 0, n, 46, false, 3, false, 255) {
        None => None,
        Some(v) => {
            if v.len() != 4 {
                return None;
            }
            let a = [v[0] as u8, v[1] as u8, v[2] as u8, v[3] as u8];
            assert(a@ =~= ipv4_of(s@).unwrap());
            Some(a)
        },
    }
}

/// Reads `s[start..end]` as colon-separated hex groups.
fn parse_groups(s: &[u8], start: usize, end: usize) -> (r: Option<Vec<u32>>)
    requires
        start <= end <= s@.len(),
    ensures
        match groups_of(s@.subrange(start as int, end as int)) {
            Some(g) => r matches Some(v) && v@.len() == g.len() && forall|i: int|
                0 <= i < g.len() ==> #[trigger] v@[i] == g[i] && v@[i] < 65536,
            None => r is None,
        },
{
    if start == end {
        return Some(Vec::new());
    }
    parse_fields(s, start, end, 58, true, 4, true, 65535)
}

proof fn lemma_pair_index(i: int, r: int)
    requires
        0 <= i,
        0 <= r < 2,
    ensures
        (2 * i + r) / 2 == i,
        (2 * i + r) % 2 == r,
{
    lemma_fundamental_div_mod_converse(2 * i + r, 2, i, r);
}

/// The address bytes of head groups `h` and tail groups `t` with zero groups
/// between them.
fn segments(h: &Vec<u32>, t: &Vec<u32>) -> (r: [u8; 16])
    requires
        h@.len() + t@.len() <= 8,
        forall|i: int| 0 <= i < h@.len() ==> #[trigger] h@[i] < 65536,
        forall|i: int| 0 <= i < t@.len() ==> #[trigger] t@[i] < 65536,
    ensures
        r@ == segment_bytes(joined(as_segments(h@), as_segments(t@))),
{
    let ghost full = joined(as_segments(h@), as_segments(t@));
    let hl = h.len();
    let tl = t.len();
    let mut out = [0u8; 16];
    let mut i: usize = 0;
    while i < 8
        invariant
            i <= 8,
            hl == h@.len(),
            tl == t@.len(),
            hl + tl <= 8,
            full == joined(as_segments(h@), as_segments(t@)),
            forall|k: int| 0 <= k < h@.len() ==> #[trigger] h@[k] < 65536,
            forall|k: int| 0 <= k < t@.len() ==> #[trigger] t@[k] < 65536,
            out@.len() == 16,
            forall|j: int| 0 <= j < 2 * i ==> out@[j] == #[trigger] segment_bytes(full)[j],
        decreases 8 - i,
    {
        let seg: u32 = if i < hl {
            h[i]
        } else if i >= 8 - tl {
            t[i - (8 - tl)]
        } else {
            0
        };
        assert(full.len() == 8);
        assert(seg as u16 == full[i as int]);
        assert(seg < 65536);
        out[2 * i] = (seg / 256) as u8;
        out[2 * i + 1] = (seg % 256) as u8;
        proof {
            lemma_pair_index(i as int, 0);
            lemma_pair_index(i as int, 1);
            assert(segment_bytes(full)[2 * i] == (full[i as int] / 256) as u8);
            assert(segment_bytes(full)[2 * i + 1] == (full[i as int] % 256) as u8);
        }
        i = i + 1;
    }
    assert(out@ =~= segment_bytes(full));
    out
}

/// Reads `s` as an IPv6 address in colon-hex form.
pub fn parse_ipv6(s: &[u8]) -> (r: Option<[u8; 16]>)
    ensures
        match ipv6_of(s@) {
            Some(g) => r matches Some(x) && x@ == segment_bytes(g),
            None => r is None,
        },
{
    let n = s.len();
    let p = find_pair_in(s, 58);
    if p < n {
        let h = match parse_groups(s, 0, p) {
            Some(h) => h,
            None => {
                return None;
            },
        };
        let t = match parse_groups(s, p + 2, n) {
            Some(t) => t,
            None => {
                return None;
            },
        };
        if h.len() > 7 || t.len() > 7 - h.len() {
            return None;
        }
        let r = segments(&h, &t);
        proof {
            let gh = groups_of(s@.subrange(0, p as int)).unwrap();
            let gt = groups_of(s@.subrange(p + 2 as int, n as int)).unwrap();
            assert(as_segments(h@) =~= gh);
            assert(as_segments(t@) =~= gt);
        }
        Some(r)
    } else {
        assert(s@.subrange(0, n as int) =~= s@);
        let g = match parse_groups(s, 0, n) {
            Some(g) => g,
            None => {
                return None;
            },
        };
        if g.len() != 8 {
            return None;
        }
        let empty: Vec<u32> = Vec::new();
        let r = segments(&g, &empty);
        proof {
            let gs = groups_of(s@).unwrap();
            assert(as_segments(g@) =~= gs);
            assert(joined(gs, as_segments(empty@)) =~= gs);
        }
        Some(r)
    }
}

/// Reads `s` as a port number.
fn parse_port(s: &[u8]) -> (r: Option<u16>)
    ensures
        r == port_of(s@),
{
    let n = s.len();
    assert(s@.subrange(0, n as int) =~= s@);
    match parse_number(s, 0, n, false, 5, true) {
        Some(v) => if v <= 65535 {
            Some(v as u16)
        } else {
            None
        },
        None => None,
    }
}

/// Reads `s` as a prefix length of at most `max`.
fn parse_prefix(s: &[u8], max: u32) -> (r: Option<u8>)
    requires
        max <= 255,
    ensures
        r == prefix_of(s@, max as nat),
{
    let n = s.len();
    assert(s@.subrange(0, n as int) =~= s@);
    match parse_number(s, 0, n, false, 3, true) {
        Some(v) => if v <= max {
            Some(v as u8)
        } else {
            None
        },
        None => None,
    }
}

fn port_to_bytes(p: u16) -> (r: [u8; 2])
    ensures
        r@ == port_bytes(p),
{
    let r = [(p / 256) as u8, (p % 256) as u8];
    assert(r@ =~= port_bytes(p));
    r
}

/// `s` is an endpoint text of either family.
pub open spec fn endpoint_ok(s: Seq<u8>) -> bool {
    endpoint4_of(s) is Some || endpoint6_of(s) is Some
}

/// `s` is an allowed-range text of either family.
pub open spec fn range_ok(s: Seq<u8>) -> bool {
    range4_of(s) is Some || range6_of(s) is Some
}

/// What parsing the endpoint text `s` gives: `ipv4:port` as an IPv4 socket
/// address, else `[ipv6]:port` as an IPv6 one, else an error.
pub open spec fn endpoint_parsed(s: Seq<u8>, r: Result<WgEndpoint, WgError>) -> bool {
    match endpoint4_of(s) {
        Some((a, p)) => r matches Ok(WgEndpoint::Addr4(x)) && is_sockaddr4(x, a, p),
        None => match endpoint6_of(s) {
            Some((g, p)) => r matches Ok(WgEndpoint::Addr6(x)) && is_sockaddr6(x, g, p),
            None => r == Err::<WgEndpoint, WgError>(WgError::InvalidEndpoint),
        },
    }
}

/// What parsing the range text `s` gives: `ipv4/prefix` (prefix at most 32),
/// else `ipv6/prefix` (prefix at most 128), else an error.
pub open spec fn range_parsed(s: Seq<u8>, r: Result<WgAllowedIp, WgError>) -> bool {
    match range4_of(s) {
        Some((a, c)) => r matches Ok(x) && x.family == AF_INET && x.cidr == c && (x.ip matches Ip::V4(
            b,
        ) && b@ == a),
        None => match range6_of(s) {
            Some((g, c)) => r matches Ok(x) && x.family == AF_INET6 && x.cidr == c && (
            x.ip matches Ip::V6(b) && b@ == segment_bytes(g)),
            None => r == Err::<WgAllowedIp, WgError>(WgError::InvalidAllowedRange),
        },
    }
}

fn parse_endpoint4(s: &[u8]) -> (r: Option<SockaddrIn>)
    ensures
        match endpoint4_of(s@) {
            Some((a, p)) => r matches Some(x) && is_sockaddr4(x, a, p),
            None => r is None,
        },
{
    let n = s.len();
    let p = find_in(s, 0, n, 58);
    assert(s@.subrange(0, n as int) =~= s@);
    if p == n {
        return None;
    }
    let a = parse_ipv4(&s[0..p]);
    let port = parse_port(&s[p + 1..n]);
    match (a, port) {
        (Some(a), Some(port)) => {
            let x = SockaddrIn {
                sin_family: AF_INET,
                sin_port: port_to_bytes(port),
                sin_addr: a,
                sin_zero: [0u8; 8],
            };
            assert(x.sin_zero@ =~= zeros(8));
            Some(x)
        },
        _ => None,
    }
}

fn parse_endpoint6(s: &[u8]) -> (r: Option<SockaddrIn6>)
    ensures
        match endpoint6_of(s@) {
            Some((g, p)) => r matches Some(x) && is_sockaddr6(x, g, p),
            None => r is None,
        },
{
    let n = s.len();
    let q = find_in(s, 0, n, 93);
    assert(s@.subrange(0, n as int) =~= s@);
    if n == 0 || s[0] != 91 || q >= n - 1 || s[q + 1] != 58 {
        return None;
    }
    let a = parse_ipv6(&s[1..q]);
    let port = parse_port(&s[q + 2..n]);
    match (a, port) {
        (Some(a), Some(port)) => Some(
            SockaddrIn6 {
                sin6_family: AF_INET6,
                sin6_port: port_to_bytes(port),
                sin6_flowinfo: 0,
                sin6_addr: a,
                sin6_scope_id: 0,
            },
        ),
        _ => None,
    }
}

impl WgEndpoint {
    /// Reads `ipv4:port` or `[ipv6]:port`.
    pub fn parse(input: &str) -> (r: Result<WgEndpoint, WgError>)
        ensures
            endpoint_parsed(input.spec_bytes(), r),
    {
        let s = input.as_bytes();
        match parse_endpoint4(s) {
            Some(x) => Ok(WgEndpoint::Addr4(x)),
            None => match parse_endpoint6(s) {
                Some(x) => Ok(WgEndpoint::Addr6(x)),
                None => Err(WgError::InvalidEndpoint),
            },
        }
    }

    /// The address family code that tags this endpoint.
    pub fn family(&self) -> (r: u16)
        ensures
            r == match *self {
                WgEndpoint::Addr(x) => x.sa_family,
                WgEndpoint::Addr4(x) => x.sin_family,
                WgEndpoint::Addr6(x) => x.sin6_family,
            },
    {
        match *self {
            WgEndpoint::Addr(x) => x.sa_family,
            WgEndpoint::Addr4(x) => x.sin_family,
            WgEndpoint::Addr6(x) => x.sin6_family,
        }
    }
}

/// The port whose network-order bytes are `b`.
pub fn port_from_bytes(b: [u8; 2]) -> (r: u16)
    ensures
        port_bytes(r) == b@,
{
    let r = (b[0] as u16) * 256 + (b[1] as u16);
    assert(port_bytes(r) =~= b@);
    r
}

impl WgAllowedIp {
    /// Reads `address/prefix`; the prefix may be at most 32 for IPv4 and
    /// 128 for IPv6.
    pub fn parse(input: &str) -> (r: Result<WgAllowedIp, WgError>)
        ensures
            range_parsed(input.spec_bytes(), r),
    {
        let s = input.as_bytes();
        let n = s.len();
        let q = find_in(s, 0, n, 47);
        assert(s@.subrange(0, n as int) =~= s@);
        if q == n {
            return Err(WgError::InvalidAllowedRange);
        }
        let rest = &s[q + 1..n];
        match (parse_ipv4(&s[0..q]), parse_prefix(rest, 32)) {
            (Some(a), Some(c)) => {
                return Ok(WgAllowedIp { family: AF_INET, ip: Ip::V4(a), cidr: c });
            },
            _ => {},
        }
        match (parse_ipv6(&s[0..q]), parse_prefix(rest, 128)) {
            (Some(a), Some(c)) => Ok(WgAllowedIp { family: AF_INET6, ip: Ip::V6(a), cidr: c }),
            _ => Err(WgError::InvalidAllowedRange),
        }
    }
}

} // verus!
