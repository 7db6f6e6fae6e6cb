//! Textual IP addresses, socket addresses and networks.

use vstd::prelude::*;
use vstd::string::*;

use crate::error::{ErrorKind, NipartError, NipartErrorView};
use crate::text::{
    decimal, find_char, hexadecimal, parse_number, slice_chars, split_chars, to_chars,
};
use crate::value::Value;
use crate::{error, text};

verus! {

/// An IP address, held as the number that its bits write.
#[derive(Clone, Copy, Debug, PartialEq, Eq, Hash, Structural)]
pub enum IpAddr {
    V4(u32),
    V6(u128),
}

impl DeepView for IpAddr {
    type V = IpAddr;

    open spec fn deep_view(&self) -> IpAddr {
        *self
    }
}

impl Value for IpAddr {
    fn dup(&self) -> (res: Self) {
        *self
    }

    fn same(&self, other: &Self) -> (res: bool) {
        *self == *other
    }
}

/// An IP address with a port. `scope_id` is zero unless an IPv6 address was
/// written with a scope.
#[derive(Clone, Copy, Debug, PartialEq, Eq, Hash, Structural)]
pub struct SocketAddr {
    pub ip: IpAddr,
    pub port: u16,
    pub scope_id: u32,
}

impl DeepView for SocketAddr {
    type V = SocketAddr;

    open spec fn deep_view(&self) -> SocketAddr {
        *self
    }
}

/// The octet that `s` writes: one to three decimal digits without a leading
/// zero, at most 255.
pub open spec fn octet(s: Seq<char>) -> Option<nat> {
    if s.len() > 3 || (s.len() > 1 && s[0] == '0') {
        None
    } else {
        text::number(s, 10, 255)
    }
}

/// The IPv4 address that `s` writes: four octets separated by dots.
pub open spec fn ipv4(s: Seq<char>) -> Option<nat> {
    let parts = text::split(s, '.');
    if parts.len() != 4 {
        None
    } else {
        match (octet(parts[0]), octet(parts[1]), octet(parts[2]), octet(parts[3])) {
            (Some(a), Some(b), Some(c), Some(d)) => Some(
                ((a * 256 + b) * 256 + c) * 256 + d,
            ),
            _ => None,
        }
    }
}

/// The 16 bit group of an IPv6 address that `s` writes: one to four
/// hexadecimal digits.
pub open spec fn hextet(s: Seq<char>) -> Option<nat> {
    if s.len() > 4 {
        None
    } else {
        text::number(s, 16, 65535)
    }
}

/// The groups that `parts` write from `i` on. With `with_ipv4`, the last part
/// may be an IPv4 address, which stands for two groups.
pub open spec fn hextets_from(parts: Seq<Seq<char>>, with_ipv4: bool, i: int) -> Option<Seq<nat>>
    decreases parts.len() - i,
{
    if i < 0 || i >= parts.len() {
        Some(Seq::empty())
    } else {
        match hextet(parts[i]) {
            Some(group) => match hextets_from(parts, with_ipv4, i + 1) {
                Some(rest) => Some(seq![group] + rest),
                None => None,
            },
            None => if with_ipv4 && i + 1 == parts.len() {
                match ipv4(parts[i]) {
                    Some(n) => Some(seq![n / 65536, n % 65536]),
                    None => None,
                }
            } else {
                None
            },
        }
    }
}

/// The groups that `s` writes, separated by colons; none when it is empty.
pub open spec fn hextets(s: Seq<char>, with_ipv4: bool) -> Option<Seq<nat>> {
    if s.len() == 0 {
        Some(Seq::empty())
    } else {
        hextets_from(text::split(s, ':'), with_ipv4, 0)
    }
}

/// The number whose groups of 16 bits are `groups`, the highest first.
pub open spec fn groups_value(groups: Seq<nat>) -> nat
    decreases groups.len(),
{
    if groups.len() == 0 {
        0
    } else {
        groups_value(groups.drop_last()) * 65536 + groups.last()
    }
}

/// The position of the first `::` at or after `i`, or the length.
pub open spec fn double_colon_from(s: Seq<char>, i: int) -> int
    decreases s.len() - i,
{
    if i < 0 || i + 1 >= s.len() {
        s.len() as int
    } else if s[i] == ':' && s[i + 1] == ':' {
        i
    } else {
        double_colon_from(s, i + 1)
    }
}

/// `n` groups of zero.
pub open spec fn zero_groups(n: int) -> Seq<nat> {
    Seq::new(n as nat, |i: int| 0nat)
}

/// The eight groups that the IPv6 address `s` writes. A `::` stands for one or
/// more groups of zero.
pub open spec fn ipv6_groups(s: Seq<char>) -> Option<Seq<nat>> {
    let k = double_colon_from(s, 0);
    if k >= s.len() {
        match hextets(s, true) {
            Some(groups) if groups.len() == 8 => Some(groups),
            _ => None,
        }
    } else {
        match (hextets(s.subrange(0, k), false), hextets(s.subrange(k + 2, s.len() as int), true)) {
            (Some(head), Some(tail)) if head.len() + tail.len() <= 7 => Some(
                head + zero_groups(8 - head.len() - tail.len()) + tail,
            ),
            _ => None,
        }
    }
}

/// The IPv6 address that `s` writes.
pub open spec fn ipv6(s: Seq<char>) -> Option<nat> {
    match ipv6_groups(s) {
        Some(groups) => Some(groups_value(groups)),
        None => None,
    }
}

/// The IP address that `s` writes.
pub open spec fn ip_addr(s: Seq<char>) -> Option<IpAddr> {
    match (ipv4(s), ipv6(s)) {
        (Some(n), _) => Some(IpAddr::V4(n as u32)),
        (None, Some(n)) => Some(IpAddr::V6(n as u128)),
        (None, None) => None,
    }
}

/// The port that `s` writes.
pub open spec fn port_number(s: Seq<char>) -> Option<nat> {
    text::number(s, 10, 65535)
}

/// The IPv6 address and the scope that `s` writes, as in `fe80::1%2`.
pub open spec fn scoped_ipv6(s: Seq<char>) -> Option<(nat, nat)> {
    let k = text::position(s, '%');
    if k >= s.len() {
        match ipv6(s) {
            Some(ip) => Some((ip, 0)),
            None => None,
        }
    } else {
        match (ipv6(s.subrange(0, k)), text::number(s.subrange(k + 1, s.len() as int), 10, 0xffff_ffff)) {
            (Some(ip), Some(scope)) => Some((ip, scope)),
            _ => None,
        }
    }
}

/// The socket address that `s` writes: `192.0.2.1:53`, `[2001:db8::1]:53` or
/// `[fe80::1%2]:53`.
pub open spec fn socket_addr(s: Seq<char>) -> Option<SocketAddr> {
    if s.len() > 0 && s[0] == '[' {
        let k = text::position(s, ']');
        if k + 1 < s.len() && s[k + 1] == ':' {
            match (
                scoped_ipv6(s.subrange(1, k)),
                port_number(s.subrange(k + 2, s.len() as int)),
            ) {
                (Some((ip, scope)), Some(port)) => Some(
                    SocketAddr {
                        ip: IpAddr::V6(ip as u128),
                        port: port as u16,
                        scope_id: scope as u32,
                    },
                ),
                _ => None,
            }
        } else {
            None
        }
    } else {
        let k = text::position(s, ':');
        if k < s.len() {
            match (ipv4(s.subrange(0, k)), port_number(s.subrange(k + 1, s.len() as int))) {
                (Some(ip), Some(port)) => Some(
                    SocketAddr { ip: IpAddr::V4(ip as u32), port: port as u16, scope_id: 0 },
                ),
                _ => None,
            }
        } else {
            None
        }
    }
}

/// Reads an octet.
fn parse_octet(s: &Vec<char>) -> (res: Option<u32>)
    ensures
        match res {
            Some(n) => octet(s@) == Some(n as nat) && n <= 255,
            None => octet(s@) is None,
        },
{
    if s.len() > 3 || (s.len() > 1 && s[0] == '0') {
        return None;
    }
    parse_number(s, 10, 255)
}

/// Reads an IPv4 address.
fn parse_ipv4(s: &Vec<char>) -> (res: Option<u32>)
    ensures
        match res {
            Some(n) => ipv4(s@) == Some(n as nat),
            None => ipv4(s@) is None,
        },
{
    let parts = split_chars(s, '.');
    let ghost views = text::split(s@, '.');
    assert(parts.len() == views.len());
    if parts.len() != 4 {
        return None;
    }
    assert forall|i: int| 0 <= i < 4 implies #[trigger] parts[i]@ == views[i] by {
        assert(parts[i].deep_view() =~= parts[i]@);
        assert(parts.deep_view()[i] == parts[i].deep_view());
    }
    match (
        parse_octet(&parts[0]),
        parse_octet(&parts[1]),
        parse_octet(&parts[2]),
        parse_octet(&parts[3]),
    ) {
        (Some(a), Some(b), Some(c), Some(d)) => Some(((a * 256 + b) * 256 + c) * 256 + d),
        _ => None,
    }
}

/// Reads a 16 bit group of an IPv6 address.
fn parse_hextet(s: &Vec<char>) -> (res: Option<u32>)
    ensures
        match res {
            Some(n) => hextet(s@) == Some(n as nat) && n <= 65535,
            None => hextet(s@) is None,
        },
{
    if s.len() > 4 {
        return None;
    }
    parse_number(s, 16, 65535)
}

/// The numbers of `v`.
pub open spec fn nats(v: Seq<u32>) -> Seq<nat> {
    Seq::new(v.len(), |i: int| v[i] as nat)
}

/// Whether all numbers of `v` have 16 bits.
pub open spec fn all_16_bit(v: Seq<u32>) -> bool {
    forall|i: int| 0 <= i < v.len() ==> #[trigger] v[i] <= 65535
}

/// Reads the groups that are separated by colons.
fn parse_hextets(s: &Vec<char>, with_ipv4: bool) -> (res: Option<Vec<u32>>)
    ensures
        match res {
            Some(groups) => hextets(s@, with_ipv4) == Some(nats(groups@)) && all_16_bit(groups@),
            None => hextets(s@, with_ipv4) is None,
        },
{
    let mut groups: Vec<u32> = Vec::new();
    assert(nats(groups@) =~= Seq::<nat>::empty());
    if s.len() == 0 {
        return Some(groups);
    }
    let parts = split_chars(s, ':');
    let ghost views = text::split(s@, ':');
    assert(parts.len() == views.len());
    assert forall|i: int| 0 <= i < parts.len() implies #[trigger] parts[i]@ == views[i] by {
        assert(parts[i].deep_view() =~= parts[i]@);
        assert(parts.deep_view()[i] == parts[i].deep_view());
    }
    let mut i: usize = 0;
    proof {
        if let Some(rest) = hextets_from(views, with_ipv4, 0) {
            assert(nats(groups@) + rest =~= rest);
        }
    }
    while i < parts.len()
        invariant
            i <= parts.len(),
            parts.len() == views.len(),
            views == text::split(s@, ':'),
            s.len() > 0,
            forall|j: int| 0 <= j < parts.len() ==> #[trigger] parts[j]@ == views[j],
            all_16_bit(groups@),
            match hextets_from(views, with_ipv4, i as int) {
                Some(rest) => hextets(s@, with_ipv4) == Some(nats(groups@) + rest),
                None => hextets(s@, with_ipv4) is None,
            },
        decreases parts.len() - i,
    {
        let ghost before = groups@;
        assert(parts[i as int]@ == views[i as int]);
        match parse_hextet(&parts[i]) {
            Some(group) => {
                groups.push(group);
                proof {
                    if let Some(rest) = hextets_from(views, with_ipv4, i + 1) {
                        assert(nats(before) + (seq![group as nat] + rest) =~= nats(groups@) + rest);
                    }
                }
            },
            None => {
                if !with_ipv4 || i + 1 != parts.len() {
                    return None;
                }
                match parse_ipv4(&parts[i]) {
                    Some(n) => {
                        groups.push(n / 65536);
                        groups.push(n % 65536);
                        assert(nats(before) + seq![n as nat / 65536, n as nat % 65536] =~= nats(
                            groups@,
                        ));
                        return Some(groups);
                    },
                    None => {
                        return None;
                    },
                }
            },
        }
        i = i + 1;
    }
    assert(nats(groups@) + Seq::<nat>::empty() =~= nats(groups@));
    Some(groups)
}

/// The position of the first `::`.
fn find_double_colon(s: &Vec<char>) -> (res: usize)
    ensures
        res == double_colon_from(s@, 0),
        res <= s.len(),
        res < s.len() ==> res + 2 <= s.len(),
{
    let mut i: usize = 0;
    while i < s.len()
        invariant
            i <= s.len(),
            double_colon_from(s@, 0) == double_colon_from(s@, i as int),
        decreases s.len() - i,
    {
        if i + 1 >= s.len() {
            return s.len();
        }
        if s[i] == ':' && s[i + 1] == ':' {
            return i;
        }
        i = i + 1;
    }
    i
}

/// Two to the power of 16 times `n`.
pub open spec fn group_bound(n: nat) -> nat
    decreases n,
{
    if n == 0 {
        1
    } else {
        group_bound((n - 1) as nat) * 65536
    }
}

/// A number of `n` groups fits in 16 times `n` bits.
proof fn lemma_groups_bound(groups: Seq<nat>)
    requires
        forall|i: int| 0 <= i < groups.len() ==> #[trigger] groups[i] <= 65535,
    ensures
        groups_value(groups) < group_bound(groups.len()),
    decreases groups.len(),
{
    if groups.len() > 0 {
        lemma_groups_bound(groups.drop_last());
    }
}

/// The number whose groups of 16 bits are `groups`.
fn join_groups(groups: &Vec<u32>) -> (res: u128)
    requires
        groups.len() == 8,
        all_16_bit(groups@),
    ensures
        res == groups_value(nats(groups@)),
{
    let mut value: u128 = 0;
    let mut i: usize = 0;
    assert(nats(groups@).subrange(0, 0) =~= Seq::<nat>::empty());
    while i < 8
        invariant
            i <= 8,
            groups.len() == 8,
            all_16_bit(groups@),
            value == groups_value(nats(groups@).subrange(0, i as int)),
            value < group_bound(i as nat),
        decreases 8 - i,
    {
        let ghost next = nats(groups@).subrange(0, i as int + 1);
        assert(next.drop_last() =~= nats(groups@).subrange(0, i as int));
        proof {
            lemma_groups_bound(next);
            reveal_with_fuel(group_bound, 9);
        }
        assert(value <= 0x1_0000_0000_0000_0000_0000_0000_0000);
        value = value * 65536 + groups[i] as u128;
        i = i + 1;
    }
    assert(nats(groups@).subrange(0, 8) =~= nats(groups@));
    value
}

/// Reads an IPv6 address.
fn parse_ipv6(s: &Vec<char>) -> (res: Option<u128>)
    ensures
        match res {
            Some(n) => ipv6(s@) == Some(n as nat),
            None => ipv6(s@) is None,
        },
{
    let k: usize = find_double_colon(s);
    if k >= s.len() {
        return match parse_hextets(s, true) {
            Some(groups) => if groups.len() == 8 {
                Some(join_groups(&groups))
            } else {
                None
            },
            None => None,
        };
    }
    let head = match parse_hextets(&slice_chars(s, 0, k), false) {
        Some(head) => head,
        None => {
            return None;
        },
    };
    let tail = match parse_hextets(&slice_chars(s, k + 2, s.len()), true) {
        Some(tail) => tail,
        None => {
            return None;
        },
    };
    if head.len() > 7 || tail.len() > 7 - head.len() {
        return None;
    }
    let mut groups: Vec<u32> = Vec::new();
    let mut i: usize = 0;
    while i < 8
        invariant
            i <= 8,
            groups.len() == i,
            head.len() + tail.len() <= 7,
            all_16_bit(head@),
            all_16_bit(tail@),
            all_16_bit(groups@),
            forall|j: int|
                0 <= j < i ==> #[trigger] nats(groups@)[j] == (nats(head@) + zero_groups(
                    8 - head.len() - tail.len(),
                ) + nats(tail@))[j],
        decreases 8 - i,
    {
        let ghost before = groups@;
        if i < head.len() {
            groups.push(head[i]);
        } else if i >= 8 - tail.len() {
            groups.push(tail[i - (8 - tail.len())]);
        } else {
            groups.push(0);
        }
        assert forall|j: int| 0 <= j < i implies #[trigger] nats(groups@)[j] == nats(before)[j] by {
        }
        i = i + 1;
    }
    assert(nats(groups@) =~= nats(head@) + zero_groups(8 - head.len() - tail.len()) + nats(tail@));
    Some(join_groups(&groups))
}

/// Reads an IP address.
fn parse_ip_chars(s: &Vec<char>) -> (res: Option<IpAddr>)
    ensures
        res == ip_addr(s@),
{
    match parse_ipv4(s) {
        Some(n) => Some(IpAddr::V4(n)),
        None => match parse_ipv6(s) {
            Some(n) => Some(IpAddr::V6(n)),
            None => None,
        },
    }
}

/// Reads an IP address.
pub fn parse_ip_addr(s: &str) -> (res: Option<IpAddr>)
    ensures
        res == ip_addr(s@),
{
    parse_ip_chars(&to_chars(s))
}

/// Reads an IPv6 address with an optional scope.
fn parse_scoped_ipv6(s: &Vec<char>) -> (res: Option<(u128, u32)>)
    ensures
        match res {
            Some((ip, scope)) => scoped_ipv6(s@) == Some((ip as nat, scope as nat)),
            None => scoped_ipv6(s@) is None,
        },
{
    let k: usize = find_char(s, '%');
    if k >= s.len() {
        return match parse_ipv6(s) {
            Some(ip) => Some((ip, 0)),
            None => None,
        };
    }
    match (
        parse_ipv6(&slice_chars(s, 0, k)),
        parse_number(&slice_chars(s, k + 1, s.len()), 10, 0xffff_ffff),
    ) {
        (Some(ip), Some(scope)) => Some((ip, scope)),
        _ => None,
    }
}

/// Reads a socket address.
pub fn parse_socket_addr(text: &str) -> (res: Option<SocketAddr>)
    ensures
        res == socket_addr(text@),
{
    let s = to_chars(text);
    if s.len() > 0 && s[0] == '[' {
        let k: usize = find_char(&s, ']');
        if k >= s.len() || k + 1 >= s.len() || s[k + 1] != ':' {
            return None;
        }
        match (
            parse_scoped_ipv6(&slice_chars(&s, 1, k)),
            parse_number(&slice_chars(&s, k + 2, s.len()), 10, 65535),
        ) {
            (Some((ip, scope)), Some(port)) => Some(
                SocketAddr { ip: IpAddr::V6(ip), port: port as u16, scope_id: scope },
            ),
            _ => None,
        }
    } else {
        let k: usize = find_char(&s, ':');
        if k >= s.len() {
            return None;
        }
        match (
            parse_ipv4(&slice_chars(&s, 0, k)),
            parse_number(&slice_chars(&s, k + 1, s.len()), 10, 65535),
        ) {
            (Some(ip), Some(port)) => Some(
                SocketAddr { ip: IpAddr::V4(ip), port: port as u16, scope_id: 0 },
            ),
            _ => None,
        }
    }
}

/// `n` as an IPv4 address: four octets separated by dots.
pub open spec fn ipv4_text(n: nat) -> Seq<char> {
    text::number_text(n / 16777216, 10) + "."@ + text::number_text(n / 65536 % 256, 10) + "."@
        + text::number_text(n / 256 % 256, 10) + "."@ + text::number_text(n % 256, 10)
}

/// Group `i` of the IPv6 address `n`.
pub open spec fn group_of(n: nat, i: int) -> nat {
    if i == 7 {
        n % 65536
    } else if i == 6 {
        n / 0x1_0000 % 65536
    } else if i == 5 {
        n / 0x1_0000_0000 % 65536
    } else if i == 4 {
        n / 0x1_0000_0000_0000 % 65536
    } else if i == 3 {
        n / 0x1_0000_0000_0000_0000 % 65536
    } else if i == 2 {
        n / 0x1_0000_0000_0000_0000_0000 % 65536
    } else if i == 1 {
        n / 0x1_0000_0000_0000_0000_0000_0000 % 65536
    } else {
        n / 0x1_0000_0000_0000_0000_0000_0000_0000 % 65536
    }
}

/// The eight groups of the IPv6 address `n`.
pub open spec fn groups_of(n: nat) -> Seq<nat> {
    Seq::new(8, |i: int| group_of(n, i))
}

/// How many groups of zero stand in `groups` from `i` on.
pub open spec fn zero_run(groups: Seq<nat>, i: int) -> nat
    decreases groups.len() - i,
{
    if i < 0 || i >= groups.len() || groups[i] != 0 {
        0
    } else {
        1 + zero_run(groups, i + 1)
    }
}

/// The longest run of zeros in `groups` that starts at or after `i`, unless
/// the one of `len` groups at `start` is as long: its start and its length.
pub open spec fn longest_zero_run(groups: Seq<nat>, i: int, start: int, len: nat) -> (int, nat)
    decreases groups.len() - i,
{
    if i < 0 || i >= groups.len() {
        (start, len)
    } else if zero_run(groups, i) > len {
        longest_zero_run(groups, i + 1, i, zero_run(groups, i))
    } else {
        longest_zero_run(groups, i + 1, start, len)
    }
}

/// The groups from `i` up to but without `end` in hexadecimal, separated by
/// colons.
pub open spec fn groups_text(groups: Seq<nat>, i: int, end: int) -> Seq<char>
    decreases end - i,
{
    if i >= end {
        Seq::empty()
    } else if i + 1 == end {
        text::number_text(groups[i], 16)
    } else {
        text::number_text(groups[i], 16) + ":"@ + groups_text(groups, i + 1, end)
    }
}

/// `n` as an IPv6 address. The first of the longest runs of two or more zero
/// groups is written as `::`; an IPv4-mapped address ends in its IPv4 address.
pub open spec fn ipv6_text(n: nat) -> Seq<char> {
    if n / 0x1_0000_0000 == 0xffff {
        "::ffff:"@ + ipv4_text(n % 0x1_0000_0000)
    } else {
        let groups = groups_of(n);
        let (start, len) = longest_zero_run(groups, 0, 0, 0);
        if len > 1 {
            groups_text(groups, 0, start) + "::"@ + groups_text(groups, start + len, 8)
        } else {
            groups_text(groups, 0, 8)
        }
    }
}

/// The canonical text of an IP address.
pub open spec fn ip_text(ip: IpAddr) -> Seq<char> {
    match ip {
        IpAddr::V4(n) => ipv4_text(n as nat),
        IpAddr::V6(n) => ipv6_text(n as nat),
    }
}

/// The canonical text of a socket address.
pub open spec fn socket_text(addr: SocketAddr) -> Seq<char> {
    match addr.ip {
        IpAddr::V4(_) => ip_text(addr.ip) + ":"@ + text::number_text(addr.port as nat, 10),
        IpAddr::V6(_) => "["@ + ip_text(addr.ip) + (if addr.scope_id == 0 {
            Seq::empty()
        } else {
            "%"@ + text::number_text(addr.scope_id as nat, 10)
        }) + "]:"@ + text::number_text(addr.port as nat, 10),
    }
}

/// Writes an IPv4 address.
fn format_ipv4(n: u32) -> (res: String)
    ensures
        res@ == ipv4_text(n as nat),
{
    let (a, b, c, d): (u64, u64, u64, u64) = (
        (n / 16777216) as u64,
        (n / 65536 % 256) as u64,
        (n / 256 % 256) as u64,
        (n % 256) as u64,
    );
    decimal(a).concat(".").concat(decimal(b).as_str()).concat(".").concat(
        decimal(c).as_str(),
    ).concat(".").concat(decimal(d).as_str())
}

/// The eight groups of an IPv6 address.
fn split_groups(n: u128) -> (res: Vec<u32>)
    ensures
        nats(res@) == groups_of(n as nat),
{
    let mut res: Vec<u32> = Vec::new();
    res.push((n / 0x1_0000_0000_0000_0000_0000_0000_0000 % 65536) as u32);
    res.push((n / 0x1_0000_0000_0000_0000_0000_0000 % 65536) as u32);
    res.push((n / 0x1_0000_0000_0000_0000_0000 % 65536) as u32);
    res.push((n / 0x1_0000_0000_0000_0000 % 65536) as u32);
    res.push((n / 0x1_0000_0000_0000 % 65536) as u32);
    res.push((n / 0x1_0000_0000 % 65536) as u32);
    res.push((n / 0x1_0000 % 65536) as u32);
    res.push((n % 65536) as u32);
    assert(nats(res@) =~= groups_of(n as nat));
    res
}

/// How many groups of zero stand from `i` on.
fn count_zero_run(groups: &Vec<u32>, i: usize) -> (res: usize)
    requires
        i <= groups.len(),
    ensures
        res == zero_run(nats(groups@), i as int),
        i + res <= groups.len(),
    decreases groups.len() - i,
{
    if i >= groups.len() || groups[i] != 0 {
        assert(i < groups.len() ==> nats(groups@)[i as int] == groups[i as int]);
        0
    } else {
        assert(nats(groups@)[i as int] == 0);
        1 + count_zero_run(groups, i + 1)
    }
}

/// Writes the groups from `i` up to but without `end`.
fn format_groups(groups: &Vec<u32>, i: usize, end: usize) -> (res: String)
    requires
        i <= end <= groups.len(),
    ensures
        res@ == groups_text(nats(groups@), i as int, end as int),
    decreases end - i,
{
    if i >= end {
        String::new()
    } else if i + 1 == end {
        assert(nats(groups@)[i as int] == groups[i as int] as nat);
        hexadecimal(groups[i] as u64)
    } else {
        assert(nats(groups@)[i as int] == groups[i as int] as nat);
        hexadecimal(groups[i] as u64).concat(":").concat(format_groups(groups, i + 1, end).as_str())
    }
}

/// Writes an IPv6 address.
fn format_ipv6(n: u128) -> (res: String)
    ensures
        res@ == ipv6_text(n as nat),
{
    if n / 0x1_0000_0000 == 0xffff {
        return String::from_str("::ffff:").concat(
            format_ipv4((n % 0x1_0000_0000) as u32).as_str(),
        );
    }
    let groups = split_groups(n);
    let ghost views = groups_of(n as nat);
    assert(nats(groups@).len() == 8);
    let mut start: usize = 0;
    let mut len: usize = 0;
    let mut i: usize = 0;
    while i < 8
        invariant
            i <= 8,
            groups.len() == 8,
            nats(groups@) == views,
            start + len <= 8,
            longest_zero_run(views, 0, 0, 0) == longest_zero_run(
                views,
                i as int,
                start as int,
                len as nat,
            ),
        decreases 8 - i,
    {
        let run: usize = count_zero_run(&groups, i);
        if run > len {
            start = i;
            len = run;
        }
        i = i + 1;
    }
    if len > 1 {
        format_groups(&groups, 0, start).concat("::").concat(
            format_groups(&groups, start + len, 8).as_str(),
        )
    } else {
        format_groups(&groups, 0, 8)
    }
}

impl IpAddr {
    /// The canonical text of the address.
    pub fn to_text(&self) -> (res: String)
        ensures
            res@ == ip_text(*self),
    {
        match self {
            IpAddr::V4(n) => format_ipv4(*n),
            IpAddr::V6(n) => format_ipv6(*n),
        }
    }
}

impl SocketAddr {
    /// The canonical text of the address.
    pub fn to_text(&self) -> (res: String)
        ensures
            res@ == socket_text(*self),
    {
        let ip = self.ip.to_text();
        let port = decimal(self.port as u64);
        match self.ip {
            IpAddr::V4(_) => ip.concat(":").concat(port.as_str()),
            IpAddr::V6(_) => {
                let scope = if self.scope_id == 0 {
                    String::new()
                } else {
                    String::from_str("%").concat(decimal(self.scope_id as u64).as_str())
                };
                String::from_str("[").concat(ip.as_str()).concat(scope.as_str()).concat(
                    "]:",
                ).concat(port.as_str())
            },
        }
    }
}

/// Whether the text of an address or a network is one of IPv6.
pub open spec fn ipv6_like(s: Seq<char>) -> bool {
    s.contains(':')
}

/// Whether the text of an address or a network is one of IPv6.
pub fn is_ipv6_addr(s: &str) -> (res: bool)
    ensures
        res == ipv6_like(s@),
{
    let chars = to_chars(s);
    let mut i: usize = 0;
    while i < chars.len()
        invariant
            i <= chars.len(),
            chars@ == s@,
            forall|j: int| 0 <= j < i ==> chars[j] != ':',
        decreases chars.len() - i,
    {
        if chars[i] == ':' {
            assert(s@[i as int] == ':');
            return true;
        }
        i = i + 1;
    }
    false
}

/// Two to the power of `n`.
pub open spec fn power_of_two(n: nat) -> nat
    decreases n,
{
    if n == 0 {
        1
    } else {
        power_of_two((n - 1) as nat) * 2
    }
}

/// The first address of the network of `len` bits that holds `ip`, out of
/// `bits` bits.
pub open spec fn network_base(ip: nat, len: nat, bits: nat) -> nat {
    (ip - ip % power_of_two((bits - len) as nat)) as nat
}

/// The address and the prefix length that `s` writes, as in `192.0.2.0/24`. A
/// text without a prefix length is a network of one host.
pub open spec fn ip_network(s: Seq<char>) -> Option<(IpAddr, nat)> {
    let k = text::position(s, '/');
    match ip_addr(if k < s.len() { s.subrange(0, k) } else { s }) {
        Some(ip) => {
            let bits: nat = if ip is V4 { 32 } else { 128 };
            if k < s.len() {
                match text::number(s.subrange(k + 1, s.len() as int), 10, bits) {
                    Some(len) => Some((ip, len)),
                    None => None,
                }
            } else {
                Some((ip, bits))
            }
        },
        None => None,
    }
}

/// The canonical text of the network that `s` writes: its first address and
/// its prefix length.
pub open spec fn canonical_network(s: Seq<char>) -> Option<Seq<char>> {
    match ip_network(s) {
        Some((ip, len)) => {
            let base = match ip {
                IpAddr::V4(n) => IpAddr::V4(network_base(n as nat, len, 32) as u32),
                IpAddr::V6(n) => IpAddr::V6(network_base(n as nat, len, 128) as u128),
            };
            Some(ip_text(base) + "/"@ + text::number_text(len, 10))
        },
        None => None,
    }
}

/// The error of a text that is no IP network.
pub open spec fn bad_network(s: Seq<char>) -> NipartErrorView {
    error::invalid("Invalid IP network "@ + s)
}

/// What [sanitize_ip_network] returns.
pub open spec fn sanitized_network(s: Seq<char>) -> Result<Seq<char>, NipartErrorView> {
    match canonical_network(s) {
        Some(network) => Ok(network),
        None => Err(bad_network(s)),
    }
}

/// The first address of the network of `len` bits that holds `ip`.
fn mask_network(ip: u128, len: u32, bits: u32) -> (res: u128)
    requires
        len <= bits <= 128,
        bits < 128 ==> ip < power_of_two(bits as nat),
    ensures
        res == network_base(ip as nat, len as nat, bits as nat),
        res <= ip,
{
    let count: u32 = bits - len;
    if count == 128 {
        proof {
            lemma_power_of_two_128();
            let space = power_of_two(128) as int;
            assert(ip as int % space == ip as int) by (nonlinear_arith)
                requires
                    0 <= ip < space,
            ;
        }
        return 0;
    }
    let mut power: u128 = 1;
    let mut i: u32 = 0;
    while i < count
        invariant
            i <= count < 128,
            power == power_of_two(i as nat),
        decreases count - i,
    {
        proof {
            lemma_power_of_two_128();
            lemma_power_of_two_grows(i as nat, 127);
            assert(power_of_two(128) == power_of_two(127) * 2);
        }
        if i < 127 {
            proof {
                lemma_power_of_two_grows(i as nat + 1, 127);
            }
        }
        power = power * 2;
        i = i + 1;
    }
    proof {
        lemma_power_of_two_grows(0, i as nat);
    }
    assert(0 <= ip as int % power as int <= ip) by (nonlinear_arith)
        requires
            power >= 1,
            ip >= 0,
    ;
    let rest: u128 = ip % power;
    ip - rest
}

/// Powers of two grow.
proof fn lemma_power_of_two_grows(a: nat, b: nat)
    requires
        a <= b,
    ensures
        1 <= power_of_two(a) <= power_of_two(b),
    decreases b,
{
    if b > 0 {
        if a < b {
            lemma_power_of_two_grows(a, (b - 1) as nat);
        } else {
            lemma_power_of_two_grows((b - 1) as nat, (b - 1) as nat);
        }
    }
}

/// The sizes of the address spaces.
proof fn lemma_power_of_two_128()
    ensures
        power_of_two(32) == 0x1_0000_0000,
        power_of_two(128) == 0x1_0000_0000_0000_0000_0000_0000_0000_0000,
{
    reveal_with_fuel(power_of_two, 33);
    assert(power_of_two(32) == 0x1_0000_0000);
    lemma_power_of_two_sum(32, 32);
    let x = power_of_two(32);
    assert(x * x == 0x1_0000_0000_0000_0000) by (nonlinear_arith)
        requires
            x == 0x1_0000_0000,
    ;
    lemma_power_of_two_sum(64, 64);
    let y = power_of_two(64);
    assert(y * y == 0x1_0000_0000_0000_0000_0000_0000_0000_0000) by (nonlinear_arith)
        requires
            y == 0x1_0000_0000_0000_0000,
    ;
}

/// The product of two powers of two.
proof fn lemma_power_of_two_sum(a: nat, b: nat)
    ensures
        power_of_two(a + b) == power_of_two(a) * power_of_two(b),
    decreases b,
{
    if b > 0 {
        lemma_power_of_two_sum(a, (b - 1) as nat);
        let x = power_of_two(a);
        let y = power_of_two((b - 1) as nat);
        assert(x * y * 2 == x * (y * 2)) by (nonlinear_arith);
    } else {
        let x = power_of_two(a);
        assert(x * 1 == x) by (nonlinear_arith);
    }
}

/// The canonical text of the network that `ip_net` writes. A single address
/// gets the prefix length of one host.
pub fn sanitize_ip_network(ip_net: &str) -> (res: Result<String, NipartError>)
    ensures
        error::same_result(res, sanitized_network(ip_net@)),
{
    match canonical_ip_network(ip_net) {
        Some(network) => Ok(network),
        None => Err(
            NipartError::new(
                ErrorKind::InvalidArgument,
                String::from_str("Invalid IP network ").concat(ip_net),
            ),
        ),
    }
}

/// The canonical text of the network that `ip_net` writes, if it writes one.
pub fn canonical_ip_network(ip_net: &str) -> (res: Option<String>)
    ensures
        res.deep_view() == canonical_network(ip_net@),
{
    let s = to_chars(ip_net);
    let k: usize = find_char(&s, '/');
    let addr = if k < s.len() {
        parse_ip_chars(&slice_chars(&s, 0, k))
    } else {
        parse_ip_chars(&s)
    };
    let ip = match addr {
        Some(ip) => ip,
        None => {
            return None;
        },
    };
    let bits: u32 = match ip {
        IpAddr::V4(_) => 32,
        IpAddr::V6(_) => 128,
    };
    let len: u32 = if k < s.len() {
        match parse_number(&slice_chars(&s, k + 1, s.len()), 10, bits) {
            Some(len) => len,
            None => {
                return None;
            },
        }
    } else {
        bits
    };
    proof {
        lemma_power_of_two_128();
    }
    let base = match ip {
        IpAddr::V4(n) => IpAddr::V4(mask_network(n as u128, len, 32) as u32),
        IpAddr::V6(n) => IpAddr::V6(mask_network(n, len, 128)),
    };
    Some(base.to_text().concat("/").concat(decimal(len as u64).as_str()))
}

} // verus!
