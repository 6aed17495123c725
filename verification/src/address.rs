//! IP addresses and socket addresses, and the text form of IP addresses.

use crate::text;
use vstd::prelude::*;

verus! {

/// An IP address of either family, as the number that its bits make up.
#[derive(Debug, Clone, Copy, PartialEq, Eq, Structural)]
pub enum IpAddr {
    V4(u32),
    V6(u128),
}

impl IpAddr {
    /// The number of bits in an address of this family.
    pub open spec fn width(self) -> nat {
        match self {
            IpAddr::V4(_) => 32,
            IpAddr::V6(_) => 128,
        }
    }

    /// The number that the bits of the address make up.
    pub open spec fn number(self) -> nat {
        match self {
            IpAddr::V4(bits) => bits as nat,
            IpAddr::V6(bits) => bits as nat,
        }
    }
}

/// The address of one end of a connection. The flow label and the scope are
/// zero but for IPv6 addresses that a lookup returned with them.
#[derive(Debug, Clone, Copy, PartialEq, Eq, Structural)]
pub struct SocketAddr {
    pub ip: IpAddr,
    pub port: u16,
    pub flow_info: u32,
    pub scope_id: u32,
}

impl SocketAddr {
    pub open spec fn of(ip: IpAddr, port: u16) -> SocketAddr {
        SocketAddr { ip, port, flow_info: 0, scope_id: 0 }
    }

    /// The address of `port` at `ip`.
    pub fn new(ip: IpAddr, port: u16) -> (address: SocketAddr)
        ensures
            address == SocketAddr::of(ip, port),
    {
        SocketAddr { ip, port, flow_info: 0, scope_id: 0 }
    }
}

/// One of the four numbers of a dotted address: up to three decimal digits
/// without a leading zero, at most 255.
pub open spec fn octet(text: Seq<char>) -> Option<nat> {
    if text.len() > 3 || (text.len() > 1 && text[0] == '0') {
        None
    } else {
        match text::numeral_value(text, 10) {
            Some(value) if value <= 255 => Some(value),
            _ => None,
        }
    }
}

/// The IPv4 address that `text` denotes: four octets joined by dots.
pub open spec fn ipv4_value(text: Seq<char>) -> Option<u32> {
    let parts = text::split_on(text, '.');
    if parts.len() != 4 {
        None
    } else {
        match (octet(parts[0]), octet(parts[1]), octet(parts[2]), octet(parts[3])) {
            (Some(a), Some(b), Some(c), Some(d)) => Some(
                (a * 0x100_0000 + b * 0x1_0000 + c * 0x100 + d) as u32,
            ),
            _ => None,
        }
    }
}

/// One of the groups of an IPv6 address: up to four hexadecimal digits.
pub open spec fn hex_group(text: Seq<char>) -> Option<nat> {
    if text.len() > 4 {
        None
    } else {
        text::numeral_value(text, 16)
    }
}

/// The values of hexadecimal groups, where all the pieces are such groups.
pub open spec fn hex_groups(pieces: Seq<Seq<char>>) -> Option<Seq<nat>>
    decreases pieces.len(),
{
    if pieces.len() == 0 {
        Some(Seq::empty())
    } else {
        match (hex_groups(pieces.drop_last()), hex_group(pieces.last())) {
            (Some(groups), Some(group)) => Some(groups.push(group)),
            _ => None,
        }
    }
}

/// The groups that `text` lists, joined by colons. A dotted address may stand
/// for the last two where `dotted` allows it.
pub open spec fn group_list(text: Seq<char>, dotted: bool) -> Option<Seq<nat>> {
    if text.len() == 0 {
        Some(Seq::empty())
    } else {
        let pieces = text::split_on(text, ':');
        match ipv4_value(pieces.last()) {
            Some(tail) if dotted => match hex_groups(pieces.drop_last()) {
                Some(groups) => Some(
                    groups + seq![tail as nat / 0x1_0000, tail as nat % 0x1_0000],
                ),
                None => None,
            },
            _ => hex_groups(pieces),
        }
    }
}

/// The position of the first double colon in `text`, or the length of `text`.
pub open spec fn double_colon(text: Seq<char>) -> int
    decreases text.len(),
{
    if text.len() < 2 {
        text.len() as int
    } else if text[0] == ':' && text[1] == ':' {
        0
    } else {
        1 + double_colon(text.drop_first())
    }
}

/// The number that eight groups of sixteen bits make up.
pub open spec fn groups_number(groups: Seq<nat>) -> nat {
    groups[0] * 0x1_0000_0000_0000_0000_0000_0000_0000 + groups[1]
        * 0x1_0000_0000_0000_0000_0000_0000 + groups[2] * 0x1_0000_0000_0000_0000_0000 + groups[3]
        * 0x1_0000_0000_0000_0000 + groups[4] * 0x1_0000_0000_0000 + groups[5] * 0x1_0000_0000
        + groups[6] * 0x1_0000 + groups[7]
}

/// The IPv6 address that `text` denotes: eight groups, or fewer around one
/// double colon, which stands for the groups that are missing and for one at
/// least. A dotted address may end the text, but not the part before the
/// double colon.
pub open spec fn ipv6_value(text: Seq<char>) -> Option<u128> {
    let gap = double_colon(text);
    if gap == text.len() {
        match group_list(text, true) {
            Some(groups) if groups.len() == 8 => Some(groups_number(groups) as u128),
            _ => None,
        }
    } else {
        match (group_list(text.take(gap), false), group_list(text.skip(gap + 2), true)) {
            (Some(head), Some(tail)) if head.len() + tail.len() <= 7 => Some(
                groups_number(
                    head + Seq::new((8 - head.len() - tail.len()) as nat, |i: int| 0nat) + tail,
                ) as u128,
            ),
            _ => None,
        }
    }
}

/// The IP address that `text` denotes.
pub open spec fn ip_value(text: Seq<char>) -> Option<IpAddr> {
    match ipv4_value(text) {
        Some(bits) => Some(IpAddr::V4(bits)),
        None => match ipv6_value(text) {
            Some(bits) => Some(IpAddr::V6(bits)),
            None => None,
        },
    }
}

fn read_octet(text: &[char]) -> (value: Option<u32>)
    ensures
        match value {
            Some(number) => octet(text@) == Some(number as nat),
            None => octet(text@) is None,
        },
        value matches Some(number) ==> number <= 255,
{
    if text.len() > 1 && text[0] == '0' {
        return None;
    }
    match text::read_numeral(text, 10, 3) {
        Some(number) => if number <= 255 {
            Some(number)
        } else {
            None
        },
        None => None,
    }
}

fn read_ipv4(text: &[char]) -> (value: Option<u32>)
    ensures
        value == ipv4_value(text@),
{
    let parts = text::split_chars(text, '.');
    assert(text::views(parts@).len() == parts@.len());
    if parts.len() != 4 {
        return None;
    }
    let a = read_octet(parts[0].as_slice());
    let b = read_octet(parts[1].as_slice());
    let c = read_octet(parts[2].as_slice());
    let d = read_octet(parts[3].as_slice());
    match (a, b, c, d) {
        (Some(a), Some(b), Some(c), Some(d)) => Some(
            a * 0x100_0000 + b * 0x1_0000 + c * 0x100 + d,
        ),
        _ => None,
    }
}

proof fn lemma_hex_groups_prefix(pieces: Seq<Seq<char>>, k: int)
    requires
        0 <= k <= pieces.len(),
        hex_groups(pieces) is Some,
    ensures
        hex_groups(pieces.take(k)) is Some,
    decreases pieces.len(),
{
    if k == pieces.len() {
        assert(pieces.take(k) =~= pieces);
    } else {
        lemma_hex_groups_prefix(pieces.drop_last(), k);
        assert(pieces.drop_last().take(k) =~= pieces.take(k));
    }
}

/// The values of the groups of an address, as plain numbers.
pub open spec fn group_values(groups: Seq<u16>) -> Seq<nat> {
    Seq::new(groups.len(), |i: int| groups[i] as nat)
}

/// Reads the first `count` of `pieces` as hexadecimal groups.
fn read_hex_groups(pieces: &Vec<Vec<char>>, count: usize) -> (groups: Option<Vec<u16>>)
    requires
        count <= pieces@.len(),
    ensures
        match groups {
            Some(list) => hex_groups(text::views(pieces@).take(count as int)) == Some(
                group_values(list@),
            ),
            None => hex_groups(text::views(pieces@).take(count as int)) is None,
        },
{
    let ghost all = text::views(pieces@);
    let mut groups: Vec<u16> = Vec::new();
    let mut i: usize = 0;
    assert(all.take(0) =~= Seq::empty());
    assert(group_values(groups@) =~= Seq::empty());
    while i < count
        invariant
            i <= count <= pieces@.len(),
            all == text::views(pieces@),
            hex_groups(all.take(i as int)) == Some(group_values(groups@)),
        decreases count - i,
    {
        let ghost before = groups@;
        proof {
            assert(all.take(i + 1).drop_last() =~= all.take(i as int));
            assert(all.take(i + 1).last() == pieces@[i as int]@);
        }
        match text::read_numeral(pieces[i].as_slice(), 16, 4) {
            Some(group) => {
                groups.push(group as u16);
                assert(group_values(groups@) =~= group_values(before).push(group as nat));
            },
            None => {
                proof {
                    if hex_groups(all.take(count as int)) is Some {
                        lemma_hex_groups_prefix(all.take(count as int), i + 1);
                        assert(all.take(count as int).take(i + 1) =~= all.take(i + 1));
                    }
                }
                return None;
            },
        }
        i += 1;
    }
    Some(groups)
}

fn read_group_list(text: &[char], dotted: bool) -> (groups: Option<Vec<u16>>)
    ensures
        match groups {
            Some(list) => group_list(text@, dotted) == Some(group_values(list@)),
            None => group_list(text@, dotted) is None,
        },
{
    if text.len() == 0 {
        let groups: Vec<u16> = Vec::new();
        assert(group_values(groups@) =~= Seq::empty());
        return Some(groups);
    }
    let pieces = text::split_chars(text, ':');
    let ghost all = text::views(pieces@);
    let last: usize = pieces.len() - 1;
    assert(all.last() == pieces@[last as int]@);
    assert(all.take(last as int) =~= all.drop_last());
    assert(all.take(all.len() as int) =~= all);
    match read_ipv4(pieces[last].as_slice()) {
        Some(tail) if dotted => match read_hex_groups(&pieces, last) {
            Some(groups) => {
                let mut groups = groups;
                let ghost before = groups@;
                let high: u32 = tail / 0x1_0000;
                let low: u32 = tail % 0x1_0000;
                groups.push(high as u16);
                groups.push(low as u16);
                assert(group_values(groups@) =~= group_values(before) + seq![
                    tail as nat / 0x1_0000,
                    tail as nat % 0x1_0000,
                ]);
                Some(groups)
            },
            None => None,
        },
        _ => read_hex_groups(&pieces, last + 1),
    }
}

fn find_double_colon(text: &[char]) -> (position: usize)
    ensures
        position == double_colon(text@),
        position <= text@.len(),
        position < text@.len() ==> position + 2 <= text@.len(),
{
    let mut i: usize = 0;
    assert(text@.skip(0) =~= text@);
    while text.len() - i >= 2 && !(text[i] == ':' && text[i + 1] == ':')
        invariant
            i <= text@.len(),
            double_colon(text@) == i + double_colon(text@.skip(i as int)),
        decreases text@.len() - i,
    {
        assert(text@.skip(i as int).drop_first() =~= text@.skip(i + 1));
        i += 1;
    }
    if text.len() - i < 2 {
        text.len()
    } else {
        i
    }
}

fn join_groups(groups: &Vec<u16>) -> (bits: u128)
    requires
        groups@.len() == 8,
    ensures
        bits == groups_number(group_values(groups@)),
{
    groups[0] as u128 * 0x1_0000_0000_0000_0000_0000_0000_0000 + groups[1] as u128
        * 0x1_0000_0000_0000_0000_0000_0000 + groups[2] as u128 * 0x1_0000_0000_0000_0000_0000
        + groups[3] as u128 * 0x1_0000_0000_0000_0000 + groups[4] as u128 * 0x1_0000_0000_0000
        + groups[5] as u128 * 0x1_0000_0000 + groups[6] as u128 * 0x1_0000 + groups[7] as u128
}

fn read_ipv6(text: &[char]) -> (value: Option<u128>)
    ensures
        value == ipv6_value(text@),
{
    let gap = find_double_colon(text);
    if gap == text.len() {
        match read_group_list(text, true) {
            Some(groups) => {
                if groups.len() == 8 {
                    Some(join_groups(&groups))
                } else {
                    None
                }
            },
            None => None,
        }
    } else {
        let before: &[char] = &text[0..gap];
        let after: &[char] = &text[gap + 2..text.len()];
        assert(before@ =~= text@.take(gap as int));
        assert(after@ =~= text@.skip(gap + 2));
        match (read_group_list(before, false), read_group_list(after, true)) {
            (Some(head), Some(tail)) => {
                if head.len() > 7 || tail.len() > 7 - head.len() {
                    return None;
                }
                let ghost zeros: Seq<nat> = Seq::new(
                    (8 - head@.len() - tail@.len()) as nat,
                    |i: int| 0nat,
                );
                let mut groups: Vec<u16> = Vec::new();
                let mut i: usize = 0;
                while i < 8
                    invariant
                        i <= 8,
                        head@.len() + tail@.len() <= 7,
                        groups@.len() == i,
                        forall|j: int|
                            0 <= j < i ==> groups@[j] == (if j < head@.len() {
                                head@[j]
                            } else if j < 8 - tail@.len() {
                                0u16
                            } else {
                                tail@[j - (8 - tail@.len())]
                            }),
                    decreases 8 - i,
                {
                    if i < head.len() {
                        groups.push(head[i]);
                    } else if i < 8 - tail.len() {
                        groups.push(0);
                    } else {
                        groups.push(tail[i - (8 - tail.len())]);
                    }
                    i += 1;
                }
                assert(group_values(groups@) =~= group_values(head@) + zeros + group_values(tail@));
                Some(join_groups(&groups))
            },
            _ => None,
        }
    }
}

/// Reads an IP address.
pub fn parse_ip(text: &str) -> (address: Option<IpAddr>)
    ensures
        address == ip_value(text@),
{
    let chars = text::chars_of(text);
    match read_ipv4(chars.as_slice()) {
        Some(bits) => Some(IpAddr::V4(bits)),
        None => match read_ipv6(chars.as_slice()) {
            Some(bits) => Some(IpAddr::V6(bits)),
            None => None,
        },
    }
}

/// Addresses have 32 or 128 bits and are the number that these make up; a new
/// socket address has the address and port given and nothing else.
pub proof fn law_addresses_are_numbers(narrow: u32, wide: u128, ip: IpAddr, port: u16)
    ensures
        IpAddr::V4(narrow).width() == 32,
        IpAddr::V4(narrow).number() == narrow,
        IpAddr::V6(wide).width() == 128,
        IpAddr::V6(wide).number() == wide,
        SocketAddr::of(ip, port).ip == ip,
        SocketAddr::of(ip, port).port == port,
        SocketAddr::of(ip, port).flow_info == 0,
        SocketAddr::of(ip, port).scope_id == 0,
{
}

} // verus!
