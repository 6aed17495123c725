//! How addresses are written, and that reading gives back what was written.

use crate::address;
use crate::address::IpAddr;
use crate::permission;
use crate::text;
use vstd::prelude::*;

verus! {

/// The hexadecimal digit of `n`, in lower case.
pub open spec fn hex_digit(n: nat) -> char {
    if n < 10 {
        ('0' as int + n) as char
    } else {
        ('a' as int + n - 10) as char
    }
}

/// The hexadecimal numeral of `n`, in lower case and without leading zeros.
pub open spec fn hexadecimal(n: nat) -> Seq<char>
    decreases n,
{
    let low = seq![hex_digit(n % 16)];
    if n < 16 {
        low
    } else {
        hexadecimal(n / 16) + low
    }
}

/// An IPv4 address as it is written: four decimal numbers joined by dots.
pub open spec fn ipv4_text(bits: u32) -> Seq<char> {
    text::decimal(bits as nat / 0x100_0000) + seq!['.'] + text::decimal(
        bits as nat / 0x1_0000 % 0x100,
    ) + seq!['.'] + text::decimal(bits as nat / 0x100 % 0x100) + seq!['.'] + text::decimal(
        bits as nat % 0x100,
    )
}

/// The eight groups of sixteen bits of an IPv6 address.
pub open spec fn groups_of(bits: u128) -> Seq<nat> {
    let n = bits as nat;
    seq![
        n / 0x1_0000_0000_0000_0000_0000_0000_0000,
        n / 0x1_0000_0000_0000_0000_0000_0000 % 0x1_0000,
        n / 0x1_0000_0000_0000_0000_0000 % 0x1_0000,
        n / 0x1_0000_0000_0000_0000 % 0x1_0000,
        n / 0x1_0000_0000_0000 % 0x1_0000,
        n / 0x1_0000_0000 % 0x1_0000,
        n / 0x1_0000 % 0x1_0000,
        n % 0x1_0000,
    ]
}

/// Pieces of text, joined by colons.
pub open spec fn listed(pieces: Seq<Seq<char>>) -> Seq<char>
    decreases pieces.len(),
{
    if pieces.len() == 0 {
        Seq::empty()
    } else if pieces.len() == 1 {
        pieces[0]
    } else {
        listed(pieces.drop_last()) + seq![':'] + pieces.last()
    }
}

/// Groups in hexadecimal, joined by colons.
pub open spec fn joined(groups: Seq<nat>) -> Seq<char> {
    listed(Seq::new(groups.len(), |i: int| hexadecimal(groups[i])))
}

/// Groups with a double colon in place of `count` of them from `start` on.
pub open spec fn shortened(groups: Seq<nat>, start: int, count: int) -> Seq<char> {
    joined(groups.take(start)) + seq![':', ':'] + joined(groups.skip(start + count))
}

/// How many zeros follow one another from `start` on.
pub open spec fn zeros_from(groups: Seq<nat>, start: int) -> int
    decreases groups.len() - start,
{
    if 0 <= start < groups.len() && groups[start] == 0 {
        1 + zeros_from(groups, start + 1)
    } else {
        0
    }
}

/// Where the longest run of zeros starts that starts before `end`, the first of
/// several.
pub open spec fn longest_zeros(groups: Seq<nat>, end: int) -> int
    decreases end,
{
    if end <= 1 {
        0
    } else {
        let before = longest_zeros(groups, end - 1);
        if zeros_from(groups, end - 1) > zeros_from(groups, before) {
            end - 1
        } else {
            before
        }
    }
}

/// Whether the address is an IPv4 address mapped into IPv6.
pub open spec fn is_mapped(groups: Seq<nat>) -> bool {
    zeros_from(groups, 0) == 5 && groups[5] == 0xffff
}

/// An IPv6 address as it is written: with a double colon in place of the first
/// of the longest runs of two zeros or more, and a mapped IPv4 address in its
/// own form.
pub open spec fn ipv6_text(bits: u128) -> Seq<char> {
    let groups = groups_of(bits);
    let start = longest_zeros(groups, 8);
    let count = zeros_from(groups, start);
    if is_mapped(groups) {
        seq![':', ':'] + (hexadecimal(0xffff) + seq![':'] + ipv4_text(
            (bits as nat % 0x1_0000_0000) as u32,
        ))
    } else if count > 1 {
        shortened(groups, start, count)
    } else {
        joined(groups)
    }
}

/// An address as it is written.
pub open spec fn ip_text(address: IpAddr) -> Seq<char> {
    match address {
        IpAddr::V4(bits) => ipv4_text(bits),
        IpAddr::V6(bits) => ipv6_text(bits),
    }
}

/// A range of addresses as it is written.
pub open spec fn cidr_text(network: IpAddr, prefix: u8) -> Seq<char> {
    ip_text(network) + seq!['/'] + text::decimal(prefix as nat)
}

/// Whether `c` is a digit, in decimal or in lower case hexadecimal.
spec fn digit_char(c: char) -> bool {
    '0' <= c && c <= '9' || 'a' <= c && c <= 'f'
}

spec fn all_digits(text: Seq<char>) -> bool {
    forall|i: int| 0 <= i < text.len() ==> digit_char(#[trigger] text[i])
}

/// Whether `c` occurs in the text of an address.
spec fn address_char(c: char) -> bool {
    digit_char(c) || c == ':' || c == '.'
}

spec fn address_chars(text: Seq<char>) -> bool {
    forall|i: int| 0 <= i < text.len() ==> address_char(#[trigger] text[i])
}

spec fn lacks(text: Seq<char>, c: char) -> bool {
    forall|i: int| 0 <= i < text.len() ==> #[trigger] text[i] != c
}

proof fn lemma_decimal(n: nat)
    ensures
        text::digits_value(text::decimal(n), 10) == Some(n),
        text::decimal(n).len() >= 1,
        all_digits(text::decimal(n)),
        n < 10 ==> text::decimal(n).len() == 1,
        n < 100 ==> text::decimal(n).len() <= 2,
        n < 1000 ==> text::decimal(n).len() <= 3,
        n > 0 ==> text::decimal(n)[0] != '0',
    decreases n,
{
    let low = ('0' as int + n % 10) as char;
    let numeral = text::decimal(n);
    assert(text::digit_value(low, 10) == Some((n % 10) as nat));
    if n < 10 {
        assert(numeral =~= seq![low]);
        assert(numeral.drop_last() =~= Seq::empty());
        reveal_with_fuel(text::digits_value, 2);
    } else {
        lemma_decimal(n / 10);
        assert(numeral.drop_last() =~= text::decimal(n / 10));
        assert(numeral.last() == low);
        assert(numeral[0] == text::decimal(n / 10)[0]);
        assert forall|i: int| 0 <= i < numeral.len() implies digit_char(#[trigger] numeral[i]) by {
            if i < numeral.len() - 1 {
                assert(numeral[i] == text::decimal(n / 10)[i]);
            }
        }
    }
}

proof fn lemma_hexadecimal(n: nat)
    ensures
        text::digits_value(hexadecimal(n), 16) == Some(n),
        hexadecimal(n).len() >= 1,
        all_digits(hexadecimal(n)),
        n < 0x10 ==> hexadecimal(n).len() == 1,
        n < 0x100 ==> hexadecimal(n).len() <= 2,
        n < 0x1000 ==> hexadecimal(n).len() <= 3,
        n < 0x1_0000 ==> hexadecimal(n).len() <= 4,
    decreases n,
{
    let low = hex_digit(n % 16);
    let numeral = hexadecimal(n);
    assert(text::digit_value(low, 16) == Some((n % 16) as nat));
    if n < 16 {
        assert(numeral =~= seq![low]);
        assert(numeral.drop_last() =~= Seq::empty());
        reveal_with_fuel(text::digits_value, 2);
    } else {
        lemma_hexadecimal(n / 16);
        assert(numeral.drop_last() =~= hexadecimal(n / 16));
        assert(numeral.last() == low);
        assert forall|i: int| 0 <= i < numeral.len() implies digit_char(#[trigger] numeral[i]) by {
            if i < numeral.len() - 1 {
                assert(numeral[i] == hexadecimal(n / 16)[i]);
            }
        }
    }
}

proof fn lemma_split_one(piece: Seq<char>, separator: char)
    requires
        lacks(piece, separator),
    ensures
        text::split_on(piece, separator) == seq![piece],
{
    text::law_split(piece, separator, piece);
}

proof fn lemma_split_last(front: Seq<char>, separator: char, piece: Seq<char>)
    requires
        lacks(piece, separator),
    ensures
        text::split_on(front + seq![separator] + piece, separator) == text::split_on(
            front,
            separator,
        ).push(piece),
{
    text::law_split(front, separator, piece);
}

proof fn lemma_octet(n: nat)
    requires
        n <= 255,
    ensures
        address::octet(text::decimal(n)) == Some(n),
        all_digits(text::decimal(n)),
        lacks(text::decimal(n), '.'),
{
    lemma_decimal(n);
    let numeral = text::decimal(n);
    assert forall|i: int| 0 <= i < numeral.len() implies #[trigger] numeral[i] != '.' by {
        assert(digit_char(numeral[i]));
    }
}

#[verifier::spinoff_prover]
#[verifier::rlimit(40)]
proof fn lemma_octets(n: nat)
    requires
        n < 0x1_0000_0000,
    ensures
        n / 0x100_0000 <= 255,
        n / 0x100_0000 * 0x100_0000 + n / 0x1_0000 % 0x100 * 0x1_0000 + n / 0x100 % 0x100 * 0x100
            + n % 0x100 == n,
{
}

proof fn lemma_dotted_split(a: nat, b: nat, c: nat, d: nat)
    requires
        a <= 255,
        b <= 255,
        c <= 255,
        d <= 255,
    ensures
        text::split_on(
            text::decimal(a) + seq!['.'] + text::decimal(b) + seq!['.'] + text::decimal(c)
                + seq!['.'] + text::decimal(d),
            '.',
        ) == seq![text::decimal(a), text::decimal(b), text::decimal(c), text::decimal(d)],
{
    lemma_octet(a);
    lemma_octet(b);
    lemma_octet(c);
    lemma_octet(d);
    let one = text::decimal(a);
    let two = one + seq!['.'] + text::decimal(b);
    let three = two + seq!['.'] + text::decimal(c);
    lemma_split_one(one, '.');
    lemma_split_last(one, '.', text::decimal(b));
    lemma_split_last(two, '.', text::decimal(c));
    lemma_split_last(three, '.', text::decimal(d));
    assert(seq![one].push(text::decimal(b)).push(text::decimal(c)).push(text::decimal(d))
        =~= seq![text::decimal(a), text::decimal(b), text::decimal(c), text::decimal(d)]);
}

proof fn lemma_dotted_part(front: Seq<char>, n: nat)
    requires
        n <= 255,
        address_chars(front),
        lacks(front, ':'),
    ensures
        address_chars(front + seq!['.'] + text::decimal(n)),
        lacks(front + seq!['.'] + text::decimal(n), ':'),
{
    lemma_octet(n);
    let whole = front + seq!['.'] + text::decimal(n);
    assert forall|i: int| 0 <= i < whole.len() implies address_char(#[trigger] whole[i])
        && whole[i] != ':' by {
        if i < front.len() {
            assert(whole[i] == front[i]);
        } else if i > front.len() {
            assert(whole[i] == text::decimal(n)[i - front.len() - 1]);
        }
    }
}

/// Four numbers of eight bits joined by dots are read as the address that has
/// them from its highest bits to its lowest.
#[verifier::spinoff_prover]
#[verifier::rlimit(40)]
pub proof fn law_dotted_addresses_are_read(a: nat, b: nat, c: nat, d: nat)
    requires
        a <= 255,
        b <= 255,
        c <= 255,
        d <= 255,
    ensures
        address::ip_value(
            text::decimal(a) + seq!['.'] + text::decimal(b) + seq!['.'] + text::decimal(c)
                + seq!['.'] + text::decimal(d),
        ) == Some(IpAddr::V4((a * 0x100_0000 + b * 0x1_0000 + c * 0x100 + d) as u32)),
{
    lemma_dotted_split(a, b, c, d);
    lemma_octet(a);
    lemma_octet(b);
    lemma_octet(c);
    lemma_octet(d);
}

#[verifier::spinoff_prover]
#[verifier::rlimit(40)]
proof fn lemma_ipv4_text(bits: u32)
    ensures
        address::ipv4_value(ipv4_text(bits)) == Some(bits),
        address_chars(ipv4_text(bits)),
        lacks(ipv4_text(bits), ':'),
        ipv4_text(bits).len() > 0,
{
    let a = bits as nat / 0x100_0000;
    let b = bits as nat / 0x1_0000 % 0x100;
    let c = bits as nat / 0x100 % 0x100;
    let d = bits as nat % 0x100;
    lemma_octets(bits as nat);
    law_dotted_addresses_are_read(a, b, c, d);
    lemma_octet(a);
    let one = text::decimal(a);
    let two = one + seq!['.'] + text::decimal(b);
    let three = two + seq!['.'] + text::decimal(c);
    assert(address_chars(one) && lacks(one, ':')) by {
        assert forall|i: int| 0 <= i < one.len() implies address_char(#[trigger] one[i]) && one[i]
            != ':' by {
            assert(digit_char(one[i]));
        }
    }
    lemma_dotted_part(one, b);
    lemma_dotted_part(two, c);
    lemma_dotted_part(three, d);
}

spec fn small_groups(groups: Seq<nat>) -> bool {
    forall|i: int| 0 <= i < groups.len() ==> #[trigger] groups[i] < 0x1_0000
}

proof fn lemma_group(n: nat)
    requires
        n < 0x1_0000,
    ensures
        address::hex_group(hexadecimal(n)) == Some(n),
        address_chars(hexadecimal(n)),
        lacks(hexadecimal(n), ':'),
        lacks(hexadecimal(n), '.'),
        hexadecimal(n).len() > 0,
{
    lemma_hexadecimal(n);
    let numeral = hexadecimal(n);
    assert forall|i: int| 0 <= i < numeral.len() implies #[trigger] numeral[i] != ':' && numeral[i]
        != '.' by {
        assert(digit_char(numeral[i]));
    }
    assert forall|i: int| 0 <= i < numeral.len() implies address_char(#[trigger] numeral[i]) by {
        assert(digit_char(numeral[i]));
    }
}

spec fn double_at(text: Seq<char>, i: int) -> bool {
    text[i] == ':' && text[i + 1] == ':'
}

/// Whether no colon follows another.
spec fn single_colons(text: Seq<char>) -> bool {
    forall|i: int| 0 <= i < text.len() - 1 ==> !#[trigger] double_at(text, i)
}

/// Whether all pieces have something in them, but no colon.
spec fn plain_pieces(pieces: Seq<Seq<char>>) -> bool {
    forall|i: int|
        0 <= i < pieces.len() ==> (#[trigger] pieces[i]).len() > 0 && lacks(pieces[i], ':')
}

proof fn lemma_listed(pieces: Seq<Seq<char>>)
    requires
        plain_pieces(pieces),
    ensures
        pieces.len() == 0 ==> listed(pieces).len() == 0,
        pieces.len() > 0 ==> listed(pieces).len() > 0 && listed(pieces).last() != ':',
        pieces.len() > 0 ==> text::split_on(listed(pieces), ':') == pieces,
        single_colons(listed(pieces)),
    decreases pieces.len(),
{
    if pieces.len() == 1 {
        assert(pieces[0].len() > 0 && lacks(pieces[0], ':'));
        lemma_split_one(pieces[0], ':');
        assert(seq![pieces[0]] =~= pieces);
        let only = pieces[0];
        assert(only[only.len() - 1] != ':');
        assert forall|i: int| 0 <= i < only.len() - 1 implies !#[trigger] double_at(only, i) by {
            assert(only[i] != ':');
        }
    } else if pieces.len() > 1 {
        let rest = pieces.drop_last();
        assert forall|i: int| 0 <= i < rest.len() implies (#[trigger] rest[i]).len() > 0 && lacks(
            rest[i],
            ':',
        ) by {
            assert(pieces[i].len() > 0);
        }
        lemma_listed(rest);
        let front = listed(rest);
        let last = pieces.last();
        assert(pieces[pieces.len() - 1].len() > 0 && lacks(last, ':'));
        let whole = front + seq![':'] + last;
        lemma_split_last(front, ':', last);
        assert(rest.push(last) =~= pieces);
        assert(whole.last() == last[last.len() - 1]);
        assert forall|i: int| 0 <= i < whole.len() - 1 implies !#[trigger] double_at(
            whole,
            i,
        ) by {
            if i + 1 < front.len() {
                assert(!double_at(front, i));
            } else if i < front.len() {
                assert(whole[i] == front.last());
            } else {
                assert(whole[i + 1] == last[i - front.len()]);
            }
        }
    }
}

proof fn lemma_listed_lacks(pieces: Seq<Seq<char>>, c: char)
    requires
        c != ':',
        forall|i: int| 0 <= i < pieces.len() ==> lacks(#[trigger] pieces[i], c),
    ensures
        lacks(listed(pieces), c),
    decreases pieces.len(),
{
    if pieces.len() == 1 {
        assert(lacks(pieces[0], c));
    } else if pieces.len() > 1 {
        let rest = pieces.drop_last();
        assert forall|i: int| 0 <= i < rest.len() implies lacks(#[trigger] rest[i], c) by {
            assert(lacks(pieces[i], c));
        }
        lemma_listed_lacks(rest, c);
        assert(lacks(pieces[pieces.len() - 1], c));
    }
}

proof fn lemma_listed_chars(pieces: Seq<Seq<char>>)
    requires
        forall|i: int| 0 <= i < pieces.len() ==> address_chars(#[trigger] pieces[i]),
    ensures
        address_chars(listed(pieces)),
    decreases pieces.len(),
{
    if pieces.len() == 1 {
        assert(address_chars(pieces[0]));
    } else if pieces.len() > 1 {
        let rest = pieces.drop_last();
        assert forall|i: int| 0 <= i < rest.len() implies address_chars(#[trigger] rest[i]) by {
            assert(address_chars(pieces[i]));
        }
        lemma_listed_chars(rest);
        assert(address_chars(pieces[pieces.len() - 1]));
    }
}

/// Pieces are read as groups exactly where each of them is.
proof fn lemma_hex_groups(pieces: Seq<Seq<char>>)
    ensures
        address::hex_groups(pieces) is Some <==> forall|i: int|
            0 <= i < pieces.len() ==> address::hex_group(#[trigger] pieces[i]) is Some,
        address::hex_groups(pieces) matches Some(groups) ==> {
            &&& groups.len() == pieces.len()
            &&& forall|i: int|
                0 <= i < pieces.len() ==> address::hex_group(#[trigger] pieces[i]) == Some(
                    groups[i],
                )
        },
    decreases pieces.len(),
{
    if pieces.len() > 0 {
        let rest = pieces.drop_last();
        lemma_hex_groups(rest);
        let last = pieces[pieces.len() - 1];
        if forall|i: int|
            0 <= i < pieces.len() ==> address::hex_group(#[trigger] pieces[i]) is Some {
            assert forall|i: int| 0 <= i < rest.len() implies address::hex_group(
                #[trigger] rest[i],
            ) is Some by {
                assert(address::hex_group(pieces[i]) is Some);
            }
            assert(address::hex_group(last) is Some);
        }
        if let Some(groups) = address::hex_groups(pieces) {
            assert forall|i: int| 0 <= i < pieces.len() implies address::hex_group(
                #[trigger] pieces[i],
            ) == Some(groups[i]) by {
                if i < rest.len() {
                    assert(rest[i] == pieces[i]);
                }
            }
        }
    }
}

/// A list of pieces without dots is read as groups, or not at all.
proof fn lemma_read_list(pieces: Seq<Seq<char>>, dotted: bool)
    requires
        plain_pieces(pieces),
        forall|i: int| 0 <= i < pieces.len() ==> lacks(#[trigger] pieces[i], '.'),
    ensures
        address::group_list(listed(pieces), dotted) == address::hex_groups(pieces),
{
    lemma_listed(pieces);
    if pieces.len() > 0 {
        assert(lacks(pieces[pieces.len() - 1], '.'));
        lemma_split_one(pieces.last(), '.');
        assert(address::ipv4_value(pieces.last()) is None);
    }
}

proof fn lemma_hexes(groups: Seq<nat>)
    requires
        small_groups(groups),
    ensures
        ({
            let pieces = Seq::new(groups.len(), |i: int| hexadecimal(groups[i]));
            &&& plain_pieces(pieces)
            &&& forall|i: int| 0 <= i < pieces.len() ==> lacks(#[trigger] pieces[i], '.')
            &&& forall|i: int| 0 <= i < pieces.len() ==> address_chars(#[trigger] pieces[i])
            &&& address::hex_groups(pieces) == Some(groups)
        }),
{
    let pieces = Seq::new(groups.len(), |i: int| hexadecimal(groups[i]));
    assert forall|i: int| 0 <= i < pieces.len() implies (#[trigger] pieces[i]).len() > 0 && lacks(
        pieces[i],
        ':',
    ) && lacks(pieces[i], '.') && address_chars(pieces[i]) && address::hex_group(pieces[i]) == Some(
        groups[i],
    ) by {
        assert(groups[i] < 0x1_0000);
        lemma_group(groups[i]);
    }
    lemma_hex_groups(pieces);
    let found = address::hex_groups(pieces)->0;
    assert forall|i: int| 0 <= i < groups.len() implies found[i] == groups[i] by {
        assert(address::hex_group(pieces[i]) == Some(groups[i]));
    }
    assert(found =~= groups);
}

proof fn lemma_joined(groups: Seq<nat>)
    requires
        small_groups(groups),
    ensures
        address_chars(joined(groups)),
        lacks(joined(groups), '.'),
        single_colons(joined(groups)),
        groups.len() > 0 ==> joined(groups).last() != ':',
        groups.len() == 0 ==> joined(groups).len() == 0,
{
    let pieces = Seq::new(groups.len(), |i: int| hexadecimal(groups[i]));
    lemma_hexes(groups);
    lemma_listed(pieces);
    lemma_listed_lacks(pieces, '.');
    lemma_listed_chars(pieces);
}

proof fn lemma_group_list(groups: Seq<nat>, dotted: bool)
    requires
        small_groups(groups),
    ensures
        address::group_list(joined(groups), dotted) == Some(groups),
{
    lemma_hexes(groups);
    lemma_read_list(Seq::new(groups.len(), |i: int| hexadecimal(groups[i])), dotted);
}

proof fn lemma_no_double_colon(text: Seq<char>)
    requires
        single_colons(text),
    ensures
        address::double_colon(text) == text.len(),
    decreases text.len(),
{
    if text.len() >= 2 {
        let rest = text.drop_first();
        assert(!double_at(text, 0));
        assert forall|i: int| 0 <= i < rest.len() - 1 implies !#[trigger] double_at(rest, i) by {
            assert(!double_at(text, i + 1));
        }
        lemma_no_double_colon(rest);
    }
}

proof fn lemma_first_double_colon(head: Seq<char>, tail: Seq<char>)
    requires
        head.len() > 0 ==> head.last() != ':',
        single_colons(head),
    ensures
        address::double_colon(head + seq![':', ':'] + tail) == head.len(),
    decreases head.len(),
{
    let whole = head + seq![':', ':'] + tail;
    if head.len() == 0 {
        assert(whole[0] == ':' && whole[1] == ':');
    } else {
        let rest = head.drop_first();
        assert(whole.drop_first() =~= rest + seq![':', ':'] + tail);
        assert(whole[0] == head[0]);
        if head.len() > 1 {
            assert(whole[1] == head[1]);
            assert(!double_at(head, 0));
            assert(rest.last() == head.last());
        }
        assert forall|i: int| 0 <= i < rest.len() - 1 implies !#[trigger] double_at(rest, i) by {
            assert(!double_at(head, i + 1));
        }
        lemma_first_double_colon(rest, tail);
    }
}

proof fn lemma_quotient(n: nat, divisor: nat, next: nat)
    requires
        divisor > 0,
        next == divisor * 0x1_0000,
    ensures
        n / divisor == n / next * 0x1_0000 + n / divisor % 0x1_0000,
{
    vstd::arithmetic::div_mod::lemma_div_denominator(n as int, divisor as int, 0x1_0000);
}

#[verifier::spinoff_prover]
#[verifier::rlimit(40)]
proof fn lemma_groups_of(bits: u128)
    ensures
        groups_of(bits).len() == 8,
        small_groups(groups_of(bits)),
        address::groups_number(groups_of(bits)) == bits,
{
    let n = bits as nat;
    lemma_quotient(n, 1, 0x1_0000);
    lemma_quotient(n, 0x1_0000, 0x1_0000_0000);
    lemma_quotient(n, 0x1_0000_0000, 0x1_0000_0000_0000);
    lemma_quotient(n, 0x1_0000_0000_0000, 0x1_0000_0000_0000_0000);
    lemma_quotient(n, 0x1_0000_0000_0000_0000, 0x1_0000_0000_0000_0000_0000);
    lemma_quotient(n, 0x1_0000_0000_0000_0000_0000, 0x1_0000_0000_0000_0000_0000_0000);
    lemma_quotient(
        n,
        0x1_0000_0000_0000_0000_0000_0000,
        0x1_0000_0000_0000_0000_0000_0000_0000,
    );
}

proof fn lemma_zeros_from(groups: Seq<nat>, start: int)
    requires
        0 <= start <= groups.len(),
    ensures
        0 <= zeros_from(groups, start) <= groups.len() - start,
        forall|i: int| start <= i < start + zeros_from(groups, start) ==> groups[i] == 0,
    decreases groups.len() - start,
{
    if start < groups.len() {
        lemma_zeros_from(groups, start + 1);
    }
}

proof fn lemma_longest_zeros(groups: Seq<nat>, end: int)
    requires
        0 < end,
    ensures
        0 <= longest_zeros(groups, end) < end,
    decreases end,
{
    if end > 1 {
        lemma_longest_zeros(groups, end - 1);
    }
}

/// What is read from the two sides of a double colon.
#[verifier::spinoff_prover]
#[verifier::rlimit(40)]
proof fn lemma_ipv6_gap(
    before: Seq<char>,
    after: Seq<char>,
    head: Seq<nat>,
    tail: Seq<nat>,
    groups: Seq<nat>,
)
    requires
        address::double_colon(before + seq![':', ':'] + after) == before.len(),
        address::group_list(before, false) == Some(head),
        address::group_list(after, true) == Some(tail),
        head.len() + tail.len() <= 7,
        groups.len() == 8,
        forall|i: int| 0 <= i < head.len() ==> groups[i] == #[trigger] head[i],
        forall|i: int| head.len() <= i < 8 - tail.len() ==> #[trigger] groups[i] == 0,
        forall|i: int| 0 <= i < tail.len() ==> groups[8 - tail.len() + i] == #[trigger] tail[i],
    ensures
        address::ipv6_value(before + seq![':', ':'] + after) == Some(
            address::groups_number(groups) as u128,
        ),
{
    let whole = before + seq![':', ':'] + after;
    assert(whole.take(before.len() as int) =~= before);
    assert(whole.skip(before.len() as int + 2) =~= after);
    let filled = head + Seq::new((8 - head.len() - tail.len()) as nat, |i: int| 0nat) + tail;
    assert forall|i: int| 0 <= i < 8 implies filled[i] == groups[i] by {
        if i >= 8 - tail.len() {
            assert(filled[i] == tail[i - (8 - tail.len())]);
        }
    }
    assert(filled =~= groups);
}

proof fn lemma_around_gap(before: Seq<char>, after: Seq<char>)
    requires
        address_chars(before),
        address_chars(after),
        lacks(before, '.'),
        lacks(after, '.'),
    ensures
        address_chars(before + seq![':', ':'] + after),
        lacks(before + seq![':', ':'] + after, '.'),
{
}

/// Groups with a double colon in place of zeros are read back.
#[verifier::spinoff_prover]
#[verifier::rlimit(40)]
proof fn lemma_ipv6_groups(groups: Seq<nat>, start: int, count: int)
    requires
        groups.len() == 8,
        small_groups(groups),
        0 <= start,
        1 <= count,
        start + count <= 8,
        forall|i: int| start <= i < start + count ==> groups[i] == 0,
    ensures
        address::ipv6_value(shortened(groups, start, count)) == Some(
            address::groups_number(groups) as u128,
        ),
        address_chars(shortened(groups, start, count)),
        lacks(shortened(groups, start, count), '.'),
{
    let head = groups.take(start);
    let tail = groups.skip(start + count);
    assert(small_groups(head)) by {
        assert forall|i: int| 0 <= i < head.len() implies #[trigger] head[i] < 0x1_0000 by {
            assert(groups[i] < 0x1_0000);
        }
    }
    assert(small_groups(tail)) by {
        assert forall|i: int| 0 <= i < tail.len() implies #[trigger] tail[i] < 0x1_0000 by {
            assert(groups[start + count + i] < 0x1_0000);
        }
    }
    let before = joined(head);
    let after = joined(tail);
    assert(address::double_colon(before + seq![':', ':'] + after) == before.len()) by {
        lemma_joined(head);
        lemma_first_double_colon(before, after);
    }
    assert(address_chars(before + seq![':', ':'] + after) && lacks(
        before + seq![':', ':'] + after,
        '.',
    )) by {
        lemma_joined(head);
        lemma_joined(tail);
        lemma_around_gap(before, after);
    }
    lemma_group_list(head, false);
    lemma_group_list(tail, true);
    lemma_ipv6_gap(before, after, head, tail, groups);
}

/// Groups written out in full are read back.
proof fn lemma_ipv6_full(groups: Seq<nat>)
    requires
        groups.len() == 8,
        small_groups(groups),
    ensures
        address::ipv6_value(joined(groups)) == Some(address::groups_number(groups) as u128),
        address_chars(joined(groups)),
        lacks(joined(groups), '.'),
{
    lemma_joined(groups);
    lemma_group_list(groups, true);
    lemma_no_double_colon(joined(groups));
}

/// The text of a mapped address behind the double colon is read as its last
/// three groups.
#[verifier::spinoff_prover]
#[verifier::rlimit(40)]
proof fn lemma_mapped_tail(low: u32)
    ensures
        address::group_list(hexadecimal(0xffff) + seq![':'] + ipv4_text(low), true) == Some(
            seq![0xffffnat, low as nat / 0x1_0000, low as nat % 0x1_0000],
        ),
        address_chars(hexadecimal(0xffff) + seq![':'] + ipv4_text(low)),
{
    let last = ipv4_text(low);
    let tail = hexadecimal(0xffff) + seq![':'] + last;
    lemma_ipv4_text(low);
    lemma_group(0xffff);
    lemma_split_one(hexadecimal(0xffff), ':');
    lemma_split_last(hexadecimal(0xffff), ':', last);
    let pieces = text::split_on(tail, ':');
    let front = seq![hexadecimal(0xffff)];
    assert(pieces.last() == last);
    assert(pieces.drop_last() =~= front);
    reveal_with_fuel(address::hex_groups, 2);
    assert(front.drop_last() =~= Seq::empty());
    assert(front.last() == hexadecimal(0xffff));
    assert(address::hex_groups(front) == Some(seq![0xffffnat]));
    assert(seq![0xffffnat] + seq![low as nat / 0x1_0000, low as nat % 0x1_0000] =~= seq![
        0xffffnat,
        low as nat / 0x1_0000,
        low as nat % 0x1_0000,
    ]);
}

/// The groups of a mapped address: five zeros, all bits, and the two halves of
/// the IPv4 address.
#[verifier::spinoff_prover]
#[verifier::rlimit(40)]
proof fn lemma_mapped_groups(bits: u128, low: u32)
    requires
        is_mapped(groups_of(bits)),
        low == bits as nat % 0x1_0000_0000,
    ensures
        groups_of(bits) == seq![
            0nat,
            0,
            0,
            0,
            0,
            0xffff,
            low as nat / 0x1_0000,
            low as nat % 0x1_0000,
        ],
{
    let groups = groups_of(bits);
    lemma_zeros_from(groups, 0);
    lemma_low_groups(bits as nat);
    assert(groups[0] == 0 && groups[1] == 0 && groups[2] == 0 && groups[3] == 0 && groups[4] == 0);
    assert(groups =~= seq![
        0nat,
        0,
        0,
        0,
        0,
        0xffff,
        low as nat / 0x1_0000,
        low as nat % 0x1_0000,
    ]);
}

/// What is read of the text of a mapped address.
#[verifier::spinoff_prover]
#[verifier::rlimit(40)]
proof fn lemma_mapped_value(low: u32, groups: Seq<nat>)
    requires
        groups == seq![
            0nat,
            0,
            0,
            0,
            0,
            0xffff,
            low as nat / 0x1_0000,
            low as nat % 0x1_0000,
        ],
    ensures
        address::ipv6_value(
            seq![':', ':'] + (hexadecimal(0xffff) + seq![':'] + ipv4_text(low)),
        ) == Some(address::groups_number(groups) as u128),
{
    let tail = hexadecimal(0xffff) + seq![':'] + ipv4_text(low);
    let list = seq![0xffffnat, low as nat / 0x1_0000, low as nat % 0x1_0000];
    let none = Seq::<char>::empty();
    lemma_mapped_tail(low);
    lemma_first_double_colon(none, tail);
    assert(seq![':', ':'] + tail =~= none + seq![':', ':'] + tail);
    assert forall|i: int| 0 <= i < list.len() implies groups[8 - list.len() + i]
        == #[trigger] list[i] by {
        assert(i == 0 || i == 1 || i == 2);
    }
    assert forall|i: int| 0 <= i < 8 - list.len() implies #[trigger] groups[i] == 0 by {
        assert(i == 0 || i == 1 || i == 2 || i == 3 || i == 4);
    }
    lemma_ipv6_gap(none, tail, Seq::empty(), list, groups);
}

#[verifier::spinoff_prover]
#[verifier::rlimit(40)]
proof fn lemma_ipv6_mapped(bits: u128)
    requires
        is_mapped(groups_of(bits)),
    ensures
        address::ipv6_value(ipv6_text(bits)) == Some(bits),
        address::ipv4_value(ipv6_text(bits)) is None,
        address_chars(ipv6_text(bits)),
{
    let low = (bits as nat % 0x1_0000_0000) as u32;
    lemma_groups_of(bits);
    lemma_mapped_groups(bits, low);
    lemma_mapped_value(low, groups_of(bits));
    lemma_ipv6_is_no_ipv4(low);
    lemma_mapped_tail(low);
}

proof fn lemma_low_groups(n: nat)
    ensures
        n % 0x1_0000_0000 / 0x1_0000 == n / 0x1_0000 % 0x1_0000,
        n % 0x1_0000_0000 % 0x1_0000 == n % 0x1_0000,
{
}

/// The dots of a mapped address part it into four pieces, but the first is
/// longer than a number of eight bits.
#[verifier::spinoff_prover]
#[verifier::rlimit(40)]
proof fn lemma_ipv6_is_no_ipv4(low: u32)
    ensures
        address::ipv4_value(
            seq![':', ':'] + (hexadecimal(0xffff) + seq![':'] + ipv4_text(low)),
        ) is None,
{
    let a = low as nat / 0x100_0000;
    let b = low as nat / 0x1_0000 % 0x100;
    let c = low as nat / 0x100 % 0x100;
    let d = low as nat % 0x100;
    lemma_octet(a);
    lemma_octet(b);
    lemma_octet(c);
    lemma_octet(d);
    lemma_group(0xffff);
    let one = seq![':', ':'] + (hexadecimal(0xffff) + seq![':'] + text::decimal(a));
    let two = one + seq!['.'] + text::decimal(b);
    let three = two + seq!['.'] + text::decimal(c);
    let four = three + seq!['.'] + text::decimal(d);
    lemma_decimal(a);
    assert(lacks(one, '.'));
    lemma_split_one(one, '.');
    lemma_split_last(one, '.', text::decimal(b));
    lemma_split_last(two, '.', text::decimal(c));
    lemma_split_last(three, '.', text::decimal(d));
    assert(text::split_on(four, '.')[0] == one);
    assert(one.len() > 3);
    assert(seq![':', ':'] + (hexadecimal(0xffff) + seq![':'] + ipv4_text(low)) =~= four);
}

/// Reading gives back the address that was written.
pub proof fn law_reading_undoes_writing(address: IpAddr)
    ensures
        address::ip_value(ip_text(address)) == Some(address),
        !ip_text(address).contains('/'),
{
    match address {
        IpAddr::V4(bits) => {
            lemma_ipv4_text(bits);
        },
        IpAddr::V6(bits) => {
            let groups = groups_of(bits);
            lemma_groups_of(bits);
            if is_mapped(groups) {
                lemma_ipv6_mapped(bits);
            } else {
                let start = longest_zeros(groups, 8);
                let count = zeros_from(groups, start);
                lemma_longest_zeros(groups, 8);
                lemma_zeros_from(groups, start);
                if count > 1 {
                    lemma_ipv6_groups(groups, start, count);
                } else {
                    lemma_ipv6_full(groups);
                }
                lemma_split_one(ipv6_text(bits), '.');
            }
        },
    }
    assert(address_chars(ip_text(address)));
    if ip_text(address).contains('/') {
        let i = choose|i: int| 0 <= i < ip_text(address).len() && ip_text(address)[i] == '/';
        assert(address_char(ip_text(address)[i]));
    }
}

proof fn lemma_first_position(front: Seq<char>, wanted: char, rest: Seq<char>)
    requires
        !front.contains(wanted),
    ensures
        text::first_position(front + seq![wanted] + rest, wanted) == front.len(),
    decreases front.len(),
{
    let whole = front + seq![wanted] + rest;
    if front.len() > 0 {
        assert(front[0] != wanted);
        assert(whole[0] == front[0]);
        assert(whole.drop_first() =~= front.drop_first() + seq![wanted] + rest);
        assert forall|i: int| 0 <= i < front.drop_first().len() implies front.drop_first()[i]
            != wanted by {
            assert(front[i + 1] != wanted);
        }
        lemma_first_position(front.drop_first(), wanted, rest);
    } else {
        assert(whole[0] == wanted);
    }
}

/// Reading gives back the address and the prefix of the range that was written.
/// The bits of the address behind the prefix are kept.
pub proof fn law_reading_undoes_writing_a_range(network: IpAddr, prefix: u8)
    requires
        prefix <= network.width(),
    ensures
        permission::cidr_value(cidr_text(network, prefix)) == Ok::<(IpAddr, u8), Seq<char>>(
            (network, prefix),
        ),
{
    let front = ip_text(network);
    let numeral = text::decimal(prefix as nat);
    let whole = cidr_text(network, prefix);
    law_reading_undoes_writing(network);
    lemma_decimal(prefix as nat);
    lemma_first_position(front, '/', numeral);
    assert(whole.take(front.len() as int) =~= front);
    assert(whole.skip(front.len() as int + 1) =~= numeral);
    assert(digit_char(numeral[0]));
}

/// Pieces are joined one after the other, with one colon between two of them.
pub proof fn law_lists(pieces: Seq<Seq<char>>, piece: Seq<char>)
    ensures
        listed(Seq::empty()) == Seq::<char>::empty(),
        listed(seq![piece]) == piece,
        pieces.len() > 0 ==> listed(pieces.push(piece)) == listed(pieces).push(':') + piece,
{
    assert(pieces.push(piece).drop_last() =~= pieces);
    assert(listed(pieces) + seq![':'] + piece =~= listed(pieces).push(':') + piece);
}

spec fn rejoined(pieces: Seq<Seq<char>>, separator: char) -> Seq<char>
    decreases pieces.len(),
{
    if pieces.len() == 0 {
        Seq::empty()
    } else if pieces.len() == 1 {
        pieces[0]
    } else {
        rejoined(pieces.drop_last(), separator) + seq![separator] + pieces.last()
    }
}

proof fn lemma_rejoined(text: Seq<char>, separator: char)
    ensures
        text::split_on(text, separator).len() > 0,
        rejoined(text::split_on(text, separator), separator) == text,
    decreases text.len(),
{
    if text.len() > 0 {
        let rest = text.drop_last();
        lemma_rejoined(rest, separator);
        let pieces = text::split_on(rest, separator);
        let c = text.last();
        assert(rest.push(c) =~= text);
        if c == separator {
            assert(pieces.push(Seq::empty()).drop_last() =~= pieces);
            assert(rest + seq![separator] + Seq::empty() =~= text);
        } else {
            let longer = pieces.update(pieces.len() - 1, pieces.last().push(c));
            if pieces.len() > 1 {
                assert(longer.drop_last() =~= pieces.drop_last());
                assert(longer.last() == pieces.last().push(c));
                assert(rejoined(pieces.drop_last(), separator) + seq![separator]
                    + pieces.last().push(c) =~= rest.push(c));
            }
        }
    }
}

/// A numeral without needless zeros is the one that its value is written with.
proof fn lemma_numeral_is_decimal(numeral: Seq<char>, value: nat)
    requires
        text::digits_value(numeral, 10) == Some(value),
        numeral.len() > 0,
        numeral.len() > 1 ==> numeral[0] != '0',
    ensures
        numeral == text::decimal(value),
    decreases numeral.len(),
{
    let front = numeral.drop_last();
    let c = numeral.last();
    let low = text::digit_value(c, 10)->0;
    text::law_digits(c);
    assert((48 + low) as char == c);
    if front.len() == 0 {
        assert(front =~= Seq::empty());
        assert(0 * 10 == 0);
        text::law_decimal(0, low);
        assert(numeral =~= seq![c]);
    } else {
        let high = text::digits_value(front, 10)->0;
        assert(front[0] == numeral[0]);
        lemma_numeral_is_decimal(front, high);
        text::law_decimal(0, 0);
        assert(high > 0);
        text::law_decimal(high, low);
        assert(front.push(c) =~= numeral);
    }
}

/// A text that is read as an IPv4 address is four numbers of eight bits in
/// decimal without needless zeros, joined by dots, and nothing else.
pub proof fn law_dotted_addresses_have_one_form(value: Seq<char>)
    requires
        address::ip_value(value) is Some,
        address::ip_value(value)->0 is V4,
    ensures
        exists|a: nat, b: nat, c: nat, d: nat|
            a <= 255 && b <= 255 && c <= 255 && d <= 255 && value == #[trigger] text::decimal(a)
                + seq!['.'] + #[trigger] text::decimal(b) + seq!['.'] + #[trigger] text::decimal(c)
                + seq!['.'] + #[trigger] text::decimal(d),
{
    lemma_dotted(value);
}

#[verifier::spinoff_prover]
#[verifier::rlimit(40)]
proof fn lemma_dotted(value: Seq<char>)
    requires
        address::ipv4_value(value) is Some,
    ensures
        exists|a: nat, b: nat, c: nat, d: nat|
            a <= 255 && b <= 255 && c <= 255 && d <= 255 && value == #[trigger] text::decimal(a)
                + seq!['.'] + #[trigger] text::decimal(b) + seq!['.'] + #[trigger] text::decimal(c)
                + seq!['.'] + #[trigger] text::decimal(d),
        lacks(value, ':'),
{
    let pieces = text::split_on(value, '.');
    lemma_rejoined(value, '.');
    let a = address::octet(pieces[0])->0;
    let b = address::octet(pieces[1])->0;
    let c = address::octet(pieces[2])->0;
    let d = address::octet(pieces[3])->0;
    lemma_numeral_is_decimal(pieces[0], a);
    lemma_numeral_is_decimal(pieces[1], b);
    lemma_numeral_is_decimal(pieces[2], c);
    lemma_numeral_is_decimal(pieces[3], d);
    let three = pieces.drop_last();
    let two = three.drop_last();
    let one = two.drop_last();
    reveal_with_fuel(rejoined, 5);
    assert(three.len() == 3 && two.len() == 2 && one.len() == 1);
    assert(one[0] == pieces[0]);
    assert(two.last() == pieces[1]);
    assert(three.last() == pieces[2]);
    assert(pieces.last() == pieces[3]);
    assert(value == text::decimal(a) + seq!['.'] + text::decimal(b) + seq!['.'] + text::decimal(c)
        + seq!['.'] + text::decimal(d));
    lemma_decimal(a);
    lemma_decimal(b);
    lemma_decimal(c);
    lemma_decimal(d);
    let front = text::decimal(a) + seq!['.'] + text::decimal(b);
    assert forall|i: int| 0 <= i < front.len() implies #[trigger] front[i] != ':' by {}
    let more = front + seq!['.'] + text::decimal(c);
    assert forall|i: int| 0 <= i < more.len() implies #[trigger] more[i] != ':' by {
        if i < front.len() {
            assert(more[i] == front[i]);
        }
    }
    assert forall|i: int| 0 <= i < value.len() implies #[trigger] value[i] != ':' by {
        if i < more.len() {
            assert(value[i] == more[i]);
        }
    }
}

/// Whether every piece is a hexadecimal numeral of one to four digits.
pub open spec fn group_pieces(pieces: Seq<Seq<char>>) -> bool {
    forall|i: int|
        0 <= i < pieces.len() ==> {
            &&& 1 <= (#[trigger] pieces[i]).len() <= 4
            &&& text::numeral_value(pieces[i], 16) is Some
        }
}

proof fn lemma_hex_chars(numeral: Seq<char>)
    requires
        text::digits_value(numeral, 16) is Some,
    ensures
        lacks(numeral, ':'),
        lacks(numeral, '.'),
    decreases numeral.len(),
{
    if numeral.len() > 0 {
        lemma_hex_chars(numeral.drop_last());
        text::law_digits(numeral.last());
        assert forall|i: int| 0 <= i < numeral.len() implies #[trigger] numeral[i] != ':'
            && numeral[i] != '.' by {
            if i < numeral.len() - 1 {
                assert(numeral.drop_last()[i] == numeral[i]);
            }
        }
    }
}

proof fn lemma_group_pieces(pieces: Seq<Seq<char>>)
    requires
        group_pieces(pieces),
    ensures
        plain_pieces(pieces),
        forall|i: int| 0 <= i < pieces.len() ==> lacks(#[trigger] pieces[i], '.'),
        address::hex_groups(pieces) is Some,
{
    assert forall|i: int| 0 <= i < pieces.len() implies (#[trigger] pieces[i]).len() > 0 && lacks(
        pieces[i],
        ':',
    ) && lacks(pieces[i], '.') && address::hex_group(pieces[i]) is Some by {
        lemma_hex_chars(pieces[i]);
    }
    lemma_hex_groups(pieces);
}

/// What is read from a list of pieces, before and behind which nothing stands.
proof fn lemma_full_list(pieces: Seq<Seq<char>>)
    requires
        plain_pieces(pieces),
        forall|i: int| 0 <= i < pieces.len() ==> lacks(#[trigger] pieces[i], '.'),
    ensures
        address::ip_value(listed(pieces)) == (match address::hex_groups(pieces) {
            Some(groups) if groups.len() == 8 => Some(
                IpAddr::V6(address::groups_number(groups) as u128),
            ),
            _ => None,
        }),
{
    lemma_listed(pieces);
    lemma_listed_lacks(pieces, '.');
    lemma_read_list(pieces, true);
    lemma_no_double_colon(listed(pieces));
    lemma_split_one(listed(pieces), '.');
}

/// Eight groups of up to four hexadecimal digits, in either case, joined by
/// colons, are read as the address that has them from its highest bits to its
/// lowest.
#[verifier::spinoff_prover]
#[verifier::rlimit(40)]
pub proof fn law_groups_are_read(pieces: Seq<Seq<char>>, values: Seq<nat>)
    requires
        pieces.len() == 8,
        values.len() == 8,
        forall|i: int|
            0 <= i < 8 ==> {
                &&& 1 <= (#[trigger] pieces[i]).len() <= 4
                &&& text::numeral_value(pieces[i], 16) == Some(values[i])
            },
    ensures
        address::ip_value(listed(pieces)) == Some(
            IpAddr::V6(
                (values[0] * 0x1_0000_0000_0000_0000_0000_0000_0000 + values[1]
                    * 0x1_0000_0000_0000_0000_0000_0000 + values[2] * 0x1_0000_0000_0000_0000_0000
                    + values[3] * 0x1_0000_0000_0000_0000 + values[4] * 0x1_0000_0000_0000
                    + values[5] * 0x1_0000_0000 + values[6] * 0x1_0000 + values[7]) as u128,
            ),
        ),
{
    assert(group_pieces(pieces));
    lemma_group_pieces(pieces);
    lemma_hex_groups(pieces);
    lemma_full_list(pieces);
    let groups = address::hex_groups(pieces)->0;
    assert forall|i: int| 0 <= i < 8 implies groups[i] == values[i] by {
        assert(address::hex_group(pieces[i]) == Some(groups[i]));
    }
    assert(groups =~= values);
}

/// A list of pieces without dots, none of them empty, is read only where it has
/// eight of them, and each is a group.
pub proof fn law_lists_of_other_lengths_are_refused(pieces: Seq<Seq<char>>)
    requires
        forall|i: int|
            0 <= i < pieces.len() ==> {
                &&& (#[trigger] pieces[i]).len() > 0
                &&& !pieces[i].contains(':')
                &&& !pieces[i].contains('.')
            },
    ensures
        address::ip_value(listed(pieces)) is Some <==> pieces.len() == 8 && forall|i: int|
            0 <= i < pieces.len() ==> {
                &&& (#[trigger] pieces[i]).len() <= 4
                &&& text::numeral_value(pieces[i], 16) is Some
            },
{
    assert forall|i: int| 0 <= i < pieces.len() implies (#[trigger] pieces[i]).len() > 0 && lacks(
        pieces[i],
        ':',
    ) && lacks(pieces[i], '.') by {
        assert(!pieces[i].contains(':'));
        assert forall|k: int| 0 <= k < pieces[i].len() implies #[trigger] pieces[i][k] != ':'
            && pieces[i][k] != '.' by {}
    }
    lemma_full_list(pieces);
    lemma_hex_groups(pieces);
    if address::ip_value(listed(pieces)) is Some {
        assert forall|i: int| 0 <= i < pieces.len() implies (#[trigger] pieces[i]).len() <= 4
            && text::numeral_value(pieces[i], 16) is Some by {
            assert(address::hex_group(pieces[i]) is Some);
        }
    }
    if forall|i: int|
        0 <= i < pieces.len() ==> {
            &&& (#[trigger] pieces[i]).len() <= 4
            &&& text::numeral_value(pieces[i], 16) is Some
        } {
        assert forall|i: int| 0 <= i < pieces.len() implies address::hex_group(
            #[trigger] pieces[i],
        ) is Some by {
            assert(pieces[i].len() <= 4);
        }
    }
}

/// The groups of a list with zeros in the middle.
#[verifier::spinoff_prover]
#[verifier::rlimit(40)]
proof fn lemma_filled_list(head: Seq<Seq<char>>, tail: Seq<Seq<char>>, missing: nat)
    requires
        group_pieces(head),
        group_pieces(tail),
        head.len() + missing + tail.len() == 8,
    ensures
        ({
            let pieces = head + Seq::new(missing, |i: int| seq!['0']) + tail;
            let first = address::hex_groups(head)->0;
            let last = address::hex_groups(tail)->0;
            let groups = address::hex_groups(pieces)->0;
            &&& group_pieces(pieces)
            &&& address::hex_groups(pieces) is Some
            &&& groups.len() == 8
            &&& forall|i: int| 0 <= i < first.len() ==> groups[i] == #[trigger] first[i]
            &&& forall|i: int| first.len() <= i < 8 - last.len() ==> #[trigger] groups[i] == 0
            &&& forall|i: int|
                0 <= i < last.len() ==> groups[8 - last.len() + i] == #[trigger] last[i]
        }),
{
    let pieces = head + Seq::new(missing, |i: int| seq!['0']) + tail;
    text::law_numeral_value(Seq::empty(), '0', 16);
    text::law_digits('0');
    assert forall|i: int| 0 <= i < pieces.len() implies {
        &&& 1 <= (#[trigger] pieces[i]).len() <= 4
        &&& text::numeral_value(pieces[i], 16) is Some
    } by {
        if i < head.len() {
            assert(pieces[i] == head[i]);
        } else if i >= head.len() + missing {
            assert(pieces[i] == tail[i - head.len() - missing]);
        }
    }
    lemma_group_pieces(head);
    lemma_group_pieces(tail);
    lemma_group_pieces(pieces);
    lemma_hex_groups(head);
    lemma_hex_groups(tail);
    lemma_hex_groups(pieces);
    let first = address::hex_groups(head)->0;
    let last = address::hex_groups(tail)->0;
    let groups = address::hex_groups(pieces)->0;
    assert forall|i: int| 0 <= i < first.len() implies groups[i] == #[trigger] first[i] by {
        assert(pieces[i] == head[i]);
        assert(address::hex_group(head[i]) == Some(first[i]));
        assert(address::hex_group(pieces[i]) == Some(groups[i]));
    }
    assert forall|i: int| first.len() <= i < 8 - last.len() implies #[trigger] groups[i] == 0 by {
        assert(pieces[i] == seq!['0']);
        assert(address::hex_group(pieces[i]) == Some(groups[i]));
    }
    assert forall|i: int| 0 <= i < last.len() implies groups[8 - last.len() + i]
        == #[trigger] last[i] by {
        let k = 8 - last.len() + i;
        assert(pieces[k] == tail[i]);
        assert(address::hex_group(tail[i]) == Some(last[i]));
        assert(address::hex_group(pieces[k]) == Some(groups[k]));
    }
}

/// What is read of lists on the two sides of a double colon.
#[verifier::spinoff_prover]
#[verifier::rlimit(40)]
proof fn lemma_lists_around_gap(head: Seq<Seq<char>>, tail: Seq<Seq<char>>)
    requires
        group_pieces(head),
        group_pieces(tail),
    ensures
        ({
            let before = listed(head);
            let after = listed(tail);
            let whole = before + seq![':', ':'] + after;
            &&& address::double_colon(whole) == before.len()
            &&& whole.take(before.len() as int) == before
            &&& whole.skip(before.len() as int + 2) == after
            &&& address::ipv4_value(whole) is None
            &&& address::group_list(before, false) == address::hex_groups(head)
            &&& address::group_list(after, true) == address::hex_groups(tail)
        }),
{
    lemma_group_pieces(head);
    lemma_group_pieces(tail);
    lemma_read_list(head, false);
    lemma_read_list(tail, true);
    lemma_listed(head);
    lemma_listed_lacks(head, '.');
    lemma_listed_lacks(tail, '.');
    let before = listed(head);
    let after = listed(tail);
    let whole = before + seq![':', ':'] + after;
    lemma_first_double_colon(before, after);
    assert(lacks(whole, '.')) by {
        assert forall|i: int| 0 <= i < whole.len() implies #[trigger] whole[i] != '.' by {
            if i < before.len() {
                assert(whole[i] == before[i]);
            } else if i >= before.len() + 2 {
                assert(whole[i] == after[i - before.len() - 2]);
            }
        }
    }
    lemma_split_one(whole, '.');
    assert(whole.take(before.len() as int) =~= before);
    assert(whole.skip(before.len() as int + 2) =~= after);
}

/// A double colon stands for as many zeros as there are groups missing. It is
/// refused where none is missing.
#[verifier::spinoff_prover]
#[verifier::rlimit(40)]
pub proof fn law_double_colons_stand_for_zeros(head: Seq<Seq<char>>, tail: Seq<Seq<char>>)
    requires
        forall|i: int|
            0 <= i < head.len() ==> 1 <= (#[trigger] head[i]).len() <= 4 && text::numeral_value(
                head[i],
                16,
            ) is Some,
        forall|i: int|
            0 <= i < tail.len() ==> 1 <= (#[trigger] tail[i]).len() <= 4 && text::numeral_value(
                tail[i],
                16,
            ) is Some,
    ensures
        head.len() + tail.len() <= 7 ==> address::ip_value(
            listed(head) + seq![':', ':'] + listed(tail),
        ) == address::ip_value(
            listed(
                head + Seq::new((8 - head.len() - tail.len()) as nat, |i: int| seq!['0']) + tail,
            ),
        ),
        head.len() + tail.len() > 7 ==> address::ip_value(
            listed(head) + seq![':', ':'] + listed(tail),
        ) is None,
{
    assert(group_pieces(head) && group_pieces(tail));
    lemma_lists_around_gap(head, tail);
    lemma_group_pieces(head);
    lemma_group_pieces(tail);
    lemma_hex_groups(head);
    lemma_hex_groups(tail);
    let first = address::hex_groups(head)->0;
    let last = address::hex_groups(tail)->0;
    if head.len() + tail.len() <= 7 {
        let missing = (8 - head.len() - tail.len()) as nat;
        let pieces = head + Seq::new(missing, |i: int| seq!['0']) + tail;
        lemma_filled_list(head, tail, missing);
        lemma_group_pieces(pieces);
        lemma_full_list(pieces);
        lemma_ipv6_gap(
            listed(head),
            listed(tail),
            first,
            last,
            address::hex_groups(pieces)->0,
        );
    }
}

/// In place of the last two groups an address may end in the dotted form of an
/// IPv4 address.
#[verifier::spinoff_prover]
#[verifier::rlimit(40)]
pub proof fn law_dotted_ends_stand_for_two_groups(
    front: Seq<Seq<char>>,
    bits: u32,
    high: Seq<char>,
    low: Seq<char>,
)
    requires
        front.len() == 6,
        forall|i: int|
            0 <= i < front.len() ==> 1 <= (#[trigger] front[i]).len() <= 4 && text::numeral_value(
                front[i],
                16,
            ) is Some,
        1 <= high.len() <= 4,
        1 <= low.len() <= 4,
        text::numeral_value(high, 16) == Some(bits as nat / 0x1_0000),
        text::numeral_value(low, 16) == Some(bits as nat % 0x1_0000),
    ensures
        address::ip_value(listed(front.push(ipv4_text(bits)))) == address::ip_value(
            listed(front.push(high).push(low)),
        ),
{
    let last = ipv4_text(bits);
    let pieces = front.push(last);
    let plain = front.push(high).push(low);
    assert(group_pieces(front));
    lemma_group_pieces(front);
    lemma_hex_groups(front);
    lemma_ipv4_text(bits);
    assert(plain_pieces(pieces)) by {
        assert forall|i: int| 0 <= i < pieces.len() implies (#[trigger] pieces[i]).len() > 0
            && lacks(pieces[i], ':') by {
            if i < front.len() {
                assert(pieces[i] == front[i]);
            }
        }
    }
    lemma_listed(pieces);
    let whole = listed(pieces);
    assert(pieces.drop_last() =~= front);
    assert(pieces.last() == last);
    let first = address::hex_groups(front)->0;
    assert(address::group_list(whole, true) == Some(
        first + seq![bits as nat / 0x1_0000, bits as nat % 0x1_0000],
    ));
    lemma_no_double_colon(whole);
    assert(whole == listed(front) + seq![':'] + last);
    assert(whole[listed(front).len() as int] == ':');
    if address::ipv4_value(whole) is Some {
        lemma_dotted(whole);
        assert(whole[listed(front).len() as int] != ':');
    }
    assert forall|i: int| 0 <= i < plain.len() implies {
        &&& 1 <= (#[trigger] plain[i]).len() <= 4
        &&& text::numeral_value(plain[i], 16) is Some
    } by {
        if i < front.len() {
            assert(plain[i] == front[i]);
        }
    }
    lemma_group_pieces(plain);
    lemma_hex_groups(plain);
    lemma_full_list(plain);
    let groups = address::hex_groups(plain)->0;
    assert forall|i: int| 0 <= i < 8 implies groups[i] == (first + seq![
        bits as nat / 0x1_0000,
        bits as nat % 0x1_0000,
    ])[i] by {
        assert(address::hex_group(plain[i]) == Some(groups[i]));
        if i < front.len() {
            assert(plain[i] == front[i]);
            assert(address::hex_group(front[i]) == Some(first[i]));
        }
    }
    assert(groups =~= first + seq![bits as nat / 0x1_0000, bits as nat % 0x1_0000]);
}

} // verus!
