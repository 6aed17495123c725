//! What a plugin may connect to: TCP permissions as configured, and the rules
//! of addresses and ports that they resolve to.

use crate::address;
use crate::address::{IpAddr, SocketAddr};
use crate::config::{TcpPermission, TcpPermissionView};
use crate::text;
use vstd::arithmetic::power2::pow2;
use vstd::prelude::*;
use vstd::string::*;

verus! {

/// The addresses that a rule lets through.
#[derive(Debug, Clone, Copy, PartialEq, Eq, Structural)]
pub enum TcpDestination {
    /// This address alone.
    Address(IpAddr),
    /// The addresses that agree with this one in as many leading bits.
    Cidr(IpAddr, u8),
}

/// The ports of a few destinations, to all of which a plugin may connect.
#[derive(Debug, Clone)]
pub struct TcpPermissionRule {
    pub destinations: Vec<TcpDestination>,
    pub ports: Vec<u16>,
}

#[verifier::ext_equal]
pub struct TcpPermissionRuleView {
    pub destinations: Seq<TcpDestination>,
    pub ports: Seq<u16>,
}

impl View for TcpPermissionRule {
    type V = TcpPermissionRuleView;

    open spec fn view(&self) -> TcpPermissionRuleView {
        TcpPermissionRuleView { destinations: self.destinations@, ports: self.ports@ }
    }
}

/// Whether `address` lies in the range of the addresses that have the first
/// `prefix` bits of `network`.
pub open spec fn in_range(network: IpAddr, prefix: nat, address: IpAddr) -> bool {
    &&& network.width() == address.width()
    &&& network.number() / pow2((network.width() - prefix) as nat) == address.number() / pow2(
        (network.width() - prefix) as nat,
    )
}

impl TcpDestination {
    pub open spec fn covers(self, address: IpAddr) -> bool {
        match self {
            TcpDestination::Address(allowed) => allowed == address,
            TcpDestination::Cidr(network, prefix) => in_range(network, prefix as nat, address),
        }
    }

    /// Whether the prefix is no longer than the addresses.
    pub open spec fn well_formed(self) -> bool {
        self matches TcpDestination::Cidr(network, prefix) ==> prefix <= network.width()
    }
}

impl TcpPermissionRuleView {
    /// Whether the rule lets a connection to `address` through.
    pub open spec fn allows(self, address: SocketAddr) -> bool {
        &&& self.ports.contains(address.port)
        &&& exists|i: int|
            0 <= i < self.destinations.len() && (#[trigger] self.destinations[i]).covers(address.ip)
    }

    /// Whether no prefix is longer than its addresses.
    pub open spec fn well_formed(self) -> bool {
        forall|i: int|
            0 <= i < self.destinations.len() ==> (#[trigger] self.destinations[i]).well_formed()
    }

    /// The rule for a list of addresses.
    pub open spec fn of_addresses(addresses: Seq<IpAddr>, ports: Seq<u16>) -> Self {
        TcpPermissionRuleView {
            destinations: Seq::new(
                addresses.len(),
                |i: int| TcpDestination::Address(addresses[i]),
            ),
            ports,
        }
    }

    /// The rule for a range of addresses.
    pub open spec fn of_cidr(address: IpAddr, prefix: u8, ports: Seq<u16>) -> Self {
        TcpPermissionRuleView {
            destinations: seq![TcpDestination::Cidr(address, prefix)],
            ports,
        }
    }
}

proof fn lemma_v4_mask(network: u32, address: u32, prefix: nat)
    requires
        0 < prefix <= 32,
    ensures
        ({
            let mask = u32::MAX << ((32 - prefix) as u32);
            (network & mask) == (address & mask) <==> in_range(
                IpAddr::V4(network),
                prefix,
                IpAddr::V4(address),
            )
        }),
{
    let shift = (32 - prefix) as u32;
    vstd::bits::lemma_u32_shr_is_div(network, shift);
    vstd::bits::lemma_u32_shr_is_div(address, shift);
    assert((network & (0xffff_ffffu32 << shift)) == (address & (0xffff_ffffu32 << shift)) <==> (
    network >> shift) == (address >> shift)) by (bit_vector)
        requires
            shift < 32,
    ;
}

proof fn lemma_v6_mask(network: u128, address: u128, prefix: nat)
    requires
        0 < prefix <= 128,
    ensures
        ({
            let mask = u128::MAX << ((128 - prefix) as u128);
            (network & mask) == (address & mask) <==> in_range(
                IpAddr::V6(network),
                prefix,
                IpAddr::V6(address),
            )
        }),
{
    let shift = (128 - prefix) as u128;
    vstd::bits::lemma_u128_shr_is_div(network, shift);
    vstd::bits::lemma_u128_shr_is_div(address, shift);
    lemma_u128_mask(network, shift);
    lemma_u128_mask(address, shift);
    lemma_u128_shift_back(network, shift);
    lemma_u128_shift_back(address, shift);
}

#[verifier::rlimit(100)]
proof fn lemma_u128_mask(bits: u128, shift: u128)
    by (bit_vector)
    requires
        shift < 128,
    ensures
        bits & (0xffff_ffff_ffff_ffff_ffff_ffff_ffff_ffffu128 << shift) == (bits >> shift) << shift,
{
}

#[verifier::rlimit(100)]
proof fn lemma_u128_shift_back(bits: u128, shift: u128)
    by (bit_vector)
    requires
        shift < 128,
    ensures
        ((bits >> shift) << shift) >> shift == bits >> shift,
{
}

proof fn lemma_number_below_width(address: IpAddr)
    ensures
        address.number() < pow2(address.width()),
{
    vstd::arithmetic::power2::lemma2_to64();
    vstd::arithmetic::power2::lemma_pow2_adds(64, 64);
}

/// A range with an empty prefix holds every address of its family.
pub proof fn law_empty_prefix_covers_family(network: IpAddr, address: IpAddr)
    ensures
        in_range(network, 0, address) <==> network.width() == address.width(),
{
    lemma_number_below_width(network);
    lemma_number_below_width(address);
    if network.width() == address.width() {
        vstd::arithmetic::div_mod::lemma_basic_div(
            network.number() as int,
            pow2(network.width()) as int,
        );
        vstd::arithmetic::div_mod::lemma_basic_div(
            address.number() as int,
            pow2(network.width()) as int,
        );
    }
}

/// A range with a prefix of full length holds its own address and no other.
pub proof fn law_full_prefix_covers_one_address(network: IpAddr, address: IpAddr)
    ensures
        in_range(network, network.width(), address) <==> network == address,
{
    vstd::arithmetic::power2::lemma2_to64();
    assert(network.number() / 1 == network.number());
    assert(address.number() / 1 == address.number());
}

/// Shortening the prefix of a range only adds addresses to it.
pub proof fn law_shorter_prefix_covers_more(
    network: IpAddr,
    longer: nat,
    shorter: nat,
    address: IpAddr,
)
    requires
        shorter <= longer <= network.width(),
        in_range(network, longer, address),
    ensures
        in_range(network, shorter, address),
{
    let low = (network.width() - longer) as nat;
    let more = (longer - shorter) as nat;
    vstd::arithmetic::power2::lemma_pow2_adds(low, more);
    vstd::arithmetic::power2::lemma_pow2_pos(low);
    vstd::arithmetic::power2::lemma_pow2_pos(more);
    assert(low + more == network.width() - shorter);
    vstd::arithmetic::div_mod::lemma_div_denominator(
        network.number() as int,
        pow2(low) as int,
        pow2(more) as int,
    );
    vstd::arithmetic::div_mod::lemma_div_denominator(
        address.number() as int,
        pow2(low) as int,
        pow2(more) as int,
    );
}

/// Whether `address` lies in the range of `network` with the given prefix.
pub fn cidr_contains(network: IpAddr, prefix: u8, address: IpAddr) -> (contained: bool)
    requires
        network.width() == address.width() ==> prefix <= network.width(),
    ensures
        contained == in_range(network, prefix as nat, address),
{
    match (network, address) {
        (IpAddr::V4(network_bits), IpAddr::V4(address_bits)) => {
            let mask: u32 = if prefix == 0 {
                0
            } else {
                u32::MAX << (32 - prefix as u32)
            };
            proof {
                if prefix == 0 {
                    law_empty_prefix_covers_family(network, address);
                    assert(network_bits & 0 == address_bits & 0) by (bit_vector);
                } else {
                    lemma_v4_mask(network_bits, address_bits, prefix as nat);
                }
            }
            (network_bits & mask) == (address_bits & mask)
        },
        (IpAddr::V6(network_bits), IpAddr::V6(address_bits)) => {
            let mask: u128 = if prefix == 0 {
                0
            } else {
                u128::MAX << (128 - prefix as u128)
            };
            proof {
                if prefix == 0 {
                    law_empty_prefix_covers_family(network, address);
                    assert(network_bits & 0 == address_bits & 0) by (bit_vector);
                } else {
                    lemma_v6_mask(network_bits, address_bits, prefix as nat);
                }
            }
            (network_bits & mask) == (address_bits & mask)
        },
        _ => false,
    }
}

impl TcpPermissionRule {
    /// The rule that lets through connections to any of `addresses`.
    pub fn from_addresses(addresses: Vec<IpAddr>, ports: Vec<u16>) -> (rule: TcpPermissionRule)
        ensures
            rule@ == TcpPermissionRuleView::of_addresses(addresses@, ports@),
            rule@.well_formed(),
    {
        let mut destinations: Vec<TcpDestination> = Vec::new();
        let mut i: usize = 0;
        while i < addresses.len()
            invariant
                i <= addresses@.len(),
                destinations@.len() == i,
                forall|j: int|
                    0 <= j < i ==> destinations@[j] == TcpDestination::Address(addresses@[j]),
            decreases addresses@.len() - i,
        {
            destinations.push(TcpDestination::Address(addresses[i]));
            i += 1;
        }
        TcpPermissionRule { destinations, ports }
    }

    /// The rule that lets through connections to a range of addresses.
    pub fn from_cidr(address: IpAddr, prefix: u8, ports: Vec<u16>) -> (rule: TcpPermissionRule)
        ensures
            rule@ == TcpPermissionRuleView::of_cidr(address, prefix, ports@),
            rule@.well_formed() <==> prefix <= address.width(),
    {
        let mut destinations: Vec<TcpDestination> = Vec::new();
        destinations.push(TcpDestination::Cidr(address, prefix));
        let rule = TcpPermissionRule { destinations, ports };
        assert(rule@.destinations[0].well_formed() <==> prefix <= address.width());
        rule
    }

    /// Whether the rule lets a connection to `address` through.
    pub fn allows(&self, address: SocketAddr) -> (allowed: bool)
        requires
            self@.well_formed(),
        ensures
            allowed == self@.allows(address),
    {
        if !contains_port(&self.ports, address.port) {
            return false;
        }
        let mut i: usize = 0;
        while i < self.destinations.len()
            invariant
                i <= self.destinations@.len(),
                self@.well_formed(),
                self.ports@.contains(address.port),
                forall|j: int| 0 <= j < i ==> !(#[trigger] self.destinations@[j]).covers(address.ip),
            decreases self.destinations@.len() - i,
        {
            assert(self@.destinations[i as int].well_formed());
            let covered = match self.destinations[i] {
                TcpDestination::Address(allowed) => allowed == address.ip,
                TcpDestination::Cidr(network, prefix) => cidr_contains(network, prefix, address.ip),
            };
            if covered {
                assert(self@.destinations[i as int].covers(address.ip));
                return true;
            }
            i += 1;
        }
        false
    }
}

fn contains_port(ports: &Vec<u16>, port: u16) -> (found: bool)
    ensures
        found == ports@.contains(port),
{
    let mut i: usize = 0;
    while i < ports.len()
        invariant
            i <= ports@.len(),
            forall|j: int| 0 <= j < i ==> ports@[j] != port,
        decreases ports@.len() - i,
    {
        if ports[i] == port {
            return true;
        }
        i += 1;
    }
    false
}

/// What a lookup of a host name came back with: its addresses, or what went
/// wrong.
pub type HostLookup = Result<Vec<IpAddr>, String>;

/// The value of a numeral with an optional plus sign.
pub open spec fn unsigned_value(text: Seq<char>) -> Option<nat> {
    if text.len() > 0 && text[0] == '+' {
        text::numeral_value(text.skip(1), 10)
    } else {
        text::numeral_value(text, 10)
    }
}

/// The message with which the standard library rejects `text` as a `u8`.
pub uninterp spec fn u8_error(text: Seq<char>) -> Seq<char>;

/// Calls `str::parse::<u8>`. It takes a decimal numeral with an optional plus
/// sign and nothing around it, and rejects what is more than 255; `u8_error`
/// is the text of its error.
#[verifier::external_body]
fn parse_u8(text: &str) -> (value: Result<u8, String>)
    ensures
        match value {
            Ok(number) => unsigned_value(text@) == Some(number as nat),
            Err(message) => {
                &&& unsigned_value(text@) matches Some(number) ==> number > 255
                &&& message@ == u8_error(text@)
            },
        },
{
    match text.parse::<u8>() {
        Ok(number) => Ok(number),
        Err(err) => Err(err.to_string()),
    }
}

/// The number that `text` denotes, if it is a number of eight bits.
pub open spec fn prefix_value(text: Seq<char>) -> Result<u8, Seq<char>> {
    match unsigned_value(text) {
        Some(number) if number <= 255 => Ok(number as u8),
        _ => Err(u8_error(text)),
    }
}

/// The network and the prefix that `text` denotes, joined by the first slash,
/// or the message about what is wrong with it.
pub open spec fn cidr_value(text: Seq<char>) -> Result<(IpAddr, u8), Seq<char>> {
    let slash = text::first_position(text, '/');
    if slash == text.len() {
        Err("TCP permission CIDR must include a prefix: "@ + text)
    } else {
        match address::ip_value(text.take(slash)) {
            None => Err("invalid TCP permission CIDR "@ + text + ": invalid IP address syntax"@),
            Some(network) => match prefix_value(text.skip(slash + 1)) {
                Err(reason) => Err("invalid TCP permission prefix "@ + text + ": "@ + reason),
                Ok(prefix) => if prefix > network.width() {
                    Err("TCP permission prefix is out of range: "@ + text)
                } else {
                    Ok((network, prefix))
                },
            },
        }
    }
}

/// Reads a range of addresses, such as `10.0.0.0/8`.
pub fn parse_cidr(value: &str) -> (cidr: Result<(IpAddr, u8), String>)
    ensures
        match cidr {
            Ok(range) => cidr_value(value@) == Ok::<(IpAddr, u8), Seq<char>>(range),
            Err(message) => cidr_value(value@) == Err::<(IpAddr, u8), Seq<char>>(message@),
        },
        cidr matches Ok(range) ==> range.1 <= range.0.width(),
{
    let chars = text::chars_of(value);
    let slash = text::find_char(chars.as_slice(), '/');
    if slash == chars.len() {
        return Err("TCP permission CIDR must include a prefix: ".to_owned().concat(value));
    }
    let address_text = value.substring_char(0, slash);
    let prefix_text = value.substring_char(slash + 1, chars.len());
    assert(address_text@ =~= value@.take(slash as int));
    assert(prefix_text@ =~= value@.skip(slash + 1));
    let network = match address::parse_ip(address_text) {
        Some(network) => network,
        None => {
            return Err(
                "invalid TCP permission CIDR ".to_owned().concat(value).concat(
                    ": invalid IP address syntax",
                ),
            );
        },
    };
    let prefix: u8 = match parse_u8(prefix_text) {
        Ok(prefix) => prefix,
        Err(reason) => {
            return Err(
                "invalid TCP permission prefix ".to_owned().concat(value).concat(": ").concat(
                    reason.as_str(),
                ),
            );
        },
    };
    let max_prefix: u8 = match network {
        IpAddr::V4(_) => 32,
        IpAddr::V6(_) => 128,
    };
    if prefix > max_prefix {
        return Err("TCP permission prefix is out of range: ".to_owned().concat(value));
    }
    Ok((network, prefix))
}

/// What comes of one permission.
pub enum PermissionOutcome {
    /// The permission is invalid, for this reason.
    Refused(String),
    /// The addresses of this host have to be looked up first.
    Lookup(String),
    /// The rule that the permission stands for.
    Rule(TcpPermissionRule),
}

#[verifier::ext_equal]
pub enum PermissionOutcomeView {
    Refused(Seq<char>),
    Lookup(Seq<char>),
    Rule(TcpPermissionRuleView),
}

impl View for PermissionOutcome {
    type V = PermissionOutcomeView;

    open spec fn view(&self) -> PermissionOutcomeView {
        match self {
            PermissionOutcome::Refused(reason) => PermissionOutcomeView::Refused(reason@),
            PermissionOutcome::Lookup(host) => PermissionOutcomeView::Lookup(host@),
            PermissionOutcome::Rule(rule) => PermissionOutcomeView::Rule(rule@),
        }
    }
}

/// What comes of `permission`, given the lookup of its host as far as that was
/// made.
pub open spec fn permission_outcome(
    permission: TcpPermissionView,
    lookup: Option<Result<Seq<IpAddr>, Seq<char>>>,
) -> PermissionOutcomeView {
    if permission.ports.len() == 0 {
        PermissionOutcomeView::Refused("TCP permission must declare at least one port"@)
    } else {
        match (permission.host, permission.cidr) {
            (Some(host), None) => match lookup {
                None => PermissionOutcomeView::Lookup(host),
                Some(Err(reason)) => PermissionOutcomeView::Refused(
                    "failed to resolve TCP permission host "@ + host + ": "@ + reason,
                ),
                Some(Ok(addresses)) => if addresses.len() == 0 {
                    PermissionOutcomeView::Refused(
                        "TCP permission host resolved to no addresses: "@ + host,
                    )
                } else {
                    PermissionOutcomeView::Rule(
                        TcpPermissionRuleView::of_addresses(addresses, permission.ports),
                    )
                },
            },
            (None, Some(cidr)) => match cidr_value(cidr) {
                Err(reason) => PermissionOutcomeView::Refused(reason),
                Ok(range) => PermissionOutcomeView::Rule(
                    TcpPermissionRuleView::of_cidr(range.0, range.1, permission.ports),
                ),
            },
            _ => PermissionOutcomeView::Refused(
                "TCP permission must declare exactly one of host or cidr"@,
            ),
        }
    }
}

fn copy_ports(ports: &Vec<u16>) -> (copy: Vec<u16>)
    ensures
        copy@ == ports@,
{
    let mut copy: Vec<u16> = Vec::new();
    let mut i: usize = 0;
    while i < ports.len()
        invariant
            i <= ports@.len(),
            copy@ == ports@.take(i as int),
        decreases ports@.len() - i,
    {
        copy.push(ports[i]);
        assert(ports@.take(i + 1) =~= ports@.take(i as int).push(ports@[i as int]));
        i += 1;
    }
    assert(ports@.take(ports@.len() as int) =~= ports@);
    copy
}

fn copy_addresses(addresses: &Vec<IpAddr>) -> (copy: Vec<IpAddr>)
    ensures
        copy@ == addresses@,
{
    let mut copy: Vec<IpAddr> = Vec::new();
    let mut i: usize = 0;
    while i < addresses.len()
        invariant
            i <= addresses@.len(),
            copy@ == addresses@.take(i as int),
        decreases addresses@.len() - i,
    {
        copy.push(addresses[i]);
        assert(addresses@.take(i + 1) =~= addresses@.take(i as int).push(addresses@[i as int]));
        i += 1;
    }
    assert(addresses@.take(addresses@.len() as int) =~= addresses@);
    copy
}

/// The view of a lookup, where it was made.
pub open spec fn lookup_view(lookup: Option<&HostLookup>) -> Option<Result<Seq<IpAddr>, Seq<char>>> {
    match lookup {
        None => None,
        Some(result) => Some(text::result_view(*result)),
    }
}

/// Resolves one permission, given the lookup of its host as far as that was
/// made.
pub fn resolve_tcp_permission(
    permission: &TcpPermission,
    lookup: Option<&HostLookup>,
) -> (outcome: PermissionOutcome)
    ensures
        outcome@ == permission_outcome(permission@, lookup_view(lookup)),
        outcome matches PermissionOutcome::Rule(rule) ==> rule@.well_formed(),
{
    if permission.ports.len() == 0 {
        return PermissionOutcome::Refused(
            "TCP permission must declare at least one port".to_owned(),
        );
    }
    match (&permission.host, &permission.cidr) {
        (Some(host), None) => match lookup {
            None => PermissionOutcome::Lookup(host.clone()),
            Some(Err(reason)) => PermissionOutcome::Refused(
                "failed to resolve TCP permission host ".to_owned().concat(host.as_str()).concat(
                    ": ",
                ).concat(reason.as_str()),
            ),
            Some(Ok(addresses)) => {
                if addresses.len() == 0 {
                    PermissionOutcome::Refused(
                        "TCP permission host resolved to no addresses: ".to_owned().concat(
                            host.as_str(),
                        ),
                    )
                } else {
                    PermissionOutcome::Rule(
                        TcpPermissionRule::from_addresses(
                            copy_addresses(addresses),
                            copy_ports(&permission.ports),
                        ),
                    )
                }
            },
        },
        (None, Some(cidr)) => match parse_cidr(cidr.as_str()) {
            Err(reason) => PermissionOutcome::Refused(reason),
            Ok((network, prefix)) => PermissionOutcome::Rule(
                TcpPermissionRule::from_cidr(network, prefix, copy_ports(&permission.ports)),
            ),
        },
        _ => PermissionOutcome::Refused(
            "TCP permission must declare exactly one of host or cidr".to_owned(),
        ),
    }
}

/// How far the permissions of a plugin could be resolved.
pub enum PermissionResolution {
    /// The addresses of this host have to be looked up next.
    Lookup(String),
    /// One rule for each permission.
    Rules(Vec<TcpPermissionRule>),
}

#[verifier::ext_equal]
pub enum PermissionResolutionView {
    Lookup(Seq<char>),
    Rules(Seq<TcpPermissionRuleView>),
}

impl View for PermissionResolution {
    type V = PermissionResolutionView;

    open spec fn view(&self) -> PermissionResolutionView {
        match self {
            PermissionResolution::Lookup(host) => PermissionResolutionView::Lookup(host@),
            PermissionResolution::Rules(rules) => PermissionResolutionView::Rules(
                text::views(rules@),
            ),
        }
    }
}

/// The resolution with `rules` put in front of the rules that it holds.
pub open spec fn after_rules(
    rules: Seq<TcpPermissionRuleView>,
    resolution: Result<PermissionResolutionView, Seq<char>>,
) -> Result<PermissionResolutionView, Seq<char>> {
    match resolution {
        Ok(PermissionResolutionView::Rules(rest)) => Ok(
            PermissionResolutionView::Rules(rules + rest),
        ),
        _ => resolution,
    }
}

/// How far `permissions` can be resolved with `lookups`, the results of the
/// host lookups in the order in which they were asked for.
pub open spec fn resolution(
    permissions: Seq<TcpPermissionView>,
    lookups: Seq<Result<Seq<IpAddr>, Seq<char>>>,
) -> Result<PermissionResolutionView, Seq<char>>
    decreases permissions.len(),
{
    if permissions.len() == 0 {
        Ok(PermissionResolutionView::Rules(Seq::empty()))
    } else {
        let lookup = if lookups.len() > 0 {
            Some(lookups[0])
        } else {
            None
        };
        match permission_outcome(permissions[0], lookup) {
            PermissionOutcomeView::Refused(reason) => Err(reason),
            PermissionOutcomeView::Lookup(host) => Ok(PermissionResolutionView::Lookup(host)),
            PermissionOutcomeView::Rule(rule) => after_rules(
                seq![rule],
                resolution(
                    permissions.drop_first(),
                    if permissions[0].host is Some {
                        lookups.drop_first()
                    } else {
                        lookups
                    },
                ),
            ),
        }
    }
}

/// The views of lookups.
pub open spec fn lookup_views(lookups: Seq<HostLookup>) -> Seq<Result<Seq<IpAddr>, Seq<char>>> {
    Seq::new(lookups.len(), |i: int| text::result_view(lookups[i]))
}

/// Resolves the permissions of a plugin one after the other, with the results
/// of the host lookups made so far, in the order in which they were asked for.
/// The answer is the host to look up next, or all the rules, or the reason why
/// a permission is invalid.
pub fn resolve_tcp_permissions(permissions: &[TcpPermission], lookups: &[HostLookup]) -> (result:
    Result<PermissionResolution, String>)
    ensures
        text::result_view(result) == resolution(text::views(permissions@), lookup_views(lookups@)),
        result matches Ok(PermissionResolution::Rules(rules)) ==> {
            &&& rules@.len() == permissions@.len()
            &&& forall|i: int| 0 <= i < rules@.len() ==> (#[trigger] rules@[i])@.well_formed()
        },
{
    let ghost all = text::views(permissions@);
    let ghost made = lookup_views(lookups@);
    let mut rules: Vec<TcpPermissionRule> = Vec::new();
    let mut i: usize = 0;
    let mut used: usize = 0;
    proof {
        assert(all.skip(0) =~= all);
        assert(made.skip(0) =~= made);
        assert(text::views(rules@) =~= Seq::empty());
        assert(after_rules(text::views(rules@), resolution(all, made)) == resolution(all, made))
            by {
            match resolution(all, made) {
                Ok(PermissionResolutionView::Rules(rest)) => {
                    assert(text::views(rules@) + rest =~= rest);
                },
                _ => {},
            }
        }
    }
    while i < permissions.len()
        invariant
            i <= permissions@.len(),
            used <= lookups@.len(),
            all == text::views(permissions@),
            made == lookup_views(lookups@),
            rules@.len() == i,
            forall|j: int| 0 <= j < i ==> (#[trigger] rules@[j])@.well_formed(),
            resolution(all, made) == after_rules(
                text::views(rules@),
                resolution(all.skip(i as int), made.skip(used as int)),
            ),
        decreases permissions@.len() - i,
    {
        let ghost rest = all.skip(i as int);
        let ghost unused = made.skip(used as int);
        let lookup: Option<&HostLookup> = if used < lookups.len() {
            Some(&lookups[used])
        } else {
            None
        };
        proof {
            assert(rest[0] == permissions@[i as int]@);
            assert(rest.drop_first() =~= all.skip(i + 1));
            if used < lookups@.len() {
                assert(unused[0] == text::result_view(lookups@[used as int]));
                assert(unused.drop_first() =~= made.skip(used + 1));
            }
        }
        match resolve_tcp_permission(&permissions[i], lookup) {
            PermissionOutcome::Refused(reason) => {
                return Err(reason);
            },
            PermissionOutcome::Lookup(host) => {
                return Ok(PermissionResolution::Lookup(host));
            },
            PermissionOutcome::Rule(rule) => {
                let ghost before = text::views(rules@);
                let ghost one = rule@;
                rules.push(rule);
                if permissions[i].host.is_some() {
                    used += 1;
                }
                proof {
                    assert(text::views(rules@) =~= before.push(one));
                    let deeper = resolution(all.skip(i + 1), made.skip(used as int));
                    assert(after_rules(before, after_rules(seq![one], deeper)) == after_rules(
                        text::views(rules@),
                        deeper,
                    )) by {
                        match deeper {
                            Ok(PermissionResolutionView::Rules(tail)) => {
                                assert(before + (seq![one] + tail) =~= before.push(one) + tail);
                            },
                            _ => {},
                        }
                    }
                }
            },
        }
        i += 1;
    }
    proof {
        assert(text::views(rules@) + Seq::empty() =~= text::views(rules@));
    }
    Ok(PermissionResolution::Rules(rules))
}

/// A permission for a host, once resolved, lets through connections to the
/// addresses that the lookup returned, on the declared ports, and no others.
pub proof fn law_host_permission_authorizes_its_addresses(
    permission: TcpPermissionView,
    addresses: Seq<IpAddr>,
    rule: TcpPermissionRuleView,
    destination: SocketAddr,
)
    requires
        permission.host is Some,
        permission_outcome(permission, Some(Ok(addresses))) == PermissionOutcomeView::Rule(rule),
    ensures
        rule.allows(destination) <==> addresses.contains(destination.ip)
            && permission.ports.contains(destination.port),
{
    if addresses.contains(destination.ip) {
        let i = choose|i: int| 0 <= i < addresses.len() && addresses[i] == destination.ip;
        assert(rule.destinations[i].covers(destination.ip));
    }
    if rule.allows(destination) {
        let i = choose|i: int|
            0 <= i < rule.destinations.len() && (#[trigger] rule.destinations[i]).covers(
                destination.ip,
            );
        assert(addresses[i] == destination.ip);
    }
}

/// A permission for a range lets through connections to the addresses in the
/// range, on the declared ports, and no others, whatever was looked up.
pub proof fn law_cidr_permission_authorizes_its_range(
    permission: TcpPermissionView,
    lookup: Option<Result<Seq<IpAddr>, Seq<char>>>,
    rule: TcpPermissionRuleView,
    destination: SocketAddr,
)
    requires
        permission.cidr is Some,
        permission_outcome(permission, lookup) == PermissionOutcomeView::Rule(rule),
    ensures
        cidr_value(permission.cidr->0) is Ok,
        rule.allows(destination) <==> {
            let range = cidr_value(permission.cidr->0)->Ok_0;
            &&& in_range(range.0, range.1 as nat, destination.ip)
            &&& permission.ports.contains(destination.port)
        },
{
    let range = cidr_value(permission.cidr->0)->Ok_0;
    assert(rule.destinations[0] == TcpDestination::Cidr(range.0, range.1));
}

/// How many of the first `index` permissions are for a host.
pub open spec fn hosts_before(permissions: Seq<TcpPermissionView>, index: int) -> int
    decreases index,
{
    if index <= 0 {
        0
    } else {
        hosts_before(permissions, index - 1) + if permissions[index - 1].host is Some {
            1int
        } else {
            0
        }
    }
}

/// The lookup that was made for the permission at `index`, if it is one for a
/// host.
pub open spec fn own_lookup(
    permissions: Seq<TcpPermissionView>,
    lookups: Seq<Result<Seq<IpAddr>, Seq<char>>>,
    index: int,
) -> Option<Result<Seq<IpAddr>, Seq<char>>> {
    let made_before = hosts_before(permissions, index);
    if made_before < lookups.len() {
        Some(lookups[made_before])
    } else {
        None
    }
}

proof fn lemma_hosts_after_first(permissions: Seq<TcpPermissionView>, index: int)
    requires
        0 < index <= permissions.len(),
    ensures
        hosts_before(permissions, index) == hosts_before(permissions.drop_first(), index - 1) + (
        if permissions[0].host is Some {
            1int
        } else {
            0
        }),
        hosts_before(permissions.drop_first(), index - 1) >= 0,
    decreases index,
{
    reveal_with_fuel(hosts_before, 2);
    if index > 1 {
        lemma_hosts_after_first(permissions, index - 1);
        assert(permissions.drop_first()[index - 2] == permissions[index - 1]);
    }
}

/// Where all the permissions of a plugin resolve, each of the rules is the one
/// that the permission in the same place stands for, with the lookup that was
/// made for it.
pub proof fn law_rules_follow_permissions(
    permissions: Seq<TcpPermissionView>,
    lookups: Seq<Result<Seq<IpAddr>, Seq<char>>>,
    rules: Seq<TcpPermissionRuleView>,
)
    requires
        resolution(permissions, lookups) == Ok::<PermissionResolutionView, Seq<char>>(
            PermissionResolutionView::Rules(rules),
        ),
    ensures
        rules.len() == permissions.len(),
        forall|i: int|
            0 <= i < rules.len() ==> {
                &&& permission_outcome(permissions[i], own_lookup(permissions, lookups, i))
                    == PermissionOutcomeView::Rule(#[trigger] rules[i])
                &&& rules[i].ports == permissions[i].ports
                &&& rules[i].well_formed()
            },
    decreases permissions.len(),
{
    if permissions.len() > 0 {
        let lookup = if lookups.len() > 0 {
            Some(lookups[0])
        } else {
            None
        };
        let tail = permissions.drop_first();
        let rest = if permissions[0].host is Some {
            lookups.drop_first()
        } else {
            lookups
        };
        let first = permission_outcome(permissions[0], lookup)->Rule_0;
        let others = resolution(tail, rest)->Ok_0->Rules_0;
        law_rules_follow_permissions(tail, rest, others);
        assert(rules =~= seq![first] + others);
        assert forall|i: int| 0 <= i < rules.len() implies {
            &&& permission_outcome(permissions[i], own_lookup(permissions, lookups, i))
                == PermissionOutcomeView::Rule(#[trigger] rules[i])
            &&& rules[i].ports == permissions[i].ports
            &&& rules[i].well_formed()
        } by {
            if i > 0 {
                assert(rules[i] == others[i - 1]);
                assert(permissions[i] == tail[i - 1]);
                lemma_hosts_after_first(permissions, i);
                assert(own_lookup(permissions, lookups, i) == own_lookup(tail, rest, i - 1));
            }
        }
    }
}

/// Whether `permission`, with the lookup that was made for it, is meant to let
/// connections to `destination` through: on a port that it declares, to one of
/// the addresses of its host or to an address in its range.
pub open spec fn permits(
    permission: TcpPermissionView,
    lookup: Option<Result<Seq<IpAddr>, Seq<char>>>,
    destination: SocketAddr,
) -> bool {
    &&& permission.ports.contains(destination.port)
    &&& match (permission.host, permission.cidr) {
        (Some(_), None) => lookup matches Some(Ok(addresses)) && addresses.contains(
            destination.ip,
        ),
        (None, Some(cidr)) => cidr_value(cidr) matches Ok(range) && in_range(
            range.0,
            range.1 as nat,
            destination.ip,
        ),
        _ => false,
    }
}

/// Whether one of `rules` lets a connection to `address` through.
pub open spec fn some_rule_allows(
    rules: Seq<TcpPermissionRuleView>,
    address: SocketAddr,
) -> bool {
    exists|i: int| 0 <= i < rules.len() && (#[trigger] rules[i]).allows(address)
}

/// The rules that permissions resolve to let a connection through exactly
/// where one of the permissions is meant to.
pub proof fn law_rules_allow_what_is_permitted(
    permissions: Seq<TcpPermissionView>,
    lookups: Seq<Result<Seq<IpAddr>, Seq<char>>>,
    rules: Seq<TcpPermissionRuleView>,
    destination: SocketAddr,
)
    requires
        resolution(permissions, lookups) == Ok::<PermissionResolutionView, Seq<char>>(
            PermissionResolutionView::Rules(rules),
        ),
    ensures
        some_rule_allows(rules, destination) <==> exists|i: int|
            0 <= i < permissions.len() && permits(
                #[trigger] permissions[i],
                own_lookup(permissions, lookups, i),
                destination,
            ),
{
    law_rules_follow_permissions(permissions, lookups, rules);
    assert forall|i: int| 0 <= i < rules.len() implies (#[trigger] rules[i]).allows(destination)
        == permits(permissions[i], own_lookup(permissions, lookups, i), destination) by {
        let lookup = own_lookup(permissions, lookups, i);
        if permissions[i].host is Some {
            law_host_permission_authorizes_its_addresses(
                permissions[i],
                lookup->0->Ok_0,
                rules[i],
                destination,
            );
        } else {
            law_cidr_permission_authorizes_its_range(
                permissions[i],
                lookup,
                rules[i],
                destination,
            );
        }
    }
    if some_rule_allows(rules, destination) {
        let i = choose|i: int| 0 <= i < rules.len() && (#[trigger] rules[i]).allows(destination);
        assert(permits(permissions[i], own_lookup(permissions, lookups, i), destination));
    }
    if exists|i: int|
        0 <= i < permissions.len() && permits(
            #[trigger] permissions[i],
            own_lookup(permissions, lookups, i),
            destination,
        ) {
        let i = choose|i: int|
            0 <= i < permissions.len() && permits(
                #[trigger] permissions[i],
                own_lookup(permissions, lookups, i),
                destination,
            );
        assert(rules[i].allows(destination));
    }
}

/// Whether the resolution waits for a lookup.
pub open spec fn waits_for_lookup(
    result: Result<PermissionResolutionView, Seq<char>>,
) -> bool {
    result matches Ok(answer) && answer is Lookup
}

/// Once the permissions are resolved, or one of them is refused, further
/// lookups change nothing.
pub proof fn law_answers_stand(
    permissions: Seq<TcpPermissionView>,
    lookups: Seq<Result<Seq<IpAddr>, Seq<char>>>,
    more: Seq<Result<Seq<IpAddr>, Seq<char>>>,
)
    requires
        !waits_for_lookup(resolution(permissions, lookups)),
    ensures
        resolution(permissions, lookups + more) == resolution(permissions, lookups),
    decreases permissions.len(),
{
    if permissions.len() > 0 {
        let longer = lookups + more;
        let rest = permissions.drop_first();
        if lookups.len() > 0 {
            assert(longer[0] == lookups[0]);
            assert(longer.drop_first() =~= lookups.drop_first() + more);
        }
        let first = permission_outcome(
            permissions[0],
            if lookups.len() > 0 {
                Some(lookups[0])
            } else {
                None
            },
        );
        if first is Rule {
            if permissions[0].host is Some {
                law_answers_stand(rest, lookups.drop_first(), more);
            } else {
                law_answers_stand(rest, lookups, more);
            }
        }
    }
}

/// No more lookups are asked for than there are permissions.
pub proof fn law_lookups_come_to_an_end(
    permissions: Seq<TcpPermissionView>,
    lookups: Seq<Result<Seq<IpAddr>, Seq<char>>>,
)
    requires
        lookups.len() >= permissions.len(),
    ensures
        !waits_for_lookup(resolution(permissions, lookups)),
    decreases permissions.len(),
{
    if permissions.len() > 0 {
        let rest = permissions.drop_first();
        law_lookups_come_to_an_end(rest, lookups.drop_first());
        law_lookups_come_to_an_end(rest, lookups);
    }
}

/// The views show all that is in a rule, an outcome, a resolution and lookups.
pub proof fn law_views_show_everything(
    rule: TcpPermissionRule,
    rules: Vec<TcpPermissionRule>,
    text: String,
    lookups: Seq<HostLookup>,
    i: int,
)
    requires
        0 <= i < lookups.len(),
    ensures
        rule@.destinations == rule.destinations@,
        rule@.ports == rule.ports@,
        PermissionOutcome::Refused(text)@ == PermissionOutcomeView::Refused(text@),
        PermissionOutcome::Lookup(text)@ == PermissionOutcomeView::Lookup(text@),
        PermissionOutcome::Rule(rule)@ == PermissionOutcomeView::Rule(rule@),
        PermissionResolution::Lookup(text)@ == PermissionResolutionView::Lookup(text@),
        PermissionResolution::Rules(rules)@ == PermissionResolutionView::Rules(text::views(rules@)),
        lookup_view(None) is None,
        lookup_view(Some(&lookups[i])) == Some(text::result_view(lookups[i])),
        lookup_views(lookups).len() == lookups.len(),
        lookup_views(lookups)[i] == text::result_view(lookups[i]),
{
}

/// A range holds the block of addresses around its own that has as many
/// addresses as the bits behind the prefix can count, and no address of the
/// other family.
pub proof fn law_range_is_a_block(
    network: u32,
    address: u32,
    wide_network: u128,
    wide_address: u128,
    prefix: nat,
)
    ensures
        prefix <= 32 ==> (in_range(IpAddr::V4(network), prefix, IpAddr::V4(address)) <==> {
            let size = pow2((32 - prefix) as nat);
            let start = network as int - network as int % (size as int);
            start <= address < start + size
        }),
        prefix <= 128 ==> (in_range(IpAddr::V6(wide_network), prefix, IpAddr::V6(wide_address))
            <==> {
            let size = pow2((128 - prefix) as nat);
            let start = wide_network as int - wide_network as int % (size as int);
            start <= wide_address < start + size
        }),
        !in_range(IpAddr::V4(network), prefix, IpAddr::V6(wide_address)),
        !in_range(IpAddr::V6(wide_network), prefix, IpAddr::V4(address)),
{
    if prefix <= 32 {
        vstd::arithmetic::power2::lemma_pow2_pos((32 - prefix) as nat);
        lemma_same_block(network as int, address as int, pow2((32 - prefix) as nat) as int);
    }
    if prefix <= 128 {
        vstd::arithmetic::power2::lemma_pow2_pos((128 - prefix) as nat);
        lemma_same_block(
            wide_network as int,
            wide_address as int,
            pow2((128 - prefix) as nat) as int,
        );
    }
}

proof fn lemma_same_block(one: int, other: int, size: int)
    requires
        size > 0,
    ensures
        one / size == other / size <==> one - one % size <= other < one - one % size + size,
{
    vstd::arithmetic::div_mod::lemma_fundamental_div_mod(one, size);
    vstd::arithmetic::div_mod::lemma_fundamental_div_mod(other, size);
    let p = one / size;
    let q = other / size;
    assert(0 <= one % size < size && 0 <= other % size < size);
    assert(p < q ==> size * p + size <= size * q) by (nonlinear_arith)
        requires
            size > 0,
    ;
    assert(q < p ==> size * q + size <= size * p) by (nonlinear_arith)
        requires
            size > 0,
    ;
}

/// A rule lets a connection through exactly where it lists the port, and the
/// address itself or a range that holds it.
pub proof fn law_rules_check_port_and_address(
    rule: TcpPermissionRuleView,
    destination: SocketAddr,
)
    ensures
        rule.allows(destination) <==> {
            &&& exists|k: int| 0 <= k < rule.ports.len() && #[trigger] rule.ports[k]
                == destination.port
            &&& exists|i: int|
                0 <= i < rule.destinations.len() && match #[trigger] rule.destinations[i] {
                    TcpDestination::Address(address) => address == destination.ip,
                    TcpDestination::Cidr(network, prefix) => in_range(
                        network,
                        prefix as nat,
                        destination.ip,
                    ),
                }
        },
{
    if rule.allows(destination) {
        let i = choose|i: int|
            0 <= i < rule.destinations.len() && (#[trigger] rule.destinations[i]).covers(
                destination.ip,
            );
        assert(rule.destinations[i].covers(destination.ip));
    }
    if exists|i: int|
        0 <= i < rule.destinations.len() && match #[trigger] rule.destinations[i] {
            TcpDestination::Address(address) => address == destination.ip,
            TcpDestination::Cidr(network, prefix) => in_range(
                network,
                prefix as nat,
                destination.ip,
            ),
        } {
        let i = choose|i: int|
            0 <= i < rule.destinations.len() && match #[trigger] rule.destinations[i] {
                TcpDestination::Address(address) => address == destination.ip,
                TcpDestination::Cidr(network, prefix) => in_range(
                    network,
                    prefix as nat,
                    destination.ip,
                ),
            };
        assert(rule.destinations[i].covers(destination.ip));
    }
}

/// The rule for a list of addresses lists them all, and that for a range holds
/// the range; both keep the ports.
pub proof fn law_rules_keep_what_they_are_made_of(
    addresses: Seq<IpAddr>,
    network: IpAddr,
    prefix: u8,
    ports: Seq<u16>,
)
    ensures
        ({
            let rule = TcpPermissionRuleView::of_addresses(addresses, ports);
            &&& rule.ports == ports
            &&& rule.destinations.len() == addresses.len()
            &&& forall|i: int|
                0 <= i < addresses.len() ==> #[trigger] rule.destinations[i]
                    == TcpDestination::Address(addresses[i])
        }),
        ({
            let rule = TcpPermissionRuleView::of_cidr(network, prefix, ports);
            &&& rule.ports == ports
            &&& rule.destinations == seq![TcpDestination::Cidr(network, prefix)]
        }),
{
}

/// A prefix is a decimal numeral, with or without a plus sign; what is no such
/// numeral, or more than 255, is no prefix.
pub proof fn law_prefixes(numeral: Seq<char>)
    ensures
        numeral.len() > 0 && numeral[0] == '+' ==> unsigned_value(numeral) == text::numeral_value(
            numeral.subrange(1, numeral.len() as int),
            10,
        ),
        !(numeral.len() > 0 && numeral[0] == '+') ==> unsigned_value(numeral)
            == text::numeral_value(numeral, 10),
        unsigned_value(numeral) matches Some(number) ==> {
            &&& number <= 255 ==> prefix_value(numeral) == Ok::<u8, Seq<char>>(number as u8)
            &&& number > 255 ==> prefix_value(numeral) == Err::<u8, Seq<char>>(u8_error(numeral))
        },
        unsigned_value(numeral) is None ==> prefix_value(numeral) == Err::<u8, Seq<char>>(
            u8_error(numeral),
        ),
{
    if numeral.len() > 0 {
        assert(numeral.skip(1) =~= numeral.subrange(1, numeral.len() as int));
    }
}

/// A range is an address, the first slash and a prefix no longer than the
/// address. Anything else is refused, with the text and what is wrong with it.
pub proof fn law_ranges(front: Seq<char>, numeral: Seq<char>, value: Seq<char>)
    requires
        !front.contains('/'),
    ensures
        !value.contains('/') ==> cidr_value(value) == Err::<(IpAddr, u8), Seq<char>>(
            "TCP permission CIDR must include a prefix: "@ + value,
        ),
        ({
            let whole = front + seq!['/'] + numeral;
            &&& address::ip_value(front) is None ==> cidr_value(whole) == Err::<
                (IpAddr, u8),
                Seq<char>,
            >("invalid TCP permission CIDR "@ + whole + ": invalid IP address syntax"@)
            &&& address::ip_value(front) is Some && prefix_value(numeral) is Err ==> cidr_value(
                whole,
            ) == Err::<(IpAddr, u8), Seq<char>>(
                "invalid TCP permission prefix "@ + whole + ": "@ + prefix_value(numeral)->Err_0,
            )
            &&& (address::ip_value(front) matches Some(network) && prefix_value(numeral) is Ok)
                ==> {
                let network = address::ip_value(front)->0;
                let prefix = prefix_value(numeral)->Ok_0;
                let limit: int = if network is V4 {
                    32
                } else {
                    128
                };
                &&& prefix <= limit ==> cidr_value(whole) == Ok::<(IpAddr, u8), Seq<char>>(
                    (network, prefix),
                )
                &&& prefix > limit ==> cidr_value(whole) == Err::<(IpAddr, u8), Seq<char>>(
                    "TCP permission prefix is out of range: "@ + whole,
                )
            }
        }),
{
    text::law_first_position(value, '/');
    let whole = front + seq!['/'] + numeral;
    text::law_first_position(whole, '/');
    let slash = text::first_position(whole, '/');
    assert(whole[front.len() as int] == '/');
    if slash < front.len() {
        assert(front[slash] == '/');
    }
    assert(slash == front.len());
    assert(whole.take(slash) =~= front);
    assert(whole.skip(slash + 1) =~= numeral);
}

/// A permission without ports is refused, and so is one that has both a host
/// and a range or neither. One for a host waits for the lookup, is refused
/// where that failed or returned nothing, and otherwise becomes the rule for
/// all the addresses. One for a range becomes the rule for it, where the range
/// can be read.
pub proof fn law_outcomes_of_permissions(
    permission: TcpPermissionView,
    lookup: Option<Result<Seq<IpAddr>, Seq<char>>>,
)
    ensures
        permission.ports.len() == 0 ==> permission_outcome(permission, lookup)
            == PermissionOutcomeView::Refused("TCP permission must declare at least one port"@),
        permission.ports.len() > 0 ==> {
            &&& permission.host is Some == permission.cidr is Some ==> permission_outcome(
                permission,
                lookup,
            ) == PermissionOutcomeView::Refused(
                "TCP permission must declare exactly one of host or cidr"@,
            )
            &&& permission.host is Some && permission.cidr is None ==> match lookup {
                None => permission_outcome(permission, lookup) == PermissionOutcomeView::Lookup(
                    permission.host->0,
                ),
                Some(Err(reason)) => permission_outcome(permission, lookup)
                    == PermissionOutcomeView::Refused(
                    "failed to resolve TCP permission host "@ + permission.host->0 + ": "@ + reason,
                ),
                Some(Ok(addresses)) => if addresses.len() > 0 {
                    permission_outcome(permission, lookup) == PermissionOutcomeView::Rule(
                        TcpPermissionRuleView {
                            destinations: addresses.map_values(
                                |address: IpAddr| TcpDestination::Address(address),
                            ),
                            ports: permission.ports,
                        },
                    )
                } else {
                    permission_outcome(permission, lookup) == PermissionOutcomeView::Refused(
                        "TCP permission host resolved to no addresses: "@ + permission.host->0,
                    )
                },
            }
            &&& permission.host is None && permission.cidr is Some ==> match cidr_value(
                permission.cidr->0,
            ) {
                Err(reason) => permission_outcome(permission, lookup)
                    == PermissionOutcomeView::Refused(reason),
                Ok(range) => permission_outcome(permission, lookup) == PermissionOutcomeView::Rule(
                    TcpPermissionRuleView {
                        destinations: seq![TcpDestination::Cidr(range.0, range.1)],
                        ports: permission.ports,
                    },
                ),
            }
        },
{
    if permission.ports.len() > 0 && permission.host is Some && permission.cidr is None {
        if let Some(Ok(addresses)) = lookup {
            assert(addresses.map_values(|address: IpAddr| TcpDestination::Address(address))
                =~= TcpPermissionRuleView::of_addresses(addresses, permission.ports).destinations);
        }
    }
}

/// The lookups are handed out in order, one to each permission for a host.
pub proof fn law_lookups_are_handed_out_in_order(
    permissions: Seq<TcpPermissionView>,
    lookups: Seq<Result<Seq<IpAddr>, Seq<char>>>,
    index: int,
)
    requires
        0 <= index < permissions.len(),
    ensures
        hosts_before(permissions, 0) == 0,
        hosts_before(permissions, index + 1) == hosts_before(permissions, index) + (
        if permissions[index].host is Some {
            1int
        } else {
            0
        }),
        0 <= hosts_before(permissions, index) <= index,
        hosts_before(permissions, index) < lookups.len() ==> own_lookup(
            permissions,
            lookups,
            index,
        ) == Some(lookups[hosts_before(permissions, index)]),
        hosts_before(permissions, index) >= lookups.len() ==> own_lookup(
            permissions,
            lookups,
            index,
        ) is None,
    decreases index,
{
    if index > 0 {
        law_lookups_are_handed_out_in_order(permissions, lookups, index - 1);
    }
}

/// The first permission that does not come to a rule decides: it is refused or
/// its host has to be looked up. Where there is none, there is a rule for each.
pub proof fn law_first_open_permission_decides(
    permissions: Seq<TcpPermissionView>,
    lookups: Seq<Result<Seq<IpAddr>, Seq<char>>>,
    open: int,
)
    requires
        0 <= open <= permissions.len(),
        forall|i: int|
            0 <= i < open ==> permission_outcome(
                #[trigger] permissions[i],
                own_lookup(permissions, lookups, i),
            ) is Rule,
        open < permissions.len() ==> !(permission_outcome(
            permissions[open],
            own_lookup(permissions, lookups, open),
        ) is Rule),
    ensures
        open == permissions.len() ==> (resolution(permissions, lookups) matches Ok(
            PermissionResolutionView::Rules(rules),
        ) && rules.len() == permissions.len()),
        open < permissions.len() ==> match permission_outcome(
            permissions[open],
            own_lookup(permissions, lookups, open),
        ) {
            PermissionOutcomeView::Refused(reason) => resolution(permissions, lookups) == Err::<
                PermissionResolutionView,
                Seq<char>,
            >(reason),
            PermissionOutcomeView::Lookup(host) => resolution(permissions, lookups) == Ok::<
                PermissionResolutionView,
                Seq<char>,
            >(PermissionResolutionView::Lookup(host)),
            PermissionOutcomeView::Rule(_) => true,
        },
    decreases permissions.len(),
{
    if permissions.len() > 0 {
        assert(hosts_before(permissions, 0) == 0);
        let tail = permissions.drop_first();
        let rest = if permissions[0].host is Some {
            lookups.drop_first()
        } else {
            lookups
        };
        if open > 0 {
            let first = permission_outcome(permissions[0], own_lookup(permissions, lookups, 0));
            assert(first is Rule);
            if permissions[0].host is Some {
                assert(lookups.len() > 0);
            }
            assert forall|i: int| 0 < i < permissions.len() implies own_lookup(
                permissions,
                lookups,
                i,
            ) == #[trigger] own_lookup(tail, rest, i - 1) by {
                lemma_hosts_after_first(permissions, i);
            }
            assert forall|i: int| 0 <= i < open - 1 implies permission_outcome(
                #[trigger] tail[i],
                own_lookup(tail, rest, i),
            ) is Rule by {
                assert(permissions[i + 1] == tail[i]);
                assert(own_lookup(permissions, lookups, i + 1) == own_lookup(tail, rest, i));
            }
            if open < permissions.len() {
                assert(tail[open - 1] == permissions[open]);
                assert(own_lookup(permissions, lookups, open) == own_lookup(tail, rest, open - 1));
            }
            law_first_open_permission_decides(tail, rest, open - 1);
        }
    }
}

/// Permissions that each have a port, and either a range that can be read or a
/// host that was looked up to an address or more, all become rules.
pub proof fn law_valid_permissions_become_rules(
    permissions: Seq<TcpPermissionView>,
    lookups: Seq<Result<Seq<IpAddr>, Seq<char>>>,
)
    requires
        forall|i: int|
            0 <= i < permissions.len() ==> {
                let permission = #[trigger] permissions[i];
                let lookup = own_lookup(permissions, lookups, i);
                &&& permission.ports.len() > 0
                &&& permission.host is Some != permission.cidr is Some
                &&& permission.cidr matches Some(cidr) ==> cidr_value(cidr) is Ok
                &&& permission.host is Some ==> (lookup matches Some(Ok(addresses))
                    && addresses.len() > 0)
            },
    ensures
        resolution(permissions, lookups) matches Ok(PermissionResolutionView::Rules(rules))
            && rules.len() == permissions.len(),
{
    assert forall|i: int| 0 <= i < permissions.len() implies permission_outcome(
        #[trigger] permissions[i],
        own_lookup(permissions, lookups, i),
    ) is Rule by {
        law_outcomes_of_permissions(permissions[i], own_lookup(permissions, lookups, i));
    }
    law_first_open_permission_decides(permissions, lookups, permissions.len() as int);
}

} // verus!
