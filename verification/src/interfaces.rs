//! Which addresses of the operating system's interfaces are usable.

use vstd::prelude::*;

use crate::net::{IpAddr, IpData, IpNetwork, IPV4_LOOPBACK, IPV6_LOOPBACK};
use crate::text;

verus! {

/// An address of an interface as the operating system lists it. An interface
/// with several addresses is listed once for each.
#[derive(Debug)]
pub struct Interface {
    pub name: String,
    pub index: Option<u32>,
    pub address: IpAddr,
    pub prefix_length: u8,
}

/// The first entry, `from` or behind it, with the name of entry `i`.
pub open spec fn first_named(interfaces: Seq<Interface>, i: int, from: int) -> int
    decreases i - from,
{
    if from >= i || interfaces[from].name@ == interfaces[i].name@ {
        from
    } else {
        first_named(interfaces, i, from + 1)
    }
}

/// The first entry with the name of entry `i`.
fn find_first(interfaces: &Vec<Interface>, i: usize) -> (first: usize)
    requires
        i < interfaces@.len(),
    ensures
        first == first_named(interfaces@, i as int, 0),
        first <= i,
{
    let mut at: usize = 0;
    while at < i && !text::same_text(interfaces[at].name.as_str(), interfaces[i].name.as_str())
        invariant
            at <= i < interfaces@.len(),
            first_named(interfaces@, i as int, 0) == first_named(interfaces@, i as int, at as int),
        decreases i - at,
    {
        at = at + 1;
    }
    at
}

/// The entries that are the first with their name: those whose state has to be
/// known.
pub fn entries_to_probe(interfaces: &Vec<Interface>) -> (entries: Vec<usize>)
    ensures
        forall|k: int|
            0 <= k < entries@.len() ==> 0 <= #[trigger] entries@[k] < interfaces@.len()
                && first_named(interfaces@, entries@[k] as int, 0) == entries@[k],
        forall|k: int, l: int| 0 <= k < l < entries@.len() ==> #[trigger] entries@[k] < #[trigger] entries@[l],
        forall|i: int|
            0 <= i < interfaces@.len() && #[trigger] first_named(interfaces@, i, 0) == i
                ==> entries@.contains(i as usize),
{
    let mut entries: Vec<usize> = Vec::new();
    for i in 0..interfaces.len()
        invariant
            forall|k: int|
                0 <= k < entries@.len() ==> 0 <= #[trigger] entries@[k] < i && first_named(
                    interfaces@,
                    entries@[k] as int,
                    0,
                ) == entries@[k],
            forall|k: int, l: int|
                0 <= k < l < entries@.len() ==> #[trigger] entries@[k] < #[trigger] entries@[l],
            forall|j: int|
                0 <= j < i && #[trigger] first_named(interfaces@, j, 0) == j ==> entries@.contains(
                    j as usize,
                ),
    {
        let ghost before = entries@;
        if find_first(interfaces, i) == i {
            entries.push(i);
            proof {
                assert forall|j: int|
                    0 <= j < i + 1 && #[trigger] first_named(interfaces@, j, 0) == j implies entries@.contains(
                    j as usize,
                ) by {
                    if j < i {
                        let k = before.index_of(j as usize);
                        assert(before.contains(j as usize));
                        assert(entries@[k] == j);
                    } else {
                        assert(entries@[entries@.len() - 1] == i);
                    }
                }
            }
        }
    }
    entries
}

/// Whether entry `i` is usable: its interface is up, its family enabled, and
/// its index fits. `up` holds the state of an interface at its first entry.
pub open spec fn is_usable(
    interfaces: Seq<Interface>,
    up: Seq<bool>,
    ipv4: bool,
    ipv6: bool,
    i: int,
) -> bool {
    let interface = interfaces[i];
    &&& up[first_named(interfaces, i, 0)]
    &&& interface.address is V4 ==> ipv4
    &&& interface.address is V6 ==> ipv6
    &&& interface.index matches Some(index) && index <= i32::MAX
}

/// An entry as an address with its prefix, index and name.
pub open spec fn address_of(interface: Interface) -> IpData {
    IpData {
        address: interface.address,
        subnet: IpNetwork { prefix: interface.address, prefix_length: interface.prefix_length },
        index: interface.index->0 as i32,
        name: interface.name,
        supports_multicast: false,
    }
}

/// The usable ones of the first `n` entries, in order.
pub open spec fn usable_addresses(
    interfaces: Seq<Interface>,
    up: Seq<bool>,
    ipv4: bool,
    ipv6: bool,
    n: int,
) -> Seq<IpData>
    decreases n,
{
    if n <= 0 {
        Seq::empty()
    } else {
        let before = usable_addresses(interfaces, up, ipv4, ipv6, n - 1);
        if is_usable(interfaces, up, ipv4, ipv6, n - 1) {
            before.push(address_of(interfaces[n - 1]))
        } else {
            before
        }
    }
}

/// Whether `addresses` are the loopbacks of the enabled families.
pub open spec fn are_loopbacks(addresses: Seq<IpData>, ipv4: bool, ipv6: bool) -> bool {
    let count: int = (if ipv4 { 1int } else { 0 }) + (if ipv6 { 1int } else { 0 });
    &&& addresses.len() == count
    &&& ipv4 ==> is_loopback_entry(addresses[0], IpAddr::V4(IPV4_LOOPBACK), IpAddr::V4(0x7f00_0000), 8)
    &&& ipv6 ==> is_loopback_entry(addresses[count - 1], IpAddr::V6(IPV6_LOOPBACK), IpAddr::V6(IPV6_LOOPBACK), 128)
}

pub open spec fn is_loopback_entry(
    data: IpData,
    address: IpAddr,
    network: IpAddr,
    prefix_length: u8,
) -> bool {
    &&& data.address == address
    &&& data.subnet == (IpNetwork { prefix: network, prefix_length })
    &&& data.index == 0
    &&& data.name@ == "lo"@
    &&& !data.supports_multicast
}

/// The loopback addresses of the enabled families.
pub fn loopbacks(ipv4: bool, ipv6: bool) -> (addresses: Vec<IpData>)
    ensures
        are_loopbacks(addresses@, ipv4, ipv6),
{
    let mut addresses: Vec<IpData> = Vec::new();
    if ipv4 {
        addresses.push(
            IpData {
                address: IpAddr::V4(IPV4_LOOPBACK),
                subnet: IpNetwork { prefix: IpAddr::V4(0x7f00_0000), prefix_length: 8 },
                index: 0,
                name: "lo".to_owned(),
                supports_multicast: false,
            },
        );
    }
    if ipv6 {
        addresses.push(
            IpData {
                address: IpAddr::V6(IPV6_LOOPBACK),
                subnet: IpNetwork { prefix: IpAddr::V6(IPV6_LOOPBACK), prefix_length: 128 },
                index: 0,
                name: "lo".to_owned(),
                supports_multicast: false,
            },
        );
    }
    addresses
}

/// Whether `addresses` are the usable ones of what was listed or, where there is
/// none, the enabled loopbacks.
pub open spec fn are_enumerated(
    addresses: Seq<IpData>,
    listed: Option<Seq<Interface>>,
    up: Seq<bool>,
    ipv4: bool,
    ipv6: bool,
) -> bool {
    match listed {
        Some(interfaces) => {
            let usable = usable_addresses(interfaces, up, ipv4, ipv6, interfaces.len() as int);
            if usable.len() > 0 {
                addresses == usable
            } else {
                are_loopbacks(addresses, ipv4, ipv6)
            }
        },
        None => are_loopbacks(addresses, ipv4, ipv6),
    }
}

/// The usable addresses or, where there is none, the enabled loopbacks. `up`
/// holds the state of each interface at its first entry
/// ([`entries_to_probe`]); what it holds elsewhere is not looked at.
pub fn map_interfaces(interfaces: &Vec<Interface>, ipv4: bool, ipv6: bool, up: &Vec<bool>) -> (addresses:
    Vec<IpData>)
    requires
        up@.len() == interfaces@.len(),
    ensures
        are_enumerated(addresses@, Some(interfaces@), up@, ipv4, ipv6),
{
    let mut addresses: Vec<IpData> = Vec::new();
    for i in 0..interfaces.len()
        invariant
            up@.len() == interfaces@.len(),
            addresses@ == usable_addresses(interfaces@, up@, ipv4, ipv6, i as int),
    {
        let interface: &Interface = &interfaces[i];
        let is_enabled: bool = match interface.address {
            IpAddr::V4(_) => ipv4,
            IpAddr::V6(_) => ipv6,
        };
        if up[find_first(interfaces, i)] && is_enabled {
            match interface.index {
                Some(index) => {
                    if index <= i32::MAX as u32 {
                        addresses.push(
                            IpData {
                                address: interface.address,
                                subnet: IpNetwork {
                                    prefix: interface.address,
                                    prefix_length: interface.prefix_length,
                                },
                                index: index as i32,
                                name: interface.name.clone(),
                                supports_multicast: false,
                            },
                        );
                    }
                },
                None => {},
            }
        }
    }
    if addresses.len() == 0 {
        loopbacks(ipv4, ipv6)
    } else {
        addresses
    }
}

/// [`map_interfaces`] of what was listed, or the enabled loopbacks where
/// nothing could be listed.
pub fn enumerate(
    listed: &Option<Vec<Interface>>,
    ipv4: bool,
    ipv6: bool,
    up: &Vec<bool>,
) -> (addresses: Vec<IpData>)
    requires
        listed matches Some(interfaces) ==> up@.len() == interfaces@.len(),
    ensures
        are_enumerated(
            addresses@,
            match listed {
                Some(interfaces) => Some(interfaces@),
                None => None,
            },
            up@,
            ipv4,
            ipv6,
        ),
{
    match listed {
        Some(interfaces) => map_interfaces(interfaces, ipv4, ipv6, up),
        None => loopbacks(ipv4, ipv6),
    }
}

/// `text` without any `0x` that it begins with.
pub open spec fn without_hex_prefixes(text: Seq<char>) -> Seq<char>
    decreases text.len(),
{
    if text.len() >= 2 && text[0] == '0' && text[1] == 'x' {
        without_hex_prefixes(text.skip(2))
    } else {
        text
    }
}

/// The flags of an interface, from the text of its flags file.
pub open spec fn flags_of(text: Seq<char>) -> Option<int> {
    text::parsed_number(without_hex_prefixes(text::trim_white(text)), 16, u32::MAX as int)
}

/// Executable [`flags_of`].
fn parse_flags(text: &str) -> (flags: Option<u32>)
    ensures
        match flags {
            Some(value) => flags_of(text@) == Some(value as int),
            None => flags_of(text@) is None,
        },
{
    let trimmed: Vec<char> = text::without_white(&text::chars_of(text));
    let mut at: usize = 0;
    assert(trimmed@.skip(0) =~= trimmed@);
    while trimmed.len() - at >= 2 && trimmed[at] == '0' && trimmed[at + 1] == 'x'
        invariant
            at <= trimmed@.len(),
            without_hex_prefixes(trimmed@) == without_hex_prefixes(trimmed@.skip(at as int)),
        decreases trimmed@.len() - at,
    {
        assert(trimmed@.skip(at as int).skip(2) =~= trimmed@.skip(at + 2));
        at = at + 2;
    }
    let rest: String = text::text_between(&trimmed, at, trimmed.len());
    assert(rest@ =~= trimmed@.skip(at as int));
    text::parse_number(&text::chars_of(rest.as_str()), 16, u32::MAX)
}

/// Whether a Linux interface is operational: it runs and, unless its flags
/// cannot be read, is administratively up.
pub open spec fn spec_is_up(is_running: bool, flags: Option<String>) -> bool {
    is_running && match flags {
        Some(text) => match flags_of(text@) {
            Some(value) => value % 2 == 1,
            None => true,
        },
        None => true,
    }
}

/// Executable [`spec_is_up`].
pub fn is_up(is_running: bool, flags: &Option<String>) -> (up: bool)
    ensures
        up == spec_is_up(is_running, *flags),
{
    if !is_running {
        return false;
    }
    match flags {
        Some(text) => match parse_flags(text.as_str()) {
            Some(value) => value % 2 == 1,
            None => true,
        },
        None => true,
    }
}

/// Each interface's state is looked at once: two entries to probe never have
/// the same name, and the first entry with the name of any entry is among them.
pub proof fn law_state_is_probed_once_per_name(interfaces: Seq<Interface>, i: int)
    requires
        0 <= i < interfaces.len(),
    ensures
        ({
            let first = first_named(interfaces, i, 0);
            &&& 0 <= first <= i
            &&& interfaces[first].name@ == interfaces[i].name@
            &&& first_named(interfaces, first, 0) == first
            &&& forall|j: int|
                0 <= j < first ==> (#[trigger] interfaces[j]).name@ != interfaces[i].name@
        }),
{
    lemma_first_named(interfaces, i, 0);
    let first = first_named(interfaces, i, 0);
    lemma_first_named(interfaces, first, 0);
}

proof fn lemma_first_named(interfaces: Seq<Interface>, i: int, from: int)
    requires
        0 <= from <= i < interfaces.len(),
    ensures
        from <= first_named(interfaces, i, from) <= i,
        interfaces[first_named(interfaces, i, from)].name@ == interfaces[i].name@,
        forall|j: int|
            from <= j < first_named(interfaces, i, from) ==> (#[trigger] interfaces[j]).name@
                != interfaces[i].name@,
    decreases i - from,
{
    if from < i && interfaces[from].name@ != interfaces[i].name@ {
        lemma_first_named(interfaces, i, from + 1);
    }
}

/// No address of a family that is not enabled is usable.
pub proof fn law_only_enabled_families(
    interfaces: Seq<Interface>,
    up: Seq<bool>,
    ipv4: bool,
    ipv6: bool,
    n: int,
)
    requires
        0 <= n <= interfaces.len(),
    ensures
        forall|k: int|
            0 <= k < usable_addresses(interfaces, up, ipv4, ipv6, n).len() ==> {
                let data = #[trigger] usable_addresses(interfaces, up, ipv4, ipv6, n)[k];
                (data.address is V4 ==> ipv4) && (data.address is V6 ==> ipv6)
            },
    decreases n,
{
    if n > 0 {
        law_only_enabled_families(interfaces, up, ipv4, ipv6, n - 1);
    }
}

/// How many of the first `n` entries can be used: of an interface that is up, by
/// the state at the first entry of its name, of an enabled family, and with an
/// index that an `i32` holds.
pub open spec fn entries_in_use(
    interfaces: Seq<Interface>,
    up: Seq<bool>,
    ipv4: bool,
    ipv6: bool,
    n: int,
) -> int
    decreases n,
{
    if n <= 0 {
        0
    } else {
        entries_in_use(interfaces, up, ipv4, ipv6, n - 1) + if can_be_used(
            interfaces,
            up,
            ipv4,
            ipv6,
            n - 1,
        ) {
            1int
        } else {
            0
        }
    }
}

/// Whether an entry can be used: some entry `first` is the first of its name,
/// and is up; the family is enabled; and an `i32` holds the index.
pub open spec fn can_be_used(
    interfaces: Seq<Interface>,
    up: Seq<bool>,
    ipv4: bool,
    ipv6: bool,
    i: int,
) -> bool {
    &&& exists|first: int|
        0 <= first <= i && (#[trigger] interfaces[first]).name@ == interfaces[i].name@ && up[first]
            && forall|j: int|
            0 <= j < first ==> (#[trigger] interfaces[j]).name@ != interfaces[i].name@
    &&& match interfaces[i].address {
        IpAddr::V4(_) => ipv4,
        IpAddr::V6(_) => ipv6,
    }
    &&& match interfaces[i].index {
        Some(index) => index <= 0x7fff_ffff,
        None => false,
    }
}

proof fn lemma_can_be_used(
    interfaces: Seq<Interface>,
    up: Seq<bool>,
    ipv4: bool,
    ipv6: bool,
    i: int,
)
    requires
        0 <= i < interfaces.len(),
    ensures
        can_be_used(interfaces, up, ipv4, ipv6, i) <==> is_usable(interfaces, up, ipv4, ipv6, i),
{
    lemma_first_named(interfaces, i, 0);
    let named = first_named(interfaces, i, 0);
    if exists|first: int|
        0 <= first <= i && (#[trigger] interfaces[first]).name@ == interfaces[i].name@ && up[first]
            && forall|j: int|
            0 <= j < first ==> (#[trigger] interfaces[j]).name@ != interfaces[i].name@ {
        let first = choose|first: int|
            0 <= first <= i && (#[trigger] interfaces[first]).name@ == interfaces[i].name@ && up[first]
                && forall|j: int|
                0 <= j < first ==> (#[trigger] interfaces[j]).name@ != interfaces[i].name@;
        if named < first {
            assert(interfaces[named].name@ != interfaces[i].name@);
        }
        if first < named {
            assert(interfaces[first].name@ != interfaces[i].name@);
        }
    }
    if is_usable(interfaces, up, ipv4, ipv6, i) {
        assert(interfaces[named].name@ == interfaces[i].name@);
    }
}

/// Every entry that can be used is listed, in the order of the entries, with its
/// own address, prefix, index and name; no other one is.
pub proof fn law_every_usable_entry_is_listed(
    interfaces: Seq<Interface>,
    up: Seq<bool>,
    ipv4: bool,
    ipv6: bool,
    n: int,
)
    requires
        0 <= n <= interfaces.len(),
    ensures
        usable_addresses(interfaces, up, ipv4, ipv6, n).len() == entries_in_use(
            interfaces,
            up,
            ipv4,
            ipv6,
            n,
        ),
        forall|i: int|
            0 <= i < n && #[trigger] can_be_used(interfaces, up, ipv4, ipv6, i) ==> {
                let at = entries_in_use(interfaces, up, ipv4, ipv6, i);
                let data = usable_addresses(interfaces, up, ipv4, ipv6, n)[at];
                &&& 0 <= at < usable_addresses(interfaces, up, ipv4, ipv6, n).len()
                &&& data.address == interfaces[i].address
                &&& data.subnet.prefix == interfaces[i].address
                &&& data.subnet.prefix_length == interfaces[i].prefix_length
                &&& interfaces[i].index matches Some(index) && data.index == index
                &&& data.name == interfaces[i].name
                &&& !data.supports_multicast
            },
    decreases n,
{
    if n > 0 {
        law_every_usable_entry_is_listed(interfaces, up, ipv4, ipv6, n - 1);
        lemma_can_be_used(interfaces, up, ipv4, ipv6, n - 1);
    }
}

/// The loopbacks stand for the enabled families, one each: `127.0.0.1` in
/// `127.0.0.0/8` and `::1` in `::1/128`, IPv4 first.
pub proof fn law_loopbacks_are_of_enabled_families(addresses: Seq<IpData>, ipv4: bool, ipv6: bool)
    requires
        are_loopbacks(addresses, ipv4, ipv6),
    ensures
        !ipv4 && !ipv6 <==> addresses.len() == 0,
        ipv4 && ipv6 <==> addresses.len() == 2,
        ipv4 ==> addresses[0].address == IpAddr::V4(0x7f00_0001) && addresses[0].subnet.prefix
            == IpAddr::V4(0x7f00_0000) && addresses[0].subnet.prefix_length == 8,
        ipv6 ==> addresses.last().address == IpAddr::V6(1) && addresses.last().subnet.prefix
            == IpAddr::V6(1) && addresses.last().subnet.prefix_length == 128,
        forall|i: int|
            0 <= i < addresses.len() ==> (#[trigger] addresses[i]).address.spec_is_loopback()
                && addresses[i].index == 0 && addresses[i].name@ == "lo"@,
{
}

/// An interface that does not run is down, whatever its flags; one that runs is
/// up where its flags cannot be read, and otherwise just where they are odd,
/// which their last hexadecimal digit shows. A `0x` ahead of the digits makes
/// no difference.
pub proof fn law_running_interface_is_up_by_its_lowest_flag(flags: Option<String>, digits: String, prefixed: String)
    requires
        text::is_numeral(digits@, 16),
        text::numeral_value(digits@, 16) <= u32::MAX,
        digits@.len() < 2 || digits@[1] != 'x',
        prefixed@ == seq!['0', 'x'] + digits@,
    ensures
        !spec_is_up(false, flags),
        spec_is_up(true, None),
        flags matches Some(text) && flags_of(text@) is None ==> spec_is_up(true, flags),
        spec_is_up(true, Some(digits)) <==> text::digit(digits@.last()) % 2 == 1,
        spec_is_up(true, Some(prefixed)) <==> text::digit(digits@.last()) % 2 == 1,
{
    let value = text::numeral_value(digits@, 16);
    assert(value == text::numeral_value(digits@.drop_last(), 16) * 16 + text::digit(digits@.last()));
    assert(text::digit(digits@[0]) < 16);
    assert(text::digit(digits@[digits@.len() - 1]) < 16);
    assert(!text::is_white_space(digits@[0]) && !text::is_white_space(digits@.last()));
    assert(text::trim_white(digits@) == digits@);
    assert(prefixed@[0] == '0' && prefixed@[1] == 'x' && prefixed@.last() == digits@.last());
    assert(text::trim_white(prefixed@) == prefixed@);
    assert(prefixed@.skip(2) =~= digits@);
    assert(without_hex_prefixes(digits@) == digits@);
    assert(without_hex_prefixes(prefixed@) == digits@);
    assert(digits@[0] != '+');
}

/// Where entries can be used, just these are given; where none can, or nothing
/// could be listed, the loopbacks of the enabled families stand in. Nothing is
/// given only where no family is enabled.
pub proof fn law_loopbacks_stand_in_for_nothing(
    addresses: Seq<IpData>,
    listed: Option<Seq<Interface>>,
    up: Seq<bool>,
    ipv4: bool,
    ipv6: bool,
)
    requires
        are_enumerated(addresses, listed, up, ipv4, ipv6),
    ensures
        addresses.len() == 0 ==> !ipv4 && !ipv6,
        listed matches Some(interfaces) ==> {
            let count = entries_in_use(interfaces, up, ipv4, ipv6, interfaces.len() as int);
            if count > 0 {
                addresses.len() == count && addresses == usable_addresses(
                    interfaces,
                    up,
                    ipv4,
                    ipv6,
                    interfaces.len() as int,
                )
            } else {
                are_loopbacks(addresses, ipv4, ipv6)
            }
        },
        listed is None ==> are_loopbacks(addresses, ipv4, ipv6),
{
    if let Some(interfaces) = listed {
        law_every_usable_entry_is_listed(interfaces, up, ipv4, ipv6, interfaces.len() as int);
    }
}

} // verus!
