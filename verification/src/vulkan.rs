//! GPU device pinning. The recogniser selects a device by enumeration index and will
//! silently run on the wrong one if not pinned, so a configured PCI address is resolved
//! to that index and the loaded device's name is checked.

use vstd::prelude::*;
use vstd::utf8::{encode_utf8, is_char_boundary};
use crate::text::{
    chars_of, contains_chars, has_infix, has_prefix, parse_uint, parse_uint_chars, skip_ws_from,
    slice_chars, split_chars, split_on, starts_with, string_from_chars, trim, trim_chars,
    trim_start,
};

verus! {

/// A PCI address such as `0000:03:00.0`: `domain:bus:device.function`, each field
/// hexadecimal.
#[derive(Debug, Clone, Copy, PartialEq, Eq, Structural)]
pub struct PciAddress {
    pub domain: u16,
    pub bus: u8,
    pub device: u8,
    pub function: u8,
}

/// Why a PCI address string could not be parsed.
#[derive(Debug, Clone, PartialEq, Eq)]
pub enum PciParseError {
    /// The string was not a well-formed `domain:bus:device.function` address.
    Malformed(String),
}

/// The index of the last `c` in `s`, or -1 when there is none.
pub open spec fn last_index_of(s: Seq<char>, c: char) -> int
    decreases s.len(),
{
    if s.len() == 0 {
        -1
    } else if s.last() == c {
        s.len() - 1
    } else {
        last_index_of(s.drop_last(), c)
    }
}

/// The address `s` names: split at its last `.` into `domain:bus:device` and the
/// function; exactly three `:`-separated fields; each field a hexadecimal numeral (as
/// `from_str_radix` reads it) that fits its width.
pub open spec fn pci_of(s: Seq<char>) -> Option<PciAddress> {
    let k = last_index_of(s, '.');
    if k < 0 {
        None
    } else {
        let fs = split_on(s.subrange(0, k), ':');
        let func = s.subrange(k + 1, s.len() as int);
        if fs.len() != 3 {
            None
        } else {
            match (
                parse_uint(fs[0], 16, 0xffff),
                parse_uint(fs[1], 16, 0xff),
                parse_uint(fs[2], 16, 0xff),
                parse_uint(func, 16, 0xff),
            ) {
                (Some(d), Some(b), Some(v), Some(f)) => Some(
                    PciAddress { domain: d as u16, bus: b as u8, device: v as u8, function: f as u8 },
                ),
                _ => None,
            }
        }
    }
}

/// The index of the last `c` in `s`.
fn find_last(s: &[char], c: char) -> (r: Option<usize>)
    ensures
        r matches Some(i) ==> last_index_of(s@, c) == i && i < s@.len(),
        r is None ==> last_index_of(s@, c) == -1,
{
    let mut j: usize = s.len();
    assert(s@.subrange(0, j as int) =~= s@);
    while j > 0
        invariant
            j <= s@.len(),
            last_index_of(s@, c) == last_index_of(s@.subrange(0, j as int), c),
        decreases j,
    {
        if s[j - 1] == c {
            return Some(j - 1);
        }
        assert(s@.subrange(0, j as int).drop_last() =~= s@.subrange(0, j - 1));
        j -= 1;
    }
    None
}

impl PciAddress {
    /// Parse a `domain:bus:device.function` address such as `0000:03:00.0`.
    pub fn parse(s: &str) -> (r: Result<PciAddress, PciParseError>)
        ensures
            r matches Ok(a) ==> pci_of(s@) == Some(a),
            r matches Err(PciParseError::Malformed(m)) ==> pci_of(s@) is None && m@ == s@,
    {
        let cs = chars_of(s);
        let n = cs.len();
        let k = match find_last(&cs, '.') {
            Some(k) => k,
            None => return Err(PciParseError::Malformed(s.to_owned())),
        };
        let head = slice_chars(&cs, 0, k);
        let func = slice_chars(&cs, k + 1, n);
        let fs = split_chars(&head, ':');
        if fs.len() != 3 {
            return Err(PciParseError::Malformed(s.to_owned()));
        }
        let d = parse_uint_chars(&fs[0], 16, 0xffff);
        let b = parse_uint_chars(&fs[1], 16, 0xff);
        let v = parse_uint_chars(&fs[2], 16, 0xff);
        let f = parse_uint_chars(&func, 16, 0xff);
        match (d, b, v, f) {
            (Some(d), Some(b), Some(v), Some(f)) => Ok(
                PciAddress { domain: d as u16, bus: b as u8, device: v as u8, function: f as u8 },
            ),
            _ => Err(PciParseError::Malformed(s.to_owned())),
        }
    }
}

/// One Vulkan device as enumerated by the driver: `index` selects it, `pci_address`
/// locates it.
#[derive(Debug, Clone, PartialEq, Eq)]
pub struct VulkanDevice {
    pub index: u32,
    pub name: String,
    pub pci_address: PciAddress,
}

/// Why a configured PCI address could not be resolved to a device.
#[derive(Debug, Clone, PartialEq, Eq, Structural)]
pub enum ResolveError {
    /// No enumerated device sits at the target PCI address.
    DeviceNotFound { target: PciAddress },
    /// More than one device claims the target address.
    AmbiguousMatch { target: PciAddress, count: usize },
}

/// The indices of the devices at `target`, in enumeration order.
pub open spec fn indices_at(devices: Seq<VulkanDevice>, target: PciAddress) -> Seq<u32>
    decreases devices.len(),
{
    if devices.len() == 0 {
        Seq::empty()
    } else if devices.last().pci_address == target {
        indices_at(devices.drop_last(), target).push(devices.last().index)
    } else {
        indices_at(devices.drop_last(), target)
    }
}

/// Resolve a configured PCI address to the enumeration index to pin: the one device at
/// it, or an error when none or several are there.
pub fn resolve_device_index(devices: &[VulkanDevice], target: PciAddress) -> (r: Result<
    u32,
    ResolveError,
>)
    ensures
        indices_at(devices@, target).len() == 0 ==> r == Err::<u32, ResolveError>(
            ResolveError::DeviceNotFound { target },
        ),
        indices_at(devices@, target).len() == 1 ==> r == Ok::<u32, ResolveError>(
            indices_at(devices@, target)[0],
        ),
        indices_at(devices@, target).len() > 1 ==> r == Err::<u32, ResolveError>(
            ResolveError::AmbiguousMatch { target, count: indices_at(devices@, target).len() as usize },
        ),
{
    let mut found: Vec<u32> = Vec::new();
    let mut i: usize = 0;
    while i < devices.len()
        invariant
            i <= devices@.len(),
            found@ == indices_at(devices@.subrange(0, i as int), target),
        decreases devices@.len() - i,
    {
        assert(devices@.subrange(0, i + 1).drop_last() =~= devices@.subrange(0, i as int));
        if devices[i].pci_address == target {
            found.push(devices[i].index);
        }
        i += 1;
    }
    assert(devices@.subrange(0, devices@.len() as int) =~= devices@);
    if found.len() == 0 {
        Err(ResolveError::DeviceNotFound { target })
    } else if found.len() == 1 {
        Ok(found[0])
    } else {
        Err(ResolveError::AmbiguousMatch { target, count: found.len() })
    }
}

/// The loaded device's reported name did not contain the expected fragment.
#[derive(Debug, Clone, PartialEq, Eq)]
pub struct DeviceNameMismatch {
    pub expected_contains: String,
    pub loaded_name: String,
}

/// What `str::to_lowercase` makes of `s`: the full Unicode lowercase mapping.
pub uninterp spec fn unicode_lowercase(s: Seq<char>) -> Seq<char>;

/// `str::to_lowercase` from std. Its result is named: it equals `unicode_lowercase` of
/// the argument's characters, a mapping fixed by the Unicode tables, which this crate
/// does not restate.
#[verifier::external_body]
fn to_lowercase(s: &str) -> (r: String)
    ensures
        r@ == unicode_lowercase(s@),
{
    s.to_lowercase()
}

/// The name check on already-lowercased texts: `Ok` when the lowered name holds the
/// lowered fragment, else the mismatch carrying both texts as given.
pub fn check_lowered_name(
    loaded_lower: &str,
    expected_lower: &str,
    loaded_name: &str,
    expected_contains: &str,
) -> (r: Result<(), DeviceNameMismatch>)
    ensures
        r is Ok <==> has_infix(loaded_lower@, expected_lower@),
        r matches Err(e) ==> e.expected_contains@ == expected_contains@ && e.loaded_name@
            == loaded_name@,
{
    let hay = chars_of(loaded_lower);
    let needle = chars_of(expected_lower);
    if contains_chars(&hay, &needle) {
        Ok(())
    } else {
        Err(
            DeviceNameMismatch {
                expected_contains: expected_contains.to_owned(),
                loaded_name: loaded_name.to_owned(),
            },
        )
    }
}

/// Verify that the loaded device's reported name contains the expected fragment,
/// ignoring case (Unicode lowercase on both sides).
pub fn verify_device_name(loaded_name: &str, expected_contains: &str) -> (r: Result<
    (),
    DeviceNameMismatch,
>)
    ensures
        r is Ok <==> has_infix(unicode_lowercase(loaded_name@), unicode_lowercase(expected_contains@)),
        r matches Err(e) ==> e.expected_contains@ == expected_contains@ && e.loaded_name@
            == loaded_name@,
{
    let loaded_lower = to_lowercase(loaded_name);
    let expected_lower = to_lowercase(expected_contains);
    check_lowered_name(loaded_lower.as_str(), expected_lower.as_str(), loaded_name, expected_contains)
}

/// The value of a `key  = value` line: `key`, optional whitespace, `=`, and the rest
/// trimmed.
pub open spec fn field_value(line: Seq<char>, key: Seq<char>) -> Option<Seq<char>> {
    if has_prefix(line, key) {
        let rest = trim_start(line.subrange(key.len() as int, line.len() as int));
        if rest.len() > 0 && rest[0] == '=' {
            Some(trim(rest.drop_first()))
        } else {
            None
        }
    } else {
        None
    }
}

/// The value of a `key  = value` line.
fn field(line: &[char], key: &str) -> (r: Option<Vec<char>>)
    ensures
        r matches Some(v) ==> field_value(line@, key@) == Some(v@),
        r is None ==> field_value(line@, key@) is None,
{
    let k = chars_of(key);
    if !starts_with(line, &k) {
        return None;
    }
    let i = skip_ws_from(line, k.len());
    let rest = slice_chars(line, i, line.len());
    if rest.len() > 0 && rest[0] == '=' {
        let after = slice_chars(&rest, 1, rest.len());
        assert(after@ =~= rest@.drop_first());
        Some(trim_chars(&after))
    } else {
        None
    }
}

/// The base-16 value of the bytes `b` as `from_str_radix` reads them: no larger than
/// `max`, and only ASCII bytes can be digits or the sign.
pub open spec fn hex_bytes_value(b: Seq<u8>, max: nat) -> Option<nat> {
    if forall|i: int| 0 <= i < b.len() ==> #[trigger] b[i] < 0x80 {
        parse_uint(b.map_values(|x: u8| x as char), 16, max)
    } else {
        None
    }
}

/// The base-16 value of the bytes `b`.
fn hex_bytes(b: &[u8], max: u64) -> (r: Option<u64>)
    ensures
        r matches Some(v) ==> hex_bytes_value(b@, max as nat) == Some(v as nat),
        r is None ==> hex_bytes_value(b@, max as nat) is None,
{
    let mut cs: Vec<char> = Vec::new();
    let mut i: usize = 0;
    while i < b.len()
        invariant
            i <= b@.len(),
            cs@ == b@.subrange(0, i as int).map_values(|x: u8| x as char),
            forall|k: int| 0 <= k < i ==> #[trigger] b@[k] < 0x80,
        decreases b@.len() - i,
    {
        if b[i] >= 0x80 {
            return None;
        }
        cs.push(b[i] as char);
        assert(cs@ =~= b@.subrange(0, i + 1).map_values(|x: u8| x as char));
        i += 1;
    }
    assert(b@.subrange(0, b@.len() as int) =~= b@);
    parse_uint_chars(&cs, 16, max)
}

/// The PCI address a RADV `deviceUUID` encodes: its second `-`-separated group starts
/// with the bus and device bytes as hex (`BBDD`), read bytewise.
pub open spec fn pci_of_uuid(uuid: Seq<char>) -> Option<PciAddress> {
    let groups = split_on(uuid, '-');
    if groups.len() < 2 {
        None
    } else {
        let b = encode_utf8(groups[1]);
        if b.len() < 4 {
            None
        } else {
            match (hex_bytes_value(b.subrange(0, 2), 0xff), hex_bytes_value(b.subrange(2, 4), 0xff)) {
                (Some(bus), Some(device)) => Some(
                    PciAddress { domain: 0, bus: bus as u8, device: device as u8, function: 0 },
                ),
                _ => None,
            }
        }
    }
}

/// Whether the byte offsets 2 and 4 of a `deviceUUID`'s second group fall on character
/// boundaries, as slicing the group there requires.
pub open spec fn uuid_sliceable(uuid: Seq<char>) -> bool {
    let groups = split_on(uuid, '-');
    groups.len() < 2 || encode_utf8(groups[1]).len() < 4 || (is_char_boundary(
        encode_utf8(groups[1]),
        2,
    ) && is_char_boundary(encode_utf8(groups[1]), 4))
}

/// Derive the PCI address from a RADV `deviceUUID`.
fn pci_from_uuid(uuid: &[char]) -> (r: Option<PciAddress>)
    ensures
        r == pci_of_uuid(uuid@),
{
    let groups = split_chars(uuid, '-');
    if groups.len() < 2 {
        return None;
    }
    let group = string_from_chars(&groups[1]);
    let b = group.as_str().as_bytes();
    if b.len() < 4 {
        return None;
    }
    let bus = hex_bytes(vstd::slice::slice_subrange(b, 0, 2), 0xff);
    let device = hex_bytes(vstd::slice::slice_subrange(b, 2, 4), 0xff);
    match (bus, device) {
        (Some(bus), Some(device)) => Some(
            PciAddress { domain: 0, bus: bus as u8, device: device as u8, function: 0 },
        ),
        _ => None,
    }
}

/// The `deviceName` (`.0`) and `deviceUUID` (`.1`) values of `lines`, in order; each
/// line is trimmed, and a line naming a device is not read as a UUID.
pub open spec fn device_fields(lines: Seq<Seq<char>>) -> (Seq<Seq<char>>, Seq<Seq<char>>)
    decreases lines.len(),
{
    if lines.len() == 0 {
        (Seq::empty(), Seq::empty())
    } else {
        let (names, uuids) = device_fields(lines.drop_last());
        let line = trim(lines.last());
        match field_value(line, "deviceName"@) {
            Some(v) => (names.push(v), uuids),
            None => match field_value(line, "deviceUUID"@) {
                Some(v) => (names, uuids.push(v)),
                None => (names, uuids),
            },
        }
    }
}

/// A device as its index, the characters of its name and its address.
pub open spec fn device_view(d: VulkanDevice) -> (u32, Seq<char>, PciAddress) {
    (d.index, d.name@, d.pci_address)
}

/// The devices of the first `n` name/UUID pairs: the `i`-th name paired with the `i`-th
/// UUID, index `i`, kept when the UUID yields an address.
pub open spec fn paired_devices(names: Seq<Seq<char>>, uuids: Seq<Seq<char>>, n: int) -> Seq<
    (u32, Seq<char>, PciAddress),
>
    decreases n,
{
    if n <= 0 {
        Seq::empty()
    } else {
        let before = paired_devices(names, uuids, n - 1);
        match pci_of_uuid(uuids[n - 1]) {
            Some(p) => before.push(((n - 1) as u32, names[n - 1], p)),
            None => before,
        }
    }
}

/// The number of name/UUID pairs.
pub open spec fn pair_count(f: (Seq<Seq<char>>, Seq<Seq<char>>)) -> int {
    if f.0.len() <= f.1.len() {
        f.0.len() as int
    } else {
        f.1.len() as int
    }
}

/// The devices `vulkaninfo` output lists: lines are split on `\n` (each line is trimmed,
/// so this reads as `str::lines` does), names and UUIDs are paired in order, and each
/// pair whose UUID encodes an address becomes a device with its pair's index.
pub open spec fn vulkaninfo_devices(output: Seq<char>) -> Seq<(u32, Seq<char>, PciAddress)> {
    let f = device_fields(split_on(output, '\n'));
    paired_devices(f.0, f.1, pair_count(f))
}

/// Parse `vulkaninfo` output into the ordered device list.
pub fn parse_vulkaninfo(output: &str) -> (devices: Vec<VulkanDevice>)
    requires
        forall|i: int|
            0 <= i < pair_count(device_fields(split_on(output@, '\n'))) ==> uuid_sliceable(
                #[trigger] device_fields(split_on(output@, '\n')).1[i],
            ),
    ensures
        devices@.map_values(|d: VulkanDevice| device_view(d)) == vulkaninfo_devices(output@),
{
    let cs = chars_of(output);
    let lines = split_chars(&cs, '\n');
    let ghost lv = split_on(output@, '\n');
    let mut names: Vec<Vec<char>> = Vec::new();
    let mut uuids: Vec<Vec<char>> = Vec::new();
    let mut i: usize = 0;
    while i < lines.len()
        invariant
            i <= lines@.len(),
            lines@.len() == lv.len(),
            forall|k: int| 0 <= k < lines@.len() ==> #[trigger] lines@[k]@ == lv[k],
            names@.map_values(|w: Vec<char>| w@) == device_fields(lv.subrange(0, i as int)).0,
            uuids@.map_values(|w: Vec<char>| w@) == device_fields(lv.subrange(0, i as int)).1,
        decreases lines@.len() - i,
    {
        assert(lv.subrange(0, i + 1).drop_last() =~= lv.subrange(0, i as int));
        let line = trim_chars(&lines[i]);
        match field(&line, "deviceName") {
            Some(v) => {
                names.push(v);
            },
            None => match field(&line, "deviceUUID") {
                Some(v) => {
                    uuids.push(v);
                },
                None => {},
            },
        }
        assert(names@.map_values(|w: Vec<char>| w@) =~= device_fields(lv.subrange(0, i + 1)).0);
        assert(uuids@.map_values(|w: Vec<char>| w@) =~= device_fields(lv.subrange(0, i + 1)).1);
        i += 1;
    }
    assert(lv.subrange(0, lines@.len() as int) =~= lv);
    let ghost nv = names@.map_values(|w: Vec<char>| w@);
    let ghost uv = uuids@.map_values(|w: Vec<char>| w@);
    let n = if names.len() <= uuids.len() {
        names.len()
    } else {
        uuids.len()
    };
    let mut devices: Vec<VulkanDevice> = Vec::new();
    let mut j: usize = 0;
    while j < n
        invariant
            j <= n,
            n == pair_count((nv, uv)),
            n <= names@.len(),
            n <= uuids@.len(),
            nv == names@.map_values(|w: Vec<char>| w@),
            uv == uuids@.map_values(|w: Vec<char>| w@),
            devices@.map_values(|d: VulkanDevice| device_view(d)) == paired_devices(
                nv,
                uv,
                j as int,
            ),
        decreases n - j,
    {
        assert(uv[j as int] == uuids@[j as int]@);
        assert(nv[j as int] == names@[j as int]@);
        match pci_from_uuid(&uuids[j]) {
            Some(p) => {
                devices.push(
                    VulkanDevice { index: j as u32, name: string_from_chars(&names[j]), pci_address: p },
                );
            },
            None => {},
        }
        assert(devices@.map_values(|d: VulkanDevice| device_view(d)) =~= paired_devices(
            nv,
            uv,
            j + 1,
        ));
        j += 1;
    }
    devices
}

/// Whether a `deviceUUID` value can be sliced as parsing it requires.
fn uuid_sliceable_exec(uuid: &[char]) -> (b: bool)
    ensures
        b == uuid_sliceable(uuid@),
{
    let groups = split_chars(uuid, '-');
    if groups.len() < 2 {
        return true;
    }
    let group = string_from_chars(&groups[1]);
    let g = group.as_str();
    if g.as_bytes().len() < 4 {
        return true;
    }
    g.is_char_boundary(2) && g.is_char_boundary(4)
}

/// Whether every paired `deviceUUID` of `vulkaninfo` output can be sliced as parsing
/// it requires, so that [`parse_vulkaninfo`] may be called on it.
pub fn vulkaninfo_sliceable(output: &str) -> (b: bool)
    ensures
        b == forall|i: int|
            0 <= i < pair_count(device_fields(split_on(output@, '\n'))) ==> uuid_sliceable(
                #[trigger] device_fields(split_on(output@, '\n')).1[i],
            ),
{
    let cs = chars_of(output);
    let lines = split_chars(&cs, '\n');
    let ghost lv = split_on(output@, '\n');
    let mut names: usize = 0;
    let mut uuids: Vec<Vec<char>> = Vec::new();
    let mut i: usize = 0;
    while i < lines.len()
        invariant
            i <= lines@.len(),
            lines@.len() == lv.len(),
            forall|k: int| 0 <= k < lines@.len() ==> #[trigger] lines@[k]@ == lv[k],
            names == device_fields(lv.subrange(0, i as int)).0.len(),
            names <= i,
            uuids@.map_values(|w: Vec<char>| w@) == device_fields(lv.subrange(0, i as int)).1,
        decreases lines@.len() - i,
    {
        assert(lv.subrange(0, i + 1).drop_last() =~= lv.subrange(0, i as int));
        let line = trim_chars(&lines[i]);
        match field(&line, "deviceName") {
            Some(_) => {
                names += 1;
            },
            None => match field(&line, "deviceUUID") {
                Some(v) => {
                    uuids.push(v);
                },
                None => {},
            },
        }
        assert(uuids@.map_values(|w: Vec<char>| w@) =~= device_fields(lv.subrange(0, i + 1)).1);
        i += 1;
    }
    assert(lv.subrange(0, lines@.len() as int) =~= lv);
    let ghost uv = uuids@.map_values(|w: Vec<char>| w@);
    let n = if names <= uuids.len() {
        names
    } else {
        uuids.len()
    };
    let mut j: usize = 0;
    while j < n
        invariant
            j <= n,
            n <= uuids@.len(),
            lv == split_on(output@, '\n'),
            n == pair_count(device_fields(lv)),
            uv == device_fields(lv).1,
            uv == uuids@.map_values(|w: Vec<char>| w@),
            forall|k: int| 0 <= k < j ==> uuid_sliceable(#[trigger] uv[k]),
        decreases n - j,
    {
        assert(uv[j as int] == uuids@[j as int]@);
        if !uuid_sliceable_exec(&uuids[j]) {
            return false;
        }
        j += 1;
    }
    true
}

} // verus!
