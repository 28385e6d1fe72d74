//! Apple Silicon battery fields that the cross-platform battery reader does
//! not expose: decoded from the `AppleSmartBattery` registry entry (the plist
//! that `ioreg -a -r -c AppleSmartBattery` prints) and from the `Cycles=N/M`
//! field of `pmset -g rawbatt`.

use vstd::prelude::*;

use vstd::utf8::{decode_utf8, valid_utf8};
use crate::plist_model::{decode_plist, plist_document, plist_error_text, PlistValue};
use crate::text::{push_char, push_signed, push_str, signed_decimal, str_eq};

verus! {

/// Apple's CFAbsoluteTime epoch, 2001-01-01 00:00:00 UTC, in Unix seconds.
pub const CF_EPOCH_UNIX_SECONDS: u64 = 978_307_200;

// ---------------------------------------------------------------------------
// Reading the property list

/// The value stored under `key` in dictionary entries (the first entry with
/// that key; keys of a dictionary are distinct).
pub open spec fn entry_lookup(entries: Seq<(String, PlistValue)>, key: Seq<char>) -> Option<PlistValue>
    decreases entries.len(),
{
    if entries.len() == 0 {
        None
    } else if entries[0].0@ == key {
        Some(entries[0].1)
    } else {
        entry_lookup(entries.drop_first(), key)
    }
}

/// `v.and_then(Value::as_dictionary).and_then(|d| d.get(key))`.
pub open spec fn dict_get(v: Option<PlistValue>, key: Seq<char>) -> Option<PlistValue> {
    match v {
        Some(PlistValue::Dictionary(entries)) => entry_lookup(entries@, key),
        _ => None,
    }
}

/// `v.and_then(Value::as_signed_integer)`.
pub open spec fn signed_integer(v: Option<PlistValue>) -> Option<i64> {
    match v {
        Some(PlistValue::Integer(i)) => i,
        _ => None,
    }
}

/// `v.and_then(Value::as_data)`.
pub open spec fn data_bytes(v: Option<PlistValue>) -> Option<Seq<u8>> {
    match v {
        Some(PlistValue::Data(b)) => Some(b@),
        _ => None,
    }
}

/// The registry entry of the first battery: the first element of the
/// document's top-level array, when that element is a dictionary.
pub open spec fn first_entry(root: PlistValue) -> Option<PlistValue> {
    match root {
        PlistValue::Array(items) => if items@.len() > 0 && items@[0] is Dictionary {
            Some(items@[0])
        } else {
            None
        },
        _ => None,
    }
}

/// The value behind an optional reference.
pub open spec fn owned(v: Option<&PlistValue>) -> Option<PlistValue> {
    match v {
        Some(p) => Some(*p),
        None => None,
    }
}

fn lookup<'a>(entries: &'a Vec<(String, PlistValue)>, key: &str) -> (r: Option<&'a PlistValue>)
    ensures
        match r {
            Some(v) => entry_lookup(entries@, key@) == Some(*v),
            None => entry_lookup(entries@, key@) is None,
        },
{
    let mut i: usize = 0;
    assert(entries@.skip(0) =~= entries@);
    while i < entries.len()
        invariant
            i <= entries@.len(),
            entry_lookup(entries@, key@) == entry_lookup(entries@.skip(i as int), key@),
        decreases entries@.len() - i,
    {
        let ghost rest = entries@.skip(i as int);
        assert(rest.drop_first() =~= entries@.skip(i + 1));
        if str_eq(entries[i].0.as_str(), key) {
            return Some(&entries[i].1);
        }
        i += 1;
    }
    None
}

fn get<'a>(v: Option<&'a PlistValue>, key: &str) -> (r: Option<&'a PlistValue>)
    ensures
        match r {
            Some(x) => dict_get(owned(v), key@) == Some(*x),
            None => dict_get(owned(v), key@) is None,
        },
{
    match v {
        Some(PlistValue::Dictionary(entries)) => lookup(entries, key),
        _ => None,
    }
}

fn as_signed_integer(v: Option<&PlistValue>) -> (r: Option<i64>)
    ensures
        r == signed_integer(owned(v)),
{
    match v {
        Some(PlistValue::Integer(i)) => *i,
        _ => None,
    }
}

fn as_data(v: Option<&PlistValue>) -> (r: Option<&Vec<u8>>)
    ensures
        match r {
            Some(b) => data_bytes(owned(v)) == Some(b@),
            None => data_bytes(owned(v)) is None,
        },
{
    match v {
        Some(PlistValue::Data(b)) => Some(b),
        _ => None,
    }
}

} // verus!

verus! {

// ---------------------------------------------------------------------------
// ManufacturerData

/// A printable ASCII character other than space (`char::is_ascii_graphic`).
pub open spec fn is_graphic(b: u8) -> bool {
    0x21 <= b <= 0x7e
}

/// The two-character code stored in bytes `start` and `start + 1`, read as
/// ASCII; `None` when the bytes are missing or one of them is not graphic.
pub open spec fn pair_code(bytes: Seq<u8>, start: int) -> Option<Seq<char>> {
    if start + 2 <= bytes.len() && is_graphic(bytes[start]) && is_graphic(bytes[start + 1]) {
        Some(seq![bytes[start] as char, bytes[start + 1] as char])
    } else {
        None
    }
}

/// Length of the prefix of `bytes` before the first zero byte.
pub open spec fn nul_prefix_len(bytes: Seq<u8>) -> nat
    decreases bytes.len(),
{
    if bytes.len() == 0 || bytes[0] == 0 {
        0
    } else {
        1 + nul_prefix_len(bytes.drop_first())
    }
}

/// The bytes before the first zero byte, each read as the character with the
/// same code (Latin-1).
pub open spec fn nul_terminated_text(bytes: Seq<u8>) -> Seq<char> {
    bytes.take(nul_prefix_len(bytes) as int).map_values(|c: u8| c as char)
}

fn decode_pair(bytes: Option<&Vec<u8>>, start: usize) -> (r: Option<String>)
    requires
        start <= 8,
    ensures
        match bytes {
            Some(b) => r.deep_view() == pair_code(b@, start as int),
            None => r is None,
        },
{
    match bytes {
        Some(b) => {
            if start + 2 <= b.len() {
                let c0 = b[start];
                let c1 = b[start + 1];
                if 0x21 <= c0 && c0 <= 0x7e && 0x21 <= c1 && c1 <= 0x7e {
                    let mut s = String::new();
                    push_char(&mut s, c0 as char);
                    push_char(&mut s, c1 as char);
                    assert(s@ =~= seq![c0 as char, c1 as char]);
                    Some(s)
                } else {
                    None
                }
            } else {
                None
            }
        },
        None => None,
    }
}

proof fn lemma_nul_prefix(bytes: Seq<u8>, i: int)
    requires
        0 <= i <= bytes.len(),
        forall|j: int| 0 <= j < i ==> bytes[j] != 0,
    ensures
        i <= nul_prefix_len(bytes),
        i < bytes.len() && bytes[i] == 0 ==> nul_prefix_len(bytes) == i,
    decreases i,
{
    if i > 0 {
        lemma_nul_prefix(bytes.drop_first(), i - 1);
    }
}

proof fn lemma_nul_prefix_bound(bytes: Seq<u8>)
    ensures
        nul_prefix_len(bytes) <= bytes.len(),
    decreases bytes.len(),
{
    if bytes.len() > 0 && bytes[0] != 0 {
        lemma_nul_prefix_bound(bytes.drop_first());
    }
}

fn nul_terminated_string(bytes: &Vec<u8>) -> (r: String)
    ensures
        r@ == nul_terminated_text(bytes@),
{
    let mut s = String::new();
    let mut i: usize = 0;
    while i < bytes.len() && bytes[i] != 0
        invariant
            i <= bytes@.len(),
            forall|j: int| 0 <= j < i ==> bytes@[j] != 0,
            s@ =~= bytes@.take(i as int).map_values(|c: u8| c as char),
        decreases bytes@.len() - i,
    {
        push_char(&mut s, bytes[i] as char);
        i += 1;
        assert(s@ =~= bytes@.take(i as int).map_values(|c: u8| c as char));
    }
    proof {
        lemma_nul_prefix(bytes@, i as int);
        lemma_nul_prefix_bound(bytes@);
    }
    s
}

// ---------------------------------------------------------------------------
// Supplier codes

/// Number of entries of the supplier-code table.
pub open spec fn supplier_count() -> int {
    7
}

/// Code of entry `i` of the community-attested supplier-code table.
///
/// The table is defensive: on Apple Silicon no public IOKit field holds the
/// supplier code, so a match is rare. It is not exhaustive.
pub open spec fn supplier_code(i: int) -> Seq<char> {
    if i == 0 {
        "SMP"@
    } else if i == 1 {
        "SWD"@
    } else if i == 2 {
        "DSY"@
    } else if i == 3 {
        "ATL"@
    } else if i == 4 {
        "NVT"@
    } else if i == 5 {
        "LGC"@
    } else {
        "DP"@
    }
}

/// Supplier name of entry `i` of the table.
pub open spec fn supplier_name(i: int) -> Seq<char> {
    if i == 0 {
        "Simplo Technology"@
    } else if i == 1 {
        "Sunwoda Electronic"@
    } else if i == 2 {
        "Desay Battery"@
    } else if i == 3 {
        "Amperex Technology"@
    } else if i == 4 {
        "Navitas/CosMX"@
    } else if i == 5 {
        "LG Chem"@
    } else {
        "Dynapack International"@
    }
}

/// `p` occurs in `s` starting at position `i`.
pub open spec fn occurs_at(s: Seq<char>, p: Seq<char>, i: int) -> bool {
    0 <= i && i + p.len() <= s.len() && s.subrange(i, i + p.len()) == p
}

/// A code of at most two characters must start the text; a longer code may
/// stand anywhere in it.
pub open spec fn code_matches(code: Seq<char>, text: Seq<char>) -> bool {
    if code.len() <= 2 {
        occurs_at(text, code, 0)
    } else {
        exists|i: int| occurs_at(text, code, i)
    }
}

/// The supplier of the first table entry, from entry `i` on, whose code
/// matches the text.
pub open spec fn vendor_lookup_from(text: Seq<char>, i: int) -> Option<Seq<char>>
    decreases supplier_count() - i,
{
    if i < 0 || i >= supplier_count() {
        None
    } else if code_matches(supplier_code(i), text) {
        Some(supplier_name(i))
    } else {
        vendor_lookup_from(text, i + 1)
    }
}

/// The supplier of the first table entry whose code matches the text.
pub open spec fn vendor_lookup(text: Seq<char>) -> Option<Seq<char>> {
    vendor_lookup_from(text, 0)
}

/// `p` occurs in `s` at `i` exactly when every character of `p` stands at
/// its place in `s` from `i` on.
pub proof fn lemma_occurs_at_chars(s: Seq<char>, p: Seq<char>, i: int)
    ensures
        occurs_at(s, p, i) <==> (0 <= i && i + p.len() <= s.len() && forall|j: int|
            0 <= j < p.len() ==> s[i + j] == p[j]),
{
    if 0 <= i && i + p.len() <= s.len() {
        if forall|j: int| 0 <= j < p.len() ==> s[i + j] == p[j] {
            assert(s.subrange(i, i + p.len()) =~= p);
        }
        if s.subrange(i, i + p.len()) == p {
            assert forall|j: int| 0 <= j < p.len() implies s[i + j] == p[j] by {
                assert(s.subrange(i, i + p.len())[j] == s[i + j]);
            }
        }
    }
}

proof fn lemma_lookup_from_found(text: Seq<char>, m: int, name: Seq<char>) -> (k: int)
    requires
        vendor_lookup_from(text, m) == Some(name),
    ensures
        m <= k < supplier_count(),
        0 <= k,
        name == supplier_name(k),
        code_matches(supplier_code(k), text),
    decreases supplier_count() - m,
{
    if code_matches(supplier_code(m), text) {
        m
    } else {
        lemma_lookup_from_found(text, m + 1, name)
    }
}

proof fn lemma_lookup_from_some(text: Seq<char>, m: int, k: int)
    requires
        0 <= m <= k < supplier_count(),
        code_matches(supplier_code(k), text),
    ensures
        exists|k2: int| m <= k2 <= k && vendor_lookup_from(text, m) == Some(#[trigger] supplier_name(k2)),
    decreases k - m,
{
    if m < k && !code_matches(supplier_code(m), text) {
        lemma_lookup_from_some(text, m + 1, k);
    } else {
        assert(vendor_lookup_from(text, m) == Some(supplier_name(m)));
    }
}

/// A supplier is named only where the whole of its code stands in the text,
/// character by character: at the very start for a code of two characters,
/// at some position for a longer one.
pub proof fn lemma_vendor_needs_whole_code(text: Seq<char>, name: Seq<char>)
    requires
        vendor_lookup(text) == Some(name),
    ensures
        exists|k: int, i: int|
            #![trigger supplier_name(k), text.skip(i)]
            0 <= k < supplier_count() && name == supplier_name(k) && 0 <= i <= text.len() && (
            supplier_code(k).len() <= 2 ==> i == 0) && supplier_code(k).len() <= text.skip(i).len()
                && forall|j: int|
                0 <= j < supplier_code(k).len() ==> text[i + j] == supplier_code(k)[j],
{
    let k = lemma_lookup_from_found(text, 0, name);
    let code = supplier_code(k);
    let i: int = if code.len() <= 2 {
        0
    } else {
        choose|i: int| occurs_at(text, code, i)
    };
    lemma_occurs_at_chars(text, code, i);
    assert(code.len() <= text.skip(i).len());
    assert(name == supplier_name(k));
}

/// Where the whole code of a table entry stands in the text (at the start for
/// a code of two characters, anywhere for a longer one), a supplier is named:
/// that entry's or one of an entry before it in the table.
pub proof fn lemma_vendor_found_with_whole_code(text: Seq<char>, k: int, i: int)
    requires
        0 <= k < supplier_count(),
        0 <= i,
        i + supplier_code(k).len() <= text.len(),
        supplier_code(k).len() <= 2 ==> i == 0,
        forall|j: int| 0 <= j < supplier_code(k).len() ==> text[i + j] == supplier_code(k)[j],
    ensures
        exists|k2: int| 0 <= k2 <= k && vendor_lookup(text) == Some(#[trigger] supplier_name(k2)),
{
    lemma_occurs_at_chars(text, supplier_code(k), i);
    assert(code_matches(supplier_code(k), text));
    lemma_lookup_from_some(text, 0, k);
}

fn supplier_entry(i: usize) -> (r: (&'static str, &'static str))
    requires
        i < 7,
    ensures
        r.0@ == supplier_code(i as int),
        r.1@ == supplier_name(i as int),
{
    if i == 0 {
        ("SMP", "Simplo Technology")
    } else if i == 1 {
        ("SWD", "Sunwoda Electronic")
    } else if i == 2 {
        ("DSY", "Desay Battery")
    } else if i == 3 {
        ("ATL", "Amperex Technology")
    } else if i == 4 {
        ("NVT", "Navitas/CosMX")
    } else if i == 5 {
        ("LGC", "LG Chem")
    } else {
        ("DP", "Dynapack International")
    }
}

fn occurs_at_exec(s: &str, s_len: usize, p: &str, p_len: usize, i: usize) -> (r: bool)
    requires
        s_len == s@.len(),
        p_len == p@.len(),
    ensures
        r == occurs_at(s@, p@, i as int),
{
    if i > s_len || p_len > s_len - i {
        return false;
    }
    let mut k: usize = 0;
    while k < p_len
        invariant
            i + p_len <= s_len,
            s_len == s@.len(),
            p_len == p@.len(),
            k <= p_len,
            forall|j: int| 0 <= j < k ==> s@[i + j] == p@[j],
        decreases p_len - k,
    {
        if s.get_char(i + k) != p.get_char(k) {
            assert(s@.subrange(i as int, i + p_len)[k as int] != p@[k as int]);
            return false;
        }
        k += 1;
    }
    assert(s@.subrange(i as int, i + p_len) =~= p@);
    true
}

fn code_matches_exec(code: &str, text: &str) -> (r: bool)
    ensures
        r == code_matches(code@, text@),
{
    let code_len = code.unicode_len();
    let text_len = text.unicode_len();
    if code_len <= 2 {
        occurs_at_exec(text, text_len, code, code_len, 0)
    } else {
        let mut i: usize = 0;
        while i < text_len
            invariant
                code_len == code@.len(),
                code_len > 2,
                text_len == text@.len(),
                i <= text_len,
                forall|j: int| 0 <= j < i ==> !occurs_at(text@, code@, j),
            decreases text_len - i,
        {
            if occurs_at_exec(text, text_len, code, code_len, i) {
                return true;
            }
            i += 1;
        }
        assert forall|j: int| !occurs_at(text@, code@, j) by {
            if 0 <= j && j + code@.len() <= text@.len() {
                assert(j < i);
            }
        }
        false
    }
}

/// The supplier whose code appears in the `ManufacturerData` text: the first
/// entry of the supplier table (in table order) whose code matches, where a
/// code of two characters must start the text and a longer one may appear
/// anywhere in it.
pub fn decode_vendor(mfg_data_ascii: &str) -> (r: Option<&'static str>)
    ensures
        match r {
            Some(name) => vendor_lookup(mfg_data_ascii@) == Some(name@),
            None => vendor_lookup(mfg_data_ascii@) is None,
        },
{
    let mut i: usize = 0;
    while i < 7
        invariant
            i <= 7,
            vendor_lookup(mfg_data_ascii@) == vendor_lookup_from(mfg_data_ascii@, i as int),
        decreases 7 - i,
    {
        let (code, name) = supplier_entry(i);
        if code_matches_exec(code, mfg_data_ascii) {
            return Some(name);
        }
        i += 1;
    }
    None
}

} // verus!

verus! {

// ---------------------------------------------------------------------------
// The decoded fields

/// The supplemental battery fields read from the registry entry.
#[derive(Debug, Clone)]
pub struct BatteryExtras {
    /// Pack lot code, e.g. "F8": bytes 0-1 of `ManufacturerData`.
    pub pack_lot_code: Option<String>,
    /// PCB lot code, e.g. "YH": bytes 2-3.
    pub pcb_lot_code: Option<String>,
    /// Firmware version, e.g. "PR": bytes 4-5.
    pub firmware_version: Option<String>,
    /// Hardware revision, e.g. "00": bytes 6-7.
    pub hardware_revision: Option<String>,
    /// Cell revision, e.g. "EL": bytes 8-9.
    pub cell_revision: Option<String>,
    /// Date the battery was first used, in seconds since the Unix epoch; from
    /// `BatteryData.DateOfFirstUse` (CFAbsoluteTime, seconds since 2001-01-01 UTC).
    pub first_use: Option<u64>,
    /// Battery chemistry: "Lithium Polymer" on every Mac this reads (IOKit has
    /// no key for it).
    pub technology: &'static str,
    /// Design capacity in mAh.
    pub design_capacity_mah: Option<i64>,
    /// Nominal full-charge capacity in mAh.
    pub nominal_charge_capacity_mah: Option<i64>,
    /// Lifetime operating time in hours (`BatteryData.LifetimeData.TotalOperatingTime`).
    pub total_operating_time_hours: Option<i64>,
    /// Maximum capacity percentage (state of health).
    pub max_capacity_percent: Option<i64>,
    /// Best-effort supplier name from the supplier-code table.
    pub vendor: Option<&'static str>,
    /// `BatteryData.BatteryHealthMetric`, raw.
    pub battery_health_metric: Option<i64>,
    /// Lifetime peak temperature in tenths of a degree Celsius.
    pub lifetime_max_temperature_dc: Option<i128>,
    /// Lifetime peak charge current in mA.
    pub lifetime_max_charge_current_ma: Option<i64>,
    /// Lifetime peak pack voltage in mV.
    pub lifetime_max_pack_voltage_mv: Option<i64>,
    /// Number of times the system was disconnected from the battery.
    pub system_disconnect_count: Option<i64>,
    /// Cycle-count service limit: the `M` of `Cycles=N/M` in `pmset -g rawbatt`.
    pub cycle_count_design: Option<i64>,
}

/// Why the registry entry could not be read.
#[derive(Debug)]
pub enum ReadError {
    /// `ioreg` could not be started; the message of the system error.
    IoregFailed(String),
    /// `ioreg` exited unsuccessfully.
    IoregNonZero { status: i32, stderr: String },
    /// The output of `ioreg` is not a property list.
    PlistParse(plist::Error),
    /// The output holds no battery entry.
    NoBattery,
}

/// What a finished command reported.
#[derive(Debug, Clone)]
pub struct CommandOutput {
    /// The command exited successfully.
    pub success: bool,
    /// Its exit code, when it exited with one (not when a signal ended it).
    pub code: Option<i32>,
    pub stdout: Vec<u8>,
    pub stderr: Vec<u8>,
}

/// Unix time of a CFAbsoluteTime: `None` for a negative one.
pub open spec fn first_use_of(cf_seconds: Option<i64>) -> Option<u64> {
    match cf_seconds {
        Some(cf) => if cf < 0 { None } else { Some((CF_EPOCH_UNIX_SECONDS + cf) as u64) },
        None => None,
    }
}

/// Lifetime peak temperature in tenths of a degree: the registry reports
/// tenths, unless the value would exceed 100 °C, in which case it was
/// already whole degrees (older Macs).
pub open spec fn max_temperature_tenths(raw: i64) -> int {
    if raw > 1000 { raw * 10 } else { raw as int }
}

pub open spec fn temperature_of(raw: Option<i64>) -> Option<i128> {
    match raw {
        Some(r) => Some(max_temperature_tenths(r) as i128),
        None => None,
    }
}

pub open spec fn pair_of(mfg: Option<Seq<u8>>, start: int) -> Option<Seq<char>> {
    match mfg {
        Some(b) => pair_code(b, start),
        None => None,
    }
}

pub open spec fn vendor_of(mfg: Option<Seq<u8>>) -> Option<Seq<char>> {
    match mfg {
        Some(b) => vendor_lookup(nul_terminated_text(b)),
        None => None,
    }
}

pub open spec fn str_opt_view(s: Option<&'static str>) -> Option<Seq<char>> {
    match s {
        Some(t) => Some(t@),
        None => None,
    }
}

/// `x` holds exactly the fields that the registry `entry` gives (the cycle
/// limit, which comes from `pmset`, is left empty).
pub open spec fn decodes_entry(x: BatteryExtras, entry: PlistValue) -> bool {
    &&& decodes_entry_fields(x, entry)
    &&& x.cycle_count_design is None
}

/// `x` holds exactly the fields that the registry `entry` gives (all but the
/// cycle limit).
pub open spec fn decodes_entry_fields(x: BatteryExtras, entry: PlistValue) -> bool {
    let e = Some(entry);
    let battery_data = dict_get(e, "BatteryData"@);
    let lifetime = dict_get(battery_data, "LifetimeData"@);
    let mfg = data_bytes(dict_get(e, "ManufacturerData"@));
    &&& x.pack_lot_code.deep_view() == pair_of(mfg, 0)
    &&& x.pcb_lot_code.deep_view() == pair_of(mfg, 2)
    &&& x.firmware_version.deep_view() == pair_of(mfg, 4)
    &&& x.hardware_revision.deep_view() == pair_of(mfg, 6)
    &&& x.cell_revision.deep_view() == pair_of(mfg, 8)
    &&& x.first_use == first_use_of(signed_integer(dict_get(battery_data, "DateOfFirstUse"@)))
    &&& x.technology@ == "Lithium Polymer"@
    &&& x.design_capacity_mah == signed_integer(dict_get(e, "DesignCapacity"@))
    &&& x.nominal_charge_capacity_mah == signed_integer(dict_get(e, "NominalChargeCapacity"@))
    &&& x.total_operating_time_hours == signed_integer(dict_get(lifetime, "TotalOperatingTime"@))
    &&& x.max_capacity_percent == signed_integer(dict_get(e, "MaxCapacity"@))
    &&& str_opt_view(x.vendor) == vendor_of(mfg)
    &&& x.battery_health_metric == signed_integer(dict_get(battery_data, "BatteryHealthMetric"@))
    &&& x.lifetime_max_temperature_dc == temperature_of(signed_integer(dict_get(lifetime, "MaximumTemperature"@)))
    &&& x.lifetime_max_charge_current_ma == signed_integer(dict_get(lifetime, "MaximumChargeCurrent"@))
    &&& x.lifetime_max_pack_voltage_mv == signed_integer(dict_get(lifetime, "MaximumPackVoltage"@))
    &&& x.system_disconnect_count == signed_integer(dict_get(lifetime, "SystemDisconnectCount"@))
}

fn first_use_from(cf_seconds: Option<i64>) -> (r: Option<u64>)
    ensures
        r == first_use_of(cf_seconds),
{
    match cf_seconds {
        Some(cf) => if cf < 0 { None } else { Some(CF_EPOCH_UNIX_SECONDS + cf as u64) },
        None => None,
    }
}

fn temperature_from(raw: Option<i64>) -> (r: Option<i128>)
    ensures
        r == temperature_of(raw),
{
    match raw {
        Some(v) => if v > 1000 { Some(v as i128 * 10) } else { Some(v as i128) },
        None => None,
    }
}

/// Decodes the supplemental fields of one battery's registry entry.
pub fn extras_from_entry(entry: &PlistValue) -> (r: BatteryExtras)
    requires
        entry is Dictionary,
    ensures
        decodes_entry(r, *entry),
{
    let e = Some(entry);
    let battery_data = get(e, "BatteryData");
    let lifetime = get(battery_data, "LifetimeData");
    let mfg = as_data(get(e, "ManufacturerData"));
    let vendor = match mfg {
        Some(b) => {
            let text = nul_terminated_string(b);
            decode_vendor(text.as_str())
        },
        None => None,
    };
    BatteryExtras {
        pack_lot_code: decode_pair(mfg, 0),
        pcb_lot_code: decode_pair(mfg, 2),
        firmware_version: decode_pair(mfg, 4),
        hardware_revision: decode_pair(mfg, 6),
        cell_revision: decode_pair(mfg, 8),
        first_use: first_use_from(as_signed_integer(get(battery_data, "DateOfFirstUse"))),
        technology: "Lithium Polymer",
        design_capacity_mah: as_signed_integer(get(e, "DesignCapacity")),
        nominal_charge_capacity_mah: as_signed_integer(get(e, "NominalChargeCapacity")),
        total_operating_time_hours: as_signed_integer(get(lifetime, "TotalOperatingTime")),
        max_capacity_percent: as_signed_integer(get(e, "MaxCapacity")),
        vendor,
        battery_health_metric: as_signed_integer(get(battery_data, "BatteryHealthMetric")),
        lifetime_max_temperature_dc: temperature_from(
            as_signed_integer(get(lifetime, "MaximumTemperature")),
        ),
        lifetime_max_charge_current_ma: as_signed_integer(get(lifetime, "MaximumChargeCurrent")),
        lifetime_max_pack_voltage_mv: as_signed_integer(get(lifetime, "MaximumPackVoltage")),
        system_disconnect_count: as_signed_integer(get(lifetime, "SystemDisconnectCount")),
        cycle_count_design: None,
    }
}

} // verus!

verus! {

// ---------------------------------------------------------------------------
// The output of ioreg

/// The text that `String::from_utf8_lossy` makes of `bytes`.
pub uninterp spec fn utf8_lossy(bytes: Seq<u8>) -> Seq<char>;

/// Trusted: `String::from_utf8_lossy` (std). The result is named: a function
/// of the bytes alone; for valid UTF-8 it is the decoded text, as the
/// documentation states (invalid sequences become U+FFFD, in a way not stated
/// here).
#[verifier::external_body]
fn from_utf8_lossy(bytes: &[u8]) -> (r: String)
    ensures
        r@ == utf8_lossy(bytes@),
        valid_utf8(bytes@) ==> r@ == decode_utf8(bytes@),
{
    String::from_utf8_lossy(bytes).into_owned()
}

/// Decodes the output of `ioreg -a -r -c AppleSmartBattery`.
///
/// An unsuccessful exit gives `IoregNonZero` (exit code `-1` when there was
/// none); output that is no property list gives `PlistParse`; a document
/// whose top level is not an array starting with a dictionary gives
/// `NoBattery`. Otherwise the fields of that first entry are decoded; the
/// cycle limit is left empty (it comes from `pmset`).
pub fn parse_ioreg_output(output: &CommandOutput) -> (r: Result<BatteryExtras, ReadError>)
    ensures
        !output.success ==> (r matches Err(ReadError::IoregNonZero { status, stderr }) && status == (
        match output.code {
            Some(c) => c,
            None => -1i32,
        }) && stderr@ == utf8_lossy(output.stderr@)),
        output.success ==> match plist_document(output.stdout@) {
            None => r matches Err(ReadError::PlistParse(_)),
            Some(root) => match first_entry(root) {
                None => r matches Err(ReadError::NoBattery),
                Some(entry) => r matches Ok(x) && decodes_entry(x, entry),
            },
        },
{
    if !output.success {
        let status = match output.code {
            Some(c) => c,
            None => -1,
        };
        return Err(ReadError::IoregNonZero { status, stderr: from_utf8_lossy(output.stderr.as_slice()) });
    }
    let root = match decode_plist(output.stdout.as_slice()) {
        Ok(v) => v,
        Err(e) => return Err(ReadError::PlistParse(e)),
    };
    match first_battery_entry(&root) {
        Some(entry) => Ok(extras_from_entry(entry)),
        None => Err(ReadError::NoBattery),
    }
}

/// The registry entry of the first battery in the decoded `ioreg` document:
/// the first element of its top-level array, when that is a dictionary.
pub fn first_battery_entry(root: &PlistValue) -> (r: Option<&PlistValue>)
    ensures
        match r {
            Some(e) => first_entry(*root) == Some(*e) && e is Dictionary,
            None => first_entry(*root) is None,
        },
{
    match root {
        PlistValue::Array(items) => {
            if items.len() > 0 {
                match &items[0] {
                    PlistValue::Dictionary(_) => Some(&items[0]),
                    _ => None,
                }
            } else {
                None
            }
        },
        _ => None,
    }
}

impl ReadError {
    /// The message shown for the error.
    pub fn message(&self) -> (r: String)
        ensures
            match self {
                ReadError::IoregFailed(m) => r@ == "failed to run ioreg: "@ + m@,
                ReadError::IoregNonZero { status, stderr } => r@ == "ioreg exited "@ + signed_decimal(
                    *status as int,
                ) + ": "@ + stderr@,
                ReadError::PlistParse(_) => r@.len() >= "failed to parse ioreg plist: "@.len()
                    && r@.subrange(0, "failed to parse ioreg plist: "@.len() as int)
                    == "failed to parse ioreg plist: "@,
                ReadError::NoBattery => r@ == "no AppleSmartBattery found in IORegistry"@,
            },
    {
        let mut s = String::new();
        match self {
            ReadError::IoregFailed(m) => {
                push_str(&mut s, "failed to run ioreg: ");
                push_str(&mut s, m.as_str());
            },
            ReadError::IoregNonZero { status, stderr } => {
                push_str(&mut s, "ioreg exited ");
                push_signed(&mut s, *status as i64);
                push_str(&mut s, ": ");
                push_str(&mut s, stderr.as_str());
            },
            ReadError::PlistParse(e) => {
                push_str(&mut s, "failed to parse ioreg plist: ");
                let ghost prefix = s@;
                let detail = plist_error_text(e);
                push_str(&mut s, detail.as_str());
                assert(s@.subrange(0, prefix.len() as int) =~= prefix);
            },
            ReadError::NoBattery => {
                push_str(&mut s, "no AppleSmartBattery found in IORegistry");
            },
        }
        s
    }
}

} // verus!

verus! {

// ---------------------------------------------------------------------------
// The output of pmset

/// The bytes of the text "Cycles=".
pub open spec fn cycles_tag() -> Seq<u8> {
    seq![67u8, 121u8, 99u8, 108u8, 101u8, 115u8, 61u8]
}

/// `p` occurs in `t` at byte position `i`.
pub open spec fn bytes_occur_at(t: Seq<u8>, p: Seq<u8>, i: int) -> bool {
    0 <= i && i + p.len() <= t.len() && t.subrange(i, i + p.len()) == p
}

/// The first position at or after `i` where `p` occurs in `t` (`str::find`).
pub open spec fn find_from(t: Seq<u8>, p: Seq<u8>, i: int) -> Option<int>
    decreases t.len() + 1 - i,
{
    if i < 0 || i + p.len() > t.len() {
        None
    } else if bytes_occur_at(t, p, i) {
        Some(i)
    } else {
        find_from(t, p, i + 1)
    }
}

pub open spec fn is_digit(b: u8) -> bool {
    48 <= b <= 57
}

/// Number of ASCII digits that start `t`.
pub open spec fn digit_prefix_len(t: Seq<u8>) -> nat
    decreases t.len(),
{
    if t.len() > 0 && is_digit(t[0]) {
        1 + digit_prefix_len(t.drop_first())
    } else {
        0
    }
}

/// The number that a string of ASCII digits spells in decimal.
pub open spec fn digits_value(ds: Seq<u8>) -> nat
    decreases ds.len(),
{
    if ds.len() == 0 {
        0
    } else {
        digits_value(ds.drop_last()) * 10 + (ds.last() - 48) as nat
    }
}

/// The cycle-count limit `M` of the first `Cycles=N/M` field of `pmset -g
/// rawbatt` output: the digits right after the first `/` that follows the first
/// `Cycles=`. `None` when the text is not UTF-8, a part is missing, no digit
/// follows the `/`, or the number exceeds `i64::MAX`.
pub open spec fn pmset_cycle_limit(text: Seq<u8>) -> Option<i64> {
    if !valid_utf8(text) {
        None
    } else {
        match find_from(text, cycles_tag(), 0) {
            None => None,
            Some(i) => {
                let rest = text.skip(i + 7);
                match find_from(rest, seq![47u8], 0) {
                    None => None,
                    Some(j) => {
                        let after = rest.skip(j + 1);
                        let digits = after.take(digit_prefix_len(after) as int);
                        if digits.len() == 0 || digits_value(digits) > i64::MAX {
                            None
                        } else {
                            Some(digits_value(digits) as i64)
                        }
                    },
                }
            },
        }
    }
}

/// Whether `bytes` are valid UTF-8.
///
/// Trusted: `std::str::from_utf8` (std), whose error the documentation gives
/// exactly for bytes that are not UTF-8; stated over vstd's `valid_utf8`.
#[verifier::external_body]
fn is_utf8(bytes: &[u8]) -> (r: bool)
    ensures
        r == valid_utf8(bytes@),
{
    std::str::from_utf8(bytes).is_ok()
}

fn find_bytes(t: &[u8], p: &[u8], start: usize) -> (r: Option<usize>)
    requires
        start <= t@.len(),
        p@.len() > 0,
    ensures
        match r {
            Some(i) => find_from(t@, p@, start as int) == Some(i as int),
            None => find_from(t@, p@, start as int) is None,
        },
{
    let mut i = start;
    while i < t.len() && p.len() <= t.len() - i
        invariant
            start <= i <= t@.len(),
            p@.len() > 0,
            find_from(t@, p@, start as int) == find_from(t@, p@, i as int),
        decreases t@.len() - i,
    {
        let mut k: usize = 0;
        let mut hit = true;
        while k < p.len()
            invariant
                i + p@.len() <= t@.len(),
                t@.len() == t.len(),
                k <= p@.len(),
                hit == (forall|j: int| 0 <= j < k ==> t@[i + j] == p@[j]),
            decreases p@.len() - k,
        {
            if t[i + k] != p[k] {
                hit = false;
            }
            k += 1;
        }
        if hit {
            assert(t@.subrange(i as int, i + p@.len()) =~= p@);
            return Some(i);
        }
        assert(!bytes_occur_at(t@, p@, i as int)) by {
            let j = choose|j: int| 0 <= j < p@.len() && t@[i + j] != p@[j];
            assert(t@.subrange(i as int, i + p@.len())[j] != p@[j]);
        }
        i += 1;
    }
    None
}

proof fn lemma_digit_prefix(t: Seq<u8>, k: int)
    requires
        0 <= k <= t.len(),
        forall|j: int| 0 <= j < k ==> is_digit(t[j]),
    ensures
        k <= digit_prefix_len(t),
        k < t.len() && !is_digit(t[k]) ==> digit_prefix_len(t) == k,
    decreases k,
{
    if k > 0 {
        lemma_digit_prefix(t.drop_first(), k - 1);
    }
}

proof fn lemma_digit_prefix_bound(t: Seq<u8>)
    ensures
        digit_prefix_len(t) <= t.len(),
        forall|j: int| 0 <= j < digit_prefix_len(t) ==> is_digit(t[j]),
    decreases t.len(),
{
    if t.len() > 0 && is_digit(t[0]) {
        lemma_digit_prefix_bound(t.drop_first());
        assert forall|j: int| 0 <= j < digit_prefix_len(t) implies is_digit(t[j]) by {
            if j > 0 {
                assert(t[j] == t.drop_first()[j - 1]);
            }
        }
    }
}

proof fn lemma_digits_value_grows(ds: Seq<u8>, k: int)
    requires
        0 <= k <= ds.len(),
        forall|j: int| 0 <= j < ds.len() ==> is_digit(ds[j]),
    ensures
        digits_value(ds.take(k)) <= digits_value(ds),
    decreases ds.len() - k,
{
    if k < ds.len() {
        lemma_digits_value_grows(ds, k + 1);
        assert(ds.take(k + 1).drop_last() =~= ds.take(k));
        assert(digits_value(ds.take(k + 1)) == digits_value(ds.take(k)) * 10 + (ds[k] - 48) as nat);
    } else {
        assert(ds.take(k) =~= ds);
    }
}

/// Parses the run of digits `t[from..to]` as an `i64`; `None` when it is
/// empty or its value exceeds `i64::MAX`.
fn parse_digits(t: &[u8], from: usize, to: usize) -> (r: Option<i64>)
    requires
        from <= to <= t@.len(),
        forall|j: int| from <= j < to ==> is_digit(t@[j]),
    ensures
        ({
            let ds = t@.subrange(from as int, to as int);
            r == (if ds.len() == 0 || digits_value(ds) > i64::MAX {
                None
            } else {
                Some(digits_value(ds) as i64)
            })
        }),
{
    let ghost ds = t@.subrange(from as int, to as int);
    if from == to {
        return None;
    }
    let mut v: i64 = 0;
    let mut i = from;
    assert(ds.take(0) =~= Seq::<u8>::empty());
    while i < to
        invariant
            from <= i <= to <= t@.len(),
            ds == t@.subrange(from as int, to as int),
            forall|j: int| from <= j < to ==> is_digit(t@[j]),
            v as int == digits_value(ds.take(i - from)),
        decreases to - i,
    {
        let d = (t[i] - 48) as i64;
        assert(ds.take(i - from + 1).drop_last() =~= ds.take(i - from));
        if v > (i64::MAX - d) / 10 {
            proof {
                lemma_digits_value_grows(ds, i - from + 1);
            }
            return None;
        }
        v = v * 10 + d;
        i += 1;
    }
    assert(ds.take(to - from) =~= ds);
    Some(v)
}

/// The cycle-count limit reported by `pmset -g rawbatt` (the `M` of
/// `Cycles=N/M`); `None` when pmset did not succeed or the field is absent.
pub fn pmset_cycle_design(output: &CommandOutput) -> (r: Option<i64>)
    ensures
        r == (if output.success { pmset_cycle_limit(output.stdout@) } else { None }),
{
    if !output.success {
        return None;
    }
    let text = output.stdout.as_slice();
    if !is_utf8(text) {
        return None;
    }
    let tag: [u8; 7] = [67, 121, 99, 108, 101, 115, 61];
    assert(tag@ =~= cycles_tag());
    let i = match find_bytes(text, &tag, 0) {
        Some(i) => i,
        None => return None,
    };
    assert(find_from(text@, cycles_tag(), 0) == Some(i as int));
    proof {
        lemma_find_from_hit(text@, cycles_tag(), 0, i as int);
    }
    assert(i + 7 <= text@.len());
    assert(text@.len() == text.len());
    let rest_start = i + 7;
    let slash: [u8; 1] = [47];
    assert(slash@ =~= seq![47u8]);
    let j = match find_bytes(text, &slash, rest_start) {
        Some(j) => j,
        None => {
            proof {
                lemma_find_shift(text@, seq![47u8], rest_start as int);
            }
            return None;
        },
    };
    proof {
        lemma_find_shift(text@, seq![47u8], rest_start as int);
        lemma_find_from_hit(text@, seq![47u8], rest_start as int, j as int);
    }
    assert(text@.len() == text.len());
    let after_start = j + 1;
    let mut end = after_start;
    while end < text.len() && 48 <= text[end] && text[end] <= 57
        invariant
            after_start <= end <= text@.len(),
            forall|k: int| after_start <= k < end ==> is_digit(text@[k]),
        decreases text@.len() - end,
    {
        end += 1;
    }
    proof {
        let after = text@.skip(after_start as int);
        lemma_digit_prefix(after, end - after_start);
        lemma_digit_prefix_bound(after);
        assert(after.take(digit_prefix_len(after) as int) =~= text@.subrange(
            after_start as int,
            end as int,
        ));
        assert(text@.skip(rest_start as int).skip(j - rest_start + 1) =~= after);
    }
    parse_digits(text, after_start, end)
}

proof fn lemma_find_from_hit(t: Seq<u8>, p: Seq<u8>, i: int, k: int)
    requires
        find_from(t, p, i) == Some(k),
    ensures
        bytes_occur_at(t, p, k),
        i <= k,
    decreases t.len() + 1 - i,
{
    if !(i < 0 || i + p.len() > t.len()) && !bytes_occur_at(t, p, i) {
        lemma_find_from_hit(t, p, i + 1, k);
    }
}

/// Searching the suffix that starts at `s` is searching the whole text from `s`,
/// shifted.
proof fn lemma_find_shift(t: Seq<u8>, p: Seq<u8>, s: int)
    requires
        0 <= s <= t.len(),
    ensures
        match find_from(t.skip(s), p, 0) {
            Some(k) => find_from(t, p, s) == Some(k + s),
            None => find_from(t, p, s) is None,
        },
{
    lemma_find_shift_from(t, p, s, 0);
}

proof fn lemma_find_shift_from(t: Seq<u8>, p: Seq<u8>, s: int, i: int)
    requires
        0 <= s <= t.len(),
        0 <= i,
    ensures
        match find_from(t.skip(s), p, i) {
            Some(k) => find_from(t, p, s + i) == Some(k + s),
            None => find_from(t, p, s + i) is None,
        },
    decreases t.len() + 1 - s - i,
{
    let u = t.skip(s);
    if i + p.len() <= u.len() {
        assert(u.subrange(i, i + p.len()) =~= t.subrange(s + i, s + i + p.len()));
        if !bytes_occur_at(u, p, i) {
            lemma_find_shift_from(t, p, s, i + 1);
        }
    }
}

} // verus!

verus! {

proof fn lemma_find_first(t: Seq<u8>, p: Seq<u8>, i: int, k: int)
    requires
        0 <= i <= k,
        bytes_occur_at(t, p, k),
        forall|j: int| i <= j < k ==> !bytes_occur_at(t, p, j),
    ensures
        find_from(t, p, i) == Some(k),
    decreases k - i,
{
    if i < k {
        lemma_find_first(t, p, i + 1, k);
    }
}

/// The `pmset -g rawbatt` field `Cycles=N/M` gives the limit `M`: whatever
/// UTF-8 text stands before it (as long as "Cycles=" does not start earlier),
/// whatever digits `N` are, and whatever follows `M` that does not continue it,
/// so long as `M` has at least one digit and fits an `i64`.
pub proof fn lemma_pmset_reads_limit(before: Seq<u8>, n: Seq<u8>, m: Seq<u8>, after: Seq<u8>)
    requires
        valid_utf8(before + cycles_tag() + n + seq![47u8] + m + after),
        forall|i: int|
            0 <= i < before.len() ==> !bytes_occur_at(
                before + cycles_tag() + n + seq![47u8] + m + after,
                cycles_tag(),
                i,
            ),
        forall|i: int| 0 <= i < n.len() ==> is_digit(n[i]),
        m.len() > 0,
        forall|i: int| 0 <= i < m.len() ==> is_digit(m[i]),
        digits_value(m) <= i64::MAX,
        after.len() == 0 || !is_digit(after[0]),
    ensures
        pmset_cycle_limit(before + cycles_tag() + n + seq![47u8] + m + after) == Some(
            digits_value(m) as i64,
        ),
{
    let text = before + cycles_tag() + n + seq![47u8] + m + after;
    let b = before.len() as int;
    assert(text.subrange(b, b + 7) =~= cycles_tag());
    lemma_find_first(text, cycles_tag(), 0, b);
    let rest = text.skip(b + 7);
    assert(rest =~= n + seq![47u8] + m + after);
    let slash = seq![47u8];
    assert(rest.subrange(n.len() as int, n.len() + 1int) =~= slash);
    assert forall|j: int| 0 <= j < n.len() implies !bytes_occur_at(rest, slash, j) by {
        assert(rest[j] == n[j]);
        assert(rest.subrange(j, j + 1)[0] == n[j]);
    }
    lemma_find_first(rest, slash, 0, n.len() as int);
    let tail = rest.skip(n.len() + 1int);
    assert(tail =~= m + after);
    assert forall|j: int| 0 <= j < m.len() implies is_digit(tail[j]) by {
        assert(tail[j] == m[j]);
    }
    lemma_digit_prefix(tail, m.len() as int);
    if after.len() > 0 {
        assert(tail[m.len() as int] == after[0]);
    }
    lemma_digit_prefix_bound(tail);
    assert(tail.take(digit_prefix_len(tail) as int) =~= m);
}

} // verus!

verus! {

/// The cycle limit of the `pmset` run: `None` when pmset could not be run
/// (`pmset` is `None`), did not succeed, or reports no `Cycles=N/M` field.
pub open spec fn pmset_limit_of(pmset: Option<CommandOutput>) -> Option<i64> {
    match pmset {
        Some(o) => if o.success { pmset_cycle_limit(o.stdout@) } else { None },
        None => None,
    }
}

pub open spec fn owned_output(o: Option<&CommandOutput>) -> Option<CommandOutput> {
    match o {
        Some(x) => Some(*x),
        None => None,
    }
}

/// Reads the supplemental battery fields from the output of `ioreg -a -r -c
/// AppleSmartBattery` and of `pmset -g rawbatt` (`None` when pmset could not
/// be started).
///
/// The outcome is that of `parse_ioreg_output` on the `ioreg` output, with the
/// cycle limit taken from `pmset`: whatever `pmset` reported, it never turns
/// the result into an error, and only leaves the limit empty.
pub fn read_outputs(ioreg: &CommandOutput, pmset: Option<&CommandOutput>) -> (r: Result<
    BatteryExtras,
    ReadError,
>)
    ensures
        !ioreg.success ==> (r matches Err(ReadError::IoregNonZero { status, stderr }) && status == (
        match ioreg.code {
            Some(c) => c,
            None => -1i32,
        }) && stderr@ == utf8_lossy(ioreg.stderr@)),
        ioreg.success ==> match plist_document(ioreg.stdout@) {
            None => r matches Err(ReadError::PlistParse(_)),
            Some(root) => match first_entry(root) {
                None => r matches Err(ReadError::NoBattery),
                Some(entry) => r matches Ok(x) && decodes_entry_fields(x, entry)
                    && x.cycle_count_design == pmset_limit_of(owned_output(pmset)),
            },
        },
{
    let mut extras = parse_ioreg_output(ioreg)?;
    extras.cycle_count_design = match pmset {
        Some(o) => pmset_cycle_design(o),
        None => None,
    };
    Ok(extras)
}

} // verus!
