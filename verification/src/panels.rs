//! The text of the viewer's information panels: each panel is a list of
//! `(label, value)` rows built from plain battery readings.

use vstd::prelude::*;

use crate::civil::{
    civil_date, civil_year_fits, days_before_year, lemma_civil_date_of_day, lemma_year_fits_by_day,
    unix_day, ymd_from_unix,
};
use crate::extras::BatteryExtras;
use crate::text::{
    decimal, digit_char, lemma_pad2_two_digits, pad2, push_char, push_decimal, push_decimal_wide, push_pad2, push_signed, push_str,
    signed_decimal,
};

verus! {

/// Readings of the cross-platform battery interface, as text and numbers.
#[derive(Debug, Clone)]
pub struct BatteryInfo {
    pub vendor: Option<String>,
    pub model: Option<String>,
    pub serial_number: Option<String>,
    /// Display text of the battery technology.
    pub technology: String,
    /// Display text of the charge state.
    pub state: String,
    pub cycle_count: Option<u32>,
}

/// Charge state of a battery.
#[derive(Debug, Clone, Copy, PartialEq, Eq, Structural)]
pub enum ChargeState {
    Unknown,
    Charging,
    Discharging,
    Empty,
    Full,
    /// Charging stopped at a configured charge limit.
    Paused,
}

/// The rows as label and value texts.
pub open spec fn rows_view(rows: Seq<(String, String)>) -> Seq<(Seq<char>, Seq<char>)> {
    rows.map_values(|r: (String, String)| (r.0@, r.1@))
}

/// A present text, or "N/A".
pub open spec fn or_na(v: Option<Seq<char>>) -> Seq<char> {
    match v {
        Some(s) => s,
        None => "N/A"@,
    }
}

pub open spec fn owned_extras(extras: Option<&BatteryExtras>) -> Option<BatteryExtras> {
    match extras {
        Some(x) => Some(*x),
        None => None,
    }
}

fn push_row(rows: &mut Vec<(String, String)>, label: &str, value: String)
    ensures
        rows_view(final(rows)@) == rows_view(old(rows)@).push((label@, value@)),
{
    let ghost before = rows@;
    rows.push((label.to_owned(), value));
    assert(rows_view(rows@) =~= rows_view(before).push((label@, value@)));
}

fn text_or_na(v: Option<&String>) -> (r: String)
    ensures
        r@ == or_na(match v {
            Some(s) => Some(s@),
            None => None,
        }),
{
    match v {
        Some(s) => s.clone(),
        None => "N/A".to_owned(),
    }
}

// ---------------------------------------------------------------------------
// Device information

/// The vendor shown: the battery interface's own vendor; else the supplier
/// found from the manufacturer data; else the pack lot as "lot <code>";
/// else "N/A".
pub open spec fn vendor_text(battery_vendor: Option<Seq<char>>, extras: Option<BatteryExtras>) -> Seq<char> {
    match battery_vendor {
        Some(v) => v,
        None => match extras {
            Some(x) => match x.vendor {
                Some(v) => v@,
                None => match x.pack_lot_code {
                    Some(lot) => "lot "@ + lot@,
                    None => "N/A"@,
                },
            },
            None => "N/A"@,
        },
    }
}

/// The technology shown: the registry's chemistry where the supplemental
/// fields were read, else the battery interface's technology.
pub open spec fn technology_text(info: BatteryInfo, extras: Option<BatteryExtras>) -> Seq<char> {
    match extras {
        Some(x) => x.technology@,
        None => info.technology@,
    }
}

/// The cycle count beside the cycle-count service limit that `pmset` reports,
/// as "12 / 300"; the count alone where the limit is unknown; "N/A" without a
/// count (a count of 0 is shown as "0").
pub open spec fn cycles_text(count: Option<u32>, limit: Option<i64>) -> Seq<char> {
    match count {
        Some(c) => match limit {
            Some(m) => decimal(c as nat) + " / "@ + signed_decimal(m as int),
            None => decimal(c as nat),
        },
        None => "N/A"@,
    }
}

/// The service limit among the supplemental fields, if they were read.
pub open spec fn cycle_limit_of(extras: Option<BatteryExtras>) -> Option<i64> {
    match extras {
        Some(x) => x.cycle_count_design,
        None => None,
    }
}

/// Rows of the "Device" table. On macOS (`macos`) it also shows the firmware
/// version and cell revision from the supplemental fields; the cycle count
/// stands beside the service limit where the supplemental fields hold one.
pub open spec fn common_info_rows(info: BatteryInfo, extras: Option<BatteryExtras>, macos: bool) -> Seq<
    (Seq<char>, Seq<char>),
> {
    let head = seq![
        ("Vendor"@, vendor_text(info.vendor.deep_view(), extras)),
        ("Model"@, or_na(info.model.deep_view())),
        ("S/N"@, or_na(info.serial_number.deep_view())),
        ("Technology"@, technology_text(info, extras)),
    ];
    let mac: Seq<(Seq<char>, Seq<char>)> = if macos {
        match extras {
            Some(x) => seq![
                ("Firmware"@, or_na(x.firmware_version.deep_view())),
                ("Cell rev"@, or_na(x.cell_revision.deep_view())),
            ],
            None => seq![("Firmware"@, "N/A"@), ("Cell rev"@, "N/A"@)],
        }
    } else {
        seq![]
    };
    head + mac + seq![("Charge state"@, info.state@), (
        "Cycles count"@,
        cycles_text(info.cycle_count, cycle_limit_of(extras)),
    )]
}

/// The vendor text of the information panel.
pub fn vendor_display(battery_vendor: Option<&String>, extras: Option<&BatteryExtras>) -> (r: String)
    ensures
        r@ == vendor_text(
            match battery_vendor {
                Some(v) => Some(v@),
                None => None,
            },
            owned_extras(extras),
        ),
{
    match battery_vendor {
        Some(v) => v.clone(),
        None => match extras {
            Some(x) => match x.vendor {
                Some(v) => v.to_owned(),
                None => match &x.pack_lot_code {
                    Some(lot) => {
                        let mut s = String::new();
                        push_str(&mut s, "lot ");
                        push_str(&mut s, lot.as_str());
                        s
                    },
                    None => "N/A".to_owned(),
                },
            },
            None => "N/A".to_owned(),
        },
    }
}

fn cycles_display(count: Option<u32>, limit: Option<i64>) -> (r: String)
    ensures
        r@ == cycles_text(count, limit),
{
    match count {
        Some(c) => {
            let mut s = String::new();
            push_decimal(&mut s, c as u64);
            match limit {
                Some(m) => {
                    push_str(&mut s, " / ");
                    push_signed(&mut s, m);
                },
                None => {},
            }
            s
        },
        None => "N/A".to_owned(),
    }
}

/// Rows of the "Device" table of the information panel.
pub fn common_info_items(info: &BatteryInfo, extras: Option<&BatteryExtras>, macos: bool) -> (r: Vec<
    (String, String),
>)
    requires
        !macos ==> extras is None,
    ensures
        rows_view(r@) == common_info_rows(*info, owned_extras(extras), macos),
{
    let mut rows: Vec<(String, String)> = Vec::new();
    push_row(&mut rows, "Vendor", vendor_display(info.vendor.as_ref(), extras));
    push_row(&mut rows, "Model", text_or_na(info.model.as_ref()));
    push_row(&mut rows, "S/N", text_or_na(info.serial_number.as_ref()));
    let tech = match extras {
        Some(x) => x.technology.to_owned(),
        None => info.technology.clone(),
    };
    push_row(&mut rows, "Technology", tech);
    if macos {
        match extras {
            Some(x) => {
                push_row(&mut rows, "Firmware", text_or_na(x.firmware_version.as_ref()));
                push_row(&mut rows, "Cell rev", text_or_na(x.cell_revision.as_ref()));
            },
            None => {
                push_row(&mut rows, "Firmware", "N/A".to_owned());
                push_row(&mut rows, "Cell rev", "N/A".to_owned());
            },
        }
    }
    push_row(&mut rows, "Charge state", info.state.clone());
    let limit = match extras {
        Some(x) => x.cycle_count_design,
        None => None,
    };
    push_row(&mut rows, "Cycles count", cycles_display(info.cycle_count, limit));
    assert(rows_view(rows@) =~= common_info_rows(*info, owned_extras(extras), macos));
    rows
}

} // verus!

verus! {

// ---------------------------------------------------------------------------
// Energy

/// Label of the energy-rate row: what the battery is doing with the energy.
pub open spec fn consumption_label_text(state: ChargeState) -> Seq<char> {
    match state {
        ChargeState::Charging => "Charging with"@,
        ChargeState::Discharging => "Discharging with"@,
        _ => "Consumption"@,
    }
}

/// Label of the energy-rate row.
pub fn consumption_label(state: ChargeState) -> (r: &'static str)
    ensures
        r@ == consumption_label_text(state),
{
    match state {
        ChargeState::Charging => "Charging with",
        ChargeState::Discharging => "Discharging with",
        _ => "Consumption",
    }
}

/// The energy-rate row says "Charging with" exactly while the battery
/// charges and "Discharging with" exactly while it discharges; in every other
/// state (unknown, empty, full, or paused at a charge limit) it says
/// "Consumption".
pub proof fn lemma_consumption_label_by_state(state: ChargeState)
    ensures
        (consumption_label_text(state) == "Charging with"@) <==> state == ChargeState::Charging,
        (consumption_label_text(state) == "Discharging with"@) <==> state
            == ChargeState::Discharging,
        (consumption_label_text(state) == "Consumption"@) <==> (state != ChargeState::Charging
            && state != ChargeState::Discharging),
{
    reveal_strlit("Charging with");
    reveal_strlit("Discharging with");
    reveal_strlit("Consumption");
    assert("Charging with"@.len() == 13);
    assert("Discharging with"@.len() == 16);
    assert("Consumption"@.len() == 11);
}

/// Rows of the "Energy" table, from the already formatted figures (energy
/// rate, voltage, capacity, current, last-full and design energy).
pub fn energy_items(
    state: ChargeState,
    consumption: String,
    voltage: String,
    capacity: String,
    current: String,
    last_full: String,
    full_design: String,
) -> (r: Vec<(String, String)>)
    ensures
        rows_view(r@) == seq![
            (consumption_label_text(state), consumption@),
            ("Voltage"@, voltage@),
            ("Capacity"@, capacity@),
            ("Current"@, current@),
            ("Last full"@, last_full@),
            ("Full design"@, full_design@),
        ],
{
    let mut rows: Vec<(String, String)> = Vec::new();
    push_row(&mut rows, consumption_label(state), consumption);
    push_row(&mut rows, "Voltage", voltage);
    push_row(&mut rows, "Capacity", capacity);
    push_row(&mut rows, "Current", current);
    push_row(&mut rows, "Last full", last_full);
    push_row(&mut rows, "Full design", full_design);
    rows
}

// ---------------------------------------------------------------------------
// Time

/// The text that `humantime::format_duration` makes of a whole number of
/// seconds.
pub uninterp spec fn humantime_text(secs: u64) -> Seq<char>;

/// Human-readable text of a duration of `secs` seconds, such as "2h 37m".
///
/// Trusted: `humantime::format_duration(Duration::from_secs(secs)).to_string()`.
/// Its documentation keeps the exact composition of the text open, so the
/// result is named: a function of `secs` alone.
#[verifier::external_body]
fn format_duration_secs(secs: u64) -> (r: String)
    ensures
        r@ == humantime_text(secs),
{
    humantime::format_duration(std::time::Duration::from_secs(secs)).to_string()
}

/// A duration in seconds as humantime text, or "N/A".
pub open spec fn duration_text(secs: Option<u64>) -> Seq<char> {
    match secs {
        Some(s) => humantime_text(s),
        None => "N/A"@,
    }
}

fn duration_display(secs: Option<u64>) -> (r: String)
    ensures
        r@ == duration_text(secs),
{
    match secs {
        Some(s) => format_duration_secs(s),
        None => "N/A".to_owned(),
    }
}

/// Rows of the "Time" table: time to full and time to empty, in whole seconds.
pub fn timing_items(time_to_full: Option<u64>, time_to_empty: Option<u64>) -> (r: Vec<(String, String)>)
    ensures
        rows_view(r@) == seq![
            ("Time to full"@, duration_text(time_to_full)),
            ("Time to empty"@, duration_text(time_to_empty)),
        ],
{
    let mut rows: Vec<(String, String)> = Vec::new();
    push_row(&mut rows, "Time to full", duration_display(time_to_full));
    push_row(&mut rows, "Time to empty", duration_display(time_to_empty));
    rows
}

// ---------------------------------------------------------------------------
// Environment and lifetime

/// `YYYY-MM-DD` text of the civil date of Unix time `t`.
pub open spec fn date_text(t: int) -> Seq<char> {
    let ymd = civil_date(t);
    signed_decimal(ymd.0) + "-"@ + pad2(ymd.1 as nat) + "-"@ + pad2(ymd.2 as nat)
}

/// The first-use date as `YYYY-MM-DD` (UTC), from seconds since the Unix
/// epoch.
pub fn format_system_time(t: u64) -> (r: String)
    requires
        civil_year_fits(t as int),
    ensures
        r@ == date_text(t as int),
{
    proof {
        lemma_year_fits_by_day(t as int);
        assert(days_before_year(i32::MAX + 1) == 784_351_576_777);
    }
    let secs = t as i64;
    let (year, month, day) = ymd_from_unix(secs);
    let mut s = String::new();
    push_signed(&mut s, year as i64);
    push_str(&mut s, "-");
    push_pad2(&mut s, month);
    push_str(&mut s, "-");
    push_pad2(&mut s, day);
    s
}

/// A date reads as the year, a dash, the month in exactly two digits, a dash
/// and the day in exactly two digits (October 5th of 2023 as `2023-10-05`),
/// month and day being those of the calendar date that holds `t`.
pub proof fn lemma_date_text_shape(t: int)
    ensures
        1 <= civil_date(t).1 <= 12,
        1 <= civil_date(t).2 <= 31,
        date_text(t) == signed_decimal(civil_date(t).0) + seq![
            '-',
            digit_char(civil_date(t).1 / 10),
            digit_char(civil_date(t).1 % 10),
            '-',
            digit_char(civil_date(t).2 / 10),
            digit_char(civil_date(t).2 % 10),
        ],
        date_text(t).len() == signed_decimal(civil_date(t).0).len() + 6,
{
    lemma_civil_date_of_day(t);
    let ymd = civil_date(t);
    assert(1 <= ymd.2 <= 31);
    lemma_pad2_two_digits(ymd.1 as nat);
    lemma_pad2_two_digits(ymd.2 as nat);
    reveal_strlit("-");
    assert(date_text(t) =~= signed_decimal(ymd.0) + seq![
        '-',
        digit_char(ymd.1 / 10),
        digit_char(ymd.1 % 10),
        '-',
        digit_char(ymd.2 / 10),
        digit_char(ymd.2 % 10),
    ]);
}

/// A reading with an optional unit suffix, or "N/A".
pub open spec fn reading_text(v: Option<i64>, unit: Seq<char>) -> Seq<char> {
    match v {
        Some(x) => signed_decimal(x as int) + unit,
        None => "N/A"@,
    }
}

/// A temperature in tenths of a degree with one decimal and "°C", or "N/A".
pub open spec fn tenths_text(v: Option<i128>) -> Seq<char> {
    match v {
        Some(t) => {
            let a: int = if t < 0 { -t } else { t as int };
            (if t < 0 { seq!['-'] } else { Seq::empty() }) + decimal((a / 10) as nat) + "."@ + decimal(
                (a % 10) as nat,
            ) + " °C"@
        },
        None => "N/A"@,
    }
}

pub open spec fn first_use_text(t: Option<u64>) -> Seq<char> {
    match t {
        Some(secs) => date_text(secs as int),
        None => "N/A"@,
    }
}

/// The dates the environment panel shows can be formatted.
pub open spec fn first_use_fits(extras: Option<BatteryExtras>) -> bool {
    match extras {
        Some(x) => match x.first_use {
            Some(t) => civil_year_fits(t as int),
            None => true,
        },
        None => true,
    }
}

/// Rows of the "Environment" table: the temperature (already formatted),
/// then, where the supplemental fields were read, the lifetime figures.
pub open spec fn environment_rows(temperature: Seq<char>, extras: Option<BatteryExtras>) -> Seq<
    (Seq<char>, Seq<char>),
> {
    seq![("Temperature"@, temperature)] + match extras {
        Some(x) => seq![
            ("Operating"@, reading_text(x.total_operating_time_hours, " h"@)),
            ("First use"@, first_use_text(x.first_use)),
            ("Health score"@, reading_text(x.battery_health_metric, ""@)),
            ("Max temp ever"@, tenths_text(x.lifetime_max_temperature_dc)),
            ("Peak charge"@, reading_text(x.lifetime_max_charge_current_ma, " mA"@)),
            ("Peak voltage"@, reading_text(x.lifetime_max_pack_voltage_mv, " mV"@)),
            ("Disconnects"@, reading_text(x.system_disconnect_count, ""@)),
        ],
        None => seq![],
    }
}

fn reading_display(v: Option<i64>, unit: &str) -> (r: String)
    ensures
        r@ == reading_text(v, unit@),
{
    match v {
        Some(x) => {
            let mut s = String::new();
            push_signed(&mut s, x);
            push_str(&mut s, unit);
            s
        },
        None => "N/A".to_owned(),
    }
}

fn tenths_display(v: Option<i128>) -> (r: String)
    ensures
        r@ == tenths_text(v),
{
    match v {
        Some(t) => {
            let mut s = String::new();
            let a: u128 = if t < 0 {
                push_char(&mut s, '-');
                ((-(t + 1)) as u128) + 1
            } else {
                t as u128
            };
            let ghost sign = s@;
            assert(a as int == (if t < 0 { -t } else { t as int }));
            assert(sign == (if t < 0 { seq!['-'] } else { Seq::<char>::empty() }));
            push_decimal_wide(&mut s, a / 10);
            push_str(&mut s, ".");
            push_decimal_wide(&mut s, a % 10);
            push_str(&mut s, " °C");
            s
        },
        None => "N/A".to_owned(),
    }
}

} // verus!

verus! {

fn first_use_display(t: Option<u64>) -> (r: String)
    requires
        match t {
            Some(secs) => civil_year_fits(secs as int),
            None => true,
        },
    ensures
        r@ == first_use_text(t),
{
    match t {
        Some(secs) => format_system_time(secs),
        None => "N/A".to_owned(),
    }
}

/// Rows of the "Environment" table.
pub fn environment_items(temperature: String, extras: Option<&BatteryExtras>) -> (r: Vec<(String, String)>)
    requires
        first_use_fits(owned_extras(extras)),
    ensures
        rows_view(r@) == environment_rows(temperature@, owned_extras(extras)),
{
    let ghost temp = temperature@;
    let mut rows: Vec<(String, String)> = Vec::new();
    push_row(&mut rows, "Temperature", temperature);
    match extras {
        Some(x) => {
            push_row(&mut rows, "Operating", reading_display(x.total_operating_time_hours, " h"));
            push_row(&mut rows, "First use", first_use_display(x.first_use));
            push_row(&mut rows, "Health score", reading_display(x.battery_health_metric, ""));
            push_row(&mut rows, "Max temp ever", tenths_display(x.lifetime_max_temperature_dc));
            push_row(&mut rows, "Peak charge", reading_display(x.lifetime_max_charge_current_ma, " mA"));
            push_row(&mut rows, "Peak voltage", reading_display(x.lifetime_max_pack_voltage_mv, " mV"));
            push_row(&mut rows, "Disconnects", reading_display(x.system_disconnect_count, ""));
        },
        None => {},
    }
    assert(rows_view(rows@) =~= environment_rows(temp, owned_extras(extras)));
    rows
}

} // verus!

verus! {

/// Whether the civil year of Unix time `t` can be computed (see
/// `civil_year_fits`): the test a caller makes before formatting a date.
pub fn date_in_range(t: u64) -> (r: bool)
    ensures
        r == civil_year_fits(t as int),
{
    proof {
        lemma_year_fits_by_day(t as int);
        assert(days_before_year(i32::MAX + 1) == 784_351_576_777);
        assert(unix_day(t as int) >= 0);
    }
    let days = t / 86_400;
    days < 784_351_576_777
}

} // verus!
