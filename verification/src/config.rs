//! Command-line settings: units, update delay and verbosity.

use vstd::prelude::*;

use crate::text::{decimal, push_str};

verus! {

/// Measurement units displayed.
#[derive(Debug, Clone, Copy, PartialEq, Eq, Structural)]
pub enum Units {
    /// Watt-hours and degrees Celsius.
    Human,
    /// Joules and kelvin.
    Si,
}

impl Default for Units {
    fn default() -> (r: Units)
        ensures
            r == Units::Human,
    {
        Units::Human
    }
}

/// ASCII lower case of a character (`char::to_ascii_lowercase`).
pub open spec fn ascii_lower(c: char) -> char {
    if 'A' <= c <= 'Z' {
        ((c as u32) + 32) as char
    } else {
        c
    }
}

/// `str::eq_ignore_ascii_case`: equal up to ASCII case.
pub open spec fn eq_ignore_ascii_case(a: Seq<char>, b: Seq<char>) -> bool {
    a.len() == b.len() && forall|i: int| 0 <= i < a.len() ==> ascii_lower(a[i]) == ascii_lower(b[i])
}

/// What `Units::from_str` gives for `s`: `human` or `si` in any ASCII case.
pub open spec fn units_named(s: Seq<char>) -> Option<Units> {
    if eq_ignore_ascii_case(s, "human"@) {
        Some(Units::Human)
    } else if eq_ignore_ascii_case(s, "si"@) {
        Some(Units::Si)
    } else {
        None
    }
}

fn lower(c: char) -> (r: char)
    ensures
        r == ascii_lower(c),
{
    if 'A' <= c && c <= 'Z' {
        let code: u32 = c as u32 + 32;
        assert(code < 128);
        let b: u8 = code as u8;
        b as char
    } else {
        c
    }
}

fn eq_ignore_case(a: &str, b: &str) -> (r: bool)
    ensures
        r == eq_ignore_ascii_case(a@, b@),
{
    let n = a.unicode_len();
    if n != b.unicode_len() {
        return false;
    }
    let mut i: usize = 0;
    while i < n
        invariant
            n == a@.len(),
            n == b@.len(),
            i <= n,
            forall|j: int| 0 <= j < i ==> ascii_lower(a@[j]) == ascii_lower(b@[j]),
        decreases n - i,
    {
        if lower(a.get_char(i)) != lower(b.get_char(i)) {
            return false;
        }
        i += 1;
    }
    true
}

impl Units {
    /// Parses a units name: `human` or `si`, in any ASCII case; otherwise the
    /// error text "unknown units `<s>` (expected `human` or `si`)".
    pub fn parse(s: &str) -> (r: Result<Units, String>)
        ensures
            match units_named(s@) {
                Some(u) => r == Ok::<Units, String>(u),
                None => r matches Err(e) && e@ == "unknown units `"@ + s@
                    + "` (expected `human` or `si`)"@,
            },
    {
        if eq_ignore_case(s, "human") {
            Ok(Units::Human)
        } else if eq_ignore_case(s, "si") {
            Ok(Units::Si)
        } else {
            let mut e = String::new();
            push_str(&mut e, "unknown units `");
            push_str(&mut e, s);
            push_str(&mut e, "` (expected `human` or `si`)");
            Err(e)
        }
    }
}

impl std::str::FromStr for Units {
    type Err = String;

    fn from_str(s: &str) -> (r: Result<Units, String>)
        ensures
            match units_named(s@) {
                Some(u) => r == Ok::<Units, String>(u),
                None => r matches Err(e) && e@ == "unknown units `"@ + s@
                    + "` (expected `human` or `si`)"@,
            },
    {
        Units::parse(s)
    }
}

/// Settings of one run. The delay between updates is at least one second.
#[derive(Debug)]
pub struct Config {
    /// How many times `-v` was given.
    verbose: u8,
    /// Delay between updates, in whole seconds.
    delay: u64,
    /// Units of the energy and temperature figures.
    units: Units,
}

impl Config {
    #[verifier::type_invariant]
    spec fn positive_delay(self) -> bool {
        self.delay > 0
    }

    /// How many times `-v` was given.
    pub closed spec fn verbose_count(self) -> u8 {
        self.verbose
    }

    /// Delay between updates, in seconds.
    pub closed spec fn delay_secs(self) -> u64 {
        self.delay
    }

    /// Units of the figures.
    pub closed spec fn units_setting(self) -> Units {
        self.units
    }

    /// Settings from the command line; the delay must be positive (as
    /// `parse_duration` ensures).
    pub fn new(verbose: u8, delay: u64, units: Units) -> (r: Config)
        requires
            delay > 0,
        ensures
            r.verbose_count() == verbose,
            r.delay_secs() == delay,
            r.units_setting() == units,
    {
        Config { verbose, delay, units }
    }

    pub fn verbosity(&self) -> (r: u8)
        ensures
            r == self.verbose_count(),
    {
        self.verbose
    }

    /// Delay between updates, in seconds; never zero.
    pub fn delay(&self) -> (r: u64)
        ensures
            r == self.delay_secs(),
            r > 0,
    {
        proof {
            use_type_invariant(self);
        }
        self.delay
    }

    pub fn units(&self) -> (r: Units)
        ensures
            r == self.units_setting(),
    {
        self.units
    }
}

/// Digits of a decimal `u64` as `str::parse::<u64>` reads them: an optional
/// leading `+` when something follows it, then the digits.
pub open spec fn unsigned_digits(s: Seq<char>) -> Seq<char> {
    if s.len() > 1 && s[0] == '+' {
        s.drop_first()
    } else {
        s
    }
}

pub open spec fn is_digit_char(c: char) -> bool {
    '0' <= c <= '9'
}

/// The number that a string of decimal digit characters spells.
pub open spec fn digit_chars_value(ds: Seq<char>) -> nat
    decreases ds.len(),
{
    if ds.len() == 0 {
        0
    } else {
        digit_chars_value(ds.drop_last()) * 10 + ((ds.last() as u32) - 48) as nat
    }
}

/// `str::parse::<u64>`: `Some` exactly for an optional `+` followed by one or
/// more decimal digits whose value fits a `u64`.
pub open spec fn parse_u64(s: Seq<char>) -> Option<u64> {
    let ds = unsigned_digits(s);
    if ds.len() > 0 && (forall|i: int| 0 <= i < ds.len() ==> is_digit_char(ds[i]))
        && digit_chars_value(ds) <= u64::MAX {
        Some(digit_chars_value(ds) as u64)
    } else {
        None
    }
}

proof fn lemma_digit_chars_grow(ds: Seq<char>, k: int)
    requires
        0 <= k <= ds.len(),
        forall|j: int| 0 <= j < ds.len() ==> is_digit_char(ds[j]),
    ensures
        digit_chars_value(ds.take(k)) <= digit_chars_value(ds),
    decreases ds.len() - k,
{
    if k < ds.len() {
        lemma_digit_chars_grow(ds, k + 1);
        assert(ds.take(k + 1).drop_last() =~= ds.take(k));
    } else {
        assert(ds.take(k) =~= ds);
    }
}

fn parse_u64_exec(s: &str) -> (r: Option<u64>)
    ensures
        r == parse_u64(s@),
{
    let n = s.unicode_len();
    let start: usize = if n > 1 && s.get_char(0) == '+' { 1 } else { 0 };
    let ghost ds = unsigned_digits(s@);
    assert(ds =~= s@.skip(start as int));
    if start == n {
        return None;
    }
    let mut v: u64 = 0;
    let mut i = start;
    assert(ds.take(0) =~= Seq::<char>::empty());
    while i < n
        invariant
            n == s@.len(),
            start <= i <= n,
            ds =~= s@.skip(start as int),
            ds == unsigned_digits(s@),
            forall|j: int| 0 <= j < i - start ==> is_digit_char(ds[j]),
            v as int == digit_chars_value(ds.take(i - start)),
        decreases n - i,
    {
        let c = s.get_char(i);
        let ghost k: int = i - start;
        assert(ds[k] == c);
        if !('0' <= c && c <= '9') {
            assert(!is_digit_char(ds[k]));
            assert(!(forall|j: int| 0 <= j < ds.len() ==> is_digit_char(ds[j])));
            return None;
        }
        let d: u64 = (c as u32 - 48) as u64;
        assert(ds.take(k + 1).drop_last() =~= ds.take(k));
        assert(ds.take(k + 1).last() == c);
        assert(digit_chars_value(ds.take(k + 1)) == v * 10 + d);
        if v > (u64::MAX - d) / 10 {
            proof {
                if forall|j: int| 0 <= j < ds.len() ==> is_digit_char(ds[j]) {
                    lemma_digit_chars_grow(ds, k + 1);
                }
            }
            return None;
        }
        v = v * 10 + d;
        i += 1;
    }
    assert(ds.take(n - start) =~= ds);
    Some(v)
}

/// Parses the `--delay` argument: a positive whole number of seconds, or the
/// error text "<raw> isn't a positive number".
pub fn parse_duration(raw: &str) -> (r: Result<u64, String>)
    ensures
        match parse_u64(raw@) {
            Some(secs) if secs > 0 => r == Ok::<u64, String>(secs),
            _ => r matches Err(e) && e@ == raw@ + " isn't a positive number"@,
        },
{
    match parse_u64_exec(raw) {
        Some(seconds) if seconds > 0 => Ok(seconds),
        _ => {
            let mut e = String::new();
            push_str(&mut e, raw);
            push_str(&mut e, " isn't a positive number");
            Err(e)
        },
    }
}

/// Log level for a verbosity count.
#[derive(Debug, Clone, Copy, PartialEq, Eq, Structural)]
pub enum LogLevel {
    Error,
    Warn,
    Info,
    Debug,
    Trace,
}

/// The log level for `-v` given `verbosity` times: errors only by default,
/// then warnings, information, debugging, and everything from four on.
pub fn log_level(verbosity: u8) -> (r: LogLevel)
    ensures
        r == (if verbosity == 0 {
            LogLevel::Error
        } else if verbosity == 1 {
            LogLevel::Warn
        } else if verbosity == 2 {
            LogLevel::Info
        } else if verbosity == 3 {
            LogLevel::Debug
        } else {
            LogLevel::Trace
        }),
{
    match verbosity {
        0 => LogLevel::Error,
        1 => LogLevel::Warn,
        2 => LogLevel::Info,
        3 => LogLevel::Debug,
        _ => LogLevel::Trace,
    }
}

} // verus!

verus! {

/// Units names are read without regard to ASCII case: two names that differ
/// only in case select the same units, or are both refused.
pub proof fn lemma_units_case_insensitive(a: Seq<char>, b: Seq<char>)
    requires
        eq_ignore_ascii_case(a, b),
    ensures
        units_named(a) == units_named(b),
{
    let human = "human"@;
    let si = "si"@;
    if eq_ignore_ascii_case(a, human) {
        assert(eq_ignore_ascii_case(b, human));
    } else if eq_ignore_ascii_case(b, human) {
        assert(eq_ignore_ascii_case(a, human));
    } else if eq_ignore_ascii_case(a, si) {
        assert(eq_ignore_ascii_case(b, si));
    } else if eq_ignore_ascii_case(b, si) {
        assert(eq_ignore_ascii_case(a, si));
    }
}

/// Lower case by the ASCII table: each of `A` to `Z` becomes the letter 32
/// code points on (`a` to `z`); every other character stays as it is.
pub proof fn lemma_ascii_lower_table(c: char)
    ensures
        'A' <= c <= 'Z' ==> ascii_lower(c) as u32 == c as u32 + 32 && 'a' <= ascii_lower(c) <= 'z',
        !('A' <= c <= 'Z') ==> ascii_lower(c) == c,
{
}

/// Whether `s` spells `name` with any of its letters in upper case: each
/// character is that of `name` or the one 32 code points before it.
pub open spec fn spelled_in_any_case(s: Seq<char>, name: Seq<char>) -> bool {
    s.len() == name.len() && forall|i: int|
        0 <= i < s.len() ==> s[i] == name[i] || s[i] as u32 + 32 == name[i] as u32
}

/// The units names may be written with any of their letters in upper case
/// (`HUMAN`, `Human` or `hUmAn` select human units, `SI` or `Si` SI units),
/// and nothing else selects them.
pub proof fn lemma_units_any_case(s: Seq<char>)
    ensures
        units_named(s) == Some(Units::Human) <==> spelled_in_any_case(s, "human"@),
        units_named(s) == Some(Units::Si) <==> spelled_in_any_case(s, "si"@),
{
    reveal_strlit("human");
    reveal_strlit("si");
    let human = "human"@;
    let si = "si"@;
    if spelled_in_any_case(s, human) {
        assert forall|i: int| 0 <= i < 5 implies ascii_lower(s[i]) == ascii_lower(human[i]) by {
            if s[i] != human[i] {
                assert(s[i] as u32 + 32 == human[i] as u32);
            }
        }
        assert(eq_ignore_ascii_case(s, human));
    }
    if eq_ignore_ascii_case(s, human) {
        assert forall|i: int| 0 <= i < 5 implies s[i] == human[i] || s[i] as u32 + 32
            == human[i] as u32 by {
            assert(ascii_lower(s[i]) == ascii_lower(human[i]));
        }
    }
    if spelled_in_any_case(s, si) {
        assert forall|i: int| 0 <= i < 2 implies ascii_lower(s[i]) == ascii_lower(si[i]) by {
            if s[i] != si[i] {
                assert(s[i] as u32 + 32 == si[i] as u32);
            }
        }
        assert(eq_ignore_ascii_case(s, si));
        assert(!eq_ignore_ascii_case(s, human));
    }
    if eq_ignore_ascii_case(s, si) {
        assert forall|i: int| 0 <= i < 2 implies s[i] == si[i] || s[i] as u32 + 32 == si[i]
            as u32 by {
            assert(ascii_lower(s[i]) == ascii_lower(si[i]));
        }
    }
}

/// The decimal text of `n` is made of digits only and reads back as `n`.
pub proof fn lemma_decimal_digits(n: nat)
    ensures
        decimal(n).len() > 0,
        forall|i: int| 0 <= i < decimal(n).len() ==> is_digit_char(#[trigger] decimal(n)[i]),
        digit_chars_value(decimal(n)) == n,
    decreases n,
{
    if n >= 10 {
        lemma_decimal_digits(n / 10);
        let s = decimal(n / 10);
        let c = ((48 + n % 10) as char);
        assert((c as u32) == 48 + n % 10);
        assert(decimal(n) == s.push(c));
        assert(s.push(c).drop_last() =~= s);
        assert(forall|i: int| 0 <= i < s.len() ==> s.push(c)[i] == s[i]);
        assert(s.push(c).last() == c);
        assert(digit_chars_value(s.push(c)) == digit_chars_value(s) * 10 + n % 10);
    } else {
        let c = ((48 + n) as char);
        assert((c as u32) == 48 + n);
        assert(decimal(n) == seq![c]);
        assert(seq![c].drop_last() =~= Seq::<char>::empty());
        assert(digit_chars_value(Seq::<char>::empty()) == 0);
        assert(seq![c].last() == c);
        assert(digit_chars_value(seq![c]) == n);
    }
}

/// Every positive delay written in decimal reads back as itself.
pub proof fn lemma_delay_roundtrip(n: u64)
    requires
        n > 0,
    ensures
        parse_u64(decimal(n as nat)) == Some(n),
{
    lemma_decimal_digits(n as nat);
    assert(unsigned_digits(decimal(n as nat)) == decimal(n as nat)) by {
        assert(is_digit_char(decimal(n as nat)[0]));
    }
}

} // verus!
