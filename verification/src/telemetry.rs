//! The telemetry parser: turns the semi-structured `key: value` text that a
//! power-query tool prints for one device into a typed record.
//!
//! Parsing never fails. Each line is trimmed and split at its first colon
//! (values may hold further colons); lines without a colon and lines with an
//! unrecognized key are ignored; a later line for the same key wins. String
//! fields pass through trimmed, the boolean fields compare the value with
//! the literal `yes`, and numeric fields go through the permissive extractor
//! of [`crate::numeric`], so a record may be only partly filled in.

use vstd::prelude::*;
use vstd::string::*;

use crate::numeric::extracted;
use crate::numeric::extract_number;
use crate::numeric::Decimal;
use crate::text::first_index_of;
use crate::text::lemma_first_index_of;
use crate::text::trimmed;
use crate::text::find_from;
use crate::text::trim_str;
use crate::text::str_eq;

verus! {

broadcast use vstd::string::group_string_axioms;

/// One device's power-supply telemetry, as parsed from the query tool's
/// text. Missing or unreadable fields keep their defaults: empty strings,
/// `false`, and zero.
#[derive(Clone, Debug, PartialEq)]
pub struct PowerDeviceInfo {
    pub native_path: String,
    pub vendor: String,
    pub model: String,
    pub serial: String,
    pub updated: String,
    pub has_statistics: bool,
    pub battery_present: bool,
    pub rechargeable: bool,
    pub warning_level: String,
    pub energy_now: Decimal,
    pub energy_empty: Decimal,
    pub energy_full: Decimal,
    pub energy_full_design: Decimal,
    pub percentage: Decimal,
    pub capacity: Decimal,
}

/// The mathematical shape of a telemetry record: string fields as character
/// sequences, booleans and exact decimals as themselves.
#[verifier::ext_equal]
pub ghost struct PowerDeviceInfoView {
    pub native_path: Seq<char>,
    pub vendor: Seq<char>,
    pub model: Seq<char>,
    pub serial: Seq<char>,
    pub updated: Seq<char>,
    pub has_statistics: bool,
    pub battery_present: bool,
    pub rechargeable: bool,
    pub warning_level: Seq<char>,
    pub energy_now: Decimal,
    pub energy_empty: Decimal,
    pub energy_full: Decimal,
    pub energy_full_design: Decimal,
    pub percentage: Decimal,
    pub capacity: Decimal,
}

impl View for PowerDeviceInfo {
    type V = PowerDeviceInfoView;

    open spec fn view(&self) -> PowerDeviceInfoView {
        PowerDeviceInfoView {
            native_path: self.native_path@,
            vendor: self.vendor@,
            model: self.model@,
            serial: self.serial@,
            updated: self.updated@,
            has_statistics: self.has_statistics,
            battery_present: self.battery_present,
            rechargeable: self.rechargeable,
            warning_level: self.warning_level@,
            energy_now: self.energy_now,
            energy_empty: self.energy_empty,
            energy_full: self.energy_full,
            energy_full_design: self.energy_full_design,
            percentage: self.percentage,
            capacity: self.capacity,
        }
    }
}

/// The all-defaults record: what a failed query or empty text parses to.
pub open spec fn empty_record() -> PowerDeviceInfoView {
    PowerDeviceInfoView {
        native_path: Seq::empty(),
        vendor: Seq::empty(),
        model: Seq::empty(),
        serial: Seq::empty(),
        updated: Seq::empty(),
        has_statistics: false,
        battery_present: false,
        rechargeable: false,
        warning_level: Seq::empty(),
        energy_now: Decimal { mantissa: 0, scale: 0 },
        energy_empty: Decimal { mantissa: 0, scale: 0 },
        energy_full: Decimal { mantissa: 0, scale: 0 },
        energy_full_design: Decimal { mantissa: 0, scale: 0 },
        percentage: Decimal { mantissa: 0, scale: 0 },
        capacity: Decimal { mantissa: 0, scale: 0 },
    }
}

impl Default for PowerDeviceInfo {
    /// The all-defaults record.
    fn default() -> (r: Self)
        ensures
            r@ == empty_record(),
    {
        let r = PowerDeviceInfo {
            native_path: String::new(),
            vendor: String::new(),
            model: String::new(),
            serial: String::new(),
            updated: String::new(),
            has_statistics: false,
            battery_present: false,
            rechargeable: false,
            warning_level: String::new(),
            energy_now: Decimal { mantissa: 0, scale: 0 },
            energy_empty: Decimal { mantissa: 0, scale: 0 },
            energy_full: Decimal { mantissa: 0, scale: 0 },
            energy_full_design: Decimal { mantissa: 0, scale: 0 },
            percentage: Decimal { mantissa: 0, scale: 0 },
            capacity: Decimal { mantissa: 0, scale: 0 },
        };
        proof {
            assert(r@ =~= empty_record());
        }
        r
    }
}

/// The trimmed key of a line, when the trimmed line holds a colon.
pub open spec fn line_key(line: Seq<char>) -> Option<Seq<char>> {
    match first_index_of(trimmed(line), ':') {
        None => None,
        Some(i) => Some(trimmed(trimmed(line).take(i))),
    }
}

/// The trimmed value of a line: what follows its first colon.
pub open spec fn line_value(line: Seq<char>) -> Seq<char> {
    match first_index_of(trimmed(line), ':') {
        None => Seq::empty(),
        Some(i) => trimmed(trimmed(line).skip(i + 1)),
    }
}

/// The keys the parser recognizes.
pub open spec fn recognized_key(key: Seq<char>) -> bool {
    ||| key == "native-path"@
    ||| key == "vendor"@
    ||| key == "model"@
    ||| key == "serial"@
    ||| key == "updated"@
    ||| key == "has statistics"@
    ||| key == "present"@
    ||| key == "rechargeable"@
    ||| key == "warning-level"@
    ||| key == "energy-now"@
    ||| key == "energy-empty"@
    ||| key == "energy-full"@
    ||| key == "energy-full-design"@
    ||| key == "percentage"@
    ||| key == "capacity"@
}

/// One line applied to a record: the recognized field, if any, takes the
/// line's value; everything else is left alone.
pub open spec fn line_update(v: PowerDeviceInfoView, line: Seq<char>) -> PowerDeviceInfoView {
    match line_key(line) {
        None => v,
        Some(key) => {
            let value = line_value(line);
            if key == "native-path"@ {
                PowerDeviceInfoView { native_path: value, ..v }
            } else if key == "vendor"@ {
                PowerDeviceInfoView { vendor: value, ..v }
            } else if key == "model"@ {
                PowerDeviceInfoView { model: value, ..v }
            } else if key == "serial"@ {
                PowerDeviceInfoView { serial: value, ..v }
            } else if key == "updated"@ {
                PowerDeviceInfoView { updated: value, ..v }
            } else if key == "has statistics"@ {
                PowerDeviceInfoView { has_statistics: value == "yes"@, ..v }
            } else if key == "present"@ {
                PowerDeviceInfoView { battery_present: value == "yes"@, ..v }
            } else if key == "rechargeable"@ {
                PowerDeviceInfoView { rechargeable: value == "yes"@, ..v }
            } else if key == "warning-level"@ {
                PowerDeviceInfoView { warning_level: value, ..v }
            } else if key == "energy-now"@ {
                PowerDeviceInfoView { energy_now: extracted(value), ..v }
            } else if key == "energy-empty"@ {
                PowerDeviceInfoView { energy_empty: extracted(value), ..v }
            } else if key == "energy-full"@ {
                PowerDeviceInfoView { energy_full: extracted(value), ..v }
            } else if key == "energy-full-design"@ {
                PowerDeviceInfoView { energy_full_design: extracted(value), ..v }
            } else if key == "percentage"@ {
                PowerDeviceInfoView { percentage: extracted(value), ..v }
            } else if key == "capacity"@ {
                PowerDeviceInfoView { capacity: extracted(value), ..v }
            } else {
                v
            }
        },
    }
}

/// The record after reading every line of `text`, starting from `v`: the
/// text up to the first newline is one line, the rest follows, and a later
/// line for the same key wins.
pub open spec fn parse_rest(v: PowerDeviceInfoView, text: Seq<char>) -> PowerDeviceInfoView
    decreases text.len(),
    via parse_rest_decreases
{
    match first_index_of(text, '\n') {
        None => line_update(v, text),
        Some(i) => parse_rest(line_update(v, text.take(i)), text.skip(i + 1)),
    }
}

#[via_fn]
proof fn parse_rest_decreases(v: PowerDeviceInfoView, text: Seq<char>) {
    lemma_first_index_of(text, '\n');
}

/// What `parse` returns: the fold of every line over the default record.
pub open spec fn parsed(text: Seq<char>) -> PowerDeviceInfoView {
    parse_rest(empty_record(), text)
}

/// A line without a colon, or whose key nothing recognizes, leaves the
/// record exactly as it was: unknown keys never appear in the output and
/// never cause a failure.
pub proof fn lemma_unknown_line_ignored(v: PowerDeviceInfoView, line: Seq<char>)
    requires
        match line_key(line) {
            None => true,
            Some(key) => !recognized_key(key),
        },
    ensures
        line_update(v, line) == v,
{
}

/// A recognized `key: value` line sets exactly the named field: string
/// fields take the trimmed value, boolean fields the comparison of the
/// trimmed value with `yes`, and numeric fields the extracted number.
pub proof fn lemma_recognized_line_sets_field(v: PowerDeviceInfoView, line: Seq<char>)
    ensures
        line_key(line) == Some("native-path"@) ==> line_update(v, line) == (PowerDeviceInfoView {
            native_path: line_value(line),
            ..v
        }),
        line_key(line) == Some("vendor"@) ==> line_update(v, line) == (PowerDeviceInfoView {
            vendor: line_value(line),
            ..v
        }),
        line_key(line) == Some("model"@) ==> line_update(v, line) == (PowerDeviceInfoView {
            model: line_value(line),
            ..v
        }),
        line_key(line) == Some("serial"@) ==> line_update(v, line) == (PowerDeviceInfoView {
            serial: line_value(line),
            ..v
        }),
        line_key(line) == Some("updated"@) ==> line_update(v, line) == (PowerDeviceInfoView {
            updated: line_value(line),
            ..v
        }),
        line_key(line) == Some("has statistics"@) ==> line_update(v, line) == (PowerDeviceInfoView {
            has_statistics: line_value(line) == "yes"@,
            ..v
        }),
        line_key(line) == Some("present"@) ==> line_update(v, line) == (PowerDeviceInfoView {
            battery_present: line_value(line) == "yes"@,
            ..v
        }),
        line_key(line) == Some("rechargeable"@) ==> line_update(v, line) == (PowerDeviceInfoView {
            rechargeable: line_value(line) == "yes"@,
            ..v
        }),
        line_key(line) == Some("warning-level"@) ==> line_update(v, line) == (PowerDeviceInfoView {
            warning_level: line_value(line),
            ..v
        }),
        line_key(line) == Some("energy-now"@) ==> line_update(v, line) == (PowerDeviceInfoView {
            energy_now: extracted(line_value(line)),
            ..v
        }),
        line_key(line) == Some("energy-empty"@) ==> line_update(v, line) == (PowerDeviceInfoView {
            energy_empty: extracted(line_value(line)),
            ..v
        }),
        line_key(line) == Some("energy-full"@) ==> line_update(v, line) == (PowerDeviceInfoView {
            energy_full: extracted(line_value(line)),
            ..v
        }),
        line_key(line) == Some("energy-full-design"@) ==> line_update(v, line) == (
        PowerDeviceInfoView { energy_full_design: extracted(line_value(line)), ..v }),
        line_key(line) == Some("percentage"@) ==> line_update(v, line) == (PowerDeviceInfoView {
            percentage: extracted(line_value(line)),
            ..v
        }),
        line_key(line) == Some("capacity"@) ==> line_update(v, line) == (PowerDeviceInfoView {
            capacity: extracted(line_value(line)),
            ..v
        }),
{
    reveal_strlit("native-path");
    reveal_strlit("vendor");
    reveal_strlit("model");
    reveal_strlit("serial");
    reveal_strlit("updated");
    reveal_strlit("has statistics");
    reveal_strlit("present");
    reveal_strlit("rechargeable");
    reveal_strlit("warning-level");
    reveal_strlit("energy-now");
    reveal_strlit("energy-empty");
    reveal_strlit("energy-full");
    reveal_strlit("energy-full-design");
    reveal_strlit("percentage");
    reveal_strlit("capacity");
    assert("native-path"@.len() == 11);
    assert("vendor"@.len() == 6);
    assert("model"@.len() == 5);
    assert("serial"@.len() == 6);
    assert("updated"@.len() == 7);
    assert("has statistics"@.len() == 14);
    assert("present"@.len() == 7);
    assert("rechargeable"@.len() == 12);
    assert("warning-level"@.len() == 13);
    assert("energy-now"@.len() == 10);
    assert("energy-empty"@.len() == 12);
    assert("energy-full"@.len() == 11);
    assert("energy-full-design"@.len() == 18);
    assert("percentage"@.len() == 10);
    assert("capacity"@.len() == 8);
    assert("serial"@[0] == 's' && "vendor"@[0] == 'v');
    assert("present"@[0] == 'p' && "updated"@[0] == 'u');
    assert("energy-full"@[7] == 'f' && "native-path"@[7] == 'p');
    assert("energy-empty"@[0] == 'e' && "rechargeable"@[0] == 'r');
    assert("percentage"@[0] == 'p' && "energy-now"@[0] == 'e');
}

/// Parsing reads nothing but the text: two records parsed from the same
/// text are field-for-field equal, so a second parse changes nothing.
pub proof fn lemma_parse_deterministic(
    text: Seq<char>,
    r1: PowerDeviceInfoView,
    r2: PowerDeviceInfoView,
)
    requires
        r1 == parsed(text),
        r2 == parsed(text),
    ensures
        r1 == r2,
{
}

/// Whether a line is one the parser ignores.
pub open spec fn line_is_ignored(line: Seq<char>) -> bool {
    match line_key(line) {
        None => true,
        Some(key) => !recognized_key(key),
    }
}

/// Whether no line of `text` carries a recognized key.
pub open spec fn no_recognized_line(text: Seq<char>) -> bool
    decreases text.len(),
    via no_recognized_line_decreases
{
    match first_index_of(text, '\n') {
        None => line_is_ignored(text),
        Some(i) => line_is_ignored(text.take(i)) && no_recognized_line(text.skip(i + 1)),
    }
}

#[via_fn]
proof fn no_recognized_line_decreases(text: Seq<char>) {
    lemma_first_index_of(text, '\n');
}

/// Text none of whose lines is recognized parses to the record it started
/// from; over the defaults, such text yields the all-defaults record.
pub proof fn lemma_ignored_text_changes_nothing(v: PowerDeviceInfoView, text: Seq<char>)
    requires
        no_recognized_line(text),
    ensures
        parse_rest(v, text) == v,
    decreases text.len(),
{
    lemma_first_index_of(text, '\n');
    match first_index_of(text, '\n') {
        None => {
            lemma_unknown_line_ignored(v, text);
        },
        Some(i) => {
            lemma_unknown_line_ignored(v, text.take(i));
            lemma_ignored_text_changes_nothing(v, text.skip(i + 1));
        },
    }
}

/// Whether some line of `text` has the given trimmed key.
pub open spec fn has_line_with_key(text: Seq<char>, key: Seq<char>) -> bool
    decreases text.len(),
    via has_line_with_key_decreases
{
    match first_index_of(text, '\n') {
        None => line_key(text) == Some(key),
        Some(i) => line_key(text.take(i)) == Some(key) || has_line_with_key(text.skip(i + 1), key),
    }
}

#[via_fn]
proof fn has_line_with_key_decreases(text: Seq<char>, key: Seq<char>) {
    lemma_first_index_of(text, '\n');
}

proof fn lemma_line_keeps_battery_present(v: PowerDeviceInfoView, line: Seq<char>)
    requires
        line_key(line) != Some("present"@),
    ensures
        line_update(v, line).battery_present == v.battery_present,
{
}

/// Without a `present` line the battery stays marked absent: text that
/// never names that key leaves `battery_present` where it began, `false`
/// over the defaults.
pub proof fn lemma_no_present_line_keeps_battery_absent(v: PowerDeviceInfoView, text: Seq<char>)
    requires
        !has_line_with_key(text, "present"@),
    ensures
        parse_rest(v, text).battery_present == v.battery_present,
    decreases text.len(),
{
    lemma_first_index_of(text, '\n');
    match first_index_of(text, '\n') {
        None => {
            lemma_line_keeps_battery_present(v, text);
        },
        Some(i) => {
            lemma_line_keeps_battery_present(v, text.take(i));
            lemma_no_present_line_keeps_battery_absent(
                line_update(v, text.take(i)),
                text.skip(i + 1),
            );
        },
    }
}

/// Applies one line to the record under construction.
fn process_line(info: &mut PowerDeviceInfo, line: &str)
    ensures
        final(info)@ == line_update(old(info)@, line@),
{
    let t = trim_str(line);
    proof {
        lemma_first_index_of(t@, ':');
    }
    match find_from(t, 0, ':') {
        None => {},
        Some(ci) => {
            let tn = t.unicode_len();
            let key_part = t.substring_char(0, ci);
            let val_part = t.substring_char(ci + 1, tn);
            proof {
                assert(first_index_of(t@, ':') == Some(ci as int));
                assert(key_part@ =~= t@.take(ci as int));
                assert(val_part@ =~= t@.skip(ci + 1));
            }
            let key = trim_str(key_part);
            let value = trim_str(val_part);
            if str_eq(key, "native-path") {
                info.native_path = String::from_str(value);
            } else if str_eq(key, "vendor") {
                info.vendor = String::from_str(value);
            } else if str_eq(key, "model") {
                info.model = String::from_str(value);
            } else if str_eq(key, "serial") {
                info.serial = String::from_str(value);
            } else if str_eq(key, "updated") {
                info.updated = String::from_str(value);
            } else if str_eq(key, "has statistics") {
                info.has_statistics = str_eq(value, "yes");
            } else if str_eq(key, "present") {
                info.battery_present = str_eq(value, "yes");
            } else if str_eq(key, "rechargeable") {
                info.rechargeable = str_eq(value, "yes");
            } else if str_eq(key, "warning-level") {
                info.warning_level = String::from_str(value);
            } else if str_eq(key, "energy-now") {
                info.energy_now = extract_number(value);
            } else if str_eq(key, "energy-empty") {
                info.energy_empty = extract_number(value);
            } else if str_eq(key, "energy-full") {
                info.energy_full = extract_number(value);
            } else if str_eq(key, "energy-full-design") {
                info.energy_full_design = extract_number(value);
            } else if str_eq(key, "percentage") {
                info.percentage = extract_number(value);
            } else if str_eq(key, "capacity") {
                info.capacity = extract_number(value);
            }
            proof {
                assert(final(info)@ =~= line_update(old(info)@, line@));
            }
        },
    }
}

/// Reads the query tool's text into a record. Parsing never fails: text
/// that carries no recognized `key: value` line leaves the defaults.
pub fn parse(raw_text: &str) -> (info: PowerDeviceInfo)
    ensures
        info@ == parsed(raw_text@),
{
    let n = raw_text.unicode_len();
    let mut info = PowerDeviceInfo::default();
    let mut pos: usize = 0;
    proof {
        assert(raw_text@.skip(0) =~= raw_text@);
    }
    loop
        invariant_except_break
            n == raw_text@.len(),
            pos <= n,
            parse_rest(info@, raw_text@.skip(pos as int)) == parsed(raw_text@),
        ensures
            info@ == parsed(raw_text@),
        decreases n - pos,
    {
        let ghost rest = raw_text@.skip(pos as int);
        proof {
            lemma_first_index_of(rest, '\n');
            assert(forall|j: int| 0 <= j < rest.len() ==> rest[j] == raw_text@[j + pos]);
        }
        match find_from(raw_text, pos, '\n') {
            Some(nl) => {
                let line = raw_text.substring_char(pos, nl);
                proof {
                    assert(rest[(nl - pos) as int] == '\n');
                    assert(first_index_of(rest, '\n') == Some((nl - pos) as int));
                    assert(rest.take((nl - pos) as int) =~= line@);
                    assert(rest.skip(nl - pos + 1) =~= raw_text@.skip(nl + 1));
                }
                process_line(&mut info, line);
                pos = nl + 1;
            },
            None => {
                let line = raw_text.substring_char(pos, n);
                proof {
                    assert(first_index_of(rest, '\n') is None);
                    assert(rest =~= line@);
                }
                process_line(&mut info, line);
                break;
            },
        }
    }
    info
}

} // verus!
