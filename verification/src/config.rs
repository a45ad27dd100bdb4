//! The configuration store's data model and its on-disk text.
//!
//! The configuration is a JSON object whose string member
//! `battery_location` names the power-supply device to query. Writing
//! always produces the whole one-member object with a trailing newline.
//! Reading accepts any JSON object that carries `battery_location` once as
//! a string — members under other keys are read past and ignored, whatever
//! value they hold, so files written by a newer version still load — and
//! anything else is a hard error, since there is no sensible default for a
//! configuration file that exists but is garbage. The file itself is read
//! and written by the caller; this module only renders and parses its text.

use vstd::prelude::*;
use vstd::string::*;

use crate::text::char_from_u32;
use crate::text::push_char;

verus! {

/// The persisted configuration: which power-supply device to query.
#[derive(Debug, Clone, PartialEq)]
pub struct BatteryStatusConfiguration {
    pub battery_location: String,
}

impl View for BatteryStatusConfiguration {
    type V = Seq<char>;

    open spec fn view(&self) -> Seq<char> {
        self.battery_location@
    }
}

impl Default for BatteryStatusConfiguration {
    /// The empty device location: what a caller falls back to when the
    /// configuration file can be neither read nor created.
    fn default() -> (c: Self)
        ensures
            c@ == Seq::<char>::empty(),
    {
        BatteryStatusConfiguration { battery_location: String::new() }
    }
}

/// The device written into a configuration created on first run.
pub fn fallback_device_location() -> (s: String)
    ensures
        s@ == "/org/freedesktop/UPower/devices/battery_BAT0"@,
{
    String::from_str("/org/freedesktop/UPower/devices/battery_BAT0")
}

/// The configuration created on first run, when no file exists yet.
pub fn default_configuration() -> (c: BatteryStatusConfiguration)
    ensures
        c@ == "/org/freedesktop/UPower/devices/battery_BAT0"@,
{
    BatteryStatusConfiguration { battery_location: fallback_device_location() }
}

/// Reading a configuration file that is not the expected object fails
/// loudly; the one error says no more, as the caller treats any bad file as
/// fatal.
#[derive(Clone, Copy, Debug, PartialEq, Eq, Structural)]
pub enum ConfigError {
    Malformed,
}

/// The sixteen lowercase hexadecimal digits.
pub open spec fn hex_digit_char(n: int) -> char {
    if n == 0 {
        '0'
    } else if n == 1 {
        '1'
    } else if n == 2 {
        '2'
    } else if n == 3 {
        '3'
    } else if n == 4 {
        '4'
    } else if n == 5 {
        '5'
    } else if n == 6 {
        '6'
    } else if n == 7 {
        '7'
    } else if n == 8 {
        '8'
    } else if n == 9 {
        '9'
    } else if n == 10 {
        'a'
    } else if n == 11 {
        'b'
    } else if n == 12 {
        'c'
    } else if n == 13 {
        'd'
    } else if n == 14 {
        'e'
    } else {
        'f'
    }
}

/// How one character is written inside a JSON string: quotes, backslashes
/// and control characters are escaped, everything else passes through.
pub open spec fn escape_char(c: char) -> Seq<char> {
    if c == '"' {
        seq!['\\', '"']
    } else if c == '\\' {
        seq!['\\', '\\']
    } else if c == '\u{0008}' {
        seq!['\\', 'b']
    } else if c == '\t' {
        seq!['\\', 't']
    } else if c == '\n' {
        seq!['\\', 'n']
    } else if c == '\u{000C}' {
        seq!['\\', 'f']
    } else if c == '\r' {
        seq!['\\', 'r']
    } else if (c as u32) < 0x20 {
        let hi = hex_digit_char(c as u32 as int / 16);
        let lo = hex_digit_char(c as u32 as int % 16);
        seq!['\\', 'u', '0', '0', hi, lo]
    } else {
        seq![c]
    }
}

/// A string's characters written one after the other in JSON form.
pub open spec fn escaped(s: Seq<char>) -> Seq<char>
    decreases s.len(),
{
    if s.len() == 0 {
        Seq::empty()
    } else {
        escape_char(s.first()) + escaped(s.drop_first())
    }
}

/// The whole on-disk text for a device location: the one-member object,
/// newline-terminated.
pub open spec fn config_payload(loc: Seq<char>) -> Seq<char> {
    "{\"battery_location\": \""@ + escaped(loc) + "\"}\n"@
}

/// Escaping distributes over concatenation.
proof fn lemma_escaped_append(a: Seq<char>, b: Seq<char>)
    ensures
        escaped(a + b) == escaped(a) + escaped(b),
    decreases a.len(),
{
    if a.len() == 0 {
        assert(a + b =~= b);
        assert(escaped(a) + escaped(b) =~= escaped(b));
    } else {
        assert((a + b).drop_first() =~= a.drop_first() + b);
        lemma_escaped_append(a.drop_first(), b);
        assert(escaped(a) + escaped(b) =~= escape_char(a.first()) + (escaped(a.drop_first())
            + escaped(b)));
    }
}

fn hex_digit_of(n: u32) -> (c: char)
    requires
        n < 16,
    ensures
        c == hex_digit_char(n as int),
{
    if n == 0 {
        '0'
    } else if n == 1 {
        '1'
    } else if n == 2 {
        '2'
    } else if n == 3 {
        '3'
    } else if n == 4 {
        '4'
    } else if n == 5 {
        '5'
    } else if n == 6 {
        '6'
    } else if n == 7 {
        '7'
    } else if n == 8 {
        '8'
    } else if n == 9 {
        '9'
    } else if n == 10 {
        'a'
    } else if n == 11 {
        'b'
    } else if n == 12 {
        'c'
    } else if n == 13 {
        'd'
    } else if n == 14 {
        'e'
    } else {
        'f'
    }
}

/// Appends `s` to `out` in JSON string form.
fn append_escaped(out: &mut String, s: &str)
    ensures
        final(out)@ == old(out)@ + escaped(s@),
{
    let n = s.unicode_len();
    let mut i: usize = 0;
    proof {
        assert(s@.take(0) =~= Seq::<char>::empty());
        assert(old(out)@ + escaped(s@.take(0)) =~= old(out)@);
    }
    while i < n
        invariant
            n == s@.len(),
            i <= n,
            out@ == old(out)@ + escaped(s@.take(i as int)),
        decreases n - i,
    {
        let c = s.get_char(i);
        let u = c as u32;
        if c == '"' {
            push_char(out, '\\');
            push_char(out, '"');
        } else if c == '\\' {
            push_char(out, '\\');
            push_char(out, '\\');
        } else if u == 0x08 {
            push_char(out, '\\');
            push_char(out, 'b');
        } else if u == 0x09 {
            push_char(out, '\\');
            push_char(out, 't');
        } else if u == 0x0A {
            push_char(out, '\\');
            push_char(out, 'n');
        } else if u == 0x0C {
            push_char(out, '\\');
            push_char(out, 'f');
        } else if u == 0x0D {
            push_char(out, '\\');
            push_char(out, 'r');
        } else if u < 0x20 {
            push_char(out, '\\');
            push_char(out, 'u');
            push_char(out, '0');
            push_char(out, '0');
            push_char(out, hex_digit_of(u / 16));
            push_char(out, hex_digit_of(u % 16));
        } else {
            push_char(out, c);
        }
        proof {
            assert(s@.take(i + 1) =~= s@.take(i as int) + seq![s@[i as int]]);
            lemma_escaped_append(s@.take(i as int), seq![s@[i as int]]);
            assert(escaped(seq![s@[i as int]]) =~= escape_char(s@[i as int])) by {
                assert(seq![s@[i as int]].drop_first() =~= Seq::<char>::empty());
                assert(escaped(Seq::<char>::empty()) =~= Seq::<char>::empty());
            }
            assert(out@ =~= old(out)@ + escaped(s@.take(i + 1)));
        }
        i += 1;
    }
    proof {
        assert(s@.take(n as int) =~= s@);
    }
}

/// The exact text that saving writes for this configuration.
pub fn render_config(cfg: &BatteryStatusConfiguration) -> (s: String)
    ensures
        s@ == config_payload(cfg@),
{
    let mut out = String::from_str("{\"battery_location\": \"");
    append_escaped(&mut out, cfg.battery_location.as_str());
    out.append("\"}\n");
    out
}

/// The whitespace JSON allows between tokens.
pub open spec fn is_json_space(c: char) -> bool {
    c as u32 == 0x20 || c as u32 == 0x09 || c as u32 == 0x0A || c as u32 == 0x0D
}

/// The first position at or after `pos` that holds no JSON whitespace.
pub open spec fn skip_json_spaces(s: Seq<char>, pos: int) -> int
    decreases s.len() - pos,
{
    if 0 <= pos && pos < s.len() && is_json_space(s[pos]) {
        skip_json_spaces(s, pos + 1)
    } else {
        pos
    }
}

/// The value of one hexadecimal digit, lower or upper case.
pub open spec fn hex_val(c: char) -> int {
    if 48 <= c as u32 && c as u32 <= 57 {
        c as u32 - 48
    } else if 97 <= c as u32 && c as u32 <= 102 {
        c as u32 - 87
    } else if 65 <= c as u32 && c as u32 <= 70 {
        c as u32 - 55
    } else {
        -1
    }
}

/// The value of the four hexadecimal digits at `pos`, or -1.
pub open spec fn hex4(s: Seq<char>, pos: int) -> int {
    if 0 <= pos && pos + 4 <= s.len() && hex_val(s[pos]) >= 0 && hex_val(s[pos + 1]) >= 0
        && hex_val(s[pos + 2]) >= 0 && hex_val(s[pos + 3]) >= 0 {
        hex_val(s[pos]) * 4096 + hex_val(s[pos + 1]) * 256 + hex_val(s[pos + 2]) * 16 + hex_val(
            s[pos + 3],
        )
    } else {
        -1
    }
}

/// What the escape that starts at `pos` (just after the backslash) stands
/// for, and where its text ends: the short escapes, `\u` with four
/// hexadecimal digits, and a surrogate pair as two `\u` escapes.
pub open spec fn escape_result(s: Seq<char>, pos: int) -> Option<(int, char)> {
    if !(0 <= pos && pos < s.len()) {
        None
    } else {
        let c = s[pos];
        if c == '"' {
            Some((pos + 1, '"'))
        } else if c == '\\' {
            Some((pos + 1, '\\'))
        } else if c == '/' {
            Some((pos + 1, '/'))
        } else if c == 'b' {
            Some((pos + 1, '\u{0008}'))
        } else if c == 'f' {
            Some((pos + 1, '\u{000C}'))
        } else if c == 'n' {
            Some((pos + 1, '\n'))
        } else if c == 'r' {
            Some((pos + 1, '\r'))
        } else if c == 't' {
            Some((pos + 1, '\t'))
        } else if c == 'u' {
            let x = hex4(s, pos + 1);
            if x < 0 {
                None
            } else if x < 0xD800 || 0xE000 <= x {
                Some((pos + 5, x as u32 as char))
            } else if x < 0xDC00 {
                if pos + 7 <= s.len() && s[pos + 5] == '\\' && s[pos + 6] == 'u' {
                    let y = hex4(s, pos + 7);
                    if 0xDC00 <= y && y <= 0xDFFF {
                        Some((pos + 11, (0x10000 + (x - 0xD800) * 0x400 + (y - 0xDC00)) as u32 as char))
                    } else {
                        None
                    }
                } else {
                    None
                }
            } else {
                None
            }
        } else {
            None
        }
    }
}

proof fn lemma_escape_result_advances(s: Seq<char>, pos: int)
    ensures
        escape_result(s, pos) matches Some(pc) ==> pos < pc.0 <= s.len(),
{
}

/// The content of a JSON string read from `pos` (just after the opening
/// quote) up to its closing quote, with escapes decoded, and the position
/// after the closing quote; `None` when no valid string lies there.
pub open spec fn parse_string_body(s: Seq<char>, pos: int) -> Option<(int, Seq<char>)>
    decreases s.len() - pos,
    via parse_string_body_decreases
{
    if !(0 <= pos && pos < s.len()) {
        None
    } else {
        let c = s[pos];
        if c == '"' {
            Some((pos + 1, Seq::empty()))
        } else if c == '\\' {
            match escape_result(s, pos + 1) {
                None => None,
                Some(pc) => match parse_string_body(s, pc.0) {
                    None => None,
                    Some(pr) => Some((pr.0, seq![pc.1] + pr.1)),
                },
            }
        } else if (c as u32) < 0x20 {
            None
        } else {
            match parse_string_body(s, pos + 1) {
                None => None,
                Some(pr) => Some((pr.0, seq![c] + pr.1)),
            }
        }
    }
}

#[via_fn]
proof fn parse_string_body_decreases(s: Seq<char>, pos: int) {
    lemma_escape_result_advances(s, pos + 1);
}

broadcast proof fn lemma_parse_string_body_bounds(s: Seq<char>, pos: int)
    ensures
        (#[trigger] parse_string_body(s, pos)) matches Some(pr) ==> pos < pr.0 <= s.len(),
    decreases s.len() - pos,
{
    if 0 <= pos && pos < s.len() {
        let c = s[pos];
        if c == '\\' {
            lemma_escape_result_advances(s, pos + 1);
            match escape_result(s, pos + 1) {
                None => {},
                Some(pc) => {
                    lemma_parse_string_body_bounds(s, pc.0);
                },
            }
        } else if c != '"' {
            lemma_parse_string_body_bounds(s, pos + 1);
        }
    }
}

broadcast proof fn lemma_skip_json_spaces_bounds(s: Seq<char>, pos: int)
    ensures
        pos <= #[trigger] skip_json_spaces(s, pos),
        pos <= s.len() ==> skip_json_spaces(s, pos) <= s.len(),
    decreases s.len() - pos,
{
    if 0 <= pos && pos < s.len() && is_json_space(s[pos]) {
        lemma_skip_json_spaces_bounds(s, pos + 1);
    }
}

/// The first position at or after `pos` that holds no decimal digit.
pub open spec fn skip_digits(s: Seq<char>, pos: int) -> int
    decreases s.len() - pos,
{
    if 0 <= pos && pos < s.len() && crate::numeric::is_digit(s[pos]) {
        skip_digits(s, pos + 1)
    } else {
        pos
    }
}

broadcast proof fn lemma_skip_digits_bounds(s: Seq<char>, pos: int)
    ensures
        pos <= #[trigger] skip_digits(s, pos),
        pos <= s.len() ==> skip_digits(s, pos) <= s.len(),
    decreases s.len() - pos,
{
    if 0 <= pos && pos < s.len() && crate::numeric::is_digit(s[pos]) {
        lemma_skip_digits_bounds(s, pos + 1);
    }
}

/// Where the JSON keyword (`true`, `false` or `null`) at `pos` ends.
pub open spec fn skip_keyword(s: Seq<char>, pos: int) -> Option<int> {
    if 0 <= pos && pos + 4 <= s.len() && s[pos] == 't' && s[pos + 1] == 'r' && s[pos + 2] == 'u'
        && s[pos + 3] == 'e' {
        Some(pos + 4)
    } else if 0 <= pos && pos + 5 <= s.len() && s[pos] == 'f' && s[pos + 1] == 'a' && s[pos + 2]
        == 'l' && s[pos + 3] == 's' && s[pos + 4] == 'e' {
        Some(pos + 5)
    } else if 0 <= pos && pos + 4 <= s.len() && s[pos] == 'n' && s[pos + 1] == 'u' && s[pos + 2]
        == 'l' && s[pos + 3] == 'l' {
        Some(pos + 4)
    } else {
        None
    }
}

/// Where the JSON number at `pos` ends, if a valid one lies there.
pub open spec fn skip_number(s: Seq<char>, pos: int) -> Option<int> {
    if !(0 <= pos && pos < s.len()) {
        None
    } else {
        let p1 = if s[pos] == '-' {
            pos + 1
        } else {
            pos
        };
        if !(p1 < s.len() && crate::numeric::is_digit(s[p1])) {
            None
        } else {
            let p2 = if s[p1] == '0' {
                p1 + 1
            } else {
                skip_digits(s, p1)
            };
            let whole = if p2 < s.len() && s[p2] == '.' {
                let d = skip_digits(s, p2 + 1);
                if d == p2 + 1 {
                    None
                } else {
                    Some(d)
                }
            } else {
                Some(p2)
            };
            match whole {
                None => None,
                Some(p3) => {
                    if p3 < s.len() && (s[p3] == 'e' || s[p3] == 'E') {
                        let p4 = if p3 + 1 < s.len() && (s[p3 + 1] == '+' || s[p3 + 1] == '-') {
                            p3 + 2
                        } else {
                            p3 + 1
                        };
                        let p5 = skip_digits(s, p4);
                        if p5 == p4 {
                            None
                        } else {
                            Some(p5)
                        }
                    } else {
                        Some(p3)
                    }
                },
            }
        }
    }
}

broadcast proof fn lemma_skip_number_bounds(s: Seq<char>, pos: int)
    ensures
        (#[trigger] skip_number(s, pos)) matches Some(p) ==> pos < p <= s.len(),
{
    if 0 <= pos && pos < s.len() {
        let p1 = if s[pos] == '-' {
            pos + 1
        } else {
            pos
        };
        if p1 < s.len() && crate::numeric::is_digit(s[p1]) {
            lemma_skip_digits_bounds(s, p1);
            lemma_skip_digits_bounds(s, p1 + 1);
            let p2 = if s[p1] == '0' {
                p1 + 1
            } else {
                skip_digits(s, p1)
            };
            assert(p1 < p2);
            lemma_skip_digits_bounds(s, p2 + 1);
            let whole = if p2 < s.len() && s[p2] == '.' {
                let d = skip_digits(s, p2 + 1);
                if d == p2 + 1 {
                    None
                } else {
                    Some(d)
                }
            } else {
                Some(p2)
            };
            match whole {
                None => {},
                Some(p3) => {
                    if p3 < s.len() && (s[p3] == 'e' || s[p3] == 'E') {
                        let p4 = if p3 + 1 < s.len() && (s[p3 + 1] == '+' || s[p3 + 1] == '-') {
                            p3 + 2
                        } else {
                            p3 + 1
                        };
                        lemma_skip_digits_bounds(s, p4);
                    }
                },
            }
        }
    }
}

/// Where the JSON value at `pos` ends, when a valid one lies there: a
/// string, an object, an array, a number, or a keyword. Members of the
/// configuration object that nothing recognizes are read past with this,
/// whatever their value, as the store ignores them.
pub open spec fn skip_json_value(s: Seq<char>, pos: int) -> Option<int>
    decreases s.len() - pos, 0int,
    via skip_json_value_decreases
{
    if !(0 <= pos && pos < s.len()) {
        None
    } else {
        let c = s[pos];
        if c == '"' {
            match parse_string_body(s, pos + 1) {
                None => None,
                Some(pr) => Some(pr.0),
            }
        } else if c == '{' {
            skip_members(s, skip_json_spaces(s, pos + 1))
        } else if c == '[' {
            skip_items(s, skip_json_spaces(s, pos + 1))
        } else if c == 't' || c == 'f' || c == 'n' {
            skip_keyword(s, pos)
        } else {
            skip_number(s, pos)
        }
    }
}

#[via_fn]
proof fn skip_json_value_decreases(s: Seq<char>, pos: int) {
    broadcast use lemma_skip_json_spaces_bounds;

}

/// Where the member list that starts at `pos` (a key's opening quote or the
/// closing brace) ends, every member skipped. The two bound checks only
/// keep the recursion well-founded: a valid member always passes them.
pub open spec fn skip_members(s: Seq<char>, pos: int) -> Option<int>
    decreases s.len() - pos, 1int,
    via skip_members_decreases
{
    if !(0 <= pos && pos < s.len()) {
        None
    } else if s[pos] == '}' {
        Some(pos + 1)
    } else if s[pos] == '"' {
        match parse_string_body(s, pos + 1) {
            None => None,
            Some(pk) => {
                let p3 = skip_json_spaces(s, pk.0);
                if !(p3 < s.len() && s[p3] == ':') {
                    None
                } else {
                    let p4 = skip_json_spaces(s, p3 + 1);
                    match skip_json_value(s, p4) {
                        None => None,
                        Some(p5) => {
                            if !(p4 < p5 && p5 <= s.len()) {
                                None
                            } else {
                                let p6 = skip_json_spaces(s, p5);
                                if !(p6 < s.len()) {
                                    None
                                } else if s[p6] == ',' {
                                    let p7 = skip_json_spaces(s, p6 + 1);
                                    if p7 < s.len() && s[p7] == '"' {
                                        skip_members(s, p7)
                                    } else {
                                        None
                                    }
                                } else if s[p6] == '}' {
                                    Some(p6 + 1)
                                } else {
                                    None
                                }
                            }
                        },
                    }
                }
            },
        }
    } else {
        None
    }
}

#[via_fn]
proof fn skip_members_decreases(s: Seq<char>, pos: int) {
    broadcast use lemma_skip_json_spaces_bounds, lemma_parse_string_body_bounds;

}

/// Where the item list that starts at `pos` (a value or the closing
/// bracket) ends, every item skipped. The bound check only keeps the
/// recursion well-founded: a valid item always passes it.
pub open spec fn skip_items(s: Seq<char>, pos: int) -> Option<int>
    decreases s.len() - pos, 1int,
    via skip_items_decreases
{
    if !(0 <= pos && pos < s.len()) {
        None
    } else if s[pos] == ']' {
        Some(pos + 1)
    } else {
        match skip_json_value(s, pos) {
            None => None,
            Some(p1) => {
                if !(pos < p1 && p1 <= s.len()) {
                    None
                } else {
                    let p2 = skip_json_spaces(s, p1);
                    if !(p2 < s.len()) {
                        None
                    } else if s[p2] == ',' {
                        let p3 = skip_json_spaces(s, p2 + 1);
                        if p3 < s.len() && s[p3] != ']' {
                            skip_items(s, p3)
                        } else {
                            None
                        }
                    } else if s[p2] == ']' {
                        Some(p2 + 1)
                    } else {
                        None
                    }
                }
            },
        }
    }
}

#[via_fn]
proof fn skip_items_decreases(s: Seq<char>, pos: int) {
    broadcast use lemma_skip_json_spaces_bounds;

}

broadcast proof fn lemma_skip_json_value_bounds(s: Seq<char>, pos: int)
    ensures
        (#[trigger] skip_json_value(s, pos)) matches Some(p) ==> pos < p <= s.len(),
    decreases s.len() - pos, 0int,
{
    broadcast use
        lemma_skip_json_spaces_bounds,
        lemma_parse_string_body_bounds,
        lemma_skip_number_bounds,
    ;

    if 0 <= pos && pos < s.len() {
        let c = s[pos];
        if c == '{' {
            lemma_skip_members_bounds(s, skip_json_spaces(s, pos + 1));
        } else if c == '[' {
            lemma_skip_items_bounds(s, skip_json_spaces(s, pos + 1));
        }
    }
}

broadcast proof fn lemma_skip_members_bounds(s: Seq<char>, pos: int)
    ensures
        (#[trigger] skip_members(s, pos)) matches Some(p) ==> pos < p <= s.len(),
    decreases s.len() - pos, 1int,
{
    broadcast use lemma_skip_json_spaces_bounds, lemma_parse_string_body_bounds;

    if 0 <= pos && pos < s.len() && s[pos] == '"' {
        match parse_string_body(s, pos + 1) {
            None => {},
            Some(pk) => {
                let p3 = skip_json_spaces(s, pk.0);
                if p3 < s.len() && s[p3] == ':' {
                    let p4 = skip_json_spaces(s, p3 + 1);
                    lemma_skip_json_value_bounds(s, p4);
                    match skip_json_value(s, p4) {
                        None => {},
                        Some(p5) => {
                            if p4 < p5 && p5 <= s.len() {
                                let p6 = skip_json_spaces(s, p5);
                                if p6 < s.len() && s[p6] == ',' {
                                    lemma_skip_members_bounds(s, skip_json_spaces(s, p6 + 1));
                                }
                            }
                        },
                    }
                }
            },
        }
    }
}

broadcast proof fn lemma_skip_items_bounds(s: Seq<char>, pos: int)
    ensures
        (#[trigger] skip_items(s, pos)) matches Some(p) ==> pos < p <= s.len(),
    decreases s.len() - pos, 1int,
{
    broadcast use lemma_skip_json_spaces_bounds;

    if 0 <= pos && pos < s.len() && s[pos] != ']' {
        lemma_skip_json_value_bounds(s, pos);
        match skip_json_value(s, pos) {
            None => {},
            Some(p1) => {
                if pos < p1 && p1 <= s.len() {
                    let p2 = skip_json_spaces(s, p1);
                    if p2 < s.len() && s[p2] == ',' {
                        lemma_skip_items_bounds(s, skip_json_spaces(s, p2 + 1));
                    }
                }
            },
        }
    }
}

/// The members of the configuration object from `pos` on (a key's opening
/// quote or the closing brace). Every member is read: `battery_location`
/// must hold a string and appear exactly once, and any other member is
/// skipped whatever its value, as the original's loader ignores fields it
/// does not recognize. Yields the position after the closing brace and the
/// device location.
pub open spec fn parse_members(s: Seq<char>, pos: int, found: Option<Seq<char>>) -> Option<
    (int, Seq<char>),
>
    decreases s.len() - pos,
    via parse_members_decreases
{
    if !(0 <= pos && pos < s.len()) {
        None
    } else if s[pos] == '}' {
        match found {
            None => None,
            Some(v) => Some((pos + 1, v)),
        }
    } else if s[pos] == '"' {
        match parse_string_body(s, pos + 1) {
            None => None,
            Some(pk) => {
                let p3 = skip_json_spaces(s, pk.0);
                if !(p3 < s.len() && s[p3] == ':') {
                    None
                } else {
                    let p4 = skip_json_spaces(s, p3 + 1);
                    let member = if pk.1 == "battery_location"@ {
                        if found is Some {
                            None
                        } else if !(p4 < s.len() && s[p4] == '"') {
                            None
                        } else {
                            match parse_string_body(s, p4 + 1) {
                                None => None,
                                Some(pv) => Some((pv.0, Some(pv.1))),
                            }
                        }
                    } else {
                        match skip_json_value(s, p4) {
                            None => None,
                            Some(p5) => Some((p5, found)),
                        }
                    };
                    match member {
                        None => None,
                        Some(m) => {
                            let p6 = skip_json_spaces(s, m.0);
                            if !(p6 < s.len()) {
                                None
                            } else if s[p6] == ',' {
                                let p7 = skip_json_spaces(s, p6 + 1);
                                if p7 < s.len() && s[p7] == '"' {
                                    parse_members(s, p7, m.1)
                                } else {
                                    None
                                }
                            } else if s[p6] == '}' {
                                match m.1 {
                                    None => None,
                                    Some(v) => Some((p6 + 1, v)),
                                }
                            } else {
                                None
                            }
                        },
                    }
                }
            },
        }
    } else {
        None
    }
}

#[via_fn]
proof fn parse_members_decreases(s: Seq<char>, pos: int, found: Option<Seq<char>>) {
    broadcast use
        lemma_skip_json_spaces_bounds,
        lemma_parse_string_body_bounds,
        lemma_skip_json_value_bounds,
    ;

}

/// The device location held in configuration text: one JSON object carrying
/// the string member `battery_location` once, unrecognized members ignored,
/// surrounded by whitespace only.
pub open spec fn parsed_config(s: Seq<char>) -> Option<Seq<char>> {
    let p0 = skip_json_spaces(s, 0);
    if !(p0 < s.len() && s[p0] == '{') {
        None
    } else {
        match parse_members(s, skip_json_spaces(s, p0 + 1), None) {
            None => None,
            Some(pv) => {
                if skip_json_spaces(s, pv.0) == s.len() {
                    Some(pv.1)
                } else {
                    None
                }
            },
        }
    }
}

/// Hexadecimal digits read back as their value.
proof fn lemma_hex_digit_val(n: int)
    requires
        0 <= n < 16,
    ensures
        hex_val(hex_digit_char(n)) == n,
{
}

/// Escaping text that needs no escapes changes nothing.
proof fn lemma_escaped_plain(s: Seq<char>)
    requires
        forall|j: int|
            0 <= j < s.len() ==> (#[trigger] s[j]) != '"' && s[j] != '\\' && s[j] as u32 >= 0x20,
    ensures
        escaped(s) == s,
    decreases s.len(),
{
    if s.len() > 0 {
        assert(s[0] != '"' && s[0] != '\\' && s[0] as u32 >= 0x20);
        assert(escape_char(s.first()) =~= seq![s.first()]);
        assert(forall|j: int| 0 <= j < s.drop_first().len() ==> s.drop_first()[j] == s[j + 1]);
        lemma_escaped_plain(s.drop_first());
        assert(escaped(s) =~= s);
    }
}

/// Reading a JSON string whose body is `loc` written in escaped form, with
/// the closing quote at `end`, gives back exactly `loc`.
proof fn lemma_parse_escaped_string(s: Seq<char>, pos: int, loc: Seq<char>, end: int)
    requires
        0 <= pos <= end < s.len(),
        end - pos == escaped(loc).len(),
        forall|j: int| 0 <= j < escaped(loc).len() ==> s[pos + j] == #[trigger] escaped(loc)[j],
        s[end] == '"',
    ensures
        parse_string_body(s, pos) == Some((end + 1, loc)),
    decreases loc.len(),
{
    if loc.len() == 0 {
        assert(s[pos] == '"');
        assert(loc =~= Seq::<char>::empty());
    } else {
        let c0 = loc.first();
        let e = escape_char(c0);
        let rest = loc.drop_first();
        assert(escaped(loc) == e + escaped(rest));
        let elen = e.len() as int;
        assert forall|j: int| 0 <= j < elen implies s[pos + j] == e[j] by {
            assert(s[pos + j] == escaped(loc)[j]);
            assert(escaped(loc)[j] == e[j]);
        }
        assert forall|j: int| 0 <= j < escaped(rest).len() implies s[pos + elen + j] == escaped(
            rest,
        )[j] by {
            assert(s[pos + (elen + j)] == escaped(loc)[elen + j]);
            assert(escaped(loc)[elen + j] == escaped(rest)[j]);
        }
        lemma_parse_escaped_string(s, pos + elen, rest, end);
        assert(seq![c0] + rest =~= loc);
        if c0 == '"' || c0 == '\\' {
            assert(s[pos] == '\\');
            assert(s[pos + 1] == e[1]);
            assert(escape_result(s, pos + 1) == Some((pos + 2, c0)));
        } else if c0 == '\u{0008}' || c0 == '\t' || c0 == '\n' || c0 == '\u{000C}' || c0 == '\r' {
            assert(s[pos] == '\\');
            assert(s[pos + 1] == e[1]);
            assert(escape_result(s, pos + 1) == Some((pos + 2, c0)));
        } else if (c0 as u32) < 0x20 {
            let v = c0 as u32 as int;
            assert(s[pos] == '\\');
            assert(s[pos + 1] == 'u');
            assert(s[pos + 2] == '0');
            assert(s[pos + 3] == '0');
            assert(s[pos + 4] == hex_digit_char(v / 16));
            assert(s[pos + 5] == hex_digit_char(v % 16));
            lemma_hex_digit_val(v / 16);
            lemma_hex_digit_val(v % 16);
            vstd::arithmetic::div_mod::lemma_fundamental_div_mod(v, 16);
            assert(hex4(s, pos + 2) == v);
            vstd::utf8::char_u32_cast(c0, c0 as u32);
            assert(escape_result(s, pos + 1) == Some((pos + 6, c0)));
        } else {
            assert(s[pos] == c0);
        }
    }
}

/// What saving writes, loading reads back: for every device location, the
/// rendered configuration text parses to exactly that location.
pub proof fn lemma_config_round_trip(loc: Seq<char>)
    ensures
        parsed_config(config_payload(loc)) == Some(loc),
{
    reveal_strlit("{\"battery_location\": \"");
    reveal_strlit("\"}\n");
    reveal_strlit("battery_location");
    let p = "{\"battery_location\": \""@;
    let k = "battery_location"@;
    let sfx = "\"}\n"@;
    let e = escaped(loc);
    let s = config_payload(loc);
    assert(p.len() == 22);
    assert(sfx.len() == 3);
    assert(k.len() == 16);
    let n = s.len() as int;
    assert(n == 25 + e.len());
    assert(forall|j: int| 0 <= j < 22 ==> s[j] == #[trigger] p[j]);
    assert(forall|j: int| 0 <= j < e.len() ==> s[22 + j] == #[trigger] e[j]);
    assert(s[22 + e.len() as int] == sfx[0]);
    assert(s[23 + e.len() as int] == sfx[1]);
    assert(s[24 + e.len() as int] == sfx[2]);
    assert forall|j: int| 0 <= j < 16 implies #[trigger] k[j] != '"' && k[j] != '\\' && k[j] as u32
        >= 0x20 by {
        assert(k[j] == p[2 + j]);
    }
    lemma_escaped_plain(k);
    assert forall|j: int| 0 <= j < escaped(k).len() implies s[2 + j] == #[trigger] escaped(k)[j] by {
        assert(escaped(k)[j] == k[j]);
        assert(k[j] == p[2 + j]);
    }
    lemma_parse_escaped_string(s, 2, k, 18);
    lemma_parse_escaped_string(s, 22, loc, 22 + e.len() as int);
    assert(skip_json_spaces(s, 0) == 0);
    assert(skip_json_spaces(s, 1) == 1);
    assert(skip_json_spaces(s, 19) == 19);
    assert(skip_json_spaces(s, 21) == 21);
    assert(skip_json_spaces(s, 20) == 21);
    assert(skip_json_spaces(s, 23 + e.len() as int) == 23 + e.len());
    assert(skip_json_spaces(s, 25 + e.len() as int) == 25 + e.len());
    assert(skip_json_spaces(s, 24 + e.len() as int) == 25 + e.len());
    assert(parse_members(s, 1, None) == Some((24 + e.len() as int, loc)));
    assert(parsed_config(s) == Some(loc));
}

fn is_json_space_char(c: char) -> (r: bool)
    ensures
        r == is_json_space(c),
{
    let u = c as u32;
    u == 0x20 || u == 0x09 || u == 0x0A || u == 0x0D
}

fn skip_spaces(s: &str, pos: usize) -> (r: usize)
    requires
        pos <= s@.len(),
    ensures
        r == skip_json_spaces(s@, pos as int),
        pos <= r <= s@.len(),
{
    let n = s.unicode_len();
    let mut i: usize = pos;
    while i < n && is_json_space_char(s.get_char(i))
        invariant
            n == s@.len(),
            pos <= i <= n,
            skip_json_spaces(s@, pos as int) == skip_json_spaces(s@, i as int),
        decreases n - i,
    {
        i += 1;
    }
    i
}

fn hex_val_of(c: char) -> (r: Option<u32>)
    ensures
        match r {
            Some(v) => hex_val(c) == v && v < 16,
            None => hex_val(c) == -1,
        },
{
    let u = c as u32;
    if 48 <= u && u <= 57 {
        Some(u - 48)
    } else if 97 <= u && u <= 102 {
        Some(u - 87)
    } else if 65 <= u && u <= 70 {
        Some(u - 55)
    } else {
        None
    }
}

fn hex4_at(s: &str, pos: usize) -> (r: Option<u32>)
    requires
        pos <= s@.len(),
    ensures
        match r {
            Some(x) => hex4(s@, pos as int) == x && x <= 0xFFFF && pos + 4 <= s@.len(),
            None => hex4(s@, pos as int) == -1,
        },
{
    let n = s.unicode_len();
    if n - pos < 4 {
        return None;
    }
    let a = match hex_val_of(s.get_char(pos)) {
        Some(v) => v,
        None => {
            return None;
        },
    };
    let b = match hex_val_of(s.get_char(pos + 1)) {
        Some(v) => v,
        None => {
            return None;
        },
    };
    let c = match hex_val_of(s.get_char(pos + 2)) {
        Some(v) => v,
        None => {
            return None;
        },
    };
    let d = match hex_val_of(s.get_char(pos + 3)) {
        Some(v) => v,
        None => {
            return None;
        },
    };
    Some(a * 4096 + b * 256 + c * 16 + d)
}

fn parse_escape(s: &str, pos: usize) -> (r: Option<(usize, char)>)
    requires
        pos <= s@.len(),
    ensures
        match r {
            Some(pc) => escape_result(s@, pos as int) == Some((pc.0 as int, pc.1)) && pos < pc.0
                <= s@.len(),
            None => escape_result(s@, pos as int) is None,
        },
{
    let n = s.unicode_len();
    if pos >= n {
        return None;
    }
    let c = s.get_char(pos);
    if c == '"' {
        Some((pos + 1, '"'))
    } else if c == '\\' {
        Some((pos + 1, '\\'))
    } else if c == '/' {
        Some((pos + 1, '/'))
    } else if c == 'b' {
        Some((pos + 1, '\u{0008}'))
    } else if c == 'f' {
        Some((pos + 1, '\u{000C}'))
    } else if c == 'n' {
        Some((pos + 1, '\n'))
    } else if c == 'r' {
        Some((pos + 1, '\r'))
    } else if c == 't' {
        Some((pos + 1, '\t'))
    } else if c == 'u' {
        match hex4_at(s, pos + 1) {
            None => None,
            Some(x) => {
                if x < 0xD800 || 0xE000 <= x {
                    match char_from_u32(x) {
                        Some(ch) => {
                            proof {
                                vstd::utf8::char_u32_cast(ch, x);
                            }
                            Some((pos + 5, ch))
                        },
                        None => {
                            proof {
                                assert(false);
                            }
                            None
                        },
                    }
                } else if x < 0xDC00 {
                    if n - pos >= 7 && s.get_char(pos + 5) == '\\' && s.get_char(pos + 6) == 'u' {
                        match hex4_at(s, pos + 7) {
                            None => None,
                            Some(y) => {
                                if 0xDC00 <= y && y <= 0xDFFF {
                                    let scalar = 0x10000 + (x - 0xD800) * 0x400 + (y - 0xDC00);
                                    match char_from_u32(scalar) {
                                        Some(ch) => {
                                            proof {
                                                vstd::utf8::char_u32_cast(ch, scalar);
                                            }
                                            Some((pos + 11, ch))
                                        },
                                        None => {
                                            proof {
                                                assert(false);
                                            }
                                            None
                                        },
                                    }
                                } else {
                                    None
                                }
                            },
                        }
                    } else {
                        None
                    }
                } else {
                    None
                }
            },
        }
    } else {
        None
    }
}

fn parse_string(s: &str, pos: usize) -> (r: Option<(usize, String)>)
    requires
        pos <= s@.len(),
    ensures
        match r {
            Some(p) => parse_string_body(s@, pos as int) == Some((p.0 as int, p.1@)) && pos < p.0
                <= s@.len(),
            None => parse_string_body(s@, pos as int) is None,
        },
{
    let n = s.unicode_len();
    let mut out = String::new();
    let mut i: usize = pos;
    loop
        invariant
            n == s@.len(),
            pos <= i <= n,
            match parse_string_body(s@, i as int) {
                Some(pr) => parse_string_body(s@, pos as int) == Some((pr.0, out@ + pr.1)),
                None => parse_string_body(s@, pos as int) is None,
            },
        decreases n - i,
    {
        if i >= n {
            return None;
        }
        let c = s.get_char(i);
        if c == '"' {
            proof {
                assert(out@ + Seq::<char>::empty() =~= out@);
                lemma_parse_string_body_bounds(s@, pos as int);
            }
            return Some((i + 1, out));
        } else if c == '\\' {
            match parse_escape(s, i + 1) {
                None => {
                    return None;
                },
                Some((p2, ch)) => {
                    let ghost out0 = out@;
                    push_char(&mut out, ch);
                    proof {
                        match parse_string_body(s@, p2 as int) {
                            Some(pr) => {
                                assert(out@ + pr.1 =~= out0 + (seq![ch] + pr.1));
                            },
                            None => {},
                        }
                    }
                    i = p2;
                },
            }
        } else if (c as u32) < 0x20 {
            return None;
        } else {
            let ghost out0 = out@;
            push_char(&mut out, c);
            proof {
                match parse_string_body(s@, i + 1) {
                    Some(pr) => {
                        assert(out@ + pr.1 =~= out0 + (seq![c] + pr.1));
                    },
                    None => {},
                }
            }
            i += 1;
        }
    }
}

fn is_digit_char(c: char) -> (r: bool)
    ensures
        r == crate::numeric::is_digit(c),
{
    let u = c as u32;
    48 <= u && u <= 57
}

fn scan_digits(s: &str, pos: usize) -> (r: usize)
    requires
        pos <= s@.len(),
    ensures
        r == skip_digits(s@, pos as int),
        pos <= r <= s@.len(),
{
    let n = s.unicode_len();
    let mut i: usize = pos;
    while i < n && is_digit_char(s.get_char(i))
        invariant
            n == s@.len(),
            pos <= i <= n,
            skip_digits(s@, pos as int) == skip_digits(s@, i as int),
        decreases n - i,
    {
        i += 1;
    }
    i
}

fn scan_keyword(s: &str, pos: usize) -> (r: Option<usize>)
    requires
        pos <= s@.len(),
    ensures
        match r {
            Some(p) => skip_keyword(s@, pos as int) == Some(p as int) && pos < p <= s@.len(),
            None => skip_keyword(s@, pos as int) is None,
        },
{
    let n = s.unicode_len();
    if n - pos >= 4 && s.get_char(pos) == 't' && s.get_char(pos + 1) == 'r' && s.get_char(pos + 2)
        == 'u' && s.get_char(pos + 3) == 'e' {
        Some(pos + 4)
    } else if n - pos >= 5 && s.get_char(pos) == 'f' && s.get_char(pos + 1) == 'a' && s.get_char(
        pos + 2,
    ) == 'l' && s.get_char(pos + 3) == 's' && s.get_char(pos + 4) == 'e' {
        Some(pos + 5)
    } else if n - pos >= 4 && s.get_char(pos) == 'n' && s.get_char(pos + 1) == 'u' && s.get_char(
        pos + 2,
    ) == 'l' && s.get_char(pos + 3) == 'l' {
        Some(pos + 4)
    } else {
        None
    }
}

fn scan_number(s: &str, pos: usize) -> (r: Option<usize>)
    requires
        pos <= s@.len(),
    ensures
        match r {
            Some(p) => skip_number(s@, pos as int) == Some(p as int) && pos < p <= s@.len(),
            None => skip_number(s@, pos as int) is None,
        },
{
    let n = s.unicode_len();
    if pos >= n {
        return None;
    }
    let p1 = if s.get_char(pos) == '-' {
        pos + 1
    } else {
        pos
    };
    if p1 >= n {
        return None;
    }
    let ch1 = s.get_char(p1);
    if !is_digit_char(ch1) {
        return None;
    }
    let p2 = if ch1 == '0' {
        p1 + 1
    } else {
        proof {
            lemma_skip_digits_bounds(s@, p1 + 1);
        }
        scan_digits(s, p1)
    };
    let p3 = if p2 < n && s.get_char(p2) == '.' {
        let d = scan_digits(s, p2 + 1);
        if d == p2 + 1 {
            return None;
        }
        d
    } else {
        p2
    };
    if p3 < n && {
        let e = s.get_char(p3);
        e == 'e' || e == 'E'
    } {
        let p4 = if p3 + 1 < n && {
            let g = s.get_char(p3 + 1);
            g == '+' || g == '-'
        } {
            p3 + 2
        } else {
            p3 + 1
        };
        let p5 = scan_digits(s, p4);
        if p5 == p4 {
            return None;
        }
        Some(p5)
    } else {
        Some(p3)
    }
}

fn scan_value(s: &str, pos: usize) -> (r: Option<usize>)
    requires
        pos <= s@.len(),
    ensures
        match r {
            Some(p) => skip_json_value(s@, pos as int) == Some(p as int) && pos < p <= s@.len(),
            None => skip_json_value(s@, pos as int) is None,
        },
    decreases s@.len() - pos, 0int,
{
    let n = s.unicode_len();
    if pos >= n {
        return None;
    }
    let c = s.get_char(pos);
    if c == '"' {
        proof {
            lemma_parse_string_body_bounds(s@, pos + 1);
        }
        match parse_string(s, pos + 1) {
            None => None,
            Some((p, _content)) => Some(p),
        }
    } else if c == '{' {
        scan_members(s, skip_spaces(s, pos + 1))
    } else if c == '[' {
        scan_items(s, skip_spaces(s, pos + 1))
    } else if c == 't' || c == 'f' || c == 'n' {
        scan_keyword(s, pos)
    } else {
        scan_number(s, pos)
    }
}

fn scan_members(s: &str, pos: usize) -> (r: Option<usize>)
    requires
        pos <= s@.len(),
    ensures
        match r {
            Some(p) => skip_members(s@, pos as int) == Some(p as int) && pos < p <= s@.len(),
            None => skip_members(s@, pos as int) is None,
        },
    decreases s@.len() - pos, 1int,
{
    let n = s.unicode_len();
    if pos >= n {
        return None;
    }
    let c = s.get_char(pos);
    if c == '}' {
        return Some(pos + 1);
    }
    if c != '"' {
        return None;
    }
    match parse_string(s, pos + 1) {
        None => None,
        Some((pk, _key)) => {
            let p3 = skip_spaces(s, pk);
            if p3 == n || s.get_char(p3) != ':' {
                return None;
            }
            let p4 = skip_spaces(s, p3 + 1);
            match scan_value(s, p4) {
                None => None,
                Some(p5) => {
                    let p6 = skip_spaces(s, p5);
                    if p6 == n {
                        return None;
                    }
                    let c6 = s.get_char(p6);
                    if c6 == ',' {
                        let p7 = skip_spaces(s, p6 + 1);
                        if p7 < n && s.get_char(p7) == '"' {
                            scan_members(s, p7)
                        } else {
                            None
                        }
                    } else if c6 == '}' {
                        Some(p6 + 1)
                    } else {
                        None
                    }
                },
            }
        },
    }
}

fn scan_items(s: &str, pos: usize) -> (r: Option<usize>)
    requires
        pos <= s@.len(),
    ensures
        match r {
            Some(p) => skip_items(s@, pos as int) == Some(p as int) && pos < p <= s@.len(),
            None => skip_items(s@, pos as int) is None,
        },
    decreases s@.len() - pos, 1int,
{
    let n = s.unicode_len();
    if pos >= n {
        return None;
    }
    if s.get_char(pos) == ']' {
        return Some(pos + 1);
    }
    match scan_value(s, pos) {
        None => None,
        Some(p1) => {
            let p2 = skip_spaces(s, p1);
            if p2 == n {
                return None;
            }
            let c2 = s.get_char(p2);
            if c2 == ',' {
                let p3 = skip_spaces(s, p2 + 1);
                if p3 < n && s.get_char(p3) != ']' {
                    scan_items(s, p3)
                } else {
                    None
                }
            } else if c2 == ']' {
                Some(p2 + 1)
            } else {
                None
            }
        },
    }
}

/// The location already read from earlier members, lifted to its view.
spec fn found_view(found: &Option<String>) -> Option<Seq<char>> {
    match found {
        Some(v) => Some(v@),
        None => None,
    }
}

fn scan_config_members(s: &str, pos: usize, found: Option<String>) -> (r: Option<(usize, String)>)
    requires
        pos <= s@.len(),
    ensures
        match r {
            Some(p) => parse_members(s@, pos as int, found_view(&found)) == Some(
                (p.0 as int, p.1@),
            ) && p.0 <= s@.len(),
            None => parse_members(s@, pos as int, found_view(&found)) is None,
        },
    decreases s@.len() - pos,
{
    let n = s.unicode_len();
    if pos >= n {
        return None;
    }
    let c = s.get_char(pos);
    if c == '}' {
        return match found {
            None => None,
            Some(v) => Some((pos + 1, v)),
        };
    }
    if c != '"' {
        return None;
    }
    match parse_string(s, pos + 1) {
        None => None,
        Some((pk, key)) => {
            let p3 = skip_spaces(s, pk);
            if p3 == n || s.get_char(p3) != ':' {
                return None;
            }
            let p4 = skip_spaces(s, p3 + 1);
            let member: Option<(usize, Option<String>)> = if crate::text::str_eq(
                key.as_str(),
                "battery_location",
            ) {
                if found.is_some() {
                    None
                } else if p4 == n || s.get_char(p4) != '"' {
                    None
                } else {
                    match parse_string(s, p4 + 1) {
                        None => None,
                        Some((pv, value)) => Some((pv, Some(value))),
                    }
                }
            } else {
                match scan_value(s, p4) {
                    None => None,
                    Some(p5) => Some((p5, found)),
                }
            };
            match member {
                None => None,
                Some((m0, m1)) => {
                    let p6 = skip_spaces(s, m0);
                    if p6 == n {
                        return None;
                    }
                    let c6 = s.get_char(p6);
                    if c6 == ',' {
                        let p7 = skip_spaces(s, p6 + 1);
                        if p7 < n && s.get_char(p7) == '"' {
                            scan_config_members(s, p7, m1)
                        } else {
                            None
                        }
                    } else if c6 == '}' {
                        match m1 {
                            None => None,
                            Some(v) => Some((p6 + 1, v)),
                        }
                    } else {
                        None
                    }
                },
            }
        },
    }
}

/// Reads configuration text: one JSON object that names `battery_location`
/// once, with a string value; members under other keys are ignored whatever
/// they hold. Anything else is a hard error, since a configuration file
/// that exists but cannot be read has no sensible fallback.
pub fn parse_config(text: &str) -> (r: Result<BatteryStatusConfiguration, ConfigError>)
    ensures
        match r {
            Ok(c) => parsed_config(text@) == Some(c@),
            Err(e) => parsed_config(text@) is None && e == ConfigError::Malformed,
        },
{
    let n = text.unicode_len();
    let p0 = skip_spaces(text, 0);
    if p0 == n || text.get_char(p0) != '{' {
        return Err(ConfigError::Malformed);
    }
    let p1 = skip_spaces(text, p0 + 1);
    match scan_config_members(text, p1, None) {
        None => Err(ConfigError::Malformed),
        Some((p2, value)) => {
            let p3 = skip_spaces(text, p2);
            if p3 != n {
                return Err(ConfigError::Malformed);
            }
            Ok(BatteryStatusConfiguration { battery_location: value })
        },
    }
}

} // verus!
