//! The one-line JSON report of a run: the metrics it carries, the escaping of
//! its strings, and the line itself.

use vstd::prelude::*;
use crate::text::{decimal, digit_char, push_char, push_decimal};

verus! {

/// How many inputs a run tried and how long it took.
#[derive(Clone, Copy)]
pub struct Metrics {
    pub inputs: u64,
    pub elapsed_us: u128,
}

impl Default for Metrics {
    fn default() -> (m: Self)
        ensures
            m.inputs == 0,
            m.elapsed_us == 0,
    {
        Metrics { inputs: 0, elapsed_us: 0 }
    }
}

impl Metrics {
    /// The metrics of two runs taken together: inputs and times add up.
    pub fn combine(self, other: Metrics) -> (m: Metrics)
        requires
            self.inputs + other.inputs <= u64::MAX,
            self.elapsed_us + other.elapsed_us <= u128::MAX,
        ensures
            m.inputs == self.inputs + other.inputs,
            m.elapsed_us == self.elapsed_us + other.elapsed_us,
    {
        Metrics { inputs: self.inputs + other.inputs, elapsed_us: self.elapsed_us + other.elapsed_us }
    }
}

/// A lower-case hexadecimal digit.
pub open spec fn hex_digit(d: nat) -> char {
    if d < 10 {
        digit_char(d)
    } else if d == 10 {
        'a'
    } else if d == 11 {
        'b'
    } else if d == 12 {
        'c'
    } else if d == 13 {
        'd'
    } else if d == 14 {
        'e'
    } else {
        'f'
    }
}

/// A control character: one below U+0020.
pub open spec fn is_control(c: char) -> bool {
    (c as u32) < 0x20
}

/// How one character stands inside a JSON string literal: a quote, a
/// backslash, a newline, a carriage return and a tab by their short escapes,
/// any other control character as `\u` and four hexadecimal digits, and every
/// other character as itself.
pub open spec fn escaped_char(c: char) -> Seq<char> {
    if c == '"' {
        seq!['\\', '"']
    } else if c == '\\' {
        seq!['\\', '\\']
    } else if c == '\n' {
        seq!['\\', 'n']
    } else if c == '\r' {
        seq!['\\', 'r']
    } else if c == '\t' {
        seq!['\\', 't']
    } else if is_control(c) {
        seq!['\\', 'u', '0', '0', hex_digit((c as u32 / 16) as nat), hex_digit((c as u32 % 16) as nat)]
    } else {
        seq![c]
    }
}

/// The characters of `s`, each escaped.
pub open spec fn escaped(s: Seq<char>) -> Seq<char>
    decreases s.len(),
{
    if s.len() == 0 {
        Seq::empty()
    } else {
        escaped(s.drop_last()) + escaped_char(s.last())
    }
}

/// `s` as a JSON string literal.
pub open spec fn quoted(s: Seq<char>) -> Seq<char> {
    seq!['"'] + escaped(s) + seq!['"']
}

fn hex(d: u32) -> (c: char)
    requires
        d < 16,
    ensures
        c == hex_digit(d as nat),
{
    match d {
        0 => '0',
        1 => '1',
        2 => '2',
        3 => '3',
        4 => '4',
        5 => '5',
        6 => '6',
        7 => '7',
        8 => '8',
        9 => '9',
        10 => 'a',
        11 => 'b',
        12 => 'c',
        13 => 'd',
        14 => 'e',
        _ => 'f',
    }
}

fn push_escaped(out: &mut String, c: char)
    ensures
        final(out)@ == old(out)@ + escaped_char(c),
{
    if c == '"' {
        push_char(out, '\\');
        push_char(out, '"');
    } else if c == '\\' {
        push_char(out, '\\');
        push_char(out, '\\');
    } else if c == '\n' {
        push_char(out, '\\');
        push_char(out, 'n');
    } else if c == '\r' {
        push_char(out, '\\');
        push_char(out, 'r');
    } else if c == '\t' {
        push_char(out, '\\');
        push_char(out, 't');
    } else if (c as u32) < 0x20 {
        let code = c as u32;
        push_char(out, '\\');
        push_char(out, 'u');
        push_char(out, '0');
        push_char(out, '0');
        push_char(out, hex(code / 16));
        push_char(out, hex(code % 16));
    } else {
        push_char(out, c);
    }
    assert(final(out)@ =~= old(out)@ + escaped_char(c));
}

/// `s` as a JSON string literal: in double quotes, with quotes, backslashes
/// and control characters escaped.
pub fn json_str(s: &str) -> (out: String)
    ensures
        out@ == quoted(s@),
{
    let mut out = String::new();
    push_char(&mut out, '"');
    let n = s.unicode_len();
    let mut i: usize = 0;
    while i < n
        invariant
            n == s@.len(),
            i <= n,
            out@ == seq!['"'] + escaped(s@.take(i as int)),
        decreases n - i,
    {
        let c = s.get_char(i);
        push_escaped(&mut out, c);
        assert(s@.take(i + 1).drop_last() =~= s@.take(i as int));
        assert(s@.take(i + 1).last() == c);
        i = i + 1;
    }
    assert(s@.take(n as int) =~= s@);
    push_char(&mut out, '"');
    out
}

/// An optional string as JSON: its literal, or `null`.
pub open spec fn json_opt(s: Option<Seq<char>>) -> Seq<char> {
    match s {
        Some(t) => quoted(t),
        None => "null"@,
    }
}

/// The report line of one run.
pub open spec fn json_line_text(
    tool: Seq<char>,
    property: Seq<char>,
    status: Seq<char>,
    inputs: nat,
    elapsed_us: nat,
    counterexample: Option<Seq<char>>,
    error: Option<Seq<char>>,
) -> Seq<char> {
    "{\"status\":"@ + quoted(status) + ",\"tests\":"@ + decimal(inputs) + ",\"discards\":0,\"time\":"@
        + quoted(decimal(elapsed_us) + "us"@) + ",\"counterexample\":"@ + json_opt(counterexample)
        + ",\"error\":"@ + json_opt(error) + ",\"tool\":"@ + quoted(tool) + ",\"property\":"@
        + quoted(property) + "}"@
}

/// The view of an optional string.
pub open spec fn opt_view(s: Option<&str>) -> Option<Seq<char>> {
    match s {
        Some(t) => Some(t@),
        None => None,
    }
}

fn push_json_opt(out: &mut String, s: Option<&str>)
    ensures
        final(out)@ == old(out)@ + json_opt(opt_view(s)),
{
    match s {
        Some(t) => {
            let q = json_str(t);
            out.append(q.as_str());
        },
        None => {
            out.append("null");
        },
    }
}

/// The report line of one run, with the shape
/// `{"status":..,"tests":N,"discards":0,"time":"<us>us","counterexample":..,"error":..,"tool":..,"property":..}`.
pub fn json_line(
    tool: &str,
    property: &str,
    status: &str,
    metrics: Metrics,
    counterexample: Option<&str>,
    error: Option<&str>,
) -> (line: String)
    ensures
        line@ == json_line_text(
            tool@,
            property@,
            status@,
            metrics.inputs as nat,
            metrics.elapsed_us as nat,
            opt_view(counterexample),
            opt_view(error),
        ),
{
    let mut line = String::new();
    line.append("{\"status\":");
    line.append(json_str(status).as_str());
    line.append(",\"tests\":");
    push_decimal(&mut line, metrics.inputs as u128);
    line.append(",\"discards\":0,\"time\":");
    let mut time = String::new();
    push_decimal(&mut time, metrics.elapsed_us);
    time.append("us");
    line.append(json_str(time.as_str()).as_str());
    line.append(",\"counterexample\":");
    push_json_opt(&mut line, counterexample);
    line.append(",\"error\":");
    push_json_opt(&mut line, error);
    line.append(",\"tool\":");
    line.append(json_str(tool).as_str());
    line.append(",\"property\":");
    line.append(json_str(property).as_str());
    line.append("}");
    line
}

/// No character of `s` is a control character.
pub open spec fn free_of_controls(s: Seq<char>) -> bool {
    forall|i: int| 0 <= i < s.len() ==> !is_control(#[trigger] s[i])
}

proof fn lemma_concat_free(a: Seq<char>, b: Seq<char>)
    requires
        free_of_controls(a),
        free_of_controls(b),
    ensures
        free_of_controls(a + b),
{
    assert forall|i: int| 0 <= i < (a + b).len() implies !is_control(#[trigger] (a + b)[i]) by {
        if i < a.len() {
            assert((a + b)[i] == a[i]);
        } else {
            assert((a + b)[i] == b[i - a.len()]);
        }
    }
}

proof fn lemma_decimal_free(n: nat)
    ensures
        free_of_controls(decimal(n)),
    decreases n,
{
    if n >= 10 {
        lemma_decimal_free(n / 10);
        lemma_concat_free(decimal(n / 10), seq![digit_char(n % 10)]);
        assert(decimal(n) =~= decimal(n / 10) + seq![digit_char(n % 10)]);
    }
}

proof fn lemma_escaped_free(s: Seq<char>)
    ensures
        free_of_controls(escaped(s)),
    decreases s.len(),
{
    if s.len() > 0 {
        lemma_escaped_free(s.drop_last());
        let c = s.last();
        assert(free_of_controls(escaped_char(c))) by {
            let e = escaped_char(c);
            assert forall|i: int| 0 <= i < e.len() implies !is_control(#[trigger] e[i]) by {
                if is_control(c) && c != '\n' && c != '\r' && c != '\t' && i >= 4 {
                    let d = if i == 4 { (c as u32 / 16) as nat } else { (c as u32 % 16) as nat };
                    assert(e[i] == hex_digit(d));
                }
            }
        }
        lemma_concat_free(escaped(s.drop_last()), escaped_char(c));
    }
}

proof fn lemma_quoted_free(s: Seq<char>)
    ensures
        free_of_controls(quoted(s)),
{
    lemma_escaped_free(s);
    lemma_concat_free(seq!['"'], escaped(s));
    lemma_concat_free(seq!['"'] + escaped(s), seq!['"']);
}

proof fn lemma_json_opt_free(s: Option<Seq<char>>)
    ensures
        free_of_controls(json_opt(s)),
{
    match s {
        Some(t) => lemma_quoted_free(t),
        None => {
            reveal_strlit("null");
        },
    }
}

/// Every invocation reports exactly one line: whatever the strings and numbers
/// in it, the report line holds no control character, so no line break.
pub proof fn lemma_report_is_one_line(
    tool: Seq<char>,
    property: Seq<char>,
    status: Seq<char>,
    inputs: nat,
    elapsed_us: nat,
    counterexample: Option<Seq<char>>,
    error: Option<Seq<char>>,
)
    ensures
        free_of_controls(
            json_line_text(tool, property, status, inputs, elapsed_us, counterexample, error),
        ),
{
    reveal_strlit("{\"status\":");
    reveal_strlit(",\"tests\":");
    reveal_strlit(",\"discards\":0,\"time\":");
    reveal_strlit("us");
    reveal_strlit(",\"counterexample\":");
    reveal_strlit(",\"error\":");
    reveal_strlit(",\"tool\":");
    reveal_strlit(",\"property\":");
    reveal_strlit("}");
    lemma_quoted_free(status);
    lemma_decimal_free(inputs);
    lemma_decimal_free(elapsed_us);
    lemma_concat_free(decimal(elapsed_us), "us"@);
    lemma_quoted_free(decimal(elapsed_us) + "us"@);
    lemma_json_opt_free(counterexample);
    lemma_json_opt_free(error);
    lemma_quoted_free(tool);
    lemma_quoted_free(property);
    let p1 = "{\"status\":"@ + quoted(status);
    lemma_concat_free("{\"status\":"@, quoted(status));
    let p2 = p1 + ",\"tests\":"@;
    lemma_concat_free(p1, ",\"tests\":"@);
    let p3 = p2 + decimal(inputs);
    lemma_concat_free(p2, decimal(inputs));
    let p4 = p3 + ",\"discards\":0,\"time\":"@;
    lemma_concat_free(p3, ",\"discards\":0,\"time\":"@);
    let p5 = p4 + quoted(decimal(elapsed_us) + "us"@);
    lemma_concat_free(p4, quoted(decimal(elapsed_us) + "us"@));
    let p6 = p5 + ",\"counterexample\":"@;
    lemma_concat_free(p5, ",\"counterexample\":"@);
    let p7 = p6 + json_opt(counterexample);
    lemma_concat_free(p6, json_opt(counterexample));
    let p8 = p7 + ",\"error\":"@;
    lemma_concat_free(p7, ",\"error\":"@);
    let p9 = p8 + json_opt(error);
    lemma_concat_free(p8, json_opt(error));
    let p10 = p9 + ",\"tool\":"@;
    lemma_concat_free(p9, ",\"tool\":"@);
    let p11 = p10 + quoted(tool);
    lemma_concat_free(p10, quoted(tool));
    let p12 = p11 + ",\"property\":"@;
    lemma_concat_free(p11, ",\"property\":"@);
    let p13 = p12 + quoted(property);
    lemma_concat_free(p12, quoted(property));
    lemma_concat_free(p13, "}"@);
}

/// The value of a hexadecimal digit (0 for any other character).
pub open spec fn hex_value(c: char) -> nat {
    let v = c as u32;
    if 48 <= v <= 57 {
        (v - 48) as nat
    } else if 97 <= v <= 102 {
        (v - 87) as nat
    } else if 65 <= v <= 70 {
        (v - 55) as nat
    } else {
        0
    }
}

/// The character that a two-character escape `\c` stands for.
pub open spec fn short_unescape(c: char) -> char {
    if c == 'n' {
        '\n'
    } else if c == 'r' {
        '\r'
    } else if c == 't' {
        '\t'
    } else {
        c
    }
}

/// The characters that the inside of a JSON string literal stands for: a
/// `\u` with four hexadecimal digits for the character of that code, another
/// backslash and the character after it for that escaped character, and every
/// other character for itself.
pub open spec fn unescaped(t: Seq<char>) -> Seq<char>
    decreases t.len(),
{
    if t.len() == 0 {
        Seq::empty()
    } else if t[0] == '\\' && t.len() >= 6 && t[1] == 'u' {
        seq![
            ((hex_value(t[2]) * 4096 + hex_value(t[3]) * 256 + hex_value(t[4]) * 16 + hex_value(
                t[5],
            )) as u32) as char,
        ] + unescaped(t.skip(6))
    } else if t[0] == '\\' && t.len() >= 2 {
        seq![short_unescape(t[1])] + unescaped(t.skip(2))
    } else {
        seq![t[0]] + unescaped(t.skip(1))
    }
}

/// The string that a JSON string literal decodes to: its inside, between the
/// two quotes, unescaped.
pub open spec fn json_decoded(literal: Seq<char>) -> Seq<char> {
    unescaped(literal.subrange(1, literal.len() - 1))
}

/// A character that stands for itself in a JSON string literal.
pub open spec fn is_plain(c: char) -> bool {
    c != '"' && c != '\\' && !is_control(c)
}

proof fn lemma_hex_round_trip(d: nat)
    requires
        d < 16,
    ensures
        hex_value(hex_digit(d)) == d,
{
}

proof fn lemma_escaped_prepend(c: char, s: Seq<char>)
    ensures
        escaped(seq![c] + s) == escaped_char(c) + escaped(s),
    decreases s.len(),
{
    if s.len() == 0 {
        assert(seq![c] + s =~= seq![c]);
        assert(seq![c].drop_last() =~= Seq::<char>::empty());
        assert(seq![c].last() == c);
        assert(escaped(Seq::<char>::empty()) == Seq::<char>::empty());
        assert(escaped(seq![c]) == escaped(Seq::<char>::empty()) + escaped_char(c));
        assert(escaped(seq![c]) =~= escaped_char(c));
        assert(escaped_char(c) + escaped(s) =~= escaped_char(c));
    } else {
        lemma_escaped_prepend(c, s.drop_last());
        assert((seq![c] + s).drop_last() =~= seq![c] + s.drop_last());
        assert((seq![c] + s).last() == s.last());
        assert(escaped(seq![c] + s) =~= escaped_char(c) + escaped(s));
    }
}

proof fn lemma_unescape_char(c: char, rest: Seq<char>)
    ensures
        unescaped(escaped_char(c) + rest) == seq![c] + unescaped(rest),
{
    let t = escaped_char(c) + rest;
    if c == '"' || c == '\\' || c == '\n' || c == '\r' || c == '\t' {
        assert(t[0] == '\\');
        assert(t.skip(2) =~= rest);
        assert(t[1] != 'u');
        assert(unescaped(t) == seq![short_unescape(t[1])] + unescaped(t.skip(2)));
    } else if is_control(c) {
        let code = c as u32;
        lemma_hex_round_trip((code / 16) as nat);
        lemma_hex_round_trip((code % 16) as nat);
        assert(t[0] == '\\' && t[1] == 'u');
        assert(t[2] == '0' && t[3] == '0');
        assert(hex_value('0') == 0);
        assert(t.skip(6) =~= rest);
        assert((((code / 16) * 16 + code % 16) as u32) as char == c);
        assert(unescaped(t) =~= seq![c] + unescaped(rest));
    } else {
        assert(t[0] == c);
        assert(t.skip(1) =~= rest);
    }
}

proof fn lemma_unescape_escaped(s: Seq<char>)
    ensures
        unescaped(escaped(s)) == s,
    decreases s.len(),
{
    if s.len() > 0 {
        let tail = s.skip(1);
        assert(s =~= seq![s[0]] + tail);
        lemma_escaped_prepend(s[0], tail);
        lemma_unescape_char(s[0], escaped(tail));
        lemma_unescape_escaped(tail);
    }
}

/// A JSON string literal made by `json_str` decodes to the string it was made
/// from.
pub proof fn lemma_json_str_decodes(s: Seq<char>)
    ensures
        json_decoded(quoted(s)) == s,
{
    assert(quoted(s).subrange(1, quoted(s).len() - 1) =~= escaped(s));
    lemma_unescape_escaped(s);
}

/// A hexadecimal digit, in either case.
pub open spec fn is_hex_char(c: char) -> bool {
    let v = c as u32;
    (48 <= v <= 57) || (97 <= v <= 102) || (65 <= v <= 70)
}

/// The inside of a JSON string literal is well formed: it holds no raw quote,
/// backslash or control character, but for a backslash that starts one of
/// the escapes `\"`, `\\`, `\n`, `\r`, `\t`, or `\u` with four hexadecimal digits.
pub open spec fn well_escaped(t: Seq<char>) -> bool
    decreases t.len(),
{
    if t.len() == 0 {
        true
    } else if t[0] == '\\' {
        if t.len() >= 6 && t[1] == 'u' && is_hex_char(t[2]) && is_hex_char(t[3]) && is_hex_char(
            t[4],
        ) && is_hex_char(t[5]) {
            well_escaped(t.skip(6))
        } else if t.len() >= 2 && (t[1] == '"' || t[1] == '\\' || t[1] == 'n' || t[1] == 'r'
            || t[1] == 't') {
            well_escaped(t.skip(2))
        } else {
            false
        }
    } else {
        is_plain(t[0]) && well_escaped(t.skip(1))
    }
}

proof fn lemma_well_escaped_char(c: char, rest: Seq<char>)
    requires
        well_escaped(rest),
    ensures
        well_escaped(escaped_char(c) + rest),
{
    let t = escaped_char(c) + rest;
    if c == '"' || c == '\\' || c == '\n' || c == '\r' || c == '\t' {
        assert(t[0] == '\\');
        assert(t.skip(2) =~= rest);
        assert(t[1] != 'u');
    } else if is_control(c) {
        let code = c as u32;
        assert(t[0] == '\\' && t[1] == 'u');
        assert(t[2] == '0' && t[3] == '0');
        assert(is_hex_char(hex_digit((code / 16) as nat)));
        assert(is_hex_char(hex_digit((code % 16) as nat)));
        assert(t.skip(6) =~= rest);
    } else {
        assert(t[0] == c);
        assert(t.skip(1) =~= rest);
    }
}

proof fn lemma_escaped_well_formed(s: Seq<char>)
    ensures
        well_escaped(escaped(s)),
    decreases s.len(),
{
    if s.len() > 0 {
        let tail = s.skip(1);
        assert(s =~= seq![s[0]] + tail);
        lemma_escaped_prepend(s[0], tail);
        lemma_escaped_well_formed(tail);
        lemma_well_escaped_char(s[0], escaped(tail));
    } else {
        assert(escaped(s) =~= Seq::<char>::empty());
    }
}

/// What `json_str` makes of any string is a valid JSON string literal: a quote
/// at each end, and between them no raw quote, backslash or control character
/// except as part of an escape.
pub proof fn lemma_json_str_is_literal(s: Seq<char>)
    ensures
        quoted(s).len() >= 2,
        quoted(s)[0] == '"',
        quoted(s).last() == '"',
        well_escaped(quoted(s).subrange(1, quoted(s).len() - 1)),
{
    assert(quoted(s).subrange(1, quoted(s).len() - 1) =~= escaped(s));
    lemma_escaped_well_formed(s);
}

proof fn lemma_plain_escaped(s: Seq<char>)
    requires
        forall|i: int| 0 <= i < s.len() ==> is_plain(#[trigger] s[i]),
    ensures
        escaped(s) == s,
    decreases s.len(),
{
    if s.len() > 0 {
        let init = s.drop_last();
        assert forall|i: int| 0 <= i < init.len() implies is_plain(#[trigger] init[i]) by {
            assert(init[i] == s[i]);
        }
        lemma_plain_escaped(init);
        assert(is_plain(s[s.len() - 1]));
        assert(escaped(s) =~= s);
    }
}

/// A string with no quote, backslash or control character is quoted as
/// itself with one quote on each side.
pub proof fn lemma_json_str_plain(s: Seq<char>)
    requires
        forall|i: int| 0 <= i < s.len() ==> is_plain(#[trigger] s[i]),
    ensures
        quoted(s) == seq!['"'] + s + seq!['"'],
{
    lemma_plain_escaped(s);
}

/// The last four fields of a report are the counterexample, the error, the
/// tool and the property, each exactly as given: the error field is `null`
/// whenever no error is given, whatever the counterexample, and each field
/// shows only its own value.
pub proof fn lemma_report_fields(
    tool: Seq<char>,
    property: Seq<char>,
    status: Seq<char>,
    inputs: nat,
    elapsed_us: nat,
    counterexample: Option<Seq<char>>,
    error: Option<Seq<char>>,
)
    ensures
        exists|head: Seq<char>|
            json_line_text(tool, property, status, inputs, elapsed_us, counterexample, error)
                == head + (",\"counterexample\":"@ + json_opt(counterexample) + (",\"error\":"@
                + json_opt(error) + (",\"tool\":"@ + quoted(tool) + (",\"property\":"@ + quoted(
                property,
            ) + "}"@)))),
{
    let head = "{\"status\":"@ + quoted(status) + ",\"tests\":"@ + decimal(inputs)
        + ",\"discards\":0,\"time\":"@ + quoted(decimal(elapsed_us) + "us"@);
    let c = ",\"counterexample\":"@ + json_opt(counterexample);
    let e = ",\"error\":"@ + json_opt(error);
    let t = ",\"tool\":"@ + quoted(tool);
    let p = ",\"property\":"@ + quoted(property) + "}"@;
    let line = json_line_text(tool, property, status, inputs, elapsed_us, counterexample, error);
    assert(",\"property\":"@ + quoted(property) + "}"@ =~= p);
    assert(line =~= head + c + e + t + p);
    assert(t + p =~= ",\"tool\":"@ + quoted(tool) + p);
    assert(e + (t + p) =~= ",\"error\":"@ + json_opt(error) + (t + p));
    assert(c + (e + (t + p)) =~= ",\"counterexample\":"@ + json_opt(counterexample) + (e + (t + p)));
    assert(head + c + e + t + p =~= head + (c + (e + (t + p))));
}

/// A report without an error shows `"error":null` just before the tool,
/// whatever counterexample it carries.
pub proof fn lemma_report_no_error_is_null(
    tool: Seq<char>,
    property: Seq<char>,
    status: Seq<char>,
    inputs: nat,
    elapsed_us: nat,
    counterexample: Option<Seq<char>>,
)
    ensures
        exists|head: Seq<char>|
            json_line_text(tool, property, status, inputs, elapsed_us, counterexample, None) == head
                + (",\"error\":null,\"tool\":"@ + quoted(tool) + ",\"property\":"@ + quoted(property)
                + "}"@),
{
    reveal_strlit(",\"error\":");
    reveal_strlit("null");
    reveal_strlit(",\"tool\":");
    reveal_strlit(",\"error\":null,\"tool\":");
    lemma_report_fields(tool, property, status, inputs, elapsed_us, counterexample, None);
    let tail = ",\"error\":null,\"tool\":"@ + quoted(tool) + ",\"property\":"@ + quoted(property)
        + "}"@;
    let line = json_line_text(tool, property, status, inputs, elapsed_us, counterexample, None);
    let head = choose|head: Seq<char>|
        line == head + (",\"counterexample\":"@ + json_opt(counterexample) + (",\"error\":"@
            + json_opt(None) + (",\"tool\":"@ + quoted(tool) + (",\"property\":"@ + quoted(
            property,
        ) + "}"@))));
    let h2 = head + (",\"counterexample\":"@ + json_opt(counterexample));
    assert(",\"error\":"@ + json_opt(None) + (",\"tool\":"@ + quoted(tool) + (",\"property\":"@
        + quoted(property) + "}"@)) =~= tail);
    assert(line =~= h2 + tail);
}

} // verus!
