use vstd::prelude::*;
use vstd::string::StrSliceExecFns;
use vstd::string::StringExecFns;

verus! {

/// The persisted configuration record: the API key, the team name, and
/// the identifier of the issue currently being worked on, if any.  The
/// shell loads it from disk at start and writes it back after a
/// successful claim.
#[derive(Debug, PartialEq, Eq, Clone)]
pub struct Config {
    pub api_key: String,
    pub team_name: String,
    pub current_issue: Option<String>,
}

/// The mathematical value of a [`Config`].
pub ghost struct ConfigView {
    pub api_key: Seq<char>,
    pub team_name: Seq<char>,
    pub current_issue: Option<Seq<char>>,
}

impl View for Config {
    type V = ConfigView;

    open spec fn view(&self) -> ConfigView {
        ConfigView {
            api_key: self.api_key@,
            team_name: self.team_name@,
            current_issue: match self.current_issue {
                Some(id) => Some(id@),
                None => None,
            },
        }
    }
}

// ---------------------------------------------------------------------------
// The configuration file format
// ---------------------------------------------------------------------------
//
// The record is persisted as a small document of `key = "value"` lines,
// one per field, the optional field omitted when absent.  Reading allows
// the keys in any order, blank lines, `#` comments, and free spacing.  Values are written as basic strings: quote, backslash and
// the common control characters by their two-character escapes, the
// remaining control characters and delete by a four-digit hexadecimal
// escape, every other character as itself.
/// The hexadecimal digit for `n`.
pub open spec fn spec_hex_digit(n: int) -> char {
    if n == 0 {
        '0'
    } else if n == 1 {
        '1'
    } else if n == 2 {
        '2'
    } else if n == 3 {
        '3'
    } else if n == 4 {
        '4'
    } else if n == 5 {
        '5'
    } else if n == 6 {
        '6'
    } else if n == 7 {
        '7'
    } else if n == 8 {
        '8'
    } else if n == 9 {
        '9'
    } else if n == 10 {
        'A'
    } else if n == 11 {
        'B'
    } else if n == 12 {
        'C'
    } else if n == 13 {
        'D'
    } else if n == 14 {
        'E'
    } else {
        'F'
    }
}

/// True of the hexadecimal digits, either case.
pub open spec fn spec_is_hex_digit(c: char) -> bool {
    ('0' <= c && c <= '9') || ('a' <= c && c <= 'f') || ('A' <= c && c <= 'F')
}

/// The value of a hexadecimal digit.
pub open spec fn spec_hex_value(c: char) -> int {
    if '0' <= c && c <= '9' {
        c as u32 - '0' as u32
    } else if 'a' <= c && c <= 'f' {
        c as u32 - 'a' as u32 + 10
    } else if 'A' <= c && c <= 'F' {
        c as u32 - 'A' as u32 + 10
    } else {
        0
    }
}

/// The characters written for one character of a value.
pub open spec fn escape_char(c: char) -> Seq<char> {
    if c == '"' {
        seq!['\\', '"']
    } else if c == '\\' {
        seq!['\\', '\\']
    } else if c == '\u{8}' {
        seq!['\\', 'b']
    } else if c == '\t' {
        seq!['\\', 't']
    } else if c == '\n' {
        seq!['\\', 'n']
    } else if c == '\u{c}' {
        seq!['\\', 'f']
    } else if c == '\r' {
        seq!['\\', 'r']
    } else if (c as u32) < 0x20 || c as u32 == 0x7f {
        seq![
            '\\',
            'u',
            '0',
            '0',
            spec_hex_digit((c as u32 / 16) as int),
            spec_hex_digit((c as u32 % 16) as int),
        ]
    } else {
        seq![c]
    }
}

/// The characters written for a whole value.
pub open spec fn escape_string(v: Seq<char>) -> Seq<char>
    decreases v.len(),
{
    if v.len() == 0 {
        Seq::<char>::empty()
    } else {
        escape_char(v[0]) + escape_string(v.drop_first())
    }
}

/// One line of the document: the key, an equals sign, and the quoted
/// escaped value.
pub open spec fn emit_entry(key: Seq<char>, v: Seq<char>) -> Seq<char> {
    key + " = \""@ + escape_string(v) + "\"\n"@
}

/// The whole document for a configuration record.
pub open spec fn spec_emit_config(c: ConfigView) -> Seq<char> {
    emit_entry("api_key"@, c.api_key) + emit_entry("team_name"@, c.team_name) + (match c
        .current_issue {
        Some(v) => emit_entry("current_issue"@, v),
        None => Seq::<char>::empty(),
    })
}

// ---------------------------------------------------------------------------
// Emitting
// ---------------------------------------------------------------------------
/// Relies on `String::from` for `char`: the returned string holds exactly
/// the given character.
#[verifier::external_body]
fn char_to_string(c: char) -> (r: String)
    ensures
        r@ == seq![c],
{
    String::from(c)
}

fn hex_digit_char(d: u32) -> (c: char)
    requires
        d < 16,
    ensures
        c == spec_hex_digit(d as int),
{
    if d == 0 {
        '0'
    } else if d == 1 {
        '1'
    } else if d == 2 {
        '2'
    } else if d == 3 {
        '3'
    } else if d == 4 {
        '4'
    } else if d == 5 {
        '5'
    } else if d == 6 {
        '6'
    } else if d == 7 {
        '7'
    } else if d == 8 {
        '8'
    } else if d == 9 {
        '9'
    } else if d == 10 {
        'A'
    } else if d == 11 {
        'B'
    } else if d == 12 {
        'C'
    } else if d == 13 {
        'D'
    } else if d == 14 {
        'E'
    } else {
        'F'
    }
}

proof fn lemma_escape_string_push(v: Seq<char>, c: char)
    ensures
        escape_string(v.push(c)) == escape_string(v) + escape_char(c),
    decreases v.len(),
{
    if v.len() == 0 {
        let l = v.push(c);
        assert(escape_string(v) == Seq::<char>::empty());
        assert(l[0] == c);
        assert(l.drop_first() =~= Seq::<char>::empty());
        assert(escape_string(l.drop_first()) == Seq::<char>::empty());
        assert(escape_string(l) == escape_char(c) + Seq::<char>::empty());
        assert(escape_char(c) + Seq::<char>::empty() =~= Seq::<char>::empty() + escape_char(c));
    } else {
        let l = v.push(c);
        assert(l.drop_first() =~= v.drop_first().push(c));
        lemma_escape_string_push(v.drop_first(), c);
        assert(l[0] == v[0]);
        assert(escape_string(l) == escape_char(v[0]) + (escape_string(v.drop_first())
            + escape_char(c)));
        assert(escape_char(v[0]) + (escape_string(v.drop_first()) + escape_char(c)) =~= (
        escape_char(v[0]) + escape_string(v.drop_first())) + escape_char(c));
    }
}

/// Appends the escaped form of `v` to the text being built.
fn append_escaped(out: &mut String, v: &str)
    ensures
        final (out)@ == old(out)@ + escape_string(v@),
{
    let n = v.unicode_len();
    let mut k: usize = 0;
    while k < n
        invariant
            0 <= k <= n,
            n == v@.len(),
            out@ == old(out)@ + escape_string(v@.take(k as int)),
        decreases n - k,
    {
        let c = v.get_char(k);
        if c == '"' {
            out.append("\\\"");
            proof {
                reveal_strlit("\\\"");
                assert("\\\""@ =~= escape_char(c));
            }
        } else if c == '\\' {
            out.append("\\\\");
            proof {
                reveal_strlit("\\\\");
                assert("\\\\"@ =~= escape_char(c));
            }
        } else if c == '\u{8}' {
            out.append("\\b");
            proof {
                reveal_strlit("\\b");
                assert("\\b"@ =~= escape_char(c));
            }
        } else if c == '\t' {
            out.append("\\t");
            proof {
                reveal_strlit("\\t");
                assert("\\t"@ =~= escape_char(c));
            }
        } else if c == '\n' {
            out.append("\\n");
            proof {
                reveal_strlit("\\n");
                assert("\\n"@ =~= escape_char(c));
            }
        } else if c == '\u{c}' {
            out.append("\\f");
            proof {
                reveal_strlit("\\f");
                assert("\\f"@ =~= escape_char(c));
            }
        } else if c == '\r' {
            out.append("\\r");
            proof {
                reveal_strlit("\\r");
                assert("\\r"@ =~= escape_char(c));
            }
        } else if (c as u32) < 0x20 || c as u32 == 0x7f {
            out.append("\\u00");
            let hi = char_to_string(hex_digit_char(c as u32 / 16));
            out.append(hi.as_str());
            let lo = char_to_string(hex_digit_char(c as u32 % 16));
            out.append(lo.as_str());
            proof {
                reveal_strlit("\\u00");
                assert("\\u00"@ + hi@ + lo@ =~= escape_char(c));
            }
        } else {
            let piece = char_to_string(c);
            out.append(piece.as_str());
            proof {
                assert(piece@ =~= escape_char(c));
            }
        }
        proof {
            assert(v@.take(k + 1) =~= v@.take(k as int).push(v@[k as int]));
            lemma_escape_string_push(v@.take(k as int), v@[k as int]);
            assert(out@ =~= old(out)@ + escape_string(v@.take(k + 1)));
        }
        k += 1;
    }
    proof {
        assert(v@.take(n as int) =~= v@);
    }
}

/// Writes the document for a configuration record: one line per present
/// field, in the fixed key order.
pub fn emit_config(config: &Config) -> (out: String)
    ensures
        out@ == spec_emit_config(config@),
{
    let mut out = String::new();
    out.append("api_key = \"");
    append_escaped(&mut out, config.api_key.as_str());
    out.append("\"\n");
    out.append("team_name = \"");
    append_escaped(&mut out, config.team_name.as_str());
    out.append("\"\n");
    match &config.current_issue {
        Some(ci) => {
            out.append("current_issue = \"");
            append_escaped(&mut out, ci.as_str());
            out.append("\"\n");
        },
        None => {},
    }
    proof {
        reveal_strlit("api_key = \"");
        reveal_strlit("team_name = \"");
        reveal_strlit("current_issue = \"");
        reveal_strlit("api_key");
        reveal_strlit("team_name");
        reveal_strlit("current_issue");
        reveal_strlit(" = \"");
        reveal_strlit("\"\n");
        assert("api_key = \""@ =~= "api_key"@ + " = \""@);
        assert("team_name = \""@ =~= "team_name"@ + " = \""@);
        assert("current_issue = \""@ =~= "current_issue"@ + " = \""@);
        assert(out@ =~= spec_emit_config(config@));
    }
    out
}

// ---------------------------------------------------------------------------
// Parsing
// ---------------------------------------------------------------------------
/// The character an escape code after a backslash denotes, and how many
/// characters the code takes.  A hexadecimal escape may denote any
/// Unicode scalar value.
pub open spec fn unescape_code(s: Seq<char>) -> Option<(char, int)> {
    if s.len() == 0 {
        None
    } else if s[0] == '"' {
        Some(('"', 1))
    } else if s[0] == '\\' {
        Some(('\\', 1))
    } else if s[0] == 'b' {
        Some(('\u{8}', 1))
    } else if s[0] == 't' {
        Some(('\t', 1))
    } else if s[0] == 'n' {
        Some(('\n', 1))
    } else if s[0] == 'f' {
        Some(('\u{c}', 1))
    } else if s[0] == 'r' {
        Some(('\r', 1))
    } else if s[0] == 'u' {
        if s.len() >= 5 && spec_is_hex_digit(s[1]) && spec_is_hex_digit(s[2]) && spec_is_hex_digit(
            s[3],
        ) && spec_is_hex_digit(s[4]) {
            let v = 4096 * spec_hex_value(s[1]) + 256 * spec_hex_value(s[2]) + 16 * spec_hex_value(
                s[3],
            ) + spec_hex_value(s[4]);
            if v < 0xD800 || (0xE000 <= v && v <= 0x10FFFF) {
                Some((((v as u32) as char), 5))
            } else {
                None
            }
        } else {
            None
        }
    } else {
        None
    }
}

/// Reads a quoted value up to its closing quote: the decoded value and
/// what follows the quote.  A raw control character or an unknown escape
/// is refused.
pub open spec fn take_string_body(s: Seq<char>) -> Option<(Seq<char>, Seq<char>)>
    decreases s.len(),
{
    if s.len() == 0 {
        None
    } else if s[0] == '"' {
        Some((Seq::<char>::empty(), s.subrange(1, s.len() as int)))
    } else if s[0] == '\\' {
        match unescape_code(s.subrange(1, s.len() as int)) {
            None => None,
            Some((c, used)) => match take_string_body(s.subrange(1 + used, s.len() as int)) {
                None => None,
                Some((v, rest)) => Some((seq![c] + v, rest)),
            },
        }
    } else if (s[0] as u32) < 0x20 {
        None
    } else {
        match take_string_body(s.subrange(1, s.len() as int)) {
            None => None,
            Some((v, rest)) => Some((seq![s[0]] + v, rest)),
        }
    }
}

/// True of the spaces and tabs that may pad a line.
pub open spec fn spec_is_ws(c: char) -> bool {
    c == ' ' || c == '\t'
}

/// True of the characters a bare key is made of.
pub open spec fn spec_is_key_char(c: char) -> bool {
    ('a' <= c && c <= 'z') || ('A' <= c && c <= 'Z') || ('0' <= c && c <= '9') || c == '_' || c
        == '-'
}

/// The length of the longest prefix of `s` made of spaces and tabs.
pub open spec fn ws_prefix_len(s: Seq<char>) -> nat
    decreases s.len(),
{
    if s.len() > 0 && spec_is_ws(s[0]) {
        (1 + ws_prefix_len(s.drop_first())) as nat
    } else {
        0
    }
}

/// The length of the longest prefix of `s` made of key characters.
pub open spec fn key_prefix_len(s: Seq<char>) -> nat
    decreases s.len(),
{
    if s.len() > 0 && spec_is_key_char(s[0]) {
        (1 + key_prefix_len(s.drop_first())) as nat
    } else {
        0
    }
}

/// The length of the longest prefix of `s` free of line ends.
pub open spec fn non_newline_prefix_len(s: Seq<char>) -> nat
    decreases s.len(),
{
    if s.len() > 0 && s[0] != '\n' {
        (1 + non_newline_prefix_len(s.drop_first())) as nat
    } else {
        0
    }
}

/// What follows the current line: everything after the next line end, or
/// nothing when the line is the last one of the document.
pub open spec fn skip_line(s: Seq<char>) -> Seq<char> {
    let k = non_newline_prefix_len(s) as int;
    if k < s.len() {
        s.subrange(k + 1, s.len() as int)
    } else {
        s.subrange(s.len() as int, s.len() as int)
    }
}

/// Reads the line at the head of `s`: a blank or comment line yields
/// nothing, a `key = "value"` line yields the key and the decoded value,
/// each together with what follows the line; anything else makes the
/// document malformed.
pub open spec fn parse_line(s: Seq<char>) -> Option<
    (Option<(Seq<char>, Seq<char>)>, Seq<char>),
> {
    let t = s.subrange(ws_prefix_len(s) as int, s.len() as int);
    if t.len() == 0 {
        Some((None, t))
    } else if t[0] == '\n' {
        Some((None, t.subrange(1, t.len() as int)))
    } else if t[0] == '#' {
        Some((None, skip_line(t)))
    } else {
        let kl = key_prefix_len(t) as int;
        if kl == 0 {
            None
        } else {
            let key = t.subrange(0, kl);
            let u = t.subrange(kl, t.len() as int);
            let u2 = u.subrange(ws_prefix_len(u) as int, u.len() as int);
            if u2.len() == 0 || u2[0] != '=' {
                None
            } else {
                let w = u2.subrange(1, u2.len() as int);
                let w2 = w.subrange(ws_prefix_len(w) as int, w.len() as int);
                if w2.len() == 0 || w2[0] != '"' {
                    None
                } else {
                    match take_string_body(w2.subrange(1, w2.len() as int)) {
                        None => None,
                        Some((value, after)) => {
                            let a2 = after.subrange(
                                ws_prefix_len(after) as int,
                                after.len() as int,
                            );
                            if a2.len() == 0 {
                                Some((Some((key, value)), a2))
                            } else if a2[0] == '\n' {
                                Some((Some((key, value)), a2.subrange(1, a2.len() as int)))
                            } else if a2[0] == '#' {
                                Some((Some((key, value)), skip_line(a2)))
                            } else {
                                None
                            }
                        },
                    }
                }
            }
        }
    }
}

/// Reads the document line by line, collecting each key's value.  A key
/// given twice, a key other than the three, or a malformed line fails; a
/// line that consumed nothing would be malformed too.
pub open spec fn parse_config_rec(
    s: Seq<char>,
    api_key: Option<Seq<char>>,
    team_name: Option<Seq<char>>,
    current_issue: Option<Seq<char>>,
) -> Option<(Option<Seq<char>>, Option<Seq<char>>, Option<Seq<char>>)>
    decreases s.len(),
{
    if s.len() == 0 {
        Some((api_key, team_name, current_issue))
    } else {
        match parse_line(s) {
            None => None,
            Some((content, rest)) => {
                if rest.len() >= s.len() {
                    None
                } else {
                    match content {
                        None => parse_config_rec(rest, api_key, team_name, current_issue),
                        Some((key, value)) => {
                            if key == "api_key"@ {
                                if api_key is Some {
                                    None
                                } else {
                                    parse_config_rec(rest, Some(value), team_name, current_issue)
                                }
                            } else if key == "team_name"@ {
                                if team_name is Some {
                                    None
                                } else {
                                    parse_config_rec(rest, api_key, Some(value), current_issue)
                                }
                            } else if key == "current_issue"@ {
                                if current_issue is Some {
                                    None
                                } else {
                                    parse_config_rec(rest, api_key, team_name, Some(value))
                                }
                            } else {
                                None
                            }
                        },
                    }
                }
            },
        }
    }
}

/// What reading a document yields: the values of the three keys, in any
/// order, among blank and comment lines; the two required keys must be
/// present, each key at most once.
pub open spec fn spec_parse_config(s: Seq<char>) -> Option<ConfigView> {
    match parse_config_rec(s, None, None, None) {
        None => None,
        Some((api_key, team_name, current_issue)) => match (api_key, team_name) {
            (Some(a), Some(t)) => Some(ConfigView { api_key: a, team_name: t, current_issue }),
            _ => None,
        },
    }
}

/// Relies on `char::from_u32`: the conversion succeeds exactly on the
/// Unicode scalar values, and the character it returns has the given
/// code.
pub assume_specification[ char::from_u32 ](i: u32) -> (r: Option<char>)
    ensures
        (i < 0xD800 || (0xE000 <= i && i <= 0x10FFFF)) <==> r is Some,
        r matches Some(c) ==> c as u32 == i,
;

fn is_hex_digit(c: char) -> (r: bool)
    ensures
        r == spec_is_hex_digit(c),
{
    ('0' <= c && c <= '9') || ('a' <= c && c <= 'f') || ('A' <= c && c <= 'F')
}

fn hex_value(c: char) -> (r: u32)
    requires
        spec_is_hex_digit(c),
    ensures
        r as int == spec_hex_value(c),
        r < 16,
{
    if '0' <= c && c <= '9' {
        c as u32 - '0' as u32
    } else if 'a' <= c && c <= 'f' {
        c as u32 - 'a' as u32 + 10
    } else {
        c as u32 - 'A' as u32 + 10
    }
}

/// Decodes the escape code at `pos`, just after a backslash.
fn unescape_at(s: &str, pos: usize) -> (r: Option<(String, usize)>)
    requires
        pos <= s@.len(),
    ensures
        ({
            let t = unescape_code(s@.subrange(pos as int, s@.len() as int));
            match r {
                Some(p) => t matches Some(q) && p.0@ == seq![q.0] && p.1 as int == q.1 && pos + p.1
                    <= s@.len(),
                None => t is None,
            }
        }),
{
    let n = s.unicode_len();
    let ghost t = s@.subrange(pos as int, n as int);
    if pos == n {
        return None;
    }
    let c = s.get_char(pos);
    proof {
        assert(t[0] == s@[pos as int]);
    }
    if c == '"' {
        Some((char_to_string('"'), 1))
    } else if c == '\\' {
        Some((char_to_string('\\'), 1))
    } else if c == 'b' {
        Some((char_to_string('\u{8}'), 1))
    } else if c == 't' {
        Some((char_to_string('\t'), 1))
    } else if c == 'n' {
        Some((char_to_string('\n'), 1))
    } else if c == 'f' {
        Some((char_to_string('\u{c}'), 1))
    } else if c == 'r' {
        Some((char_to_string('\r'), 1))
    } else if c == 'u' {
        if n - pos < 5 {
            return None;
        }
        let c1 = s.get_char(pos + 1);
        let c2 = s.get_char(pos + 2);
        let c3 = s.get_char(pos + 3);
        let c4 = s.get_char(pos + 4);
        proof {
            assert(t[1] == s@[pos + 1]);
            assert(t[2] == s@[pos + 2]);
            assert(t[3] == s@[pos + 3]);
            assert(t[4] == s@[pos + 4]);
        }
        if !(is_hex_digit(c1) && is_hex_digit(c2) && is_hex_digit(c3) && is_hex_digit(c4)) {
            return None;
        }
        let v = 4096 * hex_value(c1) + 256 * hex_value(c2) + 16 * hex_value(c3) + hex_value(c4);
        if v < 0xD800 || (0xE000 <= v && v <= 0x10FFFF) {
            match char::from_u32(v) {
                Some(ch) => {
                    proof {
                        vstd::utf8::char_u32_cast(ch, v);
                    }
                    Some((char_to_string(ch), 5))
                },
                None => {
                    proof {
                        assert(false);
                    }
                    None
                },
            }
        } else {
            None
        }
    } else {
        None
    }
}

/// Reads the quoted value at `pos` up to its closing quote.
fn take_body(s: &str, pos: usize) -> (r: Option<(String, usize)>)
    requires
        pos <= s@.len(),
    ensures
        ({
            let t = take_string_body(s@.subrange(pos as int, s@.len() as int));
            match r {
                Some(p) => t matches Some(q) && p.0@ == q.0 && pos <= p.1 <= s@.len() && q.1 == s@
                    .subrange(p.1 as int, s@.len() as int),
                None => t is None,
            }
        }),
    decreases s@.len() - pos,
{
    let n = s.unicode_len();
    let ghost t = s@.subrange(pos as int, n as int);
    if pos == n {
        return None;
    }
    let c = s.get_char(pos);
    proof {
        assert(t[0] == s@[pos as int]);
        assert(t.subrange(1, t.len() as int) =~= s@.subrange(pos + 1, n as int));
    }
    if c == '"' {
        return Some((String::new(), pos + 1));
    }
    if c == '\\' {
        let (piece, used) = match unescape_at(s, pos + 1) {
            None => {
                return None;
            },
            Some(p) => p,
        };
        proof {
            assert(t.subrange(1 + used as int, t.len() as int) =~= s@.subrange(
                pos + 1 + used,
                n as int,
            ));
        }
        let (rest, end) = match take_body(s, pos + 1 + used) {
            None => {
                return None;
            },
            Some(p) => p,
        };
        let mut out = piece;
        out.append(rest.as_str());
        proof {
            let q = take_string_body(t).unwrap();
            assert(out@ =~= q.0);
        }
        return Some((out, end));
    }
    if (c as u32) < 0x20 {
        return None;
    }
    let (rest, end) = match take_body(s, pos + 1) {
        None => {
            return None;
        },
        Some(p) => p,
    };
    let mut out = char_to_string(c);
    out.append(rest.as_str());
    proof {
        let q = take_string_body(t).unwrap();
        assert(out@ =~= q.0);
    }
    Some((out, end))
}

fn is_ws_char(c: char) -> (r: bool)
    ensures
        r == spec_is_ws(c),
{
    c == ' ' || c == '\t'
}

fn is_key_char(c: char) -> (r: bool)
    ensures
        r == spec_is_key_char(c),
{
    ('a' <= c && c <= 'z') || ('A' <= c && c <= 'Z') || ('0' <= c && c <= '9') || c == '_' || c
        == '-'
}

proof fn lemma_ws_prefix_len_unique(s: Seq<char>, k: int)
    requires
        0 <= k <= s.len(),
        forall|i: int| 0 <= i < k ==> spec_is_ws(s[i]),
        k < s.len() ==> !spec_is_ws(s[k]),
    ensures
        ws_prefix_len(s) == k,
    decreases s.len(),
{
    if k == 0 {
    } else {
        assert(spec_is_ws(s[0]));
        lemma_ws_prefix_len_unique(s.drop_first(), k - 1);
    }
}

proof fn lemma_key_prefix_len_unique(s: Seq<char>, k: int)
    requires
        0 <= k <= s.len(),
        forall|i: int| 0 <= i < k ==> spec_is_key_char(s[i]),
        k < s.len() ==> !spec_is_key_char(s[k]),
    ensures
        key_prefix_len(s) == k,
    decreases s.len(),
{
    if k == 0 {
    } else {
        assert(spec_is_key_char(s[0]));
        lemma_key_prefix_len_unique(s.drop_first(), k - 1);
    }
}

proof fn lemma_non_newline_prefix_len_unique(s: Seq<char>, k: int)
    requires
        0 <= k <= s.len(),
        forall|i: int| 0 <= i < k ==> s[i] != '\n',
        k < s.len() ==> s[k] == '\n',
    ensures
        non_newline_prefix_len(s) == k,
    decreases s.len(),
{
    if k == 0 {
    } else {
        assert(s[0] != '\n');
        lemma_non_newline_prefix_len_unique(s.drop_first(), k - 1);
    }
}

/// Counts the spaces and tabs of `s` from `from` on.
fn scan_ws(s: &str, from: usize) -> (k: usize)
    requires
        from <= s@.len(),
    ensures
        from + k <= s@.len(),
        k == ws_prefix_len(s@.subrange(from as int, s@.len() as int)),
{
    let n = s.unicode_len();
    let mut j: usize = from;
    while j < n && is_ws_char(s.get_char(j))
        invariant
            from <= j <= n,
            n == s@.len(),
            forall|i: int| from <= i < j ==> spec_is_ws(s@[i]),
        decreases n - j,
    {
        j += 1;
    }
    proof {
        let sub = s@.subrange(from as int, n as int);
        assert forall|i: int| 0 <= i < j - from implies spec_is_ws(sub[i]) by {
            assert(sub[i] == s@[from + i]);
        }
        if j < n {
            assert(sub[j - from] == s@[j as int]);
        }
        lemma_ws_prefix_len_unique(sub, j - from);
    }
    j - from
}

/// Counts the key characters of `s` from `from` on.
fn scan_key(s: &str, from: usize) -> (k: usize)
    requires
        from <= s@.len(),
    ensures
        from + k <= s@.len(),
        k == key_prefix_len(s@.subrange(from as int, s@.len() as int)),
{
    let n = s.unicode_len();
    let mut j: usize = from;
    while j < n && is_key_char(s.get_char(j))
        invariant
            from <= j <= n,
            n == s@.len(),
            forall|i: int| from <= i < j ==> spec_is_key_char(s@[i]),
        decreases n - j,
    {
        j += 1;
    }
    proof {
        let sub = s@.subrange(from as int, n as int);
        assert forall|i: int| 0 <= i < j - from implies spec_is_key_char(sub[i]) by {
            assert(sub[i] == s@[from + i]);
        }
        if j < n {
            assert(sub[j - from] == s@[j as int]);
        }
        lemma_key_prefix_len_unique(sub, j - from);
    }
    j - from
}

/// Finds the next line end at or after `from`: its index, or the text's
/// end where there is none.
fn scan_line_end(s: &str, from: usize) -> (e: usize)
    requires
        from <= s@.len(),
    ensures
        from <= e <= s@.len(),
        e - from == non_newline_prefix_len(s@.subrange(from as int, s@.len() as int)),
{
    let n = s.unicode_len();
    let mut j: usize = from;
    while j < n && s.get_char(j) != '\n'
        invariant
            from <= j <= n,
            n == s@.len(),
            forall|i: int| from <= i < j ==> s@[i] != '\n',
        decreases n - j,
    {
        j += 1;
    }
    proof {
        let sub = s@.subrange(from as int, n as int);
        assert forall|i: int| 0 <= i < j - from implies sub[i] != '\n' by {
            assert(sub[i] == s@[from + i]);
        }
        if j < n {
            assert(sub[j - from] == s@[j as int]);
        }
        lemma_non_newline_prefix_len_unique(sub, j - from);
    }
    j
}

/// One decoded line of the document.
enum LineStep {
    /// A blank or comment line, and the position after it.
    Nothing(usize),
    /// A key-value line: the key's bounds, the decoded value, and the
    /// position after the line.
    Entry(usize, usize, String, usize),
    /// A malformed line.
    Malformed,
}

/// Reads the line at `pos`.
fn parse_line_at(s: &str, pos: usize) -> (r: LineStep)
    requires
        pos < s@.len(),
    ensures
        ({
            let t = parse_line(s@.subrange(pos as int, s@.len() as int));
            match r {
                LineStep::Malformed => t is None,
                LineStep::Nothing(next) => t matches Some((content, rest)) && content is None
                    && pos < next <= s@.len() && rest == s@.subrange(next as int, s@.len() as int),
                LineStep::Entry(ks, ke, v, next) => t matches Some((content, rest)) && (
                content matches Some((key, value)) && key == s@.subrange(ks as int, ke as int)
                    && value == v@) && ks <= ke <= s@.len() && pos < next <= s@.len() && rest == s@
                    .subrange(next as int, s@.len() as int),
            }
        }),
{
    let n = s.unicode_len();
    let ghost sub = s@.subrange(pos as int, n as int);
    let w0 = scan_ws(s, pos);
    let t0 = pos + w0;
    let ghost t = s@.subrange(t0 as int, n as int);
    proof {
        assert(t =~= sub.subrange(ws_prefix_len(sub) as int, sub.len() as int));
    }
    if t0 == n {
        proof {
            assert(t =~= s@.subrange(n as int, n as int));
        }
        return LineStep::Nothing(n);
    }
    let c = s.get_char(t0);
    proof {
        assert(t[0] == s@[t0 as int]);
    }
    if c == '\n' {
        proof {
            assert(t.subrange(1, t.len() as int) =~= s@.subrange(t0 + 1, n as int));
        }
        return LineStep::Nothing(t0 + 1);
    }
    if c == '#' {
        let e = scan_line_end(s, t0);
        proof {
            if e < n {
                assert(skip_line(t) =~= s@.subrange(e + 1, n as int));
            } else {
                assert(skip_line(t) =~= s@.subrange(n as int, n as int));
            }
        }
        if e == n {
            return LineStep::Nothing(n);
        } else {
            return LineStep::Nothing(e + 1);
        }
    }
    let kl = scan_key(s, t0);
    if kl == 0 {
        return LineStep::Malformed;
    }
    let ke = t0 + kl;
    let ghost u = t.subrange(kl as int, t.len() as int);
    proof {
        assert(t.subrange(0, kl as int) =~= s@.subrange(t0 as int, ke as int));
        assert(u =~= s@.subrange(ke as int, n as int));
    }
    let w1 = scan_ws(s, ke);
    let q = ke + w1;
    let ghost u2 = u.subrange(ws_prefix_len(u) as int, u.len() as int);
    proof {
        assert(u2 =~= s@.subrange(q as int, n as int));
    }
    if q == n {
        return LineStep::Malformed;
    }
    let c1 = s.get_char(q);
    proof {
        assert(u2[0] == s@[q as int]);
    }
    if c1 != '=' {
        return LineStep::Malformed;
    }
    let ghost w = u2.subrange(1, u2.len() as int);
    proof {
        assert(w =~= s@.subrange(q + 1, n as int));
    }
    let w2 = scan_ws(s, q + 1);
    let q2 = q + 1 + w2;
    let ghost w2seq = w.subrange(ws_prefix_len(w) as int, w.len() as int);
    proof {
        assert(w2seq =~= s@.subrange(q2 as int, n as int));
    }
    if q2 == n {
        return LineStep::Malformed;
    }
    let c2 = s.get_char(q2);
    proof {
        assert(w2seq[0] == s@[q2 as int]);
    }
    if c2 != '"' {
        return LineStep::Malformed;
    }
    proof {
        assert(w2seq.subrange(1, w2seq.len() as int) =~= s@.subrange(q2 + 1, n as int));
    }
    let (v, bend) = match take_body(s, q2 + 1) {
        None => {
            return LineStep::Malformed;
        },
        Some(p) => p,
    };
    let ghost after = s@.subrange(bend as int, n as int);
    let w3 = scan_ws(s, bend);
    let q3 = bend + w3;
    let ghost a2 = after.subrange(ws_prefix_len(after) as int, after.len() as int);
    proof {
        assert(a2 =~= s@.subrange(q3 as int, n as int));
    }
    if q3 == n {
        proof {
            assert(a2 =~= s@.subrange(n as int, n as int));
        }
        return LineStep::Entry(t0, ke, v, n);
    }
    let c3 = s.get_char(q3);
    proof {
        assert(a2[0] == s@[q3 as int]);
    }
    if c3 == '\n' {
        proof {
            assert(a2.subrange(1, a2.len() as int) =~= s@.subrange(q3 + 1, n as int));
        }
        return LineStep::Entry(t0, ke, v, q3 + 1);
    }
    if c3 == '#' {
        let e = scan_line_end(s, q3);
        proof {
            if e < n {
                assert(skip_line(a2) =~= s@.subrange(e + 1, n as int));
            } else {
                assert(skip_line(a2) =~= s@.subrange(n as int, n as int));
            }
        }
        if e == n {
            return LineStep::Entry(t0, ke, v, n);
        } else {
            return LineStep::Entry(t0, ke, v, e + 1);
        }
    }
    LineStep::Malformed
}

/// Compares the key at `[ks, ke)` of `s` with `lit`.
fn region_eq_lit(s: &str, ks: usize, ke: usize, lit: &str) -> (r: bool)
    requires
        ks <= ke <= s@.len(),
    ensures
        r == (s@.subrange(ks as int, ke as int) == lit@),
{
    let ghost region = s@.subrange(ks as int, ke as int);
    let m = lit.unicode_len();
    if ke - ks != m {
        proof {
            assert(region.len() != lit@.len());
        }
        return false;
    }
    let mut j: usize = 0;
    while j < m
        invariant
            0 <= j <= m,
            m == lit@.len(),
            ks + m == ke,
            ke <= s@.len(),
            region == s@.subrange(ks as int, ke as int),
            forall|i: int| 0 <= i < j ==> s@[ks + i] == lit@[i],
        decreases m - j,
    {
        if s.get_char(ks + j) != lit.get_char(j) {
            proof {
                assert(region[j as int] == s@[ks + j]);
            }
            return false;
        }
        j += 1;
    }
    proof {
        assert(region =~= lit@) by {
            assert forall|i: int| 0 <= i < m implies region[i] == lit@[i] by {
                assert(region[i] == s@[ks + i]);
            }
        }
    }
    true
}

/// Maps an optional owned value to its mathematical value.
pub open spec fn opt_str_view(o: Option<String>) -> Option<Seq<char>> {
    match o {
        Some(x) => Some(x@),
        None => None,
    }
}

/// Reads a configuration record from a document: the three keys in any
/// order, each at most once, among blank lines and `#` comments, with any
/// spacing around the `=`; the two required keys must be present.
pub fn parse_config(s: &str) -> (r: Option<Config>)
    ensures
        ({
            let t = spec_parse_config(s@);
            match r {
                Some(c) => t == Some(c@),
                None => t is None,
            }
        }),
{
    let n = s.unicode_len();
    let mut pos: usize = 0;
    let mut api_key: Option<String> = None;
    let mut team_name: Option<String> = None;
    let mut current_issue: Option<String> = None;
    proof {
        assert(s@.subrange(0, n as int) =~= s@);
    }
    while pos < n
        invariant
            0 <= pos <= n,
            n == s@.len(),
            parse_config_rec(
                s@.subrange(pos as int, n as int),
                opt_str_view(api_key),
                opt_str_view(team_name),
                opt_str_view(current_issue),
            ) == parse_config_rec(s@, None, None, None),
        decreases n - pos,
    {
        let ghost suffix = s@.subrange(pos as int, n as int);
        match parse_line_at(s, pos) {
            LineStep::Malformed => {
                return None;
            },
            LineStep::Nothing(next) => {
                proof {
                    assert(s@.subrange(next as int, n as int).len() < suffix.len());
                }
                pos = next;
            },
            LineStep::Entry(ks, ke, v, next) => {
                proof {
                    assert(s@.subrange(next as int, n as int).len() < suffix.len());
                }
                if region_eq_lit(s, ks, ke, "api_key") {
                    if api_key.is_some() {
                        return None;
                    }
                    api_key = Some(v);
                } else if region_eq_lit(s, ks, ke, "team_name") {
                    if team_name.is_some() {
                        return None;
                    }
                    team_name = Some(v);
                } else if region_eq_lit(s, ks, ke, "current_issue") {
                    if current_issue.is_some() {
                        return None;
                    }
                    current_issue = Some(v);
                } else {
                    return None;
                }
                pos = next;
            },
        }
    }
    proof {
        assert(s@.subrange(pos as int, n as int).len() == 0);
    }
    let api_key = match api_key {
        Some(a) => a,
        None => {
            return None;
        },
    };
    let team_name = match team_name {
        Some(t) => t,
        None => {
            return None;
        },
    };
    Some(Config { api_key, team_name, current_issue })
}


// ---------------------------------------------------------------------------
// The round trip
// ---------------------------------------------------------------------------
proof fn lemma_hex_digit_roundtrip(n: int)
    requires
        0 <= n < 16,
    ensures
        spec_is_hex_digit(spec_hex_digit(n)),
        spec_hex_value(spec_hex_digit(n)) == n,
{
}

#[verifier::rlimit(60)]
proof fn lemma_take_body_escape(v: Seq<char>, tail: Seq<char>)
    ensures
        take_string_body(escape_string(v) + seq!['"'] + tail) == Some((v, tail)),
    decreases v.len(),
{
    let s = escape_string(v) + seq!['"'] + tail;
    if v.len() == 0 {
        assert(escape_string(v) == Seq::<char>::empty());
        assert(s[0] == '"');
        assert(s.subrange(1, s.len() as int) =~= tail);
    } else {
        let c = v[0];
        let e = escape_char(c);
        let s1 = escape_string(v.drop_first()) + seq!['"'] + tail;
        assert(escape_string(v) == e + escape_string(v.drop_first()));
        assert(s =~= e + s1);
        lemma_take_body_escape(v.drop_first(), tail);
        assert(seq![c] + v.drop_first() =~= v);
        if c == '"' || c == '\\' || c == '\u{8}' || c == '\t' || c == '\n' || c == '\u{c}' || c
            == '\r' {
            assert(e.len() == 2 && e[0] == '\\');
            let t = s.subrange(1, s.len() as int);
            assert(t[0] == e[1]);
            assert(unescape_code(t) == Some((c, 1int)));
            assert(s.subrange(2, s.len() as int) =~= s1);
        } else if (c as u32) < 0x20 || c as u32 == 0x7f {
            let hi = (c as u32 / 16) as int;
            let lo = (c as u32 % 16) as int;
            assert(e.len() == 6 && e[0] == '\\');
            let t = s.subrange(1, s.len() as int);
            assert(t[0] == 'u' && t[1] == '0' && t[2] == '0' && t[3] == spec_hex_digit(hi) && t[4]
                == spec_hex_digit(lo));
            assert(0 <= hi < 16 && 0 <= lo < 16) by {
                vstd::arithmetic::div_mod::lemma_fundamental_div_mod(c as u32 as int, 16);
            }
            lemma_hex_digit_roundtrip(hi);
            lemma_hex_digit_roundtrip(lo);
            assert(spec_is_hex_digit('0') && spec_hex_value('0') == 0);
            let code = 4096 * spec_hex_value(t[1]) + 256 * spec_hex_value(t[2]) + 16
                * spec_hex_value(t[3]) + spec_hex_value(t[4]);
            assert(code == 16 * hi + lo);
            assert(code == c as u32) by {
                vstd::arithmetic::div_mod::lemma_fundamental_div_mod(c as u32 as int, 16);
            }
            assert(((code as u32) as char) == c) by {
                vstd::utf8::char_u32_cast(c, code as u32);
            }
            assert(unescape_code(t) == Some((c, 5int)));
            assert(s.subrange(6, s.len() as int) =~= s1);
        } else {
            assert(e =~= seq![c]);
            assert(s[0] == c);
            assert(c != '"' && c != '\\' && !((c as u32) < 0x20));
            assert(s.subrange(1, s.len() as int) =~= s1);
        }
    }
}

proof fn lemma_parse_line_emit(key: Seq<char>, v: Seq<char>, rest: Seq<char>)
    requires
        key.len() > 0,
        forall|i: int| 0 <= i < key.len() ==> spec_is_key_char(key[i]),
    ensures
        parse_line(emit_entry(key, v) + rest) == Some((Some((key, v)), rest)),
{
    reveal_strlit(" = \"");
    reveal_strlit("\"\n");
    let s = emit_entry(key, v) + rest;
    assert(" = \""@ =~= seq![' ', '=', ' ', '"']);
    assert("\"\n"@ =~= seq!['"', '\n']);
    let kl = key.len() as int;
    assert(s[0] == key[0]);
    assert(!spec_is_ws(s[0]));
    lemma_ws_prefix_len_unique(s, 0);
    let t = s.subrange(0, s.len() as int);
    assert(t =~= s);
    assert(forall|i: int| 0 <= i < kl ==> s[i] == key[i]);
    assert(s[kl] == ' ');
    lemma_key_prefix_len_unique(s, kl);
    assert(s.subrange(0, kl) =~= key);
    let u = s.subrange(kl, s.len() as int);
    assert(u[0] == ' ' && u[1] == '=');
    assert(!spec_is_ws(u[1]));
    lemma_ws_prefix_len_unique(u, 1);
    let u2 = u.subrange(1, u.len() as int);
    assert(u2[0] == '=');
    let w = u2.subrange(1, u2.len() as int);
    assert(w[0] == ' ' && w[1] == '"');
    assert(!spec_is_ws(w[1]));
    lemma_ws_prefix_len_unique(w, 1);
    let w2 = w.subrange(1, w.len() as int);
    assert(w2[0] == '"');
    let body = w2.subrange(1, w2.len() as int);
    assert(body =~= escape_string(v) + seq!['"'] + (seq!['\n'] + rest));
    lemma_take_body_escape(v, seq!['\n'] + rest);
    let after = seq!['\n'] + rest;
    assert(!spec_is_ws(after[0]));
    lemma_ws_prefix_len_unique(after, 0);
    let a2 = after.subrange(0, after.len() as int);
    assert(a2 =~= after);
    assert(a2[0] == '\n');
    assert(a2.subrange(1, a2.len() as int) =~= rest);
}

/// Writing a configuration record and reading the document back yields
/// the record unchanged, field for field, for every record.
pub proof fn lemma_config_round_trip(c: ConfigView)
    ensures
        spec_parse_config(spec_emit_config(c)) == Some(c),
{
    reveal_strlit(" = \"");
    reveal_strlit("\"\n");
    reveal_strlit("api_key");
    reveal_strlit("team_name");
    reveal_strlit("current_issue");
    let kak = "api_key"@;
    let ktn = "team_name"@;
    let kci = "current_issue"@;
    assert(kak.len() == 7 && ktn.len() == 9 && kci.len() == 13);
    assert(forall|i: int| 0 <= i < kak.len() ==> spec_is_key_char(kak[i]));
    assert(forall|i: int| 0 <= i < ktn.len() ==> spec_is_key_char(ktn[i]));
    assert(forall|i: int| 0 <= i < kci.len() ==> spec_is_key_char(kci[i]));
    let e1 = emit_entry(kak, c.api_key);
    let e2 = emit_entry(ktn, c.team_name);
    let e3 = match c.current_issue {
        Some(v) => emit_entry(kci, v),
        None => Seq::<char>::empty(),
    };
    let s = spec_emit_config(c);
    assert(s =~= e1 + (e2 + e3));
    lemma_parse_line_emit(kak, c.api_key, e2 + e3);
    assert(e1.len() > 0);
    lemma_parse_line_emit(ktn, c.team_name, e3);
    assert(e2 + e3 == emit_entry(ktn, c.team_name) + e3);
    assert(e2.len() > 0);
    assert(ktn != kak);
    assert(parse_config_rec(s, None, None, None) == parse_config_rec(
        e2 + e3,
        Some(c.api_key),
        None,
        None,
    ));
    assert(parse_config_rec(e2 + e3, Some(c.api_key), None, None) == parse_config_rec(
        e3,
        Some(c.api_key),
        Some(c.team_name),
        None,
    ));
    match c.current_issue {
        None => {
            assert(e3.len() == 0);
            assert(parse_config_rec(e3, Some(c.api_key), Some(c.team_name), None) == Some(
                (Some(c.api_key), Some(c.team_name), None::<Seq<char>>),
            ));
        },
        Some(v) => {
            lemma_parse_line_emit(kci, v, Seq::<char>::empty());
            assert(e3 =~= emit_entry(kci, v) + Seq::<char>::empty());
            assert(e3.len() > 0);
            assert(kci != kak && kci != ktn);
            assert(parse_config_rec(e3, Some(c.api_key), Some(c.team_name), None)
                == parse_config_rec(
                Seq::<char>::empty(),
                Some(c.api_key),
                Some(c.team_name),
                Some(v),
            ));
            assert(parse_config_rec(
                Seq::<char>::empty(),
                Some(c.api_key),
                Some(c.team_name),
                Some(v),
            ) == Some((Some(c.api_key), Some(c.team_name), Some(v))));
        },
    }
}


} // verus!
