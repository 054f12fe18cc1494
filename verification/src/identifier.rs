use vstd::prelude::*;
use vstd::string::StrSliceExecFns;

verus! {

// ---------------------------------------------------------------------------
// Character classes
// ---------------------------------------------------------------------------
/// True of the decimal digits.
pub open spec fn spec_is_digit(c: char) -> bool {
    '0' <= c && c <= '9'
}

fn is_digit(c: char) -> (r: bool)
    ensures
        r == spec_is_digit(c),
{
    '0' <= c && c <= '9'
}

/// True of a leading sign character.
pub open spec fn spec_is_sign(c: char) -> bool {
    c == '+' || c == '-'
}

/// `c` equals the lower-case letter `lower`, up to ASCII case.
pub open spec fn eq_ci(c: char, lower: char) -> bool {
    c == lower || ('A' <= c && c <= 'Z' && c as u32 + 32 == lower as u32)
}

fn eq_ci_exec(c: char, lower: char) -> (r: bool)
    ensures
        r == eq_ci(c, lower),
{
    c == lower || ('A' <= c && c <= 'Z' && c as u32 + 32 == lower as u32)
}

// ---------------------------------------------------------------------------
// Digit prefixes
// ---------------------------------------------------------------------------
/// The length of the longest prefix of `s` made of decimal digits.
pub open spec fn digits_prefix_len(s: Seq<char>) -> nat
    decreases s.len(),
{
    if s.len() > 0 && spec_is_digit(s[0]) {
        (1 + digits_prefix_len(s.drop_first())) as nat
    } else {
        0
    }
}

/// All characters of `s` are decimal digits.
pub open spec fn all_digits(s: Seq<char>) -> bool {
    forall|i: int| 0 <= i < s.len() ==> spec_is_digit(s[i])
}

proof fn lemma_digits_prefix_len_bounds(s: Seq<char>)
    ensures
        digits_prefix_len(s) <= s.len(),
        forall|i: int| 0 <= i < digits_prefix_len(s) ==> spec_is_digit(s[i]),
        digits_prefix_len(s) < s.len() ==> !spec_is_digit(s[digits_prefix_len(s) as int]),
    decreases s.len(),
{
    if s.len() > 0 && spec_is_digit(s[0]) {
        lemma_digits_prefix_len_bounds(s.drop_first());
        assert forall|i: int| 0 <= i < digits_prefix_len(s) implies spec_is_digit(s[i]) by {
            if i > 0 {
                assert(s.drop_first()[i - 1] == s[i]);
            }
        }
        if digits_prefix_len(s) < s.len() {
            assert(s.drop_first()[digits_prefix_len(s) as int - 1] == s[
                digits_prefix_len(s) as int
            ]);
        }
    }
}

proof fn lemma_digits_prefix_len_unique(s: Seq<char>, k: int)
    requires
        0 <= k <= s.len(),
        forall|i: int| 0 <= i < k ==> spec_is_digit(s[i]),
        k < s.len() ==> !spec_is_digit(s[k]),
    ensures
        digits_prefix_len(s) == k,
    decreases s.len(),
{
    if k == 0 {
    } else {
        assert(spec_is_digit(s[0]));
        lemma_digits_prefix_len_unique(s.drop_first(), k - 1);
    }
}

proof fn lemma_count_characterization(s: Seq<char>)
    ensures
        (s.len() > 0 && all_digits(s)) <==> (digits_prefix_len(s) == s.len() && s.len() > 0),
{
    lemma_digits_prefix_len_bounds(s);
    if s.len() > 0 && all_digits(s) {
        lemma_digits_prefix_len_unique(s, s.len() as int);
    }
}

// ---------------------------------------------------------------------------
// The numeral grammar of the remote schema's numeric type
// ---------------------------------------------------------------------------
//
// An issue number travels as a float, so the suffix of an identifier is
// accepted exactly when the standard library's float parser accepts it.
// Its documented grammar, applied after lowering ASCII case, is
//
//     Numeral  ::= Sign? ( 'inf' | 'infinity' | 'nan' | Number )
//     Number   ::= Count '.'? Count? Exp?
//              |   '.' Count Exp?
//     Exp      ::= 'e' Sign? Count
//     Sign     ::= '+' | '-'
//     Count    ::= Digit+
/// `s` without its leading sign, if it has one.
pub open spec fn strip_sign(s: Seq<char>) -> Seq<char> {
    if s.len() > 0 && spec_is_sign(s[0]) {
        s.subrange(1, s.len() as int)
    } else {
        s
    }
}

/// `s` equals `lit` up to ASCII case.
pub open spec fn ci_matches(s: Seq<char>, lit: Seq<char>) -> bool {
    s.len() == lit.len() && (forall|i: int| 0 <= i < s.len() ==> eq_ci(s[i], lit[i]))
}

/// One of the named non-finite numerals.
pub open spec fn is_special_numeral(s: Seq<char>) -> bool {
    ci_matches(s, "inf"@) || ci_matches(s, "infinity"@) || ci_matches(s, "nan"@)
}

/// A nonempty run of digits.
pub open spec fn is_count(s: Seq<char>) -> bool {
    s.len() > 0 && all_digits(s)
}

/// An exponent part: `e` or `E`, an optional sign, then digits.
pub open spec fn is_exponent(s: Seq<char>) -> bool {
    s.len() > 0 && (s[0] == 'e' || s[0] == 'E') && is_count(
        strip_sign(s.subrange(1, s.len() as int)),
    )
}

/// A finite number: digits, an optional point with optional further
/// digits, and an optional exponent; or a point, digits, and an optional
/// exponent.
pub open spec fn is_number(s: Seq<char>) -> bool {
    let d1 = digits_prefix_len(s) as int;
    if d1 > 0 {
        let rest = s.subrange(d1, s.len() as int);
        if rest.len() == 0 {
            true
        } else if rest[0] == '.' {
            let frac = rest.subrange(1, rest.len() as int);
            let tail = frac.subrange(digits_prefix_len(frac) as int, frac.len() as int);
            tail.len() == 0 || is_exponent(tail)
        } else {
            is_exponent(rest)
        }
    } else if s.len() > 0 && s[0] == '.' {
        let frac = s.subrange(1, s.len() as int);
        let d2 = digits_prefix_len(frac) as int;
        let tail = frac.subrange(d2, frac.len() as int);
        d2 > 0 && (tail.len() == 0 || is_exponent(tail))
    } else {
        false
    }
}

/// The whole numeral grammar: an optional sign, then a special numeral or
/// a finite number.
pub open spec fn spec_is_float_numeral(s: Seq<char>) -> bool {
    is_special_numeral(strip_sign(s)) || is_number(strip_sign(s))
}

// ---------------------------------------------------------------------------
// Executable recognizer
// ---------------------------------------------------------------------------
/// Compares the tail of `s` from `from` with `lit`, up to ASCII case.
fn rest_matches_ci(s: &str, from: usize, lit: &str) -> (r: bool)
    requires
        from <= s@.len(),
    ensures
        r == ci_matches(s@.subrange(from as int, s@.len() as int), lit@),
{
    let n = s.unicode_len();
    let m = lit.unicode_len();
    let ghost sub = s@.subrange(from as int, s@.len() as int);
    if n - from != m {
        return false;
    }
    let mut j: usize = 0;
    while j < m
        invariant
            0 <= j <= m,
            m == lit@.len(),
            n == s@.len(),
            from + m == n,
            sub == s@.subrange(from as int, s@.len() as int),
            forall|i: int| 0 <= i < j ==> eq_ci(s@[from + i], lit@[i]),
        decreases m - j,
    {
        if !eq_ci_exec(s.get_char(from + j), lit.get_char(j)) {
            proof {
                assert(sub[j as int] == s@[from + j]);
            }
            return false;
        }
        j += 1;
    }
    proof {
        assert forall|i: int| 0 <= i < sub.len() implies eq_ci(sub[i], lit@[i]) by {
            assert(sub[i] == s@[from + i]);
        }
    }
    true
}

/// Counts the digits of `s` from `from` on.
fn digits_from(s: &str, from: usize) -> (k: usize)
    requires
        from <= s@.len(),
    ensures
        from + k <= s@.len(),
        k == digits_prefix_len(s@.subrange(from as int, s@.len() as int)),
{
    let n = s.unicode_len();
    let mut j: usize = from;
    while j < n && is_digit(s.get_char(j))
        invariant
            from <= j <= n,
            n == s@.len(),
            forall|i: int| from <= i < j ==> spec_is_digit(s@[i]),
        decreases n - j,
    {
        j += 1;
    }
    proof {
        let sub = s@.subrange(from as int, n as int);
        assert forall|i: int| 0 <= i < j - from implies spec_is_digit(sub[i]) by {
            assert(sub[i] == s@[from + i]);
        }
        if j < n {
            assert(sub[j - from] == s@[j as int]);
        }
        lemma_digits_prefix_len_unique(sub, j - from);
    }
    j - from
}

/// Recognizes an exponent part of `s` from `from` on, reaching the end.
fn exponent_from(s: &str, from: usize) -> (r: bool)
    requires
        from <= s@.len(),
    ensures
        r == is_exponent(s@.subrange(from as int, s@.len() as int)),
{
    let n = s.unicode_len();
    let ghost sub = s@.subrange(from as int, n as int);
    if from == n {
        return false;
    }
    let c = s.get_char(from);
    proof {
        assert(sub[0] == s@[from as int]);
    }
    if !(c == 'e' || c == 'E') {
        return false;
    }
    let mut q: usize = from + 1;
    if q < n {
        let c2 = s.get_char(q);
        if c2 == '+' || c2 == '-' {
            q += 1;
        }
    }
    let d = digits_from(s, q);
    proof {
        let after_e = sub.subrange(1, sub.len() as int);
        assert(after_e =~= s@.subrange(from + 1, n as int));
        if after_e.len() > 0 {
            assert(after_e[0] == s@[from + 1]);
        }
        assert(strip_sign(after_e) =~= s@.subrange(q as int, n as int));
        lemma_count_characterization(s@.subrange(q as int, n as int));
    }
    d > 0 && q + d == n
}

/// Decides whether `s` belongs to the numeral grammar.
pub fn is_float_numeral(s: &str) -> (r: bool)
    ensures
        r == spec_is_float_numeral(s@),
{
    let n = s.unicode_len();
    let mut i: usize = 0;
    if n > 0 {
        let c = s.get_char(0);
        if c == '+' || c == '-' {
            i = 1;
        }
    }
    let ghost body = strip_sign(s@);
    proof {
        assert(body =~= s@.subrange(i as int, n as int));
    }
    if rest_matches_ci(s, i, "inf") || rest_matches_ci(s, i, "infinity") || rest_matches_ci(
        s,
        i,
        "nan",
    ) {
        return true;
    }
    let d1 = digits_from(s, i);
    if d1 > 0 {
        let p = i + d1;
        let ghost rest = body.subrange(d1 as int, body.len() as int);
        proof {
            assert(rest =~= s@.subrange(p as int, n as int));
        }
        if p == n {
            return true;
        }
        let c = s.get_char(p);
        proof {
            assert(rest[0] == s@[p as int]);
        }
        if c == '.' {
            let d2 = digits_from(s, p + 1);
            let q = p + 1 + d2;
            let ghost frac = rest.subrange(1, rest.len() as int);
            let ghost tail = frac.subrange(digits_prefix_len(frac) as int, frac.len() as int);
            proof {
                assert(frac =~= s@.subrange(p + 1, n as int));
                assert(tail =~= s@.subrange(q as int, n as int));
            }
            if q == n {
                return true;
            }
            exponent_from(s, q)
        } else {
            exponent_from(s, p)
        }
    } else {
        if i < n {
            let c = s.get_char(i);
            proof {
                assert(body[0] == s@[i as int]);
            }
            if c == '.' {
                let d2 = digits_from(s, i + 1);
                let ghost frac = body.subrange(1, body.len() as int);
                let ghost tail = frac.subrange(digits_prefix_len(frac) as int, frac.len() as int);
                let q = i + 1 + d2;
                proof {
                    assert(frac =~= s@.subrange(i + 1, n as int));
                    assert(tail =~= s@.subrange(q as int, n as int));
                }
                if d2 == 0 {
                    return false;
                }
                if q == n {
                    return true;
                }
                return exponent_from(s, q);
            }
        }
        false
    }
}

// ---------------------------------------------------------------------------
// Identifier parsing
// ---------------------------------------------------------------------------
/// A parsed issue identifier: the team prefix and the text of the numeric
/// suffix.  The suffix is kept as text; the remote schema's numeric type
/// is produced from it at the transport edge.
#[derive(Debug, PartialEq, Eq)]
pub struct IdentifierRef {
    pub prefix: String,
    pub number_text: String,
}

/// The mathematical value of an [`IdentifierRef`].
pub ghost struct IdentifierRefView {
    pub prefix: Seq<char>,
    pub number_text: Seq<char>,
}

impl View for IdentifierRef {
    type V = IdentifierRefView;

    open spec fn view(&self) -> IdentifierRefView {
        IdentifierRefView { prefix: self.prefix@, number_text: self.number_text@ }
    }
}

/// How parsing an identifier can fail.
#[derive(Debug, PartialEq, Eq, Clone, Copy)]
pub enum ParseError {
    /// The identifier has no `-`.
    MalformedIdentifier,
    /// The part after the first `-` is not a numeral.
    NumericParseError,
}

/// `s` holds a `-` somewhere.
pub open spec fn has_dash(s: Seq<char>) -> bool {
    exists|i: int| 0 <= i < s.len() && s[i] == '-'
}

/// The length of the longest prefix of `s` free of `-`.
pub open spec fn dash_free_prefix_len(s: Seq<char>) -> nat
    decreases s.len(),
{
    if s.len() > 0 && s[0] != '-' {
        (1 + dash_free_prefix_len(s.drop_first())) as nat
    } else {
        0
    }
}

/// The index of the first `-` of `s`, where it has one.
pub open spec fn first_dash_index(s: Seq<char>) -> int {
    dash_free_prefix_len(s) as int
}

proof fn lemma_dash_free_prefix_len_unique(s: Seq<char>, k: int)
    requires
        0 <= k <= s.len(),
        forall|i: int| 0 <= i < k ==> s[i] != '-',
        k < s.len() ==> s[k] == '-',
    ensures
        dash_free_prefix_len(s) == k,
    decreases s.len(),
{
    if k == 0 {
    } else {
        assert(s[0] != '-');
        lemma_dash_free_prefix_len_unique(s.drop_first(), k - 1);
    }
}

/// What parsing an identifier returns for each string: without a `-` it is
/// malformed; with one, the text after the first `-` must be a numeral,
/// and the text before it becomes the team prefix.
pub open spec fn spec_parse_identifier(s: Seq<char>) -> Result<IdentifierRefView, ParseError> {
    if !has_dash(s) {
        Err(ParseError::MalformedIdentifier)
    } else {
        let i = first_dash_index(s);
        let suffix = s.subrange(i + 1, s.len() as int);
        if spec_is_float_numeral(suffix) {
            Ok(IdentifierRefView { prefix: s.subrange(0, i), number_text: suffix })
        } else {
            Err(ParseError::NumericParseError)
        }
    }
}

/// Maps a parse result to its mathematical value.
pub open spec fn parse_result_view(r: Result<IdentifierRef, ParseError>) -> Result<
    IdentifierRefView,
    ParseError,
> {
    match r {
        Ok(id) => Ok(id@),
        Err(e) => Err(e),
    }
}

/// Splits an identifier on its first `-` and validates the numeric
/// suffix.
pub fn parse_identifier(s: &str) -> (r: Result<IdentifierRef, ParseError>)
    ensures
        parse_result_view(r) == spec_parse_identifier(s@),
{
    let n = s.unicode_len();
    let mut j: usize = 0;
    while j < n && s.get_char(j) != '-'
        invariant
            0 <= j <= n,
            n == s@.len(),
            forall|i: int| 0 <= i < j ==> s@[i] != '-',
        decreases n - j,
    {
        j += 1;
    }
    proof {
        lemma_dash_free_prefix_len_unique(s@, j as int);
    }
    if j == n {
        return Err(ParseError::MalformedIdentifier);
    }
    let suffix = s.substring_char(j + 1, n);
    if is_float_numeral(suffix) {
        let prefix = s.substring_char(0, j);
        Ok(IdentifierRef { prefix: prefix.to_owned(), number_text: suffix.to_owned() })
    } else {
        Err(ParseError::NumericParseError)
    }
}

/// True of the ASCII letters.
pub open spec fn is_ascii_letter(c: char) -> bool {
    ('a' <= c && c <= 'z') || ('A' <= c && c <= 'Z')
}

/// Parsing is exact on well-formed identifiers: for any prefix of letters
/// and any nonempty run of digits, parsing the prefix, a `-`, and the
/// digits succeeds and yields exactly that prefix and that digit text.
pub proof fn lemma_parse_letters_digits(p: Seq<char>, d: Seq<char>)
    requires
        forall|i: int| 0 <= i < p.len() ==> is_ascii_letter(p[i]),
        d.len() > 0,
        all_digits(d),
    ensures
        spec_parse_identifier(p + seq!['-'] + d) == Ok::<IdentifierRefView, ParseError>(
            IdentifierRefView { prefix: p, number_text: d },
        ),
{
    let s = p + seq!['-'] + d;
    assert(s[p.len() as int] == '-');
    assert(has_dash(s));
    assert forall|i: int| 0 <= i < p.len() implies s[i] != '-' by {
        assert(s[i] == p[i]);
    }
    lemma_dash_free_prefix_len_unique(s, p.len() as int);
    let suffix = s.subrange(p.len() as int + 1, s.len() as int);
    assert(suffix =~= d);
    assert(strip_sign(d) == d);
    lemma_count_characterization(d);
    let rest = d.subrange(d.len() as int, d.len() as int);
    assert(rest.len() == 0);
    assert(is_number(d));
    assert(s.subrange(0, p.len() as int) =~= p);
}

} // verus!
