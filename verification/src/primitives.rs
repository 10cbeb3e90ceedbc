//! Primitive and literal formatting: quoting and escaping of strings,
//! key rendering, delimiter-joined rows, and array header tokens.
//!
//! Every rendering rule is first stated as a spec function over character
//! sequences; the executable functions are proved to return exactly those
//! sequences.

use vstd::prelude::*;

use crate::types::Delimiter;
use crate::types::JsonPrimitive;
use crate::types::spec_delim_char;

verus! {

/// Relies on `String::push`: appends exactly the given character.
#[verifier::external_body]
fn push_char(s: &mut String, c: char)
    ensures
        final(s)@ == old(s)@.push(c),
{
    s.push(c);
}

// ---------------------------------------------------------------------------
// Character classes
// ---------------------------------------------------------------------------

/// ASCII decimal digit.  The numeric-literal pattern is deliberately a
/// plain ASCII character class: only ASCII-digit strings can collide
/// with the number tokens this format emits, and quoting anything else
/// is always safe.
pub open spec fn spec_is_digit(c: char) -> bool {
    ('0' as u32) <= (c as u32) && (c as u32) <= ('9' as u32)
}

fn char_is_digit(c: char) -> (r: bool)
    ensures
        r == spec_is_digit(c),
{
    ('0' as u32) <= (c as u32) && (c as u32) <= ('9' as u32)
}

/// Whitespace, written out as Unicode's White_Space set (what
/// `str::trim` removes): the ASCII whitespace characters together with
/// next line, no-break space, ogham space mark, the en/em space range,
/// the line and paragraph separators, narrow no-break space, medium
/// mathematical space, and ideographic space.
pub open spec fn spec_is_ws(c: char) -> bool {
    let n = c as u32;
    (0x09 <= n && n <= 0x0D) || n == 0x20 || n == 0x85 || n == 0xA0 || n == 0x1680 || (0x2000 <= n
        && n <= 0x200A) || n == 0x2028 || n == 0x2029 || n == 0x202F || n == 0x205F || n == 0x3000
}

fn char_is_ws(c: char) -> (r: bool)
    ensures
        r == spec_is_ws(c),
{
    let n = c as u32;
    (0x09 <= n && n <= 0x0D) || n == 0x20 || n == 0x85 || n == 0xA0 || n == 0x1680 || (0x2000 <= n
        && n <= 0x200A) || n == 0x2028 || n == 0x2029 || n == 0x202F || n == 0x205F || n == 0x3000
}

/// Characters that force quoting of a string: structural punctuation,
/// the escape and quote characters, control characters, and the active
/// delimiter.
pub open spec fn spec_forbidden_char(c: char, d: Delimiter) -> bool {
    c == ':' || c == '"' || c == '\\' || c == '[' || c == ']' || c == '{' || c == '}' || c == '\n'
        || c == '\r' || c == '\t' || c == spec_delim_char(d)
}

fn delim_char(delimiter: &Delimiter) -> (c: char)
    ensures
        c == spec_delim_char(*delimiter),
{
    match delimiter {
        Delimiter::Comma => ',',
        Delimiter::Tab => '\t',
        Delimiter::Pipe => '|',
    }
}

fn char_is_forbidden(c: char, delimiter: &Delimiter) -> (r: bool)
    ensures
        r == spec_forbidden_char(c, *delimiter),
{
    c == ':' || c == '"' || c == '\\' || c == '[' || c == ']' || c == '{' || c == '}' || c == '\n'
        || c == '\r' || c == '\t' || c == delim_char(delimiter)
}

/// First character of an unquoted key: ASCII letter or underscore.
/// The key pattern is deliberately a plain ASCII character class; a key
/// with characters beyond it is quoted, which is always safe.
pub open spec fn spec_is_key_start(c: char) -> bool {
    (('A' as u32) <= (c as u32) && (c as u32) <= ('Z' as u32)) || (('a' as u32) <= (c as u32) && (c
        as u32) <= ('z' as u32)) || c == '_'
}

fn char_is_key_start(c: char) -> (r: bool)
    ensures
        r == spec_is_key_start(c),
{
    (('A' as u32) <= (c as u32) && (c as u32) <= ('Z' as u32)) || (('a' as u32) <= (c as u32) && (c
        as u32) <= ('z' as u32)) || c == '_'
}

/// Later character of an unquoted key: word character (ASCII letter,
/// digit, underscore) or dot, the same deliberate ASCII class as
/// [`spec_is_key_start`].
pub open spec fn spec_is_key_char(c: char) -> bool {
    spec_is_key_start(c) || spec_is_digit(c) || c == '.'
}

fn char_is_key_char(c: char) -> (r: bool)
    ensures
        r == spec_is_key_char(c),
{
    char_is_key_start(c) || char_is_digit(c) || c == '.'
}

// ---------------------------------------------------------------------------
// String equality (by characters)
// ---------------------------------------------------------------------------

fn str_eq_str(a: &str, b: &str) -> (r: bool)
    ensures
        r == (a@ == b@),
{
    let n = a.unicode_len();
    let m = b.unicode_len();
    if n != m {
        return false;
    }
    let mut i: usize = 0;
    while i < n
        invariant
            n == a@.len(),
            n == b@.len(),
            i <= n,
            forall|j: int| 0 <= j < i ==> a@[j] == b@[j],
        decreases n - i,
    {
        if a.get_char(i) != b.get_char(i) {
            return false;
        }
        i = i + 1;
    }
    proof {
        assert(a@ =~= b@);
    }
    true
}

// ---------------------------------------------------------------------------
// Escaping
// ---------------------------------------------------------------------------

/// The escape expansion of one character inside a quoted literal.
pub open spec fn spec_escape_char(c: char) -> Seq<char> {
    if c == '\\' {
        seq!['\\', '\\']
    } else if c == '"' {
        seq!['\\', '"']
    } else if c == '\n' {
        seq!['\\', 'n']
    } else if c == '\r' {
        seq!['\\', 'r']
    } else if c == '\t' {
        seq!['\\', 't']
    } else {
        seq![c]
    }
}

/// The escape expansion of a whole string.
pub open spec fn spec_escape(s: Seq<char>) -> Seq<char>
    decreases s.len(),
{
    if s.len() == 0 {
        Seq::empty()
    } else {
        spec_escape(s.drop_last()) + spec_escape_char(s.last())
    }
}

/// Escapes backslash, double quote, newline, carriage return, and tab
/// with backslash sequences; all other characters pass through.
pub fn escape_string(value: &str) -> (r: String)
    ensures
        r@ == spec_escape(value@),
{
    let n = value.unicode_len();
    let mut out = String::new();
    let mut i: usize = 0;
    while i < n
        invariant
            n == value@.len(),
            i <= n,
            out@ == spec_escape(value@.take(i as int)),
        decreases n - i,
    {
        let c = value.get_char(i);
        if c == '\\' {
            out.append("\\\\");
        } else if c == '"' {
            out.append("\\\"");
        } else if c == '\n' {
            out.append("\\n");
        } else if c == '\r' {
            out.append("\\r");
        } else if c == '\t' {
            out.append("\\t");
        } else {
            push_char(&mut out, c);
        }
        proof {
            reveal_strlit("\\\\");
            reveal_strlit("\\\"");
            reveal_strlit("\\n");
            reveal_strlit("\\r");
            reveal_strlit("\\t");
            assert(value@.take(i + 1).drop_last() =~= value@.take(i as int));
            assert(value@.take(i + 1).last() == value@[i as int]);
            assert(out@ =~= spec_escape(value@.take(i + 1)));
        }
        i = i + 1;
    }
    proof {
        assert(value@.take(n as int) =~= value@);
    }
    out
}

// ---------------------------------------------------------------------------
// Numeric-literal detection
// ---------------------------------------------------------------------------

/// First position at or after `i` that does not hold an ASCII digit
/// (or the end of the sequence).
pub open spec fn spec_skip_digits(s: Seq<char>, i: int) -> int
    decreases s.len() - i,
{
    if i < 0 || i >= s.len() {
        i
    } else if spec_is_digit(s[i]) {
        spec_skip_digits(s, i + 1)
    } else {
        i
    }
}

pub proof fn lemma_skip_digits(s: Seq<char>, i: int)
    requires
        0 <= i <= s.len(),
    ensures
        i <= spec_skip_digits(s, i) <= s.len(),
        forall|j: int| i <= j < spec_skip_digits(s, i) ==> spec_is_digit(#[trigger] s[j]),
        spec_skip_digits(s, i) < s.len() ==> !spec_is_digit(s[spec_skip_digits(s, i)]),
    decreases s.len() - i,
{
    if i < s.len() && spec_is_digit(s[i]) {
        lemma_skip_digits(s, i + 1);
    }
}

fn skip_digits(s: &str, from: usize) -> (r: usize)
    requires
        from <= s@.len(),
    ensures
        r == spec_skip_digits(s@, from as int),
        from <= r <= s@.len(),
    decreases s@.len() - from,
{
    proof {
        lemma_skip_digits(s@, from as int);
    }
    let n = s.unicode_len();
    if from < n && char_is_digit(s.get_char(from)) {
        skip_digits(s, from + 1)
    } else {
        from
    }
}

/// The exponent suffix `e[+-]?digits` occupying positions `j` to the end.
pub open spec fn spec_exponent_to_end(s: Seq<char>, j: int) -> bool {
    &&& 0 <= j < s.len()
    &&& s[j] == 'e'
    &&& {
        let j2 = if j + 1 < s.len() && (s[j + 1] == '+' || s[j + 1] == '-') {
            j + 2
        } else {
            j + 1
        };
        let k = spec_skip_digits(s, if j2 <= s.len() { j2 } else { s.len() as int });
        j2 <= s.len() && k > j2 && k == s.len()
    }
}

/// What may follow the fractional digits: nothing, or an exponent.
pub open spec fn spec_after_frac(s: Seq<char>, k: int) -> bool {
    k == s.len() || spec_exponent_to_end(s, k)
}

/// What may follow the integer digits: nothing, a fraction (with at least
/// one digit) possibly followed by an exponent, or an exponent.
pub open spec fn spec_after_int(s: Seq<char>, j: int) -> bool {
    if j == s.len() {
        true
    } else if 0 <= j < s.len() && s[j] == '.' {
        let k = spec_skip_digits(s, j + 1);
        k >= j + 2 && spec_after_frac(s, k)
    } else {
        spec_exponent_to_end(s, j)
    }
}

/// The decimal-number pattern: optional leading minus, one or more
/// digits, optional `.digits`, optional `e[+-]?digits`, anchored to the
/// whole sequence.
pub open spec fn spec_decimal_like(s: Seq<char>) -> bool {
    let start: int = if s.len() > 0 && s[0] == '-' {
        1
    } else {
        0
    };
    let j = spec_skip_digits(s, start);
    j > start && spec_after_int(s, j)
}

/// A leading-zero integer such as `05`: a zero followed by one or more
/// digits.
pub open spec fn spec_leading_zero_int(s: Seq<char>) -> bool {
    s.len() >= 2 && s[0] == '0' && forall|i: int| 1 <= i < s.len() ==> spec_is_digit(#[trigger] s[i])
}

/// Whether a string looks like a numeric literal, and must therefore be
/// quoted to stay distinguishable from a number.
pub open spec fn spec_is_numeric_like(s: Seq<char>) -> bool {
    spec_decimal_like(s) || spec_leading_zero_int(s)
}

fn exponent_to_end(s: &str, j: usize) -> (r: bool)
    requires
        j <= s@.len(),
    ensures
        r == spec_exponent_to_end(s@, j as int),
{
    let n = s.unicode_len();
    if j >= n || s.get_char(j) != 'e' {
        return false;
    }
    let j2 = if j + 1 < n {
        let c = s.get_char(j + 1);
        if c == '+' || c == '-' {
            j + 2
        } else {
            j + 1
        }
    } else {
        j + 1
    };
    if j2 > n {
        return false;
    }
    let k = skip_digits(s, j2);
    k > j2 && k == n
}

fn is_numeric_like(value: &str) -> (r: bool)
    ensures
        r == spec_is_numeric_like(value@),
{
    let n = value.unicode_len();
    // Leading-zero integer form.
    let leading_zero = if n >= 2 && value.get_char(0) == '0' {
        let k = skip_digits(value, 1);
        k == n
    } else {
        false
    };
    proof {
        if n >= 2 && value@[0] == '0' {
            lemma_skip_digits(value@, 1);
        }
        assert(leading_zero == spec_leading_zero_int(value@));
    }
    if leading_zero {
        return true;
    }
    // Decimal form.
    let start: usize = if n > 0 && value.get_char(0) == '-' {
        1
    } else {
        0
    };
    if start > n {
        return false;
    }
    let j = skip_digits(value, start);
    if j <= start {
        return false;
    }
    if j == n {
        return true;
    }
    if value.get_char(j) == '.' {
        let k = skip_digits(value, j + 1);
        if k - j < 2 {
            return false;
        }
        if k == n {
            return true;
        }
        return exponent_to_end(value, k);
    }
    exponent_to_end(value, j)
}

// ---------------------------------------------------------------------------
// Safe-unquoted strings and literals
// ---------------------------------------------------------------------------

/// Whether a string may appear without quotes: nonempty, not padded with
/// whitespace, not a keyword literal, not numeric-like, free of
/// structural characters and of the active delimiter, and not starting
/// with the list-item marker.
pub open spec fn spec_is_safe_unquoted(s: Seq<char>, d: Delimiter) -> bool {
    &&& s.len() > 0
    &&& !spec_is_ws(s[0])
    &&& !spec_is_ws(s[s.len() - 1])
    &&& s != "true"@
    &&& s != "false"@
    &&& s != "null"@
    &&& !spec_is_numeric_like(s)
    &&& (forall|i: int| 0 <= i < s.len() ==> !spec_forbidden_char(#[trigger] s[i], d))
    &&& !(s.len() >= 2 && s[0] == '-' && s[1] == ' ')
}

/// Whether `value` can be rendered without quotes under the given
/// delimiter.
pub fn is_safe_unquoted(value: &str, delimiter: &Delimiter) -> (r: bool)
    ensures
        r == spec_is_safe_unquoted(value@, *delimiter),
{
    let n = value.unicode_len();
    if n == 0 {
        return false;
    }
    if char_is_ws(value.get_char(0)) || char_is_ws(value.get_char(n - 1)) {
        return false;
    }
    if str_eq_str(value, "true") || str_eq_str(value, "false") || str_eq_str(value, "null") {
        return false;
    }
    if is_numeric_like(value) {
        return false;
    }
    let mut i: usize = 0;
    while i < n
        invariant
            n == value@.len(),
            i <= n,
            forall|j: int| 0 <= j < i ==> !spec_forbidden_char(#[trigger] value@[j], *delimiter),
        decreases n - i,
    {
        if char_is_forbidden(value.get_char(i), delimiter) {
            return false;
        }
        i = i + 1;
    }
    if n >= 2 && value.get_char(0) == '-' && value.get_char(1) == ' ' {
        return false;
    }
    true
}

/// Whether `value` has leading or trailing whitespace.
pub fn is_padded_with_whitespace(value: &str) -> (r: bool)
    ensures
        r == (value@.len() > 0 && (spec_is_ws(value@[0]) || spec_is_ws(
            value@[value@.len() - 1],
        ))),
{
    let n = value.unicode_len();
    n > 0 && (char_is_ws(value.get_char(0)) || char_is_ws(value.get_char(n - 1)))
}

/// The rendering of a string literal: unchanged when safe to leave
/// unquoted, otherwise quoted with escapes.
pub open spec fn spec_encode_string_literal(s: Seq<char>, d: Delimiter) -> Seq<char> {
    if spec_is_safe_unquoted(s, d) {
        s
    } else {
        seq!['"'] + spec_escape(s) + seq!['"']
    }
}

/// Renders a string literal, quoting and escaping it when necessary.
pub fn encode_string_literal(value: &str, delimiter: &Delimiter) -> (r: String)
    ensures
        r@ == spec_encode_string_literal(value@, *delimiter),
{
    if is_safe_unquoted(value, delimiter) {
        String::from_str(value)
    } else {
        proof {
            reveal_strlit("\"");
        }
        let mut out = String::from_str("\"");
        let escaped = escape_string(value);
        out.append(escaped.as_str());
        out.append("\"");
        proof {
            assert(out@ =~= seq!['"'] + spec_escape(value@) + seq!['"']);
        }
        out
    }
}

// ---------------------------------------------------------------------------
// Keys
// ---------------------------------------------------------------------------

/// Whether a key may appear without quotes: an ASCII letter or
/// underscore, then word characters or dots.
pub open spec fn spec_is_valid_unquoted_key(k: Seq<char>) -> bool {
    k.len() >= 1 && spec_is_key_start(k[0]) && forall|i: int|
        1 <= i < k.len() ==> spec_is_key_char(#[trigger] k[i])
}

/// The rendering of an object key: unchanged when it is a valid unquoted
/// key, otherwise quoted with escapes like a string literal.
pub open spec fn spec_encode_key(k: Seq<char>) -> Seq<char> {
    if spec_is_valid_unquoted_key(k) {
        k
    } else {
        seq!['"'] + spec_escape(k) + seq!['"']
    }
}

fn is_valid_unquoted_key(key: &str) -> (r: bool)
    ensures
        r == spec_is_valid_unquoted_key(key@),
{
    let n = key.unicode_len();
    if n == 0 {
        return false;
    }
    if !char_is_key_start(key.get_char(0)) {
        return false;
    }
    let mut i: usize = 1;
    while i < n
        invariant
            n == key@.len(),
            1 <= i <= n,
            forall|j: int| 1 <= j < i ==> spec_is_key_char(#[trigger] key@[j]),
        decreases n - i,
    {
        if !char_is_key_char(key.get_char(i)) {
            return false;
        }
        i = i + 1;
    }
    true
}

/// Renders an object key, quoting it when it is not a plain identifier.
pub fn encode_key(key: &str) -> (r: String)
    ensures
        r@ == spec_encode_key(key@),
{
    if is_valid_unquoted_key(key) {
        String::from_str(key)
    } else {
        proof {
            reveal_strlit("\"");
        }
        let mut out = String::from_str("\"");
        let escaped = escape_string(key);
        out.append(escaped.as_str());
        out.append("\"");
        proof {
            assert(out@ =~= seq!['"'] + spec_escape(key@) + seq!['"']);
        }
        out
    }
}

// ---------------------------------------------------------------------------
// Primitives and rows
// ---------------------------------------------------------------------------

/// The literal token of a primitive: `null`, `true`/`false`, the number's
/// canonical token verbatim, or a string literal.
pub open spec fn spec_encode_primitive(p: JsonPrimitive, d: Delimiter) -> Seq<char> {
    match p {
        JsonPrimitive::Null => "null"@,
        JsonPrimitive::Boolean(b) => if b {
            "true"@
        } else {
            "false"@
        },
        JsonPrimitive::Number(tok) => tok@,
        JsonPrimitive::String(s) => spec_encode_string_literal(s@, d),
    }
}

/// Renders one primitive as its literal token.
pub fn encode_primitive(value: &JsonPrimitive, delimiter: &Delimiter) -> (r: String)
    ensures
        r@ == spec_encode_primitive(*value, *delimiter),
{
    match value {
        JsonPrimitive::Null => String::from_str("null"),
        JsonPrimitive::Boolean(b) => if *b {
            String::from_str("true")
        } else {
            String::from_str("false")
        },
        JsonPrimitive::Number(tok) => tok.clone(),
        JsonPrimitive::String(s) => encode_string_literal(s.as_str(), delimiter),
    }
}

/// The primitives behind a sequence of references.
pub open spec fn spec_deref_prims(ps: Seq<&JsonPrimitive>) -> Seq<JsonPrimitive> {
    Seq::new(ps.len(), |i: int| *ps[i])
}

/// A row: primitive tokens joined by the delimiter character.
pub open spec fn spec_join_primitives(ps: Seq<JsonPrimitive>, d: Delimiter) -> Seq<char>
    decreases ps.len(),
{
    if ps.len() == 0 {
        Seq::empty()
    } else if ps.len() == 1 {
        spec_encode_primitive(ps[0], d)
    } else {
        spec_join_primitives(ps.drop_last(), d) + seq![spec_delim_char(d)]
            + spec_encode_primitive(ps.last(), d)
    }
}

/// Renders each primitive and joins the tokens with the delimiter.
pub fn join_encoded_values(values: &Vec<&JsonPrimitive>, delimiter: &Delimiter) -> (r: String)
    ensures
        r@ == spec_join_primitives(spec_deref_prims(values@), *delimiter),
{
    let mut out = String::new();
    let mut i: usize = 0;
    while i < values.len()
        invariant
            i <= values@.len(),
            out@ == spec_join_primitives(spec_deref_prims(values@.take(i as int)), *delimiter),
        decreases values@.len() - i,
    {
        if i > 0 {
            out.append(delimiter.as_str());
        }
        let tok = encode_primitive(values[i], delimiter);
        out.append(tok.as_str());
        proof {
            let all = spec_deref_prims(values@);
            assert(spec_deref_prims(values@.take(i + 1)).drop_last() =~= spec_deref_prims(
                values@.take(i as int),
            ));
            assert(spec_deref_prims(values@.take(i + 1)).last() == *values@[i as int]);
            assert(out@ =~= spec_join_primitives(spec_deref_prims(values@.take(i + 1)), *delimiter));
        }
        i = i + 1;
    }
    proof {
        assert(values@.take(values@.len() as int) =~= values@);
    }
    out
}

// ---------------------------------------------------------------------------
// Decimal length rendering
// ---------------------------------------------------------------------------

/// The digit character of a value below ten.
pub open spec fn spec_digit(d: nat) -> char {
    if d == 0 {
        '0'
    } else if d == 1 {
        '1'
    } else if d == 2 {
        '2'
    } else if d == 3 {
        '3'
    } else if d == 4 {
        '4'
    } else if d == 5 {
        '5'
    } else if d == 6 {
        '6'
    } else if d == 7 {
        '7'
    } else if d == 8 {
        '8'
    } else {
        '9'
    }
}

/// The decimal rendering of a non-negative integer, without sign,
/// padding, or separators.
pub open spec fn spec_decimal(n: nat) -> Seq<char>
    decreases n,
{
    if n < 10 {
        seq![spec_digit(n)]
    } else {
        spec_decimal(n / 10) + seq![spec_digit(n % 10)]
    }
}

fn digit_str(d: usize) -> (r: &'static str)
    requires
        d < 10,
    ensures
        r@ =~= seq![spec_digit(d as nat)],
{
    proof {
        reveal_strlit("0");
        reveal_strlit("1");
        reveal_strlit("2");
        reveal_strlit("3");
        reveal_strlit("4");
        reveal_strlit("5");
        reveal_strlit("6");
        reveal_strlit("7");
        reveal_strlit("8");
        reveal_strlit("9");
    }
    if d == 0 {
        "0"
    } else if d == 1 {
        "1"
    } else if d == 2 {
        "2"
    } else if d == 3 {
        "3"
    } else if d == 4 {
        "4"
    } else if d == 5 {
        "5"
    } else if d == 6 {
        "6"
    } else if d == 7 {
        "7"
    } else if d == 8 {
        "8"
    } else {
        "9"
    }
}

/// Renders a length as decimal digits.
pub fn decimal_string(n: usize) -> (r: String)
    ensures
        r@ == spec_decimal(n as nat),
    decreases n,
{
    if n < 10 {
        String::from_str(digit_str(n))
    } else {
        let mut out = decimal_string(n / 10);
        out.append(digit_str(n % 10));
        proof {
            assert(out@ =~= spec_decimal(n as nat));
        }
        out
    }
}

// ---------------------------------------------------------------------------
// Array headers
// ---------------------------------------------------------------------------

/// Header field names joined by the delimiter, each rendered as a key.
pub open spec fn spec_join_keys(fs: Seq<Seq<char>>, d: Delimiter) -> Seq<char>
    decreases fs.len(),
{
    if fs.len() == 0 {
        Seq::empty()
    } else if fs.len() == 1 {
        spec_encode_key(fs[0])
    } else {
        spec_join_keys(fs.drop_last(), d) + seq![spec_delim_char(d)] + spec_encode_key(fs.last())
    }
}

/// The views of a vector of field names.
pub open spec fn spec_field_views(fs: Seq<String>) -> Seq<Seq<char>> {
    Seq::new(fs.len(), |i: int| fs[i]@)
}

/// An array header token: optional key, bracketed length with optional
/// marker and (for a non-default delimiter) the delimiter character,
/// optional braced field list, and a closing colon.
pub open spec fn spec_header(
    len: nat,
    key: Option<Seq<char>>,
    fields: Option<Seq<Seq<char>>>,
    d: Delimiter,
    marker: Option<char>,
) -> Seq<char> {
    (match key {
        Some(k) => spec_encode_key(k),
        None => Seq::empty(),
    }) + seq!['['] + (match marker {
        Some(m) => seq![m],
        None => Seq::empty(),
    }) + spec_decimal(len) + (if d == Delimiter::Comma {
        Seq::<char>::empty()
    } else {
        seq![spec_delim_char(d)]
    }) + seq![']'] + (match fields {
        Some(fs) => seq!['{'] + spec_join_keys(fs, d) + seq!['}'],
        None => Seq::empty(),
    }) + seq![':']
}

/// The key view of an optional key argument.
pub open spec fn spec_key_view(key: Option<&str>) -> Option<Seq<char>> {
    match key {
        Some(k) => Some(k@),
        None => None,
    }
}

/// The field views of an optional field-list argument.
pub open spec fn spec_fields_view(fields: Option<&Vec<String>>) -> Option<Seq<Seq<char>>> {
    match fields {
        Some(fs) => Some(spec_field_views(fs@)),
        None => None,
    }
}

/// Builds an array header token.
pub fn format_header(
    length: usize,
    key: Option<&str>,
    fields: Option<&Vec<String>>,
    delimiter: &Delimiter,
    length_marker: Option<char>,
) -> (r: String)
    ensures
        r@ == spec_header(
            length as nat,
            spec_key_view(key),
            spec_fields_view(fields),
            *delimiter,
            length_marker,
        ),
{
    proof {
        reveal_strlit("[");
        reveal_strlit("]");
        reveal_strlit("{");
        reveal_strlit("}");
        reveal_strlit(":");
    }
    let mut out = String::new();
    if let Some(k) = key {
        let ek = encode_key(k);
        out.append(ek.as_str());
    }
    out.append("[");
    if let Some(m) = length_marker {
        push_char(&mut out, m);
    }
    let len_str = decimal_string(length);
    out.append(len_str.as_str());
    if !delimiter.is_default() {
        out.append(delimiter.as_str());
    }
    out.append("]");
    if let Some(fs) = fields {
        out.append("{");
        let joined = join_keys(fs, delimiter);
        out.append(joined.as_str());
        out.append("}");
    }
    out.append(":");
    proof {
        assert(out@ =~= spec_header(
            length as nat,
            spec_key_view(key),
            spec_fields_view(fields),
            *delimiter,
            length_marker,
        ));
    }
    out
}

fn join_keys(fields: &Vec<String>, delimiter: &Delimiter) -> (r: String)
    ensures
        r@ == spec_join_keys(spec_field_views(fields@), *delimiter),
{
    let mut out = String::new();
    let mut i: usize = 0;
    while i < fields.len()
        invariant
            i <= fields@.len(),
            out@ == spec_join_keys(spec_field_views(fields@.take(i as int)), *delimiter),
        decreases fields@.len() - i,
    {
        if i > 0 {
            out.append(delimiter.as_str());
        }
        let ek = encode_key(fields[i].as_str());
        out.append(ek.as_str());
        proof {
            assert(spec_field_views(fields@.take(i + 1)).drop_last() =~= spec_field_views(
                fields@.take(i as int),
            ));
            assert(spec_field_views(fields@.take(i + 1)).last() == fields@[i as int]@);
            assert(out@ =~= spec_join_keys(spec_field_views(fields@.take(i + 1)), *delimiter));
        }
        i = i + 1;
    }
    proof {
        assert(fields@.take(fields@.len() as int) =~= fields@);
    }
    out
}

} // verus!
