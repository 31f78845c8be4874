//! Reading the event lines that `go test -json` prints: each line is one flat
//! JSON object such as `{"Action":"output","Package":"./p","Output":"..."}`.
//!
//! The reader accepts an object whose members have string keys and values
//! that are strings (with all JSON escapes), `true`, `false`, `null`, or
//! numbers; a number is taken as a run of digits, signs, points and
//! exponent letters. Nested objects and arrays do not occur in these events
//! and are not accepted. Only string values are kept.
use vstd::prelude::*;
use crate::text::{chars_of, matches_at, push_char, window};

verus! {

/// A member of an object: its key and, when the value is a string, that string.
pub type Member = (Seq<char>, Option<Seq<char>>);

/// JSON whitespace.
pub open spec fn is_json_ws(c: char) -> bool {
    c == ' ' || c == '\t' || c == '\n' || c == '\r'
}

/// The first index from `i` on that is not JSON whitespace.
pub open spec fn skip_json_ws(s: Seq<char>, i: int) -> int
    decreases s.len() - i,
{
    if 0 <= i && i < s.len() && is_json_ws(s[i]) {
        skip_json_ws(s, i + 1)
    } else {
        i
    }
}

/// The value of a hexadecimal digit, or -1.
pub open spec fn hex_value(c: char) -> int {
    let u = c as u32;
    if 48 <= u && u <= 57 {
        u - 48
    } else if 97 <= u && u <= 102 {
        u - 87
    } else if 65 <= u && u <= 70 {
        u - 55
    } else {
        -1
    }
}

/// The number written by the four hexadecimal digits at `i`, or -1.
pub open spec fn hex4(s: Seq<char>, i: int) -> int {
    if 0 <= i && i + 4 <= s.len() && hex_value(s[i]) >= 0 && hex_value(s[i + 1]) >= 0 && hex_value(
        s[i + 2],
    ) >= 0 && hex_value(s[i + 3]) >= 0 {
        4096 * hex_value(s[i]) + 256 * hex_value(s[i + 1]) + 16 * hex_value(s[i + 2]) + hex_value(
            s[i + 3],
        )
    } else {
        -1
    }
}

/// The character that `\e` stands for, for the one-letter escapes.
pub open spec fn simple_escape(e: char) -> Option<char> {
    if e == '"' {
        Some('"')
    } else if e == '\\' {
        Some('\\')
    } else if e == '/' {
        Some('/')
    } else if e == 'b' {
        Some('\u{8}')
    } else if e == 'f' {
        Some('\u{c}')
    } else if e == 'n' {
        Some('\n')
    } else if e == 'r' {
        Some('\r')
    } else if e == 't' {
        Some('\t')
    } else {
        None
    }
}

/// Whether `u` is the code of a character (a Unicode scalar value).
pub open spec fn is_scalar(u: int) -> bool {
    0 <= u && u <= 0x10FFFF && !(0xD800 <= u && u <= 0xDFFF)
}

/// `c` in front of the text of a decoding result.
pub open spec fn cons(c: char, r: Option<(Seq<char>, int)>) -> Option<(Seq<char>, int)> {
    match r {
        Some((t, e)) => Some((seq![c] + t, e)),
        None => None,
    }
}

/// `p` in front of the text of a decoding result.
pub open spec fn prepend(p: Seq<char>, r: Option<(Seq<char>, int)>) -> Option<(Seq<char>, int)> {
    match r {
        Some((t, e)) => Some((p + t, e)),
        None => None,
    }
}

/// The character that the escape whose backslash is at `i` stands for, and
/// the index after the escape.
pub open spec fn escape_at(s: Seq<char>, i: int) -> Option<(char, int)> {
    if i < 0 || i + 1 >= s.len() {
        None
    } else if simple_escape(s[i + 1]) is Some {
        Some((simple_escape(s[i + 1])->0, i + 2))
    } else if s[i + 1] == 'u' {
        let u = hex4(s, i + 2);
        if u < 0 {
            None
        } else if is_scalar(u) {
            Some((u as char, i + 6))
        } else if 0xD800 <= u && u < 0xDC00 && i + 7 < s.len() && s[i + 6] == '\\' && s[i + 7]
            == 'u' && 0xDC00 <= hex4(s, i + 8) && hex4(s, i + 8) < 0xE000 {
            Some(((0x10000 + (u - 0xD800) * 1024 + (hex4(s, i + 8) - 0xDC00)) as char, i + 12))
        } else {
            None
        }
    } else {
        None
    }
}

/// The text of a JSON string whose body starts at `i` (just after the opening
/// quote), and the index just after its closing quote.
pub open spec fn string_body(s: Seq<char>, i: int) -> Option<(Seq<char>, int)>
    decreases s.len() - i,
{
    if i < 0 || i >= s.len() {
        None
    } else if s[i] == '"' {
        Some((seq![], i + 1))
    } else if s[i] == '\\' {
        match escape_at(s, i) {
            Some((c, k)) => if i < k && k <= s.len() {
                cons(c, string_body(s, k))
            } else {
                None
            },
            None => None,
        }
    } else {
        cons(s[i], string_body(s, i + 1))
    }
}

/// Whether the word `w` stands at index `i`.
pub open spec fn word_at(s: Seq<char>, i: int, w: Seq<char>) -> bool {
    0 <= i && i + w.len() <= s.len() && s.subrange(i, i + w.len()) == w
}

/// Characters that may make up a number.
pub open spec fn is_number_char(c: char) -> bool {
    let u = c as u32;
    (48 <= u && u <= 57) || c == '-' || c == '+' || c == '.' || c == 'e' || c == 'E'
}

/// The end of the run of number characters that starts at `i`.
pub open spec fn number_end(s: Seq<char>, i: int) -> int
    decreases s.len() - i,
{
    if 0 <= i && i < s.len() && is_number_char(s[i]) {
        number_end(s, i + 1)
    } else {
        i
    }
}

/// The value that starts at `i` (its text when it is a string) and the index after it.
pub open spec fn value_at(s: Seq<char>, i: int) -> Option<(Option<Seq<char>>, int)> {
    if 0 <= i && i < s.len() && s[i] == '"' {
        match string_body(s, i + 1) {
            Some((t, e)) => Some((Some(t), e)),
            None => None,
        }
    } else if word_at(s, i, "true"@) {
        Some((None, i + "true"@.len()))
    } else if word_at(s, i, "false"@) {
        Some((None, i + "false"@.len()))
    } else if word_at(s, i, "null"@) {
        Some((None, i + "null"@.len()))
    } else if number_end(s, i) > i {
        Some((None, number_end(s, i)))
    } else {
        None
    }
}

/// The members from the key that starts at `i` to the closing brace, which
/// must end the text (but for whitespace).
pub open spec fn members(s: Seq<char>, i: int) -> Option<Seq<Member>>
    decreases s.len() - i,
{
    if !(0 <= i && i < s.len() && s[i] == '"') {
        None
    } else {
        match string_body(s, i + 1) {
            None => None,
            Some((k, e)) => {
                let c = skip_json_ws(s, e);
                if !(0 <= c && c < s.len() && s[c] == ':') {
                    None
                } else {
                    match value_at(s, skip_json_ws(s, c + 1)) {
                        None => None,
                        Some((v, f)) => {
                            let g = skip_json_ws(s, f);
                            if 0 <= g && g < s.len() && s[g] == ',' {
                                let n = skip_json_ws(s, g + 1);
                                if i < n && n <= s.len() {
                                    match members(s, n) {
                                        Some(rest) => Some(seq![(k, v)] + rest),
                                        None => None,
                                    }
                                } else {
                                    None
                                }
                            } else if 0 <= g && g < s.len() && s[g] == '}' && skip_json_ws(s, g + 1)
                                == s.len() {
                                Some(seq![(k, v)])
                            } else {
                                None
                            }
                        },
                    }
                }
            },
        }
    }
}

/// The members of the object that the whole text `s` is, if it is one.
pub open spec fn json_object(s: Seq<char>) -> Option<Seq<Member>> {
    let i = skip_json_ws(s, 0);
    if 0 <= i && i < s.len() && s[i] == '{' {
        let j = skip_json_ws(s, i + 1);
        if 0 <= j && j < s.len() && s[j] == '}' {
            if skip_json_ws(s, j + 1) == s.len() {
                Some(seq![])
            } else {
                None
            }
        } else {
            members(s, j)
        }
    } else {
        None
    }
}

/// The value of the first member with key `key`.
pub open spec fn field(ms: Seq<Member>, key: Seq<char>) -> Option<Option<Seq<char>>>
    decreases ms.len(),
{
    if ms.len() == 0 {
        None
    } else if ms[0].0 == key {
        Some(ms[0].1)
    } else {
        field(ms.drop_first(), key)
    }
}

/// The string value of the first member with key `key`, if it is a string.
pub open spec fn string_field(ms: Seq<Member>, key: Seq<char>) -> Option<Seq<char>> {
    match field(ms, key) {
        Some(Some(t)) => Some(t),
        _ => None,
    }
}

/// Whether some member has key `key`.
pub open spec fn has_field(ms: Seq<Member>, key: Seq<char>) -> bool {
    field(ms, key) is Some
}

/// A member of a JSON object, as read.
pub struct JsonMember {
    pub key: String,
    pub value: Option<String>,
}

/// What a member stands for.
pub open spec fn member_view(m: JsonMember) -> Member {
    (m.key@, crate::opt_view(m.value))
}

/// What a list of members stands for.
pub open spec fn members_view(ms: Seq<JsonMember>) -> Seq<Member> {
    ms.map_values(|m: JsonMember| member_view(m))
}

/// The character whose code is `u`.
///
/// Trusted: calls `char::from_u32` from std, documented to return the char
/// with that code when `u` is a Unicode scalar value (and `None` otherwise,
/// which the precondition rules out); the contract says the result has code `u`.
#[verifier::external_body]
fn char_from_scalar(u: u32) -> (c: char)
    requires
        is_scalar(u as int),
    ensures
        c == (u as char),
{
    char::from_u32(u).unwrap()
}

/// The index after the JSON whitespace that starts at `i`.
pub fn skip_ws(s: &Vec<char>, i: usize) -> (r: usize)
    requires
        i <= s@.len(),
    ensures
        i <= r <= s@.len(),
        r == skip_json_ws(s@, i as int),
{
    let mut j = i;
    while j < s.len() && (s[j] == ' ' || s[j] == '\t' || s[j] == '\n' || s[j] == '\r')
        invariant
            i <= j <= s@.len(),
            skip_json_ws(s@, i as int) == skip_json_ws(s@, j as int),
        decreases s@.len() - j,
    {
        j = j + 1;
    }
    j
}

/// The value of a hexadecimal digit, or -1.
fn hex_digit(c: char) -> (r: i64)
    ensures
        r == hex_value(c),
{
    let u = c as u32;
    if 48 <= u && u <= 57 {
        (u - 48) as i64
    } else if 97 <= u && u <= 102 {
        (u - 87) as i64
    } else if 65 <= u && u <= 70 {
        (u - 55) as i64
    } else {
        -1
    }
}

/// The number written by four hexadecimal digits at `i`, or -1.
fn read_hex4(s: &Vec<char>, i: usize) -> (r: i64)
    requires
        i <= s@.len(),
    ensures
        r == hex4(s@, i as int),
        r < 0x10000,
{
    if s.len() - i < 4 {
        return -1;
    }
    let a = hex_digit(s[i]);
    let b = hex_digit(s[i + 1]);
    let c = hex_digit(s[i + 2]);
    let d = hex_digit(s[i + 3]);
    if a < 0 || b < 0 || c < 0 || d < 0 {
        return -1;
    }
    4096 * a + 256 * b + 16 * c + d
}

/// The character of a one-letter escape.
fn simple_escape_char(e: char) -> (r: Option<char>)
    ensures
        r == simple_escape(e),
{
    if e == '"' {
        Some('"')
    } else if e == '\\' {
        Some('\\')
    } else if e == '/' {
        Some('/')
    } else if e == 'b' {
        Some('\u{8}')
    } else if e == 'f' {
        Some('\u{c}')
    } else if e == 'n' {
        Some('\n')
    } else if e == 'r' {
        Some('\r')
    } else if e == 't' {
        Some('\t')
    } else {
        None
    }
}

/// Moving a decoded character from the result to the prefix.
proof fn lemma_prepend_cons(p: Seq<char>, c: char, r: Option<(Seq<char>, int)>)
    ensures
        prepend(p, cons(c, r)) == prepend(p.push(c), r),
{
    if let Some((t, e)) = r {
        assert(p + (seq![c] + t) =~= p.push(c) + t);
    }
}

/// Decodes the escape whose backslash is at `j`: the character and the index after it.
fn decode_escape(s: &Vec<char>, j: usize) -> (r: Option<(char, usize)>)
    requires
        j < s@.len(),
    ensures
        match r {
            Some((ch, k)) => escape_at(s@, j as int) == Some((ch, k as int)) && j < k <= s@.len(),
            None => escape_at(s@, j as int) is None,
        },
{
    if s.len() - j < 2 {
        return None;
    }
    let e = s[j + 1];
    if let Some(ch) = simple_escape_char(e) {
        return Some((ch, j + 2));
    }
    if e != 'u' {
        return None;
    }
    let u = read_hex4(s, j + 2);
    if u < 0 {
        return None;
    }
    if u <= 0x10FFFF && !(0xD800 <= u && u <= 0xDFFF) {
        let ch = char_from_scalar(u as u32);
        return Some((ch, j + 6));
    }
    if 0xD800 <= u && u < 0xDC00 && s.len() - j > 7 && s[j + 6] == '\\' && s[j + 7] == 'u' {
        let l = read_hex4(s, j + 8);
        if !(0xDC00 <= l && l < 0xE000) {
            return None;
        }
        let code = 0x10000 + (u - 0xD800) * 1024 + (l - 0xDC00);
        let ch = char_from_scalar(code as u32);
        return Some((ch, j + 12));
    }
    None
}

/// Decodes the JSON string whose body starts at `start`: its text and the
/// index after its closing quote.
pub fn decode_string(s: &Vec<char>, start: usize) -> (r: Option<(String, usize)>)
    requires
        start <= s@.len(),
    ensures
        match r {
            Some((t, e)) => string_body(s@, start as int) == Some((t@, e as int)) && e <= s@.len(),
            None => string_body(s@, start as int) is None,
        },
{
    let mut out = String::new();
    let mut j = start;
    assert(prepend(out@, string_body(s@, start as int)) == string_body(s@, start as int)) by {
        if let Some((t, e)) = string_body(s@, start as int) {
            assert(out@ + t =~= t);
        }
    }
    while j < s.len()
        invariant
            start <= j <= s@.len(),
            string_body(s@, start as int) == prepend(out@, string_body(s@, j as int)),
        decreases s@.len() - j,
    {
        let c = s[j];
        let ghost before = out@;
        if c == '"' {
            assert(out@ + seq![] =~= out@);
            return Some((out, j + 1));
        }
        let (ch, k) = if c == '\\' {
            match decode_escape(s, j) {
                Some(p) => p,
                None => return None,
            }
        } else {
            (c, j + 1)
        };
        proof {
            lemma_prepend_cons(before, ch, string_body(s@, k as int));
        }
        push_char(&mut out, ch);
        j = k;
    }
    None
}

/// The end of the run of number characters that starts at `i`.
fn number_run_end(s: &Vec<char>, i: usize) -> (r: usize)
    requires
        i <= s@.len(),
    ensures
        i <= r <= s@.len(),
        r == number_end(s@, i as int),
{
    let mut j = i;
    while j < s.len() && ((48 <= (s[j] as u32) && (s[j] as u32) <= 57) || s[j] == '-' || s[j] == '+'
        || s[j] == '.' || s[j] == 'e' || s[j] == 'E')
        invariant
            i <= j <= s@.len(),
            number_end(s@, i as int) == number_end(s@, j as int),
        decreases s@.len() - j,
    {
        j = j + 1;
    }
    j
}

/// Whether the word `w` stands at index `i`.
fn word_here(s: &Vec<char>, i: usize, w: &str) -> (b: bool)
    requires
        i <= s@.len(),
    ensures
        b == word_at(s@, i as int, w@),
{
    let wv = chars_of(w);
    matches_at(s, i, &wv)
}

/// The value that starts at `i` (its text when it is a string) and the index after it.
fn read_value(s: &Vec<char>, i: usize) -> (r: Option<(Option<String>, usize)>)
    requires
        i <= s@.len(),
    ensures
        match r {
            Some((v, e)) => value_at(s@, i as int) == Some((crate::opt_view(v), e as int)) && e
                <= s@.len(),
            None => value_at(s@, i as int) is None,
        },
{
    if i < s.len() && s[i] == '"' {
        return match decode_string(s, i + 1) {
            Some((t, e)) => Some((Some(t), e)),
            None => None,
        };
    }
    if word_here(s, i, "true") {
        return Some((None, i + chars_of("true").len()));
    }
    if word_here(s, i, "false") {
        return Some((None, i + chars_of("false").len()));
    }
    if word_here(s, i, "null") {
        return Some((None, i + chars_of("null").len()));
    }
    let e = number_run_end(s, i);
    if e > i {
        Some((None, e))
    } else {
        None
    }
}

/// `acc` in front of the members of a result.
pub open spec fn prepend_members(acc: Seq<Member>, r: Option<Seq<Member>>) -> Option<Seq<Member>> {
    match r {
        Some(rest) => Some(acc + rest),
        None => None,
    }
}

/// Reads the members from the key at `start` to the closing brace.
fn read_members(s: &Vec<char>, start: usize) -> (r: Option<Vec<JsonMember>>)
    requires
        start <= s@.len(),
    ensures
        match r {
            Some(ms) => members(s@, start as int) == Some(members_view(ms@)),
            None => members(s@, start as int) is None,
        },
{
    let mut acc: Vec<JsonMember> = Vec::new();
    let mut j = start;
    assert(prepend_members(members_view(acc@), members(s@, start as int)) == members(s@, start as int))
        by {
        if let Some(rest) = members(s@, start as int) {
            assert(members_view(acc@) + rest =~= rest);
        }
    }
    loop
        invariant
            j <= s@.len(),
            members(s@, start as int) == prepend_members(members_view(acc@), members(s@, j as int)),
        decreases s@.len() - j,
    {
        if !(j < s.len() && s[j] == '"') {
            return None;
        }
        let (key, e) = match decode_string(s, j + 1) {
            Some(p) => p,
            None => return None,
        };
        let c = skip_ws(s, e);
        if !(c < s.len() && s[c] == ':') {
            return None;
        }
        let vi = skip_ws(s, c + 1);
        let (value, f) = match read_value(s, vi) {
            Some(p) => p,
            None => return None,
        };
        let g = skip_ws(s, f);
        let m = JsonMember { key, value };
        let ghost before = members_view(acc@);
        if g < s.len() && s[g] == ',' {
            let n = skip_ws(s, g + 1);
            if !(j < n && n <= s.len()) {
                return None;
            }
            acc.push(m);
            proof {
                assert(members_view(acc@) =~= before.push(member_view(m)));
                if let Some(rest) = members(s@, n as int) {
                    assert(before + (seq![member_view(m)] + rest) =~= before.push(member_view(m))
                        + rest);
                }
            }
            j = n;
        } else if g < s.len() && s[g] == '}' && skip_ws(s, g + 1) == s.len() {
            acc.push(m);
            assert(members_view(acc@) =~= before + seq![member_view(m)]);
            return Some(acc);
        } else {
            return None;
        }
    }
}

/// The members of the object that the whole text `s` is, if it is one.
pub fn parse_json_object(s: &Vec<char>) -> (r: Option<Vec<JsonMember>>)
    ensures
        match r {
            Some(ms) => json_object(s@) == Some(members_view(ms@)),
            None => json_object(s@) is None,
        },
{
    let i = skip_ws(s, 0);
    if !(i < s.len() && s[i] == '{') {
        return None;
    }
    let j = skip_ws(s, i + 1);
    if j < s.len() && s[j] == '}' {
        if skip_ws(s, j + 1) == s.len() {
            let none: Vec<JsonMember> = Vec::new();
            assert(members_view(none@) =~= Seq::<Member>::empty());
            return Some(none);
        }
        return None;
    }
    read_members(s, j)
}

/// The value of the first member with key `key`: `None` when no member has
/// that key, `Some(None)` when its value is not a string.
pub fn find_field(ms: &Vec<JsonMember>, key: &str) -> (r: Option<Option<String>>)
    ensures
        match r {
            Some(v) => field(members_view(ms@), key@) == Some(crate::opt_view(v)),
            None => field(members_view(ms@), key@) is None,
        },
{
    let k = String::from_str(key);
    let ghost all = members_view(ms@);
    let mut i: usize = 0;
    assert(all.skip(0) =~= all);
    while i < ms.len()
        invariant
            i <= ms@.len(),
            all == members_view(ms@),
            k@ == key@,
            field(all, key@) == field(all.skip(i as int), key@),
        decreases ms@.len() - i,
    {
        assert(all.skip(i as int)[0] == member_view(ms@[i as int]));
        if ms[i].key == k {
            return Some(
                match &ms[i].value {
                    Some(v) => Some(v.clone()),
                    None => None,
                },
            );
        }
        assert(all.skip(i as int).drop_first() =~= all.skip(i + 1));
        i = i + 1;
    }
    assert(all.skip(i as int).len() == 0);
    None
}

} // verus!
