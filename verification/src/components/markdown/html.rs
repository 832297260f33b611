//! Inline HTML: a fixed whitelist of presentational tags, mapped to style
//! roles.
//!
//! This is no HTML parser: a raw inline tag (`<b>`, `</a>`, `<br/>`,
//! `<img src=…>`) is classified by its lowercased name against a whitelist,
//! and the few attributes the renderer reads (`href`, `src`, `alt`) are picked
//! out of its attribute text with character references decoded. Everything
//! else is inert.

use vstd::prelude::*;
use crate::chars::{
    find_from, is_white_space, lead_end, lemma_find_from_found, occurs_at, trail_start, trim_chars, trim_ws, utf8_char_width, utf8_len,
    white_space,
};
use crate::graphemes::{chars_of, string_of};
use crate::style::{Modifier, Role};

verus! {

/// Deepest inline-HTML nesting tracked; opening tags beyond it are ignored.
pub const MAX_NESTING: usize = 32;

/// `<sub>` / `<sup>`, rendered as Unicode when every character has a form.
#[derive(Clone, Copy, PartialEq, Eq, Debug, Structural)]
pub enum Script {
    Sub,
    Sup,
}

/// The characters that have sub- and superscript forms.
pub open spec fn script_keys() -> Seq<char> {
    seq!['0', '1', '2', '3', '4', '5', '6', '7', '8', '9', '+', '-', '=', '(', ')']
}

/// The forms of [`script_keys`], position for position.
pub open spec fn script_forms(script: Script) -> Seq<char> {
    match script {
        Script::Sub => seq!['₀', '₁', '₂', '₃', '₄', '₅', '₆', '₇', '₈', '₉', '₊', '₋', '₌', '₍', '₎'],
        Script::Sup => seq!['⁰', '¹', '²', '³', '⁴', '⁵', '⁶', '⁷', '⁸', '⁹', '⁺', '⁻', '⁼', '⁽', '⁾'],
    }
}

/// The first position of `c` in `s` at or after `i`.
pub open spec fn index_of_from(s: Seq<char>, c: char, i: int) -> Option<int>
    decreases s.len() - i,
{
    if i < 0 || i >= s.len() {
        None
    } else if s[i] == c {
        Some(i)
    } else {
        index_of_from(s, c, i + 1)
    }
}

/// `ch` in `script`, if it has a form.
pub open spec fn script_char(script: Script, ch: char) -> Option<char> {
    match index_of_from(script_keys(), ch, 0) {
        Some(i) => Some(script_forms(script)[i]),
        None => None,
    }
}

/// Every character of `s` in `script`, or `None` if one has no form.
pub open spec fn script_all(s: Seq<char>, script: Script) -> Option<Seq<char>>
    decreases s.len(),
{
    if s.len() == 0 {
        Some(seq![])
    } else {
        match (script_all(s.drop_last(), script), script_char(script, s.last())) {
            (Some(pre), Some(c)) => Some(pre.push(c)),
            _ => None,
        }
    }
}

fn index_of_char(s: &[char], c: char) -> (r: Option<usize>)
    ensures
        r matches Some(i) ==> index_of_from(s@, c, 0) == Some(i as int) && i < s@.len() && s@[i as int] == c,
        r is None ==> index_of_from(s@, c, 0).is_none(),
{
    let mut i: usize = 0;
    while i < s.len()
        invariant
            i <= s@.len(),
            index_of_from(s@, c, 0) == index_of_from(s@, c, i as int),
        decreases s@.len() - i,
    {
        if s[i] == c {
            return Some(i);
        }
        i = i + 1;
    }
    None
}

pub proof fn lemma_index_of_from(s: Seq<char>, c: char, i: int)
    ensures
        index_of_from(s, c, i) matches Some(j) ==> i <= j < s.len() && s[j] == c
            && forall|k: int| i <= k < j ==> s[k] != c,
    decreases s.len() - i,
{
    if 0 <= i < s.len() && s[i] != c {
        lemma_index_of_from(s, c, i + 1);
    }
}

impl Script {
    /// `ch` in this script, if it has a form.
    pub fn map(self, ch: char) -> (r: Option<char>)
        ensures
            r == script_char(self, ch),
    {
        let keys = ['0', '1', '2', '3', '4', '5', '6', '7', '8', '9', '+', '-', '=', '(', ')'];
        let forms = match self {
            Script::Sub => ['₀', '₁', '₂', '₃', '₄', '₅', '₆', '₇', '₈', '₉', '₊', '₋', '₌', '₍', '₎'],
            Script::Sup => ['⁰', '¹', '²', '³', '⁴', '⁵', '⁶', '⁷', '⁸', '⁹', '⁺', '⁻', '⁼', '⁽', '⁾'],
        };
        let ks = keys.as_slice();
        proof {
            assert(ks@ =~= script_keys());
            assert(forms@ =~= script_forms(self));
        }
        let found = index_of_char(ks, ch);
        proof {
            lemma_index_of_from(script_keys(), ch, 0);
        }
        match found {
            Some(i) => {
                assert(index_of_from(script_keys(), ch, 0) == Some(i as int));
                assert(forms@[i as int] == script_forms(self)[i as int]);
                Some(forms[i])
            },
            None => {
                assert(index_of_from(script_keys(), ch, 0).is_none());
                None
            },
        }
    }
}

/// Transliterate `text` into `script`, or `None` if it is empty or any
/// character lacks a form: a partial mapping is worse than none.
pub fn transliterate(text: &str, script: Script) -> (r: Option<String>)
    ensures
        match r {
            Some(s) => text@.len() > 0 && script_all(text@, script) == Some(s@),
            None => text@.len() == 0 || script_all(text@, script).is_none(),
        },
{
    let cs = chars_of(text);
    if cs.len() == 0 {
        return None;
    }
    let mut out: Vec<char> = Vec::new();
    let mut i: usize = 0;
    while i < cs.len()
        invariant
            i <= cs@.len(),
            cs@ == text@,
            script_all(cs@.take(i as int), script) == Some(out@),
        decreases cs@.len() - i,
    {
        proof {
            assert(cs@.take(i + 1).drop_last() =~= cs@.take(i as int));
        }
        match script.map(cs[i]) {
            Some(c) => out.push(c),
            None => {
                proof {
                    lemma_script_all_prefix(cs@, script, i + 1);
                }
                return None;
            },
        }
        i = i + 1;
    }
    proof {
        assert(cs@.take(i as int) =~= cs@);
    }
    Some(string_of(out.as_slice()))
}

proof fn lemma_script_all_prefix(s: Seq<char>, script: Script, k: int)
    requires
        0 <= k <= s.len(),
        script_all(s.take(k), script).is_none(),
    ensures
        script_all(s, script).is_none(),
    decreases s.len() - k,
{
    if k < s.len() {
        assert(s.take(k + 1).drop_last() =~= s.take(k));
        lemma_script_all_prefix(s, script, k + 1);
    } else {
        assert(s.take(k) =~= s);
    }
}

/// ASCII letters lowercased; everything else unchanged.
pub open spec fn lower_ascii(c: char) -> char {
    if 'A' <= c && c <= 'Z' {
        ((c as u32) + 32) as char
    } else {
        c
    }
}

/// `s` with ASCII letters lowercased (`str::to_ascii_lowercase`).
pub open spec fn ascii_lower(s: Seq<char>) -> Seq<char> {
    s.map_values(|c: char| lower_ascii(c))
}

fn lower_ascii_char(c: char) -> (r: char)
    ensures
        r == lower_ascii(c),
{
    if 'A' <= c && c <= 'Z' {
        let code: u8 = (c as u32 + 32) as u8;
        code as char
    } else {
        c
    }
}

fn ascii_lower_chars(s: &[char]) -> (r: Vec<char>)
    ensures
        r@ == ascii_lower(s@),
{
    let mut r: Vec<char> = Vec::new();
    let mut i: usize = 0;
    while i < s.len()
        invariant
            i <= s@.len(),
            r@ == ascii_lower(s@.take(i as int)),
        decreases s@.len() - i,
    {
        r.push(lower_ascii_char(s[i]));
        proof {
            assert(ascii_lower(s@.take(i + 1)) =~= ascii_lower(s@.take(i as int)).push(lower_ascii(s@[i as int])));
        }
        i = i + 1;
    }
    proof {
        assert(s@.take(i as int) =~= s@);
    }
    r
}

/// `s` without leading whitespace (`str::trim_start`).
pub open spec fn trim_start(s: Seq<char>) -> Seq<char> {
    s.skip(lead_end(s, 0))
}

fn trim_start_chars(s: &[char]) -> (r: Vec<char>)
    ensures
        r@ == trim_start(s@),
{
    let mut a: usize = 0;
    while a < s.len() && white_space(s[a])
        invariant
            a <= s@.len(),
            lead_end(s@, 0) == lead_end(s@, a as int),
        decreases s@.len() - a,
    {
        a = a + 1;
    }
    slice_from(s, a)
}

fn slice_from(s: &[char], a: usize) -> (r: Vec<char>)
    requires
        a <= s@.len(),
    ensures
        r@ == s@.skip(a as int),
{
    slice_range(s, a, s.len())
}

fn slice_range(s: &[char], a: usize, b: usize) -> (r: Vec<char>)
    requires
        a <= b <= s@.len(),
    ensures
        r@ == s@.subrange(a as int, b as int),
{
    let mut r: Vec<char> = Vec::new();
    let mut k: usize = a;
    while k < b
        invariant
            a <= k <= b,
            b <= s@.len(),
            r@ == s@.subrange(a as int, k as int),
        decreases b - k,
    {
        r.push(s[k]);
        proof {
            assert(r@ =~= s@.subrange(a as int, k + 1));
        }
        k = k + 1;
    }
    r
}

/// Whether `s` holds exactly the characters of `lit`.
fn is_word(s: &Vec<char>, lit: &str) -> (b: bool)
    ensures
        b == (s@ == lit@),
{
    let l = chars_of(lit);
    crate::chars::same_chars(s, &l)
}

/// The value of `c` as a digit in `radix` (up to 36), if it is one.
pub open spec fn digit_value(c: char, radix: int) -> Option<int> {
    let u = c as u32;
    let d: int = if 0x30 <= u <= 0x39 {
        u - 0x30
    } else if 0x61 <= u <= 0x7a {
        u - 0x61 + 10
    } else if 0x41 <= u <= 0x5a {
        u - 0x41 + 10
    } else {
        99
    };
    if d < radix {
        Some(d)
    } else {
        None
    }
}

/// The number `s` spells in `radix`, if every character is a digit.
pub open spec fn digits_value(s: Seq<char>, radix: int) -> Option<int>
    decreases s.len(),
{
    if s.len() == 0 {
        Some(0)
    } else {
        match (digits_value(s.drop_last(), radix), digit_value(s.last(), radix)) {
            (Some(v), Some(d)) => Some(v * radix + d),
            _ => None,
        }
    }
}

/// `u32::from_str_radix`: an optional `+`, then at least one digit, with a
/// value that fits in `u32`.
pub open spec fn parse_u32(s: Seq<char>, radix: int) -> Option<u32> {
    let body = if s.len() > 0 && s[0] == '+' { s.drop_first() } else { s };
    if body.len() == 0 {
        None
    } else {
        match digits_value(body, radix) {
            Some(v) => if v <= u32::MAX {
                Some(v as u32)
            } else {
                None
            },
            None => None,
        }
    }
}

/// The Unicode scalar value `code`, if it is one (`char::from_u32`).
pub open spec fn scalar(code: u32) -> Option<char> {
    if code <= 0x10FFFF && !(0xD800 <= code && code <= 0xDFFF) {
        Some(code as char)
    } else {
        None
    }
}

/// `char::from_u32`.
///
/// Trusted: the standard library documents the result as `Some` exactly for
/// the Unicode scalar values (at most `0x10FFFF`, outside the surrogate
/// range), holding the character with that code.
#[verifier::external_body]
fn char_from_u32(code: u32) -> (r: Option<char>)
    ensures
        r == scalar(code),
{
    char::from_u32(code)
}

proof fn lemma_digits_prefix(s: Seq<char>, radix: int, k: int)
    requires
        2 <= radix,
        0 <= k <= s.len(),
        digits_value(s, radix) is Some,
    ensures
        digits_value(s.take(k), radix) matches Some(p) && 0 <= p <= digits_value(s, radix).unwrap(),
    decreases s.len(),
{
    if s.len() > 0 {
        if k == s.len() {
            assert(s.take(k) =~= s);
            lemma_digits_nonneg(s, radix);
        } else {
            lemma_digits_prefix(s.drop_last(), radix, k);
            assert(s.drop_last().take(k) =~= s.take(k));
            lemma_digits_nonneg(s.drop_last(), radix);
            let v = digits_value(s.drop_last(), radix).unwrap();
            assert(v * radix >= v) by (nonlinear_arith)
                requires
                    v >= 0,
                    radix >= 2,
            ;
        }
    } else {
        assert(s.take(k) =~= s);
    }
}

proof fn lemma_digits_nonneg(s: Seq<char>, radix: int)
    requires
        2 <= radix,
    ensures
        digits_value(s, radix) matches Some(v) ==> v >= 0,
    decreases s.len(),
{
    if s.len() > 0 {
        lemma_digits_nonneg(s.drop_last(), radix);
        if let Some(v) = digits_value(s.drop_last(), radix) {
            assert(v * radix >= 0) by (nonlinear_arith)
                requires
                    v >= 0,
                    radix >= 2,
            ;
        }
    }
}

fn digit_of(c: char, radix: u32) -> (r: Option<u32>)
    requires
        2 <= radix <= 36,
    ensures
        match digit_value(c, radix as int) {
            Some(d) => r == Some(d as u32),
            None => r.is_none(),
        },
{
    let u = c as u32;
    let d: u32 = if 0x30 <= u && u <= 0x39 {
        u - 0x30
    } else if 0x61 <= u && u <= 0x7a {
        u - 0x61 + 10
    } else if 0x41 <= u && u <= 0x5a {
        u - 0x41 + 10
    } else {
        99
    };
    if d < radix {
        Some(d)
    } else {
        None
    }
}

/// `u32::from_str_radix` over characters.
fn parse_u32_chars(s: &[char], radix: u32) -> (r: Option<u32>)
    requires
        2 <= radix <= 36,
    ensures
        r == parse_u32(s@, radix as int),
{
    let start: usize = if s.len() > 0 && s[0] == '+' { 1 } else { 0 };
    let ghost body = if s@.len() > 0 && s@[0] == '+' { s@.drop_first() } else { s@ };
    proof {
        assert(body =~= s@.skip(start as int));
    }
    if start >= s.len() {
        return None;
    }
    let mut acc: u64 = 0;
    let mut i: usize = start;
    while i < s.len()
        invariant
            start <= i <= s@.len(),
            start < s@.len(),
            2 <= radix <= 36,
            body == s@.skip(start as int),
            body == (if s@.len() > 0 && s@[0] == '+' { s@.drop_first() } else { s@ }),
            digits_value(body.take(i - start), radix as int) == Some(acc as int),
            acc <= u32::MAX,
        decreases s@.len() - i,
    {
        proof {
            assert(body.take(i + 1 - start).drop_last() =~= body.take(i - start));
            assert(body.take(i + 1 - start).last() == s@[i as int]);
        }
        match digit_of(s[i], radix) {
            Some(d) => {
                proof {
                    assert(acc * (radix as u64) <= 0xffff_ffff * 36) by (nonlinear_arith)
                        requires
                            acc <= 0xffff_ffff,
                            radix <= 36,
                    ;
                }
                let next = acc * (radix as u64) + d as u64;
                if next > 0xffff_ffff {
                    proof {
                        if digits_value(body, radix as int) is Some {
                            lemma_digits_prefix(body, radix as int, i + 1 - start);
                        }
                    }
                    return None;
                }
                acc = next;
            },
            None => {
                proof {
                    if digits_value(body, radix as int) is Some {
                        lemma_digits_prefix(body, radix as int, i + 1 - start);
                    }
                }
                return None;
            },
        }
        i = i + 1;
    }
    proof {
        assert(body.take(i - start) =~= body);
    }
    Some(acc as u32)
}

/// The character a reference names (`amp`, `lt`, `gt`, `quot`, `apos`,
/// `#39`, `nbsp`, `#NNN`, `#xHH`), if it is one.
pub open spec fn entity(name: Seq<char>) -> Option<char> {
    if name == "amp"@ {
        Some('&')
    } else if name == "lt"@ {
        Some('<')
    } else if name == "gt"@ {
        Some('>')
    } else if name == "quot"@ {
        Some('"')
    } else if name == "apos"@ || name == "#39"@ {
        Some('\'')
    } else if name == "nbsp"@ {
        Some('\u{a0}')
    } else if name.len() > 0 && name[0] == '#' {
        let digits = name.drop_first();
        let code = if digits.len() > 0 && (digits[0] == 'x' || digits[0] == 'X') {
            parse_u32(digits.drop_first(), 16)
        } else {
            parse_u32(digits, 10)
        };
        match code {
            Some(c) => scalar(c),
            None => None,
        }
    } else {
        None
    }
}

fn entity_of(name: &Vec<char>) -> (r: Option<char>)
    ensures
        r == entity(name@),
{
    if is_word(name, "amp") {
        Some('&')
    } else if is_word(name, "lt") {
        Some('<')
    } else if is_word(name, "gt") {
        Some('>')
    } else if is_word(name, "quot") {
        Some('"')
    } else if is_word(name, "apos") || is_word(name, "#39") {
        Some('\'')
    } else if is_word(name, "nbsp") {
        Some('\u{a0}')
    } else if name.len() > 0 && name[0] == '#' {
        let digits = slice_from(name.as_slice(), 1);
        proof {
            assert(digits@ =~= name@.drop_first());
        }
        let code = if digits.len() > 0 && (digits[0] == 'x' || digits[0] == 'X') {
            let hex = slice_from(digits.as_slice(), 1);
            proof {
                assert(hex@ =~= digits@.drop_first());
            }
            parse_u32_chars(hex.as_slice(), 16)
        } else {
            parse_u32_chars(digits.as_slice(), 10)
        };
        match code {
            Some(c) => char_from_u32(c),
            None => None,
        }
    } else {
        None
    }
}

/// Where a character reference starting after an `&` ends: the position of
/// its `;` in `after`, when the whole reference is at most 12 bytes.
pub open spec fn reference_end(after: Seq<char>) -> Option<int> {
    match index_of_from(after, ';', 0) {
        Some(k) => if utf8_len(after.take(k)) + 2 <= 12 {
            Some(k)
        } else {
            None
        },
        None => None,
    }
}

/// `value` with its character references decoded; an `&` that starts no
/// known reference stays literal.
pub open spec fn unescape_chars(value: Seq<char>) -> Seq<char>
    decreases value.len(),
{
    if value.len() == 0 {
        seq![]
    } else if value[0] != '&' {
        seq![value[0]] + unescape_chars(value.drop_first())
    } else {
        let after = value.drop_first();
        proof {
            lemma_index_of_from(after, ';', 0);
        }
        match reference_end(after) {
            Some(k) => match entity(after.take(k)) {
                Some(c) => seq![c] + unescape_chars(after.skip(k + 1)),
                None => seq!['&'] + unescape_chars(after),
            },
            None => seq!['&'] + unescape_chars(after),
        }
    }
}

/// Decode the character references an attribute value can carry.
pub fn unescape(value: &str) -> (r: String)
    ensures
        r@ == unescape_chars(value@),
{
    let cs = chars_of(value);
    let mut out: Vec<char> = Vec::new();
    let mut i: usize = 0;
    proof {
        assert(cs@.skip(0) =~= cs@);
        assert(out@ + unescape_chars(cs@) =~= unescape_chars(cs@));
    }
    while i < cs.len()
        invariant
            i <= cs@.len(),
            cs@ == value@,
            unescape_chars(cs@) == out@ + unescape_chars(cs@.skip(i as int)),
        decreases cs@.len() - i,
    {
        let ghost rest = cs@.skip(i as int);
        let ghost after = rest.drop_first();
        proof {
            assert(rest[0] == cs@[i as int]);
            assert(after =~= cs@.skip(i + 1));
        }
        if cs[i] != '&' {
            out.push(cs[i]);
            proof {
                assert(unescape_chars(rest) == seq![cs@[i as int]] + unescape_chars(after));
                assert(out@ + unescape_chars(cs@.skip(i + 1)) =~= (out@.drop_last() + seq![cs@[i as int]]) + unescape_chars(after));
            }
            i = i + 1;
        } else {
            // Find the `;` and the byte length of what lies between.
            let mut j: usize = i + 1;
            let mut bytes: usize = 0;
            while j < cs.len() && cs[j] != ';'
                invariant
                    i + 1 <= j <= cs@.len(),
                    after == cs@.skip(i + 1),
                    index_of_from(after, ';', 0) == index_of_from(after, ';', j - i - 1),
                    bytes == crate::chars::sat_usize(utf8_len(after.take(j - i - 1))),
                decreases cs@.len() - j,
            {
                proof {
                    assert(after.take(j - i).drop_last() =~= after.take(j - i - 1));
                }
                bytes = bytes.saturating_add(utf8_char_width(cs[j]));
                j = j + 1;
            }
            proof {
                lemma_index_of_from(after, ';', 0);
                crate::chars::lemma_utf8_len_nonneg(after.take(j - i - 1));
            }
            let mut decoded: Option<char> = None;
            if j < cs.len() && bytes <= 10 {
                let name = slice_range(cs.as_slice(), i + 1, j);
                proof {
                    assert(name@ =~= after.take(j - i - 1));
                }
                decoded = entity_of(&name);
            }
            match decoded {
                Some(c) => {
                    out.push(c);
                    proof {
                        assert(reference_end(after) == Some(j - i - 1));
                        assert(after.skip(j - i) =~= cs@.skip(j + 1));
                        assert(out@ + unescape_chars(cs@.skip(j + 1)) =~= (out@.drop_last() + seq![c]) + unescape_chars(
                            after.skip(j - i),
                        ));
                    }
                    i = j + 1;
                },
                None => {
                    out.push('&');
                    proof {
                        assert(out@ + unescape_chars(cs@.skip(i + 1)) =~= (out@.drop_last() + seq!['&'])
                            + unescape_chars(after));
                    }
                    i = i + 1;
                },
            }
        }
    }
    proof {
        assert(cs@.skip(i as int) =~= Seq::<char>::empty());
        assert(out@ + unescape_chars(cs@.skip(i as int)) =~= out@);
    }
    string_of(out.as_slice())
}

/// The first position at or after `i` holding whitespace or `stop`.
pub open spec fn stop_at(s: Seq<char>, stop: char, i: int) -> int
    decreases s.len() - i,
{
    if i < 0 || i >= s.len() {
        s.len() as int
    } else if is_white_space(s[i]) || s[i] == stop {
        i
    } else {
        stop_at(s, stop, i + 1)
    }
}

fn stop_index(s: &[char], stop: char) -> (r: usize)
    ensures
        r == stop_at(s@, stop, 0),
        r <= s@.len(),
{
    let mut i: usize = 0;
    while i < s.len() && !(white_space(s[i]) || s[i] == stop)
        invariant
            i <= s@.len(),
            stop_at(s@, stop, 0) == stop_at(s@, stop, i as int),
        decreases s@.len() - i,
    {
        i = i + 1;
    }
    i
}

/// The raw text of an attribute value: up to the closing quote when quoted,
/// else up to whitespace or `>`.
pub open spec fn raw_value(value: Seq<char>) -> Seq<char> {
    if value.len() > 0 && (value[0] == '"' || value[0] == '\'') {
        let v = value.drop_first();
        match index_of_from(v, value[0], 0) {
            Some(k) => v.take(k),
            None => v,
        }
    } else {
        value.take(stop_at(value, '>', 0))
    }
}

/// The decoded value of attribute `name` (lowercase) in raw attribute text:
/// the first case-insensitive occurrence of `name` that starts the text or
/// follows whitespace or a quote, and is followed (past whitespace) by `=`.
pub open spec fn attr_value(rest: Seq<char>, name: Seq<char>) -> Option<Seq<char>>
    decreases rest.len(),
{
    if name.len() == 0 {
        None
    } else {
        proof {
            lemma_find_from_found(ascii_lower(rest), name, 0);
        }
        match find_from(ascii_lower(rest), name, 0) {
            None => None,
            Some(at) => {
                let before_ok = at == 0 || is_white_space(rest[at - 1]) || rest[at - 1] == '"' || rest[at - 1] == '\'';
                let after = trim_start(rest.skip(at + name.len()));
                if before_ok && after.len() > 0 && after[0] == '=' {
                    Some(unescape_chars(raw_value(trim_start(after.drop_first()))))
                } else {
                    attr_value(rest.skip(at + name.len()), name)
                }
            },
        }
    }
}

fn raw_value_chars(value: &Vec<char>) -> (r: Vec<char>)
    ensures
        r@ == raw_value(value@),
{
    let vs = value.as_slice();
    proof {
        assert(vs@ == value@);
    }
    if value.len() > 0 && (value[0] == '"' || value[0] == '\'') {
        let v = slice_from(vs, 1);
        proof {
            assert(v@ =~= value@.drop_first());
        }
        let v_slice = v.as_slice();
        proof {
            assert(v_slice@ == v@);
        }
        match index_of_char(v_slice, value[0]) {
            Some(k) => {
                let r = slice_range(v_slice, 0, k);
                proof {
                    assert(r@ =~= v@.take(k as int));
                    assert(index_of_from(value@.drop_first(), value@[0], 0) == Some(k as int));
                    assert(r@ == raw_value(value@));
                }
                r
            },
            None => {
                proof {
                    assert(index_of_from(value@.drop_first(), value@[0], 0).is_none());
                    assert(v@ == raw_value(value@));
                }
                v
            },
        }
    } else {
        let e = stop_index(vs, '>');
        let r = slice_range(vs, 0, e);
        proof {
            assert(r@ =~= value@.take(e as int));
            assert(r@ == raw_value(value@));
        }
        r
    }
}

/// Read attribute `name` (lowercase) out of raw attribute text.
fn attr(attrs: &Vec<char>, name: &str) -> (r: Option<String>)
    ensures
        match attr_value(attrs@, name@) {
            Some(v) => r matches Some(s) && s@ == v,
            None => r.is_none(),
        },
{
    let nm = chars_of(name);
    if nm.len() == 0 {
        return None;
    }
    let mut rest = slice_from(attrs.as_slice(), 0);
    proof {
        assert(rest@ =~= attrs@);
    }
    loop
        invariant
            nm@ == name@,
            nm@.len() > 0,
            attr_value(attrs@, name@) == attr_value(rest@, name@),
        decreases rest@.len(),
    {
        let low = ascii_lower_chars(rest.as_slice());
        let ghost lv = ascii_lower(rest@);
        proof {
            lemma_find_from_found(lv, nm@, 0);
        }
        // The first occurrence of the name in the lowercased text.
        let mut at: usize = 0;
        let mut found = false;
        while nm.len() <= low.len() && at <= low.len() - nm.len()
            invariant_except_break
                low@ == lv,
                lv.len() == rest@.len(),
                find_from(lv, nm@, 0) == find_from(lv, nm@, at as int),
                !found,
            invariant
                nm@.len() > 0,
            ensures
                found ==> find_from(lv, nm@, 0) == Some(at as int) && at + nm@.len() <= lv.len(),
                !found ==> find_from(lv, nm@, 0).is_none(),
            decreases low@.len() - at,
        {
            if occurs_at(&low, &nm, at) {
                proof {
                    assert(find_from(lv, nm@, at as int) == Some(at as int));
                }
                found = true;
                break;
            }
            at = at + 1;
        }
        if !found {
            return None;
        }
        proof {
            assert(at + nm.len() <= low.len());
        }
        let next = at + nm.len();
        let before_ok = at == 0 || white_space(rest[at - 1]) || rest[at - 1] == '"' || rest[at - 1] == '\'';
        let tail = slice_from(rest.as_slice(), next);
        let after = trim_start_chars(tail.as_slice());
        if before_ok && after.len() > 0 && after[0] == '=' {
            let eq_rest = slice_from(after.as_slice(), 1);
            proof {
                assert(eq_rest@ =~= after@.drop_first());
            }
            let value = trim_start_chars(eq_rest.as_slice());
            let raw = raw_value_chars(&value);
            let s = string_of(raw.as_slice());
            return Some(unescape(s.as_str()));
        }
        rest = tail;
    }
}

/// The styling an open tag contributes, and the name its closing tag uses.
pub struct Scope {
    /// Canonical (lowercased) tag name, matched by the closing tag.
    pub name: &'static str,
    /// Stylesheet role overlaid on the surrounding style, if any.
    pub role: Option<Role>,
    /// Modifiers added for tags with no role of their own.
    pub modifier: Modifier,
    /// Link destination for `<a href>`.
    pub href: Option<String>,
    /// Transliteration applied to the text inside.
    pub script: Option<Script>,
}

/// What one raw inline-HTML tag means to the renderer.
pub enum Effect {
    /// Open a style scope, closed by the matching end tag.
    Open(Scope),
    /// Close the innermost scope opened under this name.
    Close(&'static str),
    /// `<br>`: end the current line.
    Break,
    /// `<img>`: treated as a markdown image.
    Image { src: String, alt: String },
    /// Transparent or not whitelisted: nothing to do.
    Inert,
}

/// A [`Scope`] as plain values.
pub struct ScopeModel {
    pub name: Seq<char>,
    pub role: Option<Role>,
    pub modifier: Modifier,
    pub href: Option<Seq<char>>,
    pub script: Option<Script>,
}

/// An [`Effect`] as plain values.
pub enum EffectModel {
    Open(ScopeModel),
    Close(Seq<char>),
    Break,
    Image(Seq<char>, Seq<char>),
    Inert,
}

impl Scope {
    pub open spec fn model(&self) -> ScopeModel {
        ScopeModel {
            name: self.name@,
            role: self.role,
            modifier: self.modifier,
            href: match self.href {
                Some(h) => Some(h@),
                None => None,
            },
            script: self.script,
        }
    }
}

impl Effect {
    pub open spec fn model(&self) -> EffectModel {
        match self {
            Effect::Open(s) => EffectModel::Open(s.model()),
            Effect::Close(n) => EffectModel::Close(n@),
            Effect::Break => EffectModel::Break,
            Effect::Image { src, alt } => EffectModel::Image(src@, alt@),
            Effect::Inert => EffectModel::Inert,
        }
    }
}

/// A scope named `name` with nothing else.
pub open spec fn plain_scope(name: Seq<char>) -> ScopeModel {
    ScopeModel { name, role: None, modifier: Modifier { bits: 0 }, href: None, script: None }
}

/// The scope name a closing tag unwinds, for tags that share one.
pub open spec fn canonical_name(name: Seq<char>) -> Option<Seq<char>> {
    if name == "b"@ || name == "strong"@ {
        Some("strong"@)
    } else if name == "i"@ || name == "em"@ || name == "var"@ || name == "cite"@ || name == "dfn"@ {
        Some("em"@)
    } else if name == "code"@ || name == "kbd"@ || name == "samp"@ || name == "tt"@ {
        Some("code"@)
    } else if name == "s"@ || name == "del"@ || name == "strike"@ {
        Some("del"@)
    } else if name == "u"@ || name == "ins"@ {
        Some("u"@)
    } else if name == "mark"@ {
        Some("mark"@)
    } else if name == "sub"@ {
        Some("sub"@)
    } else if name == "sup"@ {
        Some("sup"@)
    } else if name == "a"@ {
        Some("a"@)
    } else {
        None
    }
}

/// What an opening tag named `name` (lowercase) with attribute text `attrs`
/// means.
pub open spec fn open_effect(name: Seq<char>, attrs: Seq<char>) -> EffectModel {
    if name == "br"@ {
        EffectModel::Break
    } else if name == "img"@ {
        EffectModel::Image(
            match attr_value(attrs, "src"@) {
                Some(v) => v,
                None => seq![],
            },
            match attr_value(attrs, "alt"@) {
                Some(v) => v,
                None => seq![],
            },
        )
    } else if name == "a"@ {
        EffectModel::Open(ScopeModel { role: Some(Role::Link), href: attr_value(attrs, "href"@), ..plain_scope("a"@) })
    } else if name == "b"@ || name == "strong"@ {
        EffectModel::Open(ScopeModel { role: Some(Role::Strong), ..plain_scope("strong"@) })
    } else if name == "i"@ || name == "em"@ || name == "var"@ || name == "cite"@ || name == "dfn"@ {
        EffectModel::Open(ScopeModel { role: Some(Role::Emphasis), ..plain_scope("em"@) })
    } else if name == "code"@ || name == "kbd"@ || name == "samp"@ || name == "tt"@ {
        EffectModel::Open(ScopeModel { role: Some(Role::InlineCode), ..plain_scope("code"@) })
    } else if name == "s"@ || name == "del"@ || name == "strike"@ {
        EffectModel::Open(ScopeModel { role: Some(Role::Strikethrough), ..plain_scope("del"@) })
    } else if name == "u"@ || name == "ins"@ {
        EffectModel::Open(ScopeModel { modifier: Modifier { bits: 8 }, ..plain_scope("u"@) })
    } else if name == "mark"@ {
        EffectModel::Open(ScopeModel { modifier: Modifier { bits: 64 }, ..plain_scope("mark"@) })
    } else if name == "sub"@ {
        EffectModel::Open(ScopeModel { script: Some(Script::Sub), ..plain_scope("sub"@) })
    } else if name == "sup"@ {
        EffectModel::Open(ScopeModel { script: Some(Script::Sup), ..plain_scope("sup"@) })
    } else {
        EffectModel::Inert
    }
}

/// `raw` without one enclosing pair of angle brackets.
pub open spec fn strip_angles(raw: Seq<char>) -> Seq<char> {
    if raw.len() >= 2 && raw[0] == '<' && raw.last() == '>' {
        raw.subrange(1, raw.len() - 1)
    } else {
        raw
    }
}

/// What a raw inline-HTML tag means: comments, doctypes and processing
/// instructions are inert; a closing tag unwinds its canonical scope; an
/// opening tag is looked up by its lowercased name.
pub open spec fn classify_tag(raw: Seq<char>) -> EffectModel {
    let inner = trim_ws(strip_angles(raw));
    if inner.len() > 0 && (inner[0] == '!' || inner[0] == '?') {
        EffectModel::Inert
    } else {
        let closing = inner.len() > 0 && inner[0] == '/';
        let body = if closing { trim_start(inner.drop_first()) } else { inner };
        let n = stop_at(body, '/', 0);
        let name = ascii_lower(body.take(n));
        if closing {
            match canonical_name(name) {
                Some(c) => EffectModel::Close(c),
                None => EffectModel::Inert,
            }
        } else {
            open_effect(name, body.skip(n))
        }
    }
}

fn canonical(name: &Vec<char>) -> (r: Option<&'static str>)
    ensures
        match canonical_name(name@) {
            Some(c) => r matches Some(n) && n@ == c,
            None => r.is_none(),
        },
{
    if is_word(name, "b") || is_word(name, "strong") {
        Some("strong")
    } else if is_word(name, "i") || is_word(name, "em") || is_word(name, "var") || is_word(name, "cite")
        || is_word(name, "dfn") {
        Some("em")
    } else if is_word(name, "code") || is_word(name, "kbd") || is_word(name, "samp") || is_word(name, "tt") {
        Some("code")
    } else if is_word(name, "s") || is_word(name, "del") || is_word(name, "strike") {
        Some("del")
    } else if is_word(name, "u") || is_word(name, "ins") {
        Some("u")
    } else if is_word(name, "mark") {
        Some("mark")
    } else if is_word(name, "sub") {
        Some("sub")
    } else if is_word(name, "sup") {
        Some("sup")
    } else if is_word(name, "a") {
        Some("a")
    } else {
        None
    }
}

fn scope_named(name: &'static str) -> (s: Scope)
    ensures
        s.model() == plain_scope(name@),
{
    Scope { name, role: None, modifier: Modifier::empty(), href: None, script: None }
}

fn open_tag(name: &Vec<char>, attrs: &Vec<char>) -> (e: Effect)
    ensures
        e.model() == open_effect(name@, attrs@),
{
    if is_word(name, "br") {
        Effect::Break
    } else if is_word(name, "img") {
        let src = match attr(attrs, "src") {
            Some(v) => v,
            None => String::new(),
        };
        let alt = match attr(attrs, "alt") {
            Some(v) => v,
            None => String::new(),
        };
        Effect::Image { src, alt }
    } else if is_word(name, "a") {
        Effect::Open(Scope { role: Some(Role::Link), href: attr(attrs, "href"), ..scope_named("a") })
    } else if is_word(name, "b") || is_word(name, "strong") {
        Effect::Open(Scope { role: Some(Role::Strong), ..scope_named("strong") })
    } else if is_word(name, "i") || is_word(name, "em") || is_word(name, "var") || is_word(name, "cite")
        || is_word(name, "dfn") {
        Effect::Open(Scope { role: Some(Role::Emphasis), ..scope_named("em") })
    } else if is_word(name, "code") || is_word(name, "kbd") || is_word(name, "samp") || is_word(name, "tt") {
        Effect::Open(Scope { role: Some(Role::InlineCode), ..scope_named("code") })
    } else if is_word(name, "s") || is_word(name, "del") || is_word(name, "strike") {
        Effect::Open(Scope { role: Some(Role::Strikethrough), ..scope_named("del") })
    } else if is_word(name, "u") || is_word(name, "ins") {
        Effect::Open(Scope { modifier: Modifier::underlined(), ..scope_named("u") })
    } else if is_word(name, "mark") {
        Effect::Open(Scope { modifier: Modifier::reversed(), ..scope_named("mark") })
    } else if is_word(name, "sub") {
        Effect::Open(Scope { script: Some(Script::Sub), ..scope_named("sub") })
    } else if is_word(name, "sup") {
        Effect::Open(Scope { script: Some(Script::Sup), ..scope_named("sup") })
    } else {
        Effect::Inert
    }
}

/// Classify one raw inline-HTML tag (`<b>`, `</a>`, `<br/>`, `<img src=…>`).
pub fn classify(raw: &str) -> (e: Effect)
    ensures
        e.model() == classify_tag(raw@),
{
    let cs = chars_of(raw);
    let n = cs.len();
    let stripped = if n >= 2 && cs[0] == '<' && cs[n - 1] == '>' {
        slice_range(cs.as_slice(), 1, n - 1)
    } else {
        slice_range(cs.as_slice(), 0, n)
    };
    proof {
        assert(stripped@ =~= strip_angles(raw@));
    }
    let inner = trim_chars(&stripped);
    if inner.len() > 0 && (inner[0] == '!' || inner[0] == '?') {
        return Effect::Inert;
    }
    let closing = inner.len() > 0 && inner[0] == '/';
    let body = if closing {
        let after = slice_from(inner.as_slice(), 1);
        proof {
            assert(after@ =~= inner@.drop_first());
        }
        trim_start_chars(after.as_slice())
    } else {
        inner
    };
    let e = stop_index(body.as_slice(), '/');
    let head = slice_range(body.as_slice(), 0, e);
    let name = ascii_lower_chars(head.as_slice());
    let attrs = slice_from(body.as_slice(), e);
    proof {
        assert(head@ =~= body@.take(e as int));
    }
    if closing {
        match canonical(&name) {
            Some(c) => Effect::Close(c),
            None => Effect::Inert,
        }
    } else {
        open_tag(&name, &attrs)
    }
}


/// A bare tag name: at least one character, none of them whitespace, `/`,
/// `<` or `>`.
pub open spec fn tag_name(n: Seq<char>) -> bool {
    &&& n.len() > 0
    &&& forall|i: int| 0 <= i < n.len() ==> !is_white_space(#[trigger] n[i]) && n[i] != '/' && n[i] != '<' && n[i] != '>'
}

proof fn lemma_stop_at_name(n: Seq<char>, i: int)
    requires
        tag_name(n),
        0 <= i <= n.len(),
    ensures
        stop_at(n, '/', i) == n.len(),
    decreases n.len() - i,
{
    if i < n.len() {
        lemma_stop_at_name(n, i + 1);
    }
}

proof fn lemma_trim_name(n: Seq<char>)
    requires
        tag_name(n),
    ensures
        trim_ws(n) == n,
        trim_start(n) == n,
        stop_at(n, '/', 0) == n.len(),
{
    assert(lead_end(n, 0) == 0);
    assert(trail_start(n, n.len() as int) == n.len());
    assert(n.subrange(0, n.len() as int) =~= n);
    assert(n.skip(0) =~= n);
    lemma_stop_at_name(n, 0);
}

/// Every scope an opening tag `<n>` opens is closed by its own end tag
/// `</n>`: when `n` (lowercased) has a canonical scope name, `<n>` opens a
/// scope of that name and `</n>` closes that name; otherwise `</n>` does
/// nothing.
pub proof fn lemma_end_tag_closes_its_scope(n: Seq<char>)
    requires
        tag_name(n),
    ensures
        canonical_name(ascii_lower(n)) matches Some(c) ==> classify_tag(seq!['<'] + n + seq!['>']) matches EffectModel::Open(s)
            && s.name == c,
        canonical_name(ascii_lower(n)) matches Some(c) ==> classify_tag(seq!['<', '/'] + n + seq!['>'])
            == EffectModel::Close(c),
        canonical_name(ascii_lower(n)) is None ==> classify_tag(seq!['<', '/'] + n + seq!['>']) == EffectModel::Inert,
{
    reveal_strlit("a");
    reveal_strlit("b");
    reveal_strlit("br");
    reveal_strlit("img");
    reveal_strlit("strong");
    reveal_strlit("i");
    reveal_strlit("em");
    reveal_strlit("var");
    reveal_strlit("cite");
    reveal_strlit("dfn");
    reveal_strlit("code");
    reveal_strlit("kbd");
    reveal_strlit("samp");
    reveal_strlit("tt");
    reveal_strlit("s");
    reveal_strlit("del");
    reveal_strlit("strike");
    reveal_strlit("u");
    reveal_strlit("ins");
    reveal_strlit("mark");
    reveal_strlit("sub");
    reveal_strlit("sup");
    lemma_trim_name(n);
    let open = seq!['<'] + n + seq!['>'];
    let close = seq!['<', '/'] + n + seq!['>'];
    assert(strip_angles(open) =~= n);
    let slash_n = seq!['/'] + n;
    assert(strip_angles(close) =~= slash_n);
    assert(lead_end(slash_n, 0) == 0);
    assert(trail_start(slash_n, slash_n.len() as int) == slash_n.len());
    assert(slash_n.subrange(0, slash_n.len() as int) =~= slash_n);
    assert(trim_ws(slash_n) == slash_n);
    assert(slash_n.drop_first() =~= n);
    assert(n.take(n.len() as int) =~= n);
    assert(n.skip(n.len() as int) =~= Seq::<char>::empty());
    let l = ascii_lower(n);
    if canonical_name(l) is Some {
        assert(l[0] != '!' && l[0] != '?');
        assert(lower_ascii(n[0]) == l[0]);
        assert(n[0] != '!' && n[0] != '?');
        assert(n[0] != '/');
        assert(trim_ws(strip_angles(open)) == n);
        assert(classify_tag(open) == open_effect(l, n.skip(n.len() as int)));
        if l == "br"@ {
            assert(l.len() == 2 && l[0] == 'b' && l[1] == 'r');
            assert(false);
        }
        if l == "img"@ {
            assert(l.len() == 3 && l[0] == 'i' && l[1] == 'm');
            assert(false);
        }
    }
}

} // verus!
