//! A reader for the configuration files' table format.
//!
//! A document is a list of key-value lines, grouped into sections opened by
//! `[dotted.path]` or `[[dotted.path]]` headers. Keys may be bare words or
//! quoted strings, and may be dotted paths. Values are strings, integers,
//! decimals, booleans, arrays, and inline tables. The reader keeps the
//! section structure flat; each consumer interprets its own section paths.
use vstd::prelude::*;

use crate::text::{parse_u64, string_of};

verus! {

/// One value of a document.
pub enum TomlValue {
    Str(String),
    Int(u64),
    IntNeg(u64),
    Decimal { units: u64, nanos: u32 },
    Bool(bool),
    Array(Vec<TomlValue>),
    Table(Vec<(String, TomlValue)>),
}

/// One `key = value` line; the key may be a dotted path.
pub struct TomlKeyVal {
    pub path: Vec<String>,
    pub value: TomlValue,
}

/// One section of a document.
pub struct TomlSection {
    pub path: Vec<String>,
    pub is_array: bool,
    pub entries: Vec<TomlKeyVal>,
}

/// A whole document: the entries before any header, then the sections in
/// file order.
pub struct TomlDoc {
    pub root: Vec<TomlKeyVal>,
    pub sections: Vec<TomlSection>,
}

/// Where reading failed.
#[derive(Clone, Copy, Debug, PartialEq, Eq, Structural)]
pub struct TomlError {
    pub pos: usize,
}

fn is_bare_key_char(c: char) -> (r: bool) {
    let u = c as u32;
    (97 <= u && u <= 122) || (65 <= u && u <= 90) || (48 <= u && u <= 57) || u == 95 || u == 45
}

fn is_digit(c: char) -> (r: bool) {
    let u = c as u32;
    48 <= u && u <= 57
}

fn is_ws(c: char) -> (r: bool) {
    c == ' ' || c == '\t'
}

fn skip_ws(s: &Vec<char>, i: usize) -> (j: usize)
    requires
        i <= s@.len(),
    ensures
        i <= j <= s@.len(),
{
    let mut j = i;
    while j < s.len() && is_ws(s[j])
        invariant
            i <= j <= s@.len(),
        decreases s@.len() - j,
    {
        j = j + 1;
    }
    j
}

/// Skip spaces, comments and line breaks.
fn skip_trivia(s: &Vec<char>, i: usize) -> (j: usize)
    requires
        i <= s@.len(),
    ensures
        i <= j <= s@.len(),
{
    let mut j = i;
    while j < s.len() && (is_ws(s[j]) || s[j] == '\n' || s[j] == '\r' || s[j] == '#')
        invariant
            i <= j <= s@.len(),
        decreases s@.len() - j,
    {
        if s[j] == '#' {
            let ghost jb = j;
            j = j + 1;
            while j < s.len() && s[j] != '\n'
                invariant
                    i <= j <= s@.len(),
                    jb < j,
                decreases s@.len() - j,
            {
                j = j + 1;
            }
        } else {
            j = j + 1;
        }
    }
    j
}

/// Read a quoted string with the usual escapes.
fn parse_quoted(s: &Vec<char>, i: usize) -> (r: Result<(String, usize), TomlError>)
    requires
        i < s@.len(),
        s@[i as int] == '"',
    ensures
        r matches Ok((_, j)) ==> i < j <= s@.len(),
{
    let n = s.len();
    let mut j = i + 1;
    let mut out: Vec<char> = Vec::new();
    while j < s.len() && s[j] != '"'
        invariant
            i < j <= s@.len(),
        decreases s@.len() - j,
    {
        if s[j] == '\\' {
            if j + 1 >= s.len() {
                return Err(TomlError { pos: j });
            }
            let e = s[j + 1];
            if e == 'n' {
                out.push('\n');
            } else if e == 't' {
                out.push('\t');
            } else if e == 'r' {
                out.push('\r');
            } else if e == '"' {
                out.push('"');
            } else if e == '\\' {
                out.push('\\');
            } else {
                return Err(TomlError { pos: j });
            }
            j = j + 2;
        } else {
            out.push(s[j]);
            j = j + 1;
        }
    }
    if j >= s.len() {
        return Err(TomlError { pos: j });
    }
    Ok((string_of(&out), j + 1))
}

/// Read one key: a bare word or a quoted string.
fn parse_key(s: &Vec<char>, i: usize) -> (r: Result<(String, usize), TomlError>)
    requires
        i <= s@.len(),
    ensures
        r matches Ok((_, j)) ==> i < j <= s@.len(),
{
    if i < s.len() && s[i] == '"' {
        parse_quoted(s, i)
    } else {
        let mut j = i;
        let mut out: Vec<char> = Vec::new();
        while j < s.len() && is_bare_key_char(s[j])
            invariant
                i <= j <= s@.len(),
            decreases s@.len() - j,
        {
            out.push(s[j]);
            j = j + 1;
        }
        if j == i {
            Err(TomlError { pos: i })
        } else {
            Ok((string_of(&out), j))
        }
    }
}

/// Read a dotted key path.
fn parse_key_path(s: &Vec<char>, i: usize) -> (r: Result<(Vec<String>, usize), TomlError>)
    requires
        i <= s@.len(),
    ensures
        r matches Ok((_, j)) ==> i < j <= s@.len(),
    decreases s@.len() - i,
{
    let (first, j) = parse_key(s, i)?;
    let mut path: Vec<String> = Vec::new();
    path.push(first);
    let j2 = skip_ws(s, j);
    if j2 < s.len() && s[j2] == '.' {
        let j3 = skip_ws(s, j2 + 1);
        let (rest, k) = parse_key_path(s, j3)?;
        let mut ri: usize = 0;
        while ri < rest.len()
            invariant
                ri <= rest@.len(),
            decreases rest@.len() - ri,
        {
            path.push(rest[ri].clone());
            ri = ri + 1;
        }
        Ok((path, k))
    } else {
        Ok((path, j))
    }
}

/// Read a number: integer or decimal, with an optional sign.
fn parse_number(s: &Vec<char>, i: usize) -> (r: Result<(TomlValue, usize), TomlError>)
    requires
        i <= s@.len(),
    ensures
        r matches Ok((_, j)) ==> i < j <= s@.len(),
{
    let mut j = i;
    let mut neg = false;
    if j < s.len() && s[j] == '-' {
        neg = true;
        j = j + 1;
    }
    let start = j;
    let mut digits: Vec<char> = Vec::new();
    while j < s.len() && s[j] != '.' && is_digit(s[j])
        invariant
            start <= j <= s@.len(),
            i <= start,
        decreases s@.len() - j,
    {
        digits.push(s[j]);
        j = j + 1;
    }
    if j == start {
        return Err(TomlError { pos: i });
    }
    let units = match parse_u64(&digits) {
        Some(u) => u,
        None => {
            return Err(TomlError { pos: i });
        },
    };
    if j < s.len() && s[j] == '.' {
        let fstart = j + 1;
        let mut fj = fstart;
        let mut frac: Vec<char> = Vec::new();
        while fj < s.len() && is_digit(s[fj])
            invariant
                fstart <= fj <= s@.len(),
                frac@.len() == fj - fstart,
            decreases s@.len() - fj,
        {
            frac.push(s[fj]);
            fj = fj + 1;
        }
        if fj == fstart || frac.len() > 9 {
            return Err(TomlError { pos: fstart });
        }
        let mut padded = frac;
        while padded.len() < 9
            invariant
                padded@.len() <= 9,
            decreases 9 - padded@.len(),
        {
            padded.push('0');
        }
        let nanos = match parse_u64(&padded) {
            Some(n) => n,
            None => {
                return Err(TomlError { pos: fstart });
            },
        };
        if nanos >= 1000000000 {
            return Err(TomlError { pos: fstart });
        }
        if neg {
            return Err(TomlError { pos: i });
        }
        Ok((TomlValue::Decimal { units, nanos: nanos as u32 }, fj))
    } else {
        if neg {
            Ok((TomlValue::IntNeg(units), j))
        } else {
            Ok((TomlValue::Int(units), j))
        }
    }
}

fn starts_word(s: &Vec<char>, i: usize, w: &str) -> (r: bool)
    requires
        i <= s@.len(),
    ensures
        r ==> i + w@.len() <= s@.len(),
{
    let wc = crate::text::chars_of(w);
    let n = s.len();
    if i > n || wc.len() > n - i {
        return false;
    }
    let mut k: usize = 0;
    while k < wc.len()
        invariant
            k <= wc@.len(),
            n == s@.len(),
            i + wc@.len() <= s@.len(),
        decreases wc@.len() - k,
    {
        if s[i + k] != wc[k] {
            return false;
        }
        k = k + 1;
    }
    true
}

/// Read one value.
fn parse_value(s: &Vec<char>, i: usize) -> (r: Result<(TomlValue, usize), TomlError>)
    requires
        i <= s@.len(),
    ensures
        r matches Ok((_, j)) ==> i < j <= s@.len(),
    decreases s@.len() - i, 1int,
{
    let i2 = skip_ws(s, i);
    if i2 >= s.len() {
        return Err(TomlError { pos: i2 });
    }
    let c = s[i2];
    if c == '"' {
        let (v, j) = parse_quoted(s, i2)?;
        Ok((TomlValue::Str(v), j))
    } else if c == '[' {
        let mut items: Vec<TomlValue> = Vec::new();
        let mut j = skip_trivia(s, i2 + 1);
        if j < s.len() && s[j] == ']' {
            return Ok((TomlValue::Array(items), j + 1));
        }
        loop
            invariant
                i <= i2 < j <= s@.len(),
            decreases s@.len() - j,
        {
            let (v, j2) = parse_value(s, j)?;
            items.push(v);
            let j3 = skip_trivia(s, j2);
            if j3 < s.len() && s[j3] == ',' {
                let j4 = skip_trivia(s, j3 + 1);
                if j4 < s.len() && s[j4] == ']' {
                    j = j4;
                } else {
                    if j4 <= j {
                        return Err(TomlError { pos: j4 });
                    }
                    j = j4;
                    continue ;
                }
            } else {
                j = j3;
            }
            if j < s.len() && s[j] == ']' {
                return Ok((TomlValue::Array(items), j + 1));
            } else {
                return Err(TomlError { pos: j });
            }
        }
    } else if c == '{' {
        let mut pairs: Vec<(String, TomlValue)> = Vec::new();
        let mut j = skip_ws(s, i2 + 1);
        if j < s.len() && s[j] == '}' {
            return Ok((TomlValue::Table(pairs), j + 1));
        }
        loop
            invariant
                i <= i2 < j <= s@.len(),
            decreases s@.len() - j,
        {
            let (k, j2) = parse_key(s, j)?;
            let j3 = skip_ws(s, j2);
            if !(j3 < s.len() && s[j3] == '=') {
                return Err(TomlError { pos: j3 });
            }
            let (v, j4) = parse_value(s, j3 + 1)?;
            pairs.push((k, v));
            let j5 = skip_ws(s, j4);
            if j5 < s.len() && s[j5] == ',' {
                let j6 = skip_ws(s, j5 + 1);
                if j6 <= j {
                    return Err(TomlError { pos: j6 });
                }
                j = j6;
            } else if j5 < s.len() && s[j5] == '}' {
                return Ok((TomlValue::Table(pairs), j5 + 1));
            } else {
                return Err(TomlError { pos: j5 });
            }
        }
    } else if starts_word(s, i2, "true") {
        proof {
            reveal_strlit("true");
        }
        Ok((TomlValue::Bool(true), i2 + 4))
    } else if starts_word(s, i2, "false") {
        proof {
            reveal_strlit("false");
        }
        Ok((TomlValue::Bool(false), i2 + 5))
    } else {
        parse_number(s, i2)
    }
}

/// Read a whole document.
pub fn parse_toml(text: &str) -> (r: Result<TomlDoc, TomlError>) {
    let s = crate::text::chars_of(text);
    let mut root: Vec<TomlKeyVal> = Vec::new();
    let mut sections: Vec<TomlSection> = Vec::new();
    let mut i = skip_trivia(&s, 0);
    while i < s.len()
        invariant
            i <= s@.len(),
        decreases s@.len() - i,
    {
        let ghost i0 = i;
        if s[i] == '[' {
            let is_array = i + 1 < s.len() && s[i + 1] == '[';
            let start = if is_array {
                i + 2
            } else {
                i + 1
            };
            let start = skip_ws(&s, start);
            let (path, j) = match parse_key_path(&s, start) {
                Ok(p) => p,
                Err(e) => {
                    return Err(e);
                },
            };
            let j = skip_ws(&s, j);
            if !(j < s.len() && s[j] == ']') {
                return Err(TomlError { pos: j });
            }
            let j = if is_array {
                if !(j + 1 < s.len() && s[j + 1] == ']') {
                    return Err(TomlError { pos: j });
                }
                j + 2
            } else {
                j + 1
            };
            sections.push(TomlSection { path, is_array, entries: Vec::new() });
            i = skip_trivia(&s, j);
            proof {
                assert(i > i0);
            }
        } else {
            let (path, j) = match parse_key_path(&s, i) {
                Ok(p) => p,
                Err(e) => {
                    return Err(e);
                },
            };
            let j = skip_ws(&s, j);
            if !(j < s.len() && s[j] == '=') {
                return Err(TomlError { pos: j });
            }
            let (v, j2) = match parse_value(&s, j + 1) {
                Ok(p) => p,
                Err(e) => {
                    return Err(e);
                },
            };
            let kv = TomlKeyVal { path, value: v };
            if sections.len() == 0 {
                root.push(kv);
            } else {
                let last = sections.len() - 1;
                let mut sec = TomlSection {
                    path: Vec::new(),
                    is_array: false,
                    entries: Vec::new(),
                };
                sections.set_and_swap(last, &mut sec);
                sec.entries.push(kv);
                sections.set_and_swap(last, &mut sec);
            }
            i = skip_trivia(&s, j2);
            proof {
                assert(i > i0);
            }
        }
    }
    Ok(TomlDoc { root, sections })
}

} // verus!
