//! Parser for the remote metadata dump and for the version-query
//! responses: a flat array of record objects with fixed field names,
//! in the interchange format the upstream service serves.
//!
//! The grammar is written out as specification functions; every
//! executable parser returns exactly what its specification describes.
//! Popularity scores are decimal numbers in the text and become
//! fixed-point integers in millionths, saturating at the integer limits;
//! exponent notation is not accepted for them. A record object may carry
//! unknown members, which are skipped; `null` stands for an absent
//! description or dependency list.

use vstd::prelude::*;

use crate::record::{record_views, Record, RecordV, DEFAULT_VERSION, NO_DESCRIPTION, POPULARITY_SCALE};

verus! {

/// Interchange whitespace.
pub open spec fn is_ws(c: char) -> bool {
    c == ' ' || c == '\t' || c == '\n' || c == '\r'
}

/// First position at or after `pos` holding no whitespace.
pub open spec fn spec_skip_ws(s: Seq<char>, pos: int) -> int
    decreases s.len() - pos,
{
    if 0 <= pos < s.len() && is_ws(s[pos]) {
        spec_skip_ws(s, pos + 1)
    } else {
        pos
    }
}

/// The character a single-letter escape stands for.
pub open spec fn esc_char(c: char) -> Option<char> {
    if c == '"' {
        Some('"')
    } else if c == '\\' {
        Some('\\')
    } else if c == '/' {
        Some('/')
    } else if c == 'b' {
        Some('\u{0008}')
    } else if c == 'f' {
        Some('\u{000C}')
    } else if c == 'n' {
        Some('\n')
    } else if c == 'r' {
        Some('\r')
    } else if c == 't' {
        Some('\t')
    } else {
        None::<char>
    }
}

/// True when `c` is a hexadecimal digit.
pub open spec fn is_hex_char(c: char) -> bool {
    (48 <= c as u32 && c as u32 <= 57) || (97 <= c as u32 && c as u32 <= 102) || (65 <= c as u32
        && c as u32 <= 70)
}

/// Value of a hexadecimal digit.
pub open spec fn hex_val(c: char) -> int {
    if 48 <= c as u32 && c as u32 <= 57 {
        c as u32 - 48
    } else if 97 <= c as u32 && c as u32 <= 102 {
        c as u32 - 87
    } else {
        c as u32 - 55
    }
}

/// Four hexadecimal digits at `pos`, as a number.
pub open spec fn spec_hex4(s: Seq<char>, pos: int) -> Option<int> {
    if 0 <= pos && pos + 4 <= s.len() && is_hex_char(s[pos]) && is_hex_char(s[pos + 1])
        && is_hex_char(s[pos + 2]) && is_hex_char(s[pos + 3]) {
        Some(hex_val(s[pos]) * 4096 + hex_val(s[pos + 1]) * 256 + hex_val(s[pos + 2]) * 16
            + hex_val(s[pos + 3]))
    } else {
        None::<int>
    }
}

/// Code points that denote a character: anything but the surrogate range
/// and values past the last code point.
pub open spec fn valid_code(v: int) -> bool {
    (0 <= v < 0xD800) || (0xE000 <= v <= 0x10FFFF)
}

/// The character with code `v`.
pub open spec fn char_from_code(v: int) -> char {
    (v as u32) as char
}

/// Relies on char::from_u32: yields the character with that code, and
/// nothing exactly when the code falls in the surrogate range or past
/// the last code point.
pub assume_specification[ char::from_u32 ](i: u32) -> (r: Option<char>)
    ensures
        match r {
            Some(c) => c as u32 == i && valid_code(i as int),
            None => !valid_code(i as int),
        },
;

/// The contents of a quoted string, read from just after the opening
/// quote: plain characters, single-letter escapes, and hexadecimal
/// escapes with surrogate pairs; an unclosed string, an unknown escape,
/// a lone surrogate or a raw control character is a failure.
pub open spec fn spec_str_chars(s: Seq<char>, pos: int, acc: Seq<char>) -> Option<
    (Seq<char>, int),
>
    decreases s.len() - pos,
{
    if pos < 0 || pos >= s.len() {
        None::<(Seq<char>, int)>
    } else if s[pos] == '"' {
        Some((acc, pos + 1))
    } else if s[pos] == '\\' {
        if pos + 1 >= s.len() {
            None::<(Seq<char>, int)>
        } else if s[pos + 1] == 'u' {
            match spec_hex4(s, pos + 2) {
                None => None::<(Seq<char>, int)>,
                Some(v) => if 0xD800 <= v <= 0xDBFF {
                    if pos + 12 <= s.len() && s[pos + 6] == '\\' && s[pos + 7] == 'u' {
                        match spec_hex4(s, pos + 8) {
                            None => None::<(Seq<char>, int)>,
                            Some(lo) => if 0xDC00 <= lo <= 0xDFFF {
                                spec_str_chars(
                                    s,
                                    pos + 12,
                                    acc.push(
                                        char_from_code(
                                            0x10000 + (v - 0xD800) * 0x400 + (lo - 0xDC00),
                                        ),
                                    ),
                                )
                            } else {
                                None::<(Seq<char>, int)>
                            },
                        }
                    } else {
                        None::<(Seq<char>, int)>
                    }
                } else if 0xDC00 <= v <= 0xDFFF {
                    None::<(Seq<char>, int)>
                } else {
                    spec_str_chars(s, pos + 6, acc.push(char_from_code(v)))
                },
            }
        } else {
            match esc_char(s[pos + 1]) {
                None => None::<(Seq<char>, int)>,
                Some(c) => spec_str_chars(s, pos + 2, acc.push(c)),
            }
        }
    } else if (s[pos] as u32) < 0x20 {
        None::<(Seq<char>, int)>
    } else {
        spec_str_chars(s, pos + 1, acc.push(s[pos]))
    }
}

/// A quoted string at `pos`.
pub open spec fn spec_parse_string(s: Seq<char>, pos: int) -> Option<(Seq<char>, int)> {
    if 0 <= pos < s.len() && s[pos] == '"' {
        spec_str_chars(s, pos + 1, Seq::<char>::empty())
    } else {
        None::<(Seq<char>, int)>
    }
}

/// A digit run folded left into `acc`, saturating at the integer limit.
pub open spec fn spec_sat_digits(s: Seq<char>, pos: int, acc: u64) -> (u64, int)
    decreases s.len() - pos,
{
    if 0 <= pos < s.len() && crate::digits::is_digit_char(s[pos]) {
        let d = crate::digits::digit_val(s[pos]);
        let a2: u64 = if acc as int * 10 + d > u64::MAX as int {
            u64::MAX
        } else {
            (acc as int * 10 + d) as u64
        };
        spec_sat_digits(s, pos + 1, a2)
    } else {
        (acc, pos)
    }
}

/// Fraction digits after the point: the first six weighted into
/// millionths, the rest read and discarded.
pub open spec fn spec_frac_digits(s: Seq<char>, pos: int, k: int, acc: int) -> (int, int)
    decreases s.len() - pos,
{
    if 0 <= pos < s.len() && crate::digits::is_digit_char(s[pos]) {
        if k < 6 {
            spec_frac_digits(s, pos + 1, k + 1, acc * 10 + crate::digits::digit_val(s[pos]))
        } else {
            spec_frac_digits(s, pos + 1, k + 1, acc)
        }
    } else {
        (acc * crate::digits::pow10(if k >= 6 {
            0
        } else {
            (6 - k) as nat
        }), pos)
    }
}

/// A popularity score at `pos`: an optional sign, digits, an optional
/// fraction, in millionths saturating at the integer limit; a negative
/// score counts as zero. Exponent notation is a failure.
pub open spec fn spec_parse_popularity(s: Seq<char>, pos: int) -> Option<(u64, int)> {
    if pos < 0 || pos >= s.len() {
        None::<(u64, int)>
    } else {
        let neg = s[pos] == '-';
        let p0 = if neg {
            pos + 1
        } else {
            pos
        };
        if p0 >= s.len() || !crate::digits::is_digit_char(s[p0]) {
            None::<(u64, int)>
        } else {
            let (ip, p1) = spec_sat_digits(s, p0, 0);
            let (fv, p2): (int, int) = if p1 < s.len() && s[p1] == '.' {
                if p1 + 1 < s.len() && crate::digits::is_digit_char(s[p1 + 1]) {
                    spec_frac_digits(s, p1 + 1, 0, 0)
                } else {
                    (-1, p1)
                }
            } else {
                (0, p1)
            };
            if fv < 0 {
                None::<(u64, int)>
            } else if p2 < s.len() && (s[p2] == 'e' || s[p2] == 'E') {
                None::<(u64, int)>
            } else {
                let micros: u64 = if neg {
                    0u64
                } else if ip as int * (POPULARITY_SCALE as int) + fv > u64::MAX as int {
                    u64::MAX
                } else {
                    (ip as int * (POPULARITY_SCALE as int) + fv) as u64
                };
                Some((micros, p2))
            }
        }
    }
}

/// Characters that may appear in a number-shaped token.
pub open spec fn is_num_char(c: char) -> bool {
    crate::digits::is_digit_char(c) || c == '-' || c == '+' || c == '.' || c == 'e' || c == 'E'
}

/// End of a run of number-shaped characters.
pub open spec fn spec_skip_numberish(s: Seq<char>, pos: int) -> int
    decreases s.len() - pos,
{
    if 0 <= pos < s.len() && is_num_char(s[pos]) {
        spec_skip_numberish(s, pos + 1)
    } else {
        pos
    }
}

/// True when the literal `null` stands at `pos`.
pub open spec fn is_null_at(s: Seq<char>, pos: int) -> bool {
    0 <= pos && pos + 4 <= s.len() && s[pos] == 'n' && s[pos + 1] == 'u' && s[pos + 2] == 'l'
        && s[pos + 3] == 'l'
}

/// True when the literal `true` stands at `pos`.
pub open spec fn is_true_at(s: Seq<char>, pos: int) -> bool {
    0 <= pos && pos + 4 <= s.len() && s[pos] == 't' && s[pos + 1] == 'r' && s[pos + 2] == 'u'
        && s[pos + 3] == 'e'
}

/// True when the literal `false` stands at `pos`.
pub open spec fn is_false_at(s: Seq<char>, pos: int) -> bool {
    0 <= pos && pos + 5 <= s.len() && s[pos] == 'f' && s[pos + 1] == 'a' && s[pos + 2] == 'l'
        && s[pos + 3] == 's' && s[pos + 4] == 'e'
}

/// Position just past the value starting at `pos`, whatever its kind;
/// the value itself is not kept.
pub open spec fn spec_skip_value(s: Seq<char>, pos: int) -> Option<int>
    decreases s.len() - pos, 1int,
{
    if pos < 0 || pos >= s.len() {
        None::<int>
    } else if s[pos] == '"' {
        match spec_parse_string(s, pos) {
            None => None::<int>,
            Some((_t, p)) => Some(p),
        }
    } else if s[pos] == '{' {
        spec_skip_object(s, pos)
    } else if s[pos] == '[' {
        spec_skip_array(s, pos)
    } else if is_null_at(s, pos) || is_true_at(s, pos) {
        Some(pos + 4)
    } else if is_false_at(s, pos) {
        Some(pos + 5)
    } else if is_num_char(s[pos]) {
        Some(spec_skip_numberish(s, pos))
    } else {
        None::<int>
    }
}

/// Position just past the object starting at `pos`.
pub open spec fn spec_skip_object(s: Seq<char>, pos: int) -> Option<int>
    decreases s.len() - pos, 0int,
{
    if 0 <= pos < s.len() && s[pos] == '{' {
        spec_skip_members(s, pos + 1, true)
    } else {
        None::<int>
    }
}

/// Position just past the remaining members of an object.
pub open spec fn spec_skip_members(s: Seq<char>, pos: int, first: bool) -> Option<int>
    decreases s.len() - pos, 2int,
{
    if pos < 0 {
        None::<int>
    } else {
        let q = spec_skip_ws(s, pos);
        if q < pos || q >= s.len() {
            None::<int>
        } else if first && s[q] == '}' {
            Some(q + 1)
        } else {
            match spec_parse_string(s, q) {
                None => None::<int>,
                Some((_key, p1)) => if p1 <= q || p1 < 0 {
                    None::<int>
                } else {
                    let c = spec_skip_ws(s, p1);
                    if c < p1 || c >= s.len() || s[c] != ':' {
                        None::<int>
                    } else {
                        let v = spec_skip_ws(s, c + 1);
                        if v < c + 1 || v > s.len() {
                            None::<int>
                        } else {
                            match spec_skip_value(s, v) {
                                None => None::<int>,
                                Some(p2) => if p2 <= v {
                                    None::<int>
                                } else {
                                    let a = spec_skip_ws(s, p2);
                                    if a < p2 || a >= s.len() {
                                        None::<int>
                                    } else if s[a] == ',' {
                                        spec_skip_members(s, a + 1, false)
                                    } else if s[a] == '}' {
                                        Some(a + 1)
                                    } else {
                                        None::<int>
                                    }
                                },
                            }
                        }
                    }
                },
            }
        }
    }
}

/// Position just past the array starting at `pos`.
pub open spec fn spec_skip_array(s: Seq<char>, pos: int) -> Option<int>
    decreases s.len() - pos, 0int,
{
    if 0 <= pos < s.len() && s[pos] == '[' {
        spec_skip_elems(s, pos + 1, true)
    } else {
        None::<int>
    }
}

/// Position just past the remaining elements of an array.
pub open spec fn spec_skip_elems(s: Seq<char>, pos: int, first: bool) -> Option<int>
    decreases s.len() - pos, 2int,
{
    if pos < 0 {
        None::<int>
    } else {
        let q = spec_skip_ws(s, pos);
        if q < pos || q >= s.len() {
            None::<int>
        } else if first && s[q] == ']' {
            Some(q + 1)
        } else {
            match spec_skip_value(s, q) {
                None => None::<int>,
                Some(p) => if p <= q {
                    None::<int>
                } else {
                    let a = spec_skip_ws(s, p);
                    if a < p || a >= s.len() {
                        None::<int>
                    } else if s[a] == ',' {
                        spec_skip_elems(s, a + 1, false)
                    } else if s[a] == ']' {
                        Some(a + 1)
                    } else {
                        None::<int>
                    }
                },
            }
        }
    }
}

/// A record object under construction: which fields its members have
/// supplied so far.
pub ghost struct RecordAcc {
    pub name: Option<Seq<char>>,
    pub version: Option<Seq<char>>,
    pub description: Option<Seq<char>>,
    pub popularity: Option<u64>,
    pub url_path: Option<Seq<char>>,
    pub depends: Option<Seq<Seq<char>>>,
}

/// No field supplied yet.
pub open spec fn empty_acc() -> RecordAcc {
    RecordAcc {
        name: None::<Seq<char>>,
        version: None::<Seq<char>>,
        description: None::<Seq<char>>,
        popularity: None::<u64>,
        url_path: None::<Seq<char>>,
        depends: None::<Seq<Seq<char>>>,
    }
}

/// An array of strings at `pos`, as a dependency list.
pub open spec fn spec_parse_str_array(s: Seq<char>, pos: int) -> Option<(Seq<Seq<char>>, int)> {
    if 0 <= pos < s.len() && s[pos] == '[' {
        let q = spec_skip_ws(s, pos + 1);
        if q < pos + 1 || q >= s.len() {
            None::<(Seq<Seq<char>>, int)>
        } else if s[q] == ']' {
            Some((Seq::<Seq<char>>::empty(), q + 1))
        } else {
            spec_str_elems(s, q, Seq::<Seq<char>>::empty())
        }
    } else {
        None::<(Seq<Seq<char>>, int)>
    }
}

/// The elements of a string array, from the first string onward.
pub open spec fn spec_str_elems(s: Seq<char>, pos: int, acc: Seq<Seq<char>>) -> Option<
    (Seq<Seq<char>>, int),
>
    decreases s.len() - pos,
{
    match spec_parse_string(s, pos) {
        None => None::<(Seq<Seq<char>>, int)>,
        Some((t, p)) => if p <= pos {
            None::<(Seq<Seq<char>>, int)>
        } else {
            let a = spec_skip_ws(s, p);
            if a < p || a >= s.len() {
                None::<(Seq<Seq<char>>, int)>
            } else if s[a] == ',' {
                let q = spec_skip_ws(s, a + 1);
                if q < a + 1 || q > s.len() {
                    None::<(Seq<Seq<char>>, int)>
                } else {
                    spec_str_elems(s, q, acc.push(t))
                }
            } else if s[a] == ']' {
                Some((acc.push(t), a + 1))
            } else {
                None::<(Seq<Seq<char>>, int)>
            }
        },
    }
}

/// One member value, dispatched on the member's key: a known key fills
/// its field (a second occurrence is a failure), an unknown key has its
/// value skipped; `null` leaves description or dependencies defaulted.
pub open spec fn spec_member_value(s: Seq<char>, pos: int, key: Seq<char>, acc: RecordAcc) -> Option<
    (RecordAcc, int),
> {
    if key == "Name"@ {
        if acc.name is Some {
            None::<(RecordAcc, int)>
        } else {
            match spec_parse_string(s, pos) {
                None => None::<(RecordAcc, int)>,
                Some((t, p)) => Some((RecordAcc { name: Some(t), ..acc }, p)),
            }
        }
    } else if key == "Version"@ {
        if acc.version is Some {
            None::<(RecordAcc, int)>
        } else {
            match spec_parse_string(s, pos) {
                None => None::<(RecordAcc, int)>,
                Some((t, p)) => Some((RecordAcc { version: Some(t), ..acc }, p)),
            }
        }
    } else if key == "Description"@ {
        if acc.description is Some {
            None::<(RecordAcc, int)>
        } else if is_null_at(s, pos) {
            Some((RecordAcc { description: Some(NO_DESCRIPTION@), ..acc }, pos + 4))
        } else {
            match spec_parse_string(s, pos) {
                None => None::<(RecordAcc, int)>,
                Some((t, p)) => Some((RecordAcc { description: Some(t), ..acc }, p)),
            }
        }
    } else if key == "Popularity"@ {
        if acc.popularity is Some {
            None::<(RecordAcc, int)>
        } else {
            match spec_parse_popularity(s, pos) {
                None => None::<(RecordAcc, int)>,
                Some((m, p)) => Some((RecordAcc { popularity: Some(m), ..acc }, p)),
            }
        }
    } else if key == "URLPath"@ {
        if acc.url_path is Some {
            None::<(RecordAcc, int)>
        } else {
            match spec_parse_string(s, pos) {
                None => None::<(RecordAcc, int)>,
                Some((t, p)) => Some((RecordAcc { url_path: Some(t), ..acc }, p)),
            }
        }
    } else if key == "Depends"@ {
        if acc.depends is Some {
            None::<(RecordAcc, int)>
        } else if is_null_at(s, pos) {
            Some((RecordAcc { depends: Some(Seq::<Seq<char>>::empty()), ..acc }, pos + 4))
        } else {
            match spec_parse_str_array(s, pos) {
                None => None::<(RecordAcc, int)>,
                Some((ds, p)) => Some((RecordAcc { depends: Some(ds), ..acc }, p)),
            }
        }
    } else {
        match spec_skip_value(s, pos) {
            None => None::<(RecordAcc, int)>,
            Some(p) => Some((acc, p)),
        }
    }
}

/// The members of a record object, from `pos` just after `{` or a comma.
pub open spec fn spec_members(s: Seq<char>, pos: int, acc: RecordAcc, first: bool) -> Option<
    (RecordAcc, int),
>
    decreases s.len() - pos,
{
    if pos < 0 {
        None::<(RecordAcc, int)>
    } else {
        let q = spec_skip_ws(s, pos);
        if q < pos || q >= s.len() {
            None::<(RecordAcc, int)>
        } else if first && s[q] == '}' {
            Some((acc, q + 1))
        } else {
            match spec_parse_string(s, q) {
                None => None::<(RecordAcc, int)>,
                Some((key, p1)) => if p1 <= q {
                    None::<(RecordAcc, int)>
                } else {
                    let c = spec_skip_ws(s, p1);
                    if c < p1 || c >= s.len() || s[c] != ':' {
                        None::<(RecordAcc, int)>
                    } else {
                        let v = spec_skip_ws(s, c + 1);
                        if v < c + 1 {
                            None::<(RecordAcc, int)>
                        } else {
                            match spec_member_value(s, v, key, acc) {
                                None => None::<(RecordAcc, int)>,
                                Some((acc2, p2)) => if p2 <= v {
                                    None::<(RecordAcc, int)>
                                } else {
                                    let a = spec_skip_ws(s, p2);
                                    if a < p2 || a >= s.len() {
                                        None::<(RecordAcc, int)>
                                    } else if s[a] == ',' {
                                        spec_members(s, a + 1, acc2, false)
                                    } else if s[a] == '}' {
                                        Some((acc2, a + 1))
                                    } else {
                                        None::<(RecordAcc, int)>
                                    }
                                },
                            }
                        }
                    }
                },
            }
        }
    }
}

/// A full record object at `pos`: a name is required and must be
/// non-empty; every other absent field takes its documented default.
pub open spec fn spec_parse_record(s: Seq<char>, pos: int) -> Option<(RecordV, int)> {
    if 0 <= pos < s.len() && s[pos] == '{' {
        match spec_members(s, pos + 1, empty_acc(), true) {
            None => None::<(RecordV, int)>,
            Some((acc, p)) => match acc.name {
                None => None::<(RecordV, int)>,
                Some(n) => if n.len() == 0 {
                    None::<(RecordV, int)>
                } else {
                    Some(
                        (
                            RecordV {
                                name: n,
                                version: match acc.version {
                                    Some(v) => v,
                                    None => DEFAULT_VERSION@,
                                },
                                description: match acc.description {
                                    Some(d) => d,
                                    None => NO_DESCRIPTION@,
                                },
                                popularity: match acc.popularity {
                                    Some(m) => m,
                                    None => 0u64,
                                },
                                url_path: match acc.url_path {
                                    Some(u) => u,
                                    None => Seq::<char>::empty(),
                                },
                                depends: match acc.depends {
                                    Some(ds) => ds,
                                    None => Seq::<Seq<char>>::empty(),
                                },
                            },
                            p,
                        ),
                    )
                },
            },
        }
    } else {
        None::<(RecordV, int)>
    }
}

/// The elements of a record array, from the first record onward.
pub open spec fn spec_rec_elems(s: Seq<char>, pos: int, acc: Seq<RecordV>) -> Option<
    (Seq<RecordV>, int),
>
    decreases s.len() - pos,
{
    match spec_parse_record(s, pos) {
        None => None::<(Seq<RecordV>, int)>,
        Some((r, p)) => if p <= pos {
            None::<(Seq<RecordV>, int)>
        } else {
            let a = spec_skip_ws(s, p);
            if a < p || a >= s.len() {
                None::<(Seq<RecordV>, int)>
            } else if s[a] == ',' {
                let q = spec_skip_ws(s, a + 1);
                if q < a + 1 || q > s.len() {
                    None::<(Seq<RecordV>, int)>
                } else {
                    spec_rec_elems(s, q, acc.push(r))
                }
            } else if s[a] == ']' {
                Some((acc.push(r), a + 1))
            } else {
                None::<(Seq<RecordV>, int)>
            }
        },
    }
}

/// An array of record objects at `pos`.
pub open spec fn spec_parse_records_value(s: Seq<char>, pos: int) -> Option<(Seq<RecordV>, int)> {
    if 0 <= pos < s.len() && s[pos] == '[' {
        let q = spec_skip_ws(s, pos + 1);
        if q < pos + 1 || q >= s.len() {
            None::<(Seq<RecordV>, int)>
        } else if s[q] == ']' {
            Some((Seq::<RecordV>::empty(), q + 1))
        } else {
            spec_rec_elems(s, q, Seq::<RecordV>::empty())
        }
    } else {
        None::<(Seq<RecordV>, int)>
    }
}

/// The whole metadata dump: one array of record objects and nothing
/// else but surrounding whitespace.
pub open spec fn spec_parse_dump(s: Seq<char>) -> Option<Seq<RecordV>> {
    let q = spec_skip_ws(s, 0);
    if q < 0 || q >= s.len() {
        None::<Seq<RecordV>>
    } else {
        match spec_parse_records_value(s, q) {
            None => None::<Seq<RecordV>>,
            Some((rs, p)) => if spec_skip_ws(s, p) == s.len() {
                Some(rs)
            } else {
                None::<Seq<RecordV>>
            },
        }
    }
}

/// The members of a version-query response object: the member named
/// `results` carries an array of record objects (a second occurrence is
/// a failure); every other member's value is skipped.
pub open spec fn spec_resp_members(
    s: Seq<char>,
    pos: int,
    found: Option<Seq<RecordV>>,
    first: bool,
) -> Option<(Option<Seq<RecordV>>, int)>
    decreases s.len() - pos,
{
    if pos < 0 {
        None::<(Option<Seq<RecordV>>, int)>
    } else {
        let q = spec_skip_ws(s, pos);
        if q < pos || q >= s.len() {
            None::<(Option<Seq<RecordV>>, int)>
        } else if first && s[q] == '}' {
            Some((found, q + 1))
        } else {
            match spec_parse_string(s, q) {
                None => None::<(Option<Seq<RecordV>>, int)>,
                Some((key, p1)) => if p1 <= q {
                    None::<(Option<Seq<RecordV>>, int)>
                } else {
                    let c = spec_skip_ws(s, p1);
                    if c < p1 || c >= s.len() || s[c] != ':' {
                        None::<(Option<Seq<RecordV>>, int)>
                    } else {
                        let v = spec_skip_ws(s, c + 1);
                        if v < c + 1 {
                            None::<(Option<Seq<RecordV>>, int)>
                        } else {
                            let step: Option<(Option<Seq<RecordV>>, int)> = if key == "results"@ {
                                if found is Some {
                                    None::<(Option<Seq<RecordV>>, int)>
                                } else {
                                    match spec_parse_records_value(s, v) {
                                        None => None::<(Option<Seq<RecordV>>, int)>,
                                        Some((rs, p2)) => Some((Some(rs), p2)),
                                    }
                                }
                            } else {
                                match spec_skip_value(s, v) {
                                    None => None::<(Option<Seq<RecordV>>, int)>,
                                    Some(p2) => Some((found, p2)),
                                }
                            };
                            match step {
                                None => None::<(Option<Seq<RecordV>>, int)>,
                                Some((found2, p2)) => if p2 <= v {
                                    None::<(Option<Seq<RecordV>>, int)>
                                } else {
                                    let a = spec_skip_ws(s, p2);
                                    if a < p2 || a >= s.len() {
                                        None::<(Option<Seq<RecordV>>, int)>
                                    } else if s[a] == ',' {
                                        spec_resp_members(s, a + 1, found2, false)
                                    } else if s[a] == '}' {
                                        Some((found2, a + 1))
                                    } else {
                                        None::<(Option<Seq<RecordV>>, int)>
                                    }
                                },
                            }
                        }
                    }
                },
            }
        }
    }
}

/// The whole version-query response: one object whose `results` member
/// holds the matching records, and nothing else but whitespace.
pub open spec fn spec_parse_response(s: Seq<char>) -> Option<Seq<RecordV>> {
    let q = spec_skip_ws(s, 0);
    if q < 0 || q >= s.len() || s[q] != '{' {
        None::<Seq<RecordV>>
    } else {
        match spec_resp_members(s, q + 1, None::<Seq<RecordV>>, true) {
            None => None::<Seq<RecordV>>,
            Some((found, p)) => if spec_skip_ws(s, p) == s.len() {
                match found {
                    None => None::<Seq<RecordV>>,
                    Some(rs) => Some(rs),
                }
            } else {
                None::<Seq<RecordV>>
            },
        }
    }
}

/// Whitespace test.
fn is_ws_exec(c: char) -> (r: bool)
    ensures
        r == is_ws(c),
{
    c == ' ' || c == '\t' || c == '\n' || c == '\r'
}

/// Moves past whitespace.
fn skip_ws_at(s: &Vec<char>, pos: usize) -> (q: usize)
    requires
        pos <= s@.len(),
    ensures
        q as int == spec_skip_ws(s@, pos as int),
        pos <= q <= s@.len(),
{
    let mut i: usize = pos;
    while i < s.len() && is_ws_exec(s[i])
        invariant
            pos <= i <= s@.len(),
            spec_skip_ws(s@, pos as int) == spec_skip_ws(s@, i as int),
        decreases s@.len() - i,
    {
        i = i + 1;
    }
    i
}

/// Hexadecimal digit test.
fn is_hex_exec(c: char) -> (r: bool)
    ensures
        r == is_hex_char(c),
{
    let u = c as u32;
    (48 <= u && u <= 57) || (97 <= u && u <= 102) || (65 <= u && u <= 70)
}

/// Value of a hexadecimal digit.
fn hex_val_exec(c: char) -> (r: u32)
    requires
        is_hex_char(c),
    ensures
        r as int == hex_val(c),
        r < 16,
{
    let u = c as u32;
    if 48 <= u && u <= 57 {
        u - 48
    } else if 97 <= u && u <= 102 {
        u - 87
    } else {
        u - 55
    }
}

/// Reads four hexadecimal digits.
fn hex4_at(s: &Vec<char>, pos: usize) -> (r: Option<u32>)
    requires
        pos <= s@.len(),
    ensures
        match r {
            Some(v) => spec_hex4(s@, pos as int) == Some(v as int) && v <= 0xFFFF,
            None => spec_hex4(s@, pos as int) is None,
        },
{
    if s.len() >= 4 && pos <= s.len() - 4 && is_hex_exec(s[pos]) && is_hex_exec(s[pos + 1]) && is_hex_exec(
        s[pos + 2],
    ) && is_hex_exec(s[pos + 3]) {
        let v = hex_val_exec(s[pos]) * 4096 + hex_val_exec(s[pos + 1]) * 256 + hex_val_exec(
            s[pos + 2],
        ) * 16 + hex_val_exec(s[pos + 3]);
        Some(v)
    } else {
        None
    }
}

/// The single-letter escapes.
fn esc_char_exec(c: char) -> (r: Option<char>)
    ensures
        r == esc_char(c),
{
    if c == '"' {
        Some('"')
    } else if c == '\\' {
        Some('\\')
    } else if c == '/' {
        Some('/')
    } else if c == 'b' {
        Some('\u{0008}')
    } else if c == 'f' {
        Some('\u{000C}')
    } else if c == 'n' {
        Some('\n')
    } else if c == 'r' {
        Some('\r')
    } else if c == 't' {
        Some('\t')
    } else {
        None
    }
}

/// The character with a known-valid code.
fn char_of_code(code: u32) -> (c: char)
    requires
        valid_code(code as int),
    ensures
        c == char_from_code(code as int),
        c as u32 == code,
{
    match char::from_u32(code) {
        Some(c) => {
            proof {
                vstd::utf8::char_u32_cast(c, code);
            }
            c
        },
        None => {
            proof {
                assert(false);
            }
            ' '
        },
    }
}

/// Reads a quoted string, exactly as [`spec_parse_string`] describes.
fn parse_string_at(s: &Vec<char>, pos: usize) -> (r: Option<(Vec<char>, usize)>)
    requires
        pos <= s@.len(),
    ensures
        match r {
            Some((t, p)) => spec_parse_string(s@, pos as int) == Some((t@, p as int)) && pos < p
                <= s@.len(),
            None => spec_parse_string(s@, pos as int) is None,
        },
{
    if pos >= s.len() || s[pos] != '"' {
        return None;
    }
    let mut acc: Vec<char> = Vec::new();
    let mut i: usize = pos + 1;
    while i < s.len()
        invariant
            pos < i <= s@.len(),
            spec_parse_string(s@, pos as int) == spec_str_chars(s@, i as int, acc@),
        decreases s@.len() - i,
    {
        let c = s[i];
        if c == '"' {
            return Some((acc, i + 1));
        } else if c == '\\' {
            if i + 1 >= s.len() {
                return None;
            }
            let e = s[i + 1];
            if e == 'u' {
                let v = match hex4_at(s, i + 2) {
                    None => {
                        return None;
                    },
                    Some(v) => v,
                };
                if 0xD800 <= v && v <= 0xDBFF {
                    if s.len() >= 12 && i <= s.len() - 12 && s[i + 6] == '\\' && s[i + 7] == 'u' {
                        let lo = match hex4_at(s, i + 8) {
                            None => {
                                return None;
                            },
                            Some(lo) => lo,
                        };
                        if 0xDC00 <= lo && lo <= 0xDFFF {
                            let code: u32 = 0x10000 + (v - 0xD800) * 0x400 + (lo - 0xDC00);
                            let c2 = char_of_code(code);
                            acc.push(c2);
                            i = i + 12;
                        } else {
                            return None;
                        }
                    } else {
                        return None;
                    }
                } else if 0xDC00 <= v && v <= 0xDFFF {
                    return None;
                } else {
                    let c2 = char_of_code(v);
                    acc.push(c2);
                    i = i + 6;
                }
            } else {
                match esc_char_exec(e) {
                    None => {
                        return None;
                    },
                    Some(c2) => {
                        acc.push(c2);
                        i = i + 2;
                    },
                }
            }
        } else if (c as u32) < 0x20 {
            return None;
        } else {
            acc.push(c);
            i = i + 1;
        }
    }
    None
}

/// Reads a popularity score, exactly as [`spec_parse_popularity`]
/// describes.
fn parse_popularity_at(s: &Vec<char>, pos: usize) -> (r: Option<(u64, usize)>)
    requires
        pos <= s@.len(),
    ensures
        match r {
            Some((m, p)) => spec_parse_popularity(s@, pos as int) == Some((m, p as int)) && pos < p
                <= s@.len(),
            None => spec_parse_popularity(s@, pos as int) is None,
        },
{
    if pos >= s.len() {
        return None;
    }
    let neg = s[pos] == '-';
    let p0: usize = if neg {
        pos + 1
    } else {
        pos
    };
    if p0 >= s.len() || !crate::digits::is_digit(s[p0]) {
        return None;
    }
    let mut ip: u64 = 0;
    let mut i: usize = p0;
    while i < s.len() && crate::digits::is_digit(s[i])
        invariant
            p0 <= i <= s@.len(),
            spec_sat_digits(s@, p0 as int, 0) == spec_sat_digits(s@, i as int, ip),
        decreases s@.len() - i,
    {
        let d = (s[i] as u32 - 48) as u64;
        ip = match ip.checked_mul(10) {
            Some(m) => match m.checked_add(d) {
                Some(a) => a,
                None => u64::MAX,
            },
            None => u64::MAX,
        };
        i = i + 1;
    }
    let p1 = i;
    proof {
        assert(spec_sat_digits(s@, p0 as int, 0) == (ip, p1 as int));
    }
    let mut fv: u64 = 0;
    let mut p2 = p1;
    if p1 < s.len() && s[p1] == '.' {
        if p1 + 1 >= s.len() || !crate::digits::is_digit(s[p1 + 1]) {
            return None;
        }
        let mut j: usize = p1 + 1;
        let mut k: usize = 0;
        while j < s.len() && crate::digits::is_digit(s[j])
            invariant
                p1 + 1 <= j <= s@.len(),
                k == j - (p1 + 1),
                k >= 6 ==> fv < 1000000,
                k < 6 ==> (fv as int) < crate::digits::pow10(k as nat),
                spec_frac_digits(s@, p1 as int + 1, 0, 0) == spec_frac_digits(
                    s@,
                    j as int,
                    k as int,
                    fv as int,
                ),
            decreases s@.len() - j,
        {
            proof {
                assert(crate::digits::pow10(0) == 1);
                assert(crate::digits::pow10(1) == 10);
                assert(crate::digits::pow10(2) == 100);
                assert(crate::digits::pow10(3) == 1000);
                assert(crate::digits::pow10(4) == 10000);
                assert(crate::digits::pow10(5) == 100000);
                assert(crate::digits::pow10(6) == 1000000);
            }
            if k < 6 {
                let d = (s[j] as u32 - 48) as u64;
                fv = fv * 10 + d;
            }
            j = j + 1;
            k = k + 1;
        }
        proof {
            assert(crate::digits::pow10(0) == 1);
            assert(crate::digits::pow10(1) == 10);
            assert(crate::digits::pow10(2) == 100);
            assert(crate::digits::pow10(3) == 1000);
            assert(crate::digits::pow10(4) == 10000);
            assert(crate::digits::pow10(5) == 100000);
            assert(crate::digits::pow10(6) == 1000000);
        }
        let scaled: u64 = if k >= 6 {
            fv
        } else if k == 5 {
            fv * 10
        } else if k == 4 {
            fv * 100
        } else if k == 3 {
            fv * 1000
        } else if k == 2 {
            fv * 10000
        } else if k == 1 {
            fv * 100000
        } else {
            fv * 1000000
        };
        proof {
            if k >= 6 {
                assert(spec_frac_digits(s@, j as int, k as int, fv as int) == (
                    fv as int * crate::digits::pow10(0),
                    j as int,
                ));
            } else {
                assert(spec_frac_digits(s@, j as int, k as int, fv as int) == (
                    fv as int * crate::digits::pow10((6 - k) as nat),
                    j as int,
                ));
                if k == 5 {
                    assert(crate::digits::pow10((6 - k) as nat) == 10);
                } else if k == 4 {
                    assert(crate::digits::pow10((6 - k) as nat) == 100);
                } else if k == 3 {
                    assert(crate::digits::pow10((6 - k) as nat) == 1000);
                } else if k == 2 {
                    assert(crate::digits::pow10((6 - k) as nat) == 10000);
                } else if k == 1 {
                    assert(crate::digits::pow10((6 - k) as nat) == 100000);
                } else {
                    assert(crate::digits::pow10((6 - k) as nat) == 1000000);
                }
            }
            assert(spec_frac_digits(s@, p1 as int + 1, 0, 0) == (scaled as int, j as int));
        }
        fv = scaled;
        p2 = j;
    }
    if p2 < s.len() && (s[p2] == 'e' || s[p2] == 'E') {
        return None;
    }
    let micros: u64 = if neg {
        0
    } else {
        match ip.checked_mul(POPULARITY_SCALE) {
            Some(m) => match m.checked_add(fv) {
                Some(a) => a,
                None => u64::MAX,
            },
            None => u64::MAX,
        }
    };
    Some((micros, p2))
}

/// Number-shaped character test.
fn is_num_char_exec(c: char) -> (r: bool)
    ensures
        r == is_num_char(c),
{
    crate::digits::is_digit(c) || c == '-' || c == '+' || c == '.' || c == 'e' || c == 'E'
}

/// Moves past a run of number-shaped characters.
fn skip_numberish_at(s: &Vec<char>, pos: usize) -> (q: usize)
    requires
        pos <= s@.len(),
    ensures
        q as int == spec_skip_numberish(s@, pos as int),
        pos <= q <= s@.len(),
{
    let mut i: usize = pos;
    while i < s.len() && is_num_char_exec(s[i])
        invariant
            pos <= i <= s@.len(),
            spec_skip_numberish(s@, pos as int) == spec_skip_numberish(s@, i as int),
        decreases s@.len() - i,
    {
        i = i + 1;
    }
    i
}

/// Moves past one value, exactly as [`spec_skip_value`] describes.
fn skip_value_at(s: &Vec<char>, pos: usize) -> (r: Option<usize>)
    requires
        pos <= s@.len(),
    ensures
        match r {
            Some(p) => spec_skip_value(s@, pos as int) == Some(p as int) && pos < p <= s@.len(),
            None => spec_skip_value(s@, pos as int) is None,
        },
    decreases s@.len() - pos, 1int,
{
    if pos >= s.len() {
        return None;
    }
    let c = s[pos];
    if c == '"' {
        match parse_string_at(s, pos) {
            None => None,
            Some((_t, p)) => Some(p),
        }
    } else if c == '{' {
        skip_object_at(s, pos)
    } else if c == '[' {
        skip_array_at(s, pos)
    } else if (s.len() >= 4 && pos <= s.len() - 4 && c == 'n' && s[pos + 1] == 'u' && s[pos + 2]
        == 'l' && s[pos + 3] == 'l') || (s.len() >= 4 && pos <= s.len() - 4 && c == 't' && s[pos
        + 1] == 'r' && s[pos + 2] == 'u' && s[pos + 3] == 'e') {
        Some(pos + 4)
    } else if s.len() >= 5 && pos <= s.len() - 5 && c == 'f' && s[pos + 1] == 'a' && s[pos + 2]
        == 'l' && s[pos + 3] == 's' && s[pos + 4] == 'e' {
        Some(pos + 5)
    } else if is_num_char_exec(c) {
        let q = skip_numberish_at(s, pos + 1);
        proof {
            assert(spec_skip_numberish(s@, pos as int) == spec_skip_numberish(s@, pos as int + 1));
        }
        Some(q)
    } else {
        None
    }
}

/// Moves past one object, exactly as [`spec_skip_object`] describes.
fn skip_object_at(s: &Vec<char>, pos: usize) -> (r: Option<usize>)
    requires
        pos <= s@.len(),
    ensures
        match r {
            Some(p) => spec_skip_object(s@, pos as int) == Some(p as int) && pos < p <= s@.len(),
            None => spec_skip_object(s@, pos as int) is None,
        },
    decreases s@.len() - pos, 0int,
{
    if pos >= s.len() || s[pos] != '{' {
        return None;
    }
    skip_members_at(s, pos + 1, true)
}

/// Moves past the remaining members of an object, exactly as
/// [`spec_skip_members`] describes.
fn skip_members_at(s: &Vec<char>, pos: usize, first: bool) -> (r: Option<usize>)
    requires
        pos <= s@.len(),
    ensures
        match r {
            Some(p) => spec_skip_members(s@, pos as int, first) == Some(p as int) && pos <= p
                <= s@.len(),
            None => spec_skip_members(s@, pos as int, first) is None,
        },
    decreases s@.len() - pos, 2int,
{
    let q = skip_ws_at(s, pos);
    if q >= s.len() {
        return None;
    }
    if first && s[q] == '}' {
        return Some(q + 1);
    }
    let (_key, p1) = match parse_string_at(s, q) {
        None => {
            return None;
        },
        Some(x) => x,
    };
    let c = skip_ws_at(s, p1);
    if c >= s.len() || s[c] != ':' {
        return None;
    }
    let v = skip_ws_at(s, c + 1);
    let p2 = match skip_value_at(s, v) {
        None => {
            return None;
        },
        Some(p2) => p2,
    };
    let a = skip_ws_at(s, p2);
    if a >= s.len() {
        return None;
    }
    if s[a] == ',' {
        skip_members_at(s, a + 1, false)
    } else if s[a] == '}' {
        Some(a + 1)
    } else {
        None
    }
}

/// Moves past one array, exactly as [`spec_skip_array`] describes.
fn skip_array_at(s: &Vec<char>, pos: usize) -> (r: Option<usize>)
    requires
        pos <= s@.len(),
    ensures
        match r {
            Some(p) => spec_skip_array(s@, pos as int) == Some(p as int) && pos < p <= s@.len(),
            None => spec_skip_array(s@, pos as int) is None,
        },
    decreases s@.len() - pos, 0int,
{
    if pos >= s.len() || s[pos] != '[' {
        return None;
    }
    skip_elems_at(s, pos + 1, true)
}

/// Moves past the remaining elements of an array, exactly as
/// [`spec_skip_elems`] describes.
fn skip_elems_at(s: &Vec<char>, pos: usize, first: bool) -> (r: Option<usize>)
    requires
        pos <= s@.len(),
    ensures
        match r {
            Some(p) => spec_skip_elems(s@, pos as int, first) == Some(p as int) && pos <= p
                <= s@.len(),
            None => spec_skip_elems(s@, pos as int, first) is None,
        },
    decreases s@.len() - pos, 2int,
{
    let q = skip_ws_at(s, pos);
    if q >= s.len() {
        return None;
    }
    if first && s[q] == ']' {
        return Some(q + 1);
    }
    let p = match skip_value_at(s, q) {
        None => {
            return None;
        },
        Some(p) => p,
    };
    let a = skip_ws_at(s, p);
    if a >= s.len() {
        return None;
    }
    if s[a] == ',' {
        skip_elems_at(s, a + 1, false)
    } else if s[a] == ']' {
        Some(a + 1)
    } else {
        None
    }
}

/// A record object under construction, as executable state.
struct FieldsAcc {
    name: Option<String>,
    version: Option<String>,
    description: Option<String>,
    popularity: Option<u64>,
    url_path: Option<String>,
    depends: Option<Vec<String>>,
}

impl View for FieldsAcc {
    type V = RecordAcc;

    closed spec fn view(&self) -> RecordAcc {
        RecordAcc {
            name: match self.name {
                Some(s) => Some(s@),
                None => None::<Seq<char>>,
            },
            version: match self.version {
                Some(s) => Some(s@),
                None => None::<Seq<char>>,
            },
            description: match self.description {
                Some(s) => Some(s@),
                None => None::<Seq<char>>,
            },
            popularity: self.popularity,
            url_path: match self.url_path {
                Some(s) => Some(s@),
                None => None::<Seq<char>>,
            },
            depends: match self.depends {
                Some(ds) => Some(crate::codec::string_views(ds@)),
                None => None::<Seq<Seq<char>>>,
            },
        }
    }
}

/// Reads a dependency array, exactly as [`spec_parse_str_array`]
/// describes.
fn parse_str_array_at(s: &Vec<char>, pos: usize) -> (r: Option<(Vec<String>, usize)>)
    requires
        pos <= s@.len(),
    ensures
        match r {
            Some((ds, p)) => spec_parse_str_array(s@, pos as int) == Some(
                (crate::codec::string_views(ds@), p as int),
            ) && pos < p <= s@.len(),
            None => spec_parse_str_array(s@, pos as int) is None,
        },
{
    if pos >= s.len() || s[pos] != '[' {
        return None;
    }
    let q0 = skip_ws_at(s, pos + 1);
    if q0 >= s.len() {
        return None;
    }
    if s[q0] == ']' {
        let empty: Vec<String> = Vec::new();
        proof {
            assert(crate::codec::string_views(empty@) =~= Seq::<Seq<char>>::empty());
        }
        return Some((empty, q0 + 1));
    }
    let mut acc: Vec<String> = Vec::new();
    proof {
        assert(crate::codec::string_views(acc@) =~= Seq::<Seq<char>>::empty());
    }
    let mut i: usize = q0;
    loop
        invariant
            pos < q0 <= i <= s@.len(),
            spec_parse_str_array(s@, pos as int) == spec_str_elems(
                s@,
                i as int,
                crate::codec::string_views(acc@),
            ),
        decreases s@.len() - i,
    {
        let (t, p) = match parse_string_at(s, i) {
            None => {
                return None;
            },
            Some(x) => x,
        };
        let a = skip_ws_at(s, p);
        if a >= s.len() {
            return None;
        }
        let ghost old_views = crate::codec::string_views(acc@);
        let ghost tv = t@;
        acc.push(crate::text::chars_to_string(&t));
        proof {
            assert(crate::codec::string_views(acc@) =~= old_views.push(tv));
        }
        if s[a] == ',' {
            let q = skip_ws_at(s, a + 1);
            i = q;
        } else if s[a] == ']' {
            proof {
                assert(spec_str_elems(s@, i as int, old_views) == Some(
                    (old_views.push(tv), a as int + 1),
                ));
            }
            return Some((acc, a + 1));
        } else {
            return None;
        }
    }
}

/// Reads one member value, exactly as [`spec_member_value`] describes.
fn member_value_at(s: &Vec<char>, pos: usize, key: &Vec<char>, acc: FieldsAcc) -> (r: Option<
    (FieldsAcc, usize),
>)
    requires
        pos <= s@.len(),
    ensures
        match r {
            Some((a2, p)) => spec_member_value(s@, pos as int, key@, acc@) == Some(
                (a2@, p as int),
            ) && pos < p <= s@.len(),
            None => spec_member_value(s@, pos as int, key@, acc@) is None,
        },
{
    let is_null: bool = s.len() >= 4 && pos <= s.len() - 4 && s[pos] == 'n' && s[pos + 1] == 'u'
        && s[pos + 2] == 'l' && s[pos + 3] == 'l';
    proof {
        assert(is_null == is_null_at(s@, pos as int));
    }
    if crate::text::chars_eq_str(key, "Name") {
        if acc.name.is_some() {
            return None;
        }
        match parse_string_at(s, pos) {
            None => None,
            Some((t, p)) => Some(
                (FieldsAcc { name: Some(crate::text::chars_to_string(&t)), ..acc }, p),
            ),
        }
    } else if crate::text::chars_eq_str(key, "Version") {
        if acc.version.is_some() {
            return None;
        }
        match parse_string_at(s, pos) {
            None => None,
            Some((t, p)) => Some(
                (FieldsAcc { version: Some(crate::text::chars_to_string(&t)), ..acc }, p),
            ),
        }
    } else if crate::text::chars_eq_str(key, "Description") {
        if acc.description.is_some() {
            return None;
        }
        if is_null {
            return Some(
                (FieldsAcc { description: Some(String::from_str(NO_DESCRIPTION)), ..acc }, pos + 4),
            );
        }
        match parse_string_at(s, pos) {
            None => None,
            Some((t, p)) => Some(
                (FieldsAcc { description: Some(crate::text::chars_to_string(&t)), ..acc }, p),
            ),
        }
    } else if crate::text::chars_eq_str(key, "Popularity") {
        if acc.popularity.is_some() {
            return None;
        }
        match parse_popularity_at(s, pos) {
            None => None,
            Some((m, p)) => Some((FieldsAcc { popularity: Some(m), ..acc }, p)),
        }
    } else if crate::text::chars_eq_str(key, "URLPath") {
        if acc.url_path.is_some() {
            return None;
        }
        match parse_string_at(s, pos) {
            None => None,
            Some((t, p)) => Some(
                (FieldsAcc { url_path: Some(crate::text::chars_to_string(&t)), ..acc }, p),
            ),
        }
    } else if crate::text::chars_eq_str(key, "Depends") {
        if acc.depends.is_some() {
            return None;
        }
        if is_null {
            let empty: Vec<String> = Vec::new();
            proof {
                assert(crate::codec::string_views(empty@) =~= Seq::<Seq<char>>::empty());
            }
            return Some((FieldsAcc { depends: Some(empty), ..acc }, pos + 4));
        }
        match parse_str_array_at(s, pos) {
            None => None,
            Some((ds, p)) => Some((FieldsAcc { depends: Some(ds), ..acc }, p)),
        }
    } else {
        match skip_value_at(s, pos) {
            None => None,
            Some(p) => Some((acc, p)),
        }
    }
}

/// Reads the members of a record object, exactly as [`spec_members`]
/// describes.
fn members_at(s: &Vec<char>, pos: usize, facc: FieldsAcc, first: bool) -> (r: Option<
    (FieldsAcc, usize),
>)
    requires
        pos <= s@.len(),
    ensures
        match r {
            Some((a2, p)) => spec_members(s@, pos as int, facc@, first) == Some((a2@, p as int))
                && pos < p <= s@.len(),
            None => spec_members(s@, pos as int, facc@, first) is None,
        },
    decreases s@.len() - pos,
{
    let q = skip_ws_at(s, pos);
    if q >= s.len() {
        return None;
    }
    if first && s[q] == '}' {
        return Some((facc, q + 1));
    }
    let (key, p1) = match parse_string_at(s, q) {
        None => {
            return None;
        },
        Some(x) => x,
    };
    let c = skip_ws_at(s, p1);
    if c >= s.len() || s[c] != ':' {
        return None;
    }
    let v = skip_ws_at(s, c + 1);
    let (facc2, p2) = match member_value_at(s, v, &key, facc) {
        None => {
            return None;
        },
        Some(x) => x,
    };
    let a = skip_ws_at(s, p2);
    if a >= s.len() {
        return None;
    }
    if s[a] == ',' {
        members_at(s, a + 1, facc2, false)
    } else if s[a] == '}' {
        Some((facc2, a + 1))
    } else {
        None
    }
}

/// Reads one record object, exactly as [`spec_parse_record`] describes.
fn parse_record_at(s: &Vec<char>, pos: usize) -> (r: Option<(Record, usize)>)
    requires
        pos <= s@.len(),
    ensures
        match r {
            Some((rec, p)) => spec_parse_record(s@, pos as int) == Some((rec@, p as int))
                && rec.wf() && pos < p <= s@.len(),
            None => spec_parse_record(s@, pos as int) is None,
        },
{
    if pos >= s.len() || s[pos] != '{' {
        return None;
    }
    let facc = FieldsAcc {
        name: None,
        version: None,
        description: None,
        popularity: None,
        url_path: None,
        depends: None,
    };
    proof {
        assert(facc@ == empty_acc());
    }
    let (facc2, pend) = match members_at(s, pos + 1, facc, true) {
        None => {
            return None;
        },
        Some(x) => x,
    };
    let name = match facc2.name {
        None => {
            return None;
        },
        Some(n) => n,
    };
    if name.as_str().is_empty() {
        return None;
    }
    let ghost facc2v = facc2@;
    let rec = Record {
        name,
        version: match facc2.version {
            Some(v) => v,
            None => String::from_str(DEFAULT_VERSION),
        },
        description: match facc2.description {
            Some(d) => d,
            None => String::from_str(NO_DESCRIPTION),
        },
        popularity: match facc2.popularity {
            Some(m) => m,
            None => 0,
        },
        url_path: match facc2.url_path {
            Some(u) => u,
            None => String::new(),
        },
        depends: match facc2.depends {
            Some(ds) => ds,
            None => Vec::new(),
        },
    };
    proof {
        assert(rec@.depends =~= (match facc2v.depends {
            Some(ds) => ds,
            None => Seq::<Seq<char>>::empty(),
        }));
    }
    Some((rec, pend))
}

/// Reads an array of record objects, exactly as
/// [`spec_parse_records_value`] describes; every record is well-formed.
fn parse_records_value_at(s: &Vec<char>, pos: usize) -> (r: Option<(Vec<Record>, usize)>)
    requires
        pos <= s@.len(),
    ensures
        match r {
            Some((rs, p)) => {
                &&& spec_parse_records_value(s@, pos as int) == Some(
                    (record_views(rs@), p as int),
                )
                &&& pos < p <= s@.len()
                &&& forall|i: int| 0 <= i < rs@.len() ==> (#[trigger] rs@[i]).name@.len() > 0
            },
            None => spec_parse_records_value(s@, pos as int) is None,
        },
{
    if pos >= s.len() || s[pos] != '[' {
        return None;
    }
    let q0 = skip_ws_at(s, pos + 1);
    if q0 >= s.len() {
        return None;
    }
    if s[q0] == ']' {
        let empty: Vec<Record> = Vec::new();
        proof {
            assert(record_views(empty@) =~= Seq::<RecordV>::empty());
        }
        return Some((empty, q0 + 1));
    }
    let mut acc: Vec<Record> = Vec::new();
    proof {
        assert(record_views(acc@) =~= Seq::<RecordV>::empty());
    }
    let mut i: usize = q0;
    loop
        invariant
            pos < q0 <= i <= s@.len(),
            spec_parse_records_value(s@, pos as int) == spec_rec_elems(
                s@,
                i as int,
                record_views(acc@),
            ),
            forall|t: int| 0 <= t < acc@.len() ==> (#[trigger] acc@[t]).name@.len() > 0,
        decreases s@.len() - i,
    {
        let (rec, p) = match parse_record_at(s, i) {
            None => {
                return None;
            },
            Some(x) => x,
        };
        let a = skip_ws_at(s, p);
        if a >= s.len() {
            return None;
        }
        let ghost old_views = record_views(acc@);
        let ghost rv = rec@;
        acc.push(rec);
        proof {
            assert(record_views(acc@) =~= old_views.push(rv));
        }
        if s[a] == ',' {
            let q = skip_ws_at(s, a + 1);
            i = q;
        } else if s[a] == ']' {
            proof {
                assert(spec_rec_elems(s@, i as int, old_views) == Some(
                    (old_views.push(rv), a as int + 1),
                ));
            }
            return Some((acc, a + 1));
        } else {
            return None;
        }
    }
}

/// Parses the whole metadata dump, exactly as [`spec_parse_dump`]
/// describes: the flat record list of the repository, or nothing when
/// the text is not a valid serialized record list.
pub fn parse_records(text: &str) -> (r: Option<Vec<Record>>)
    ensures
        match r {
            Some(rs) => {
                &&& spec_parse_dump(text@) == Some(record_views(rs@))
                &&& forall|i: int| 0 <= i < rs@.len() ==> (#[trigger] rs@[i]).name@.len() > 0
            },
            None => spec_parse_dump(text@) is None,
        },
{
    let cs = crate::text::str_to_chars(text);
    let q = skip_ws_at(&cs, 0);
    if q >= cs.len() {
        return None;
    }
    let (rs, p) = match parse_records_value_at(&cs, q) {
        None => {
            return None;
        },
        Some(x) => x,
    };
    let a = skip_ws_at(&cs, p);
    if a == cs.len() {
        Some(rs)
    } else {
        None
    }
}

/// Parses a version-query response, exactly as [`spec_parse_response`]
/// describes: the records under its `results` member, or nothing when
/// the text is not a valid response document.
pub fn parse_version_response(text: &str) -> (r: Option<Vec<Record>>)
    ensures
        match r {
            Some(rs) => {
                &&& spec_parse_response(text@) == Some(record_views(rs@))
                &&& forall|i: int| 0 <= i < rs@.len() ==> (#[trigger] rs@[i]).name@.len() > 0
            },
            None => spec_parse_response(text@) is None,
        },
{
    let cs = crate::text::str_to_chars(text);
    let q = skip_ws_at(&cs, 0);
    if q >= cs.len() || cs[q] != '{' {
        return None;
    }
    let (found, pend) = match resp_members_at(&cs, q + 1, None, true) {
        None => {
            return None;
        },
        Some(x) => x,
    };
    let a = skip_ws_at(&cs, pend);
    if a != cs.len() {
        return None;
    }
    match found {
        None => None,
        Some(rs) => Some(rs),
    }
}

/// Reads the members of a version-query response object, exactly as
/// [`spec_resp_members`] describes.
fn resp_members_at(s: &Vec<char>, pos: usize, found: Option<Vec<Record>>, first: bool) -> (r:
    Option<(Option<Vec<Record>>, usize)>)
    requires
        pos <= s@.len(),
        (match found {
            Some(rs) => forall|t: int| 0 <= t < rs@.len() ==> (#[trigger] rs@[t]).name@.len() > 0,
            None => true,
        }),
    ensures
        match r {
            Some((f2, p)) => {
                &&& spec_resp_members(
                    s@,
                    pos as int,
                    match found {
                        Some(rs) => Some(record_views(rs@)),
                        None => None::<Seq<RecordV>>,
                    },
                    first,
                ) == Some(
                    (
                        match f2 {
                            Some(rs2) => Some(record_views(rs2@)),
                            None => None::<Seq<RecordV>>,
                        },
                        p as int,
                    ),
                )
                &&& pos < p <= s@.len()
                &&& (match f2 {
                    Some(rs2) => forall|t: int|
                        0 <= t < rs2@.len() ==> (#[trigger] rs2@[t]).name@.len() > 0,
                    None => true,
                })
            },
            None => spec_resp_members(
                s@,
                pos as int,
                match found {
                    Some(rs) => Some(record_views(rs@)),
                    None => None::<Seq<RecordV>>,
                },
                first,
            ) is None,
        },
    decreases s@.len() - pos,
{
    let q = skip_ws_at(s, pos);
    if q >= s.len() {
        return None;
    }
    if first && s[q] == '}' {
        return Some((found, q + 1));
    }
    let (key, p1) = match parse_string_at(s, q) {
        None => {
            return None;
        },
        Some(x) => x,
    };
    let c = skip_ws_at(s, p1);
    if c >= s.len() || s[c] != ':' {
        return None;
    }
    let v = skip_ws_at(s, c + 1);
    if crate::text::chars_eq_str(&key, "results") {
        if found.is_some() {
            return None;
        }
        let (rs, p2) = match parse_records_value_at(s, v) {
            None => {
                return None;
            },
            Some(x) => x,
        };
        let a = skip_ws_at(s, p2);
        if a >= s.len() {
            return None;
        }
        if s[a] == ',' {
            resp_members_at(s, a + 1, Some(rs), false)
        } else if s[a] == '}' {
            Some((Some(rs), a + 1))
        } else {
            None
        }
    } else {
        let p2 = match skip_value_at(s, v) {
            None => {
                return None;
            },
            Some(x) => x,
        };
        let a = skip_ws_at(s, p2);
        if a >= s.len() {
            return None;
        }
        if s[a] == ',' {
            resp_members_at(s, a + 1, found, false)
        } else if s[a] == '}' {
            Some((found, a + 1))
        } else {
            None
        }
    }
}

} // verus!
