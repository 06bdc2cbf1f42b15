//! Parsing of the on-disk document text back into a manifest.
//!
//! The parser recognizes exactly the canonical document form that the
//! serializer writes: the fixed key order and layout of
//! [`crate::ser::ser_manifest`], with every data field read back as data.
//! The spec functions in this module define the accepted text completely;
//! the executable parsers return exactly what the spec functions say. The
//! module also holds the decimal and boolean readers used for command
//! arguments.

use vstd::prelude::*;
use crate::model::FileRef;
use crate::model::FileRefModel;
use crate::model::Loader;
use crate::model::LoaderModel;
use crate::model::Manifest;
use crate::model::ManifestModel;
use crate::ser::chars_to_string;
use vstd::string::StrSliceExecFns;

verus! {

/// The value of a decimal digit character, or `-1` for any other character.
pub open spec fn digit_val(c: char) -> int {
    if c == '0' {
        0
    } else if c == '1' {
        1
    } else if c == '2' {
        2
    } else if c == '3' {
        3
    } else if c == '4' {
        4
    } else if c == '5' {
        5
    } else if c == '6' {
        6
    } else if c == '7' {
        7
    } else if c == '8' {
        8
    } else if c == '9' {
        9
    } else {
        -1
    }
}

/// The value of a lowercase hexadecimal digit character, or `-1`.
pub open spec fn hex_val(c: char) -> int {
    if digit_val(c) >= 0 {
        digit_val(c)
    } else if c == 'a' {
        10
    } else if c == 'b' {
        11
    } else if c == 'c' {
        12
    } else if c == 'd' {
        13
    } else if c == 'e' {
        14
    } else if c == 'f' {
        15
    } else {
        -1
    }
}

/// Whether the text `lit` stands in `s` at position `i`.
pub open spec fn lit_at(s: Seq<char>, i: int, lit: Seq<char>) -> bool {
    &&& 0 <= i
    &&& i + lit.len() <= s.len()
    &&& s.subrange(i, i + lit.len() as int) == lit
}

/// Consume the exact text `lit` at position `i`.
pub open spec fn p_lit(s: Seq<char>, i: int, lit: Seq<char>) -> Option<int> {
    if lit_at(s, i, lit) {
        Some(i + lit.len() as int)
    } else {
        None
    }
}

/// Consume a JSON string body up to and including the closing quote,
/// starting just past the opening quote, with `acc` the characters already
/// decoded. Backslash escapes for quote, backslash, and `\u00XX` with
/// `XX < 20` (hexadecimal) are decoded; a raw control character, any other
/// escape, or a missing closing quote is an error.
pub open spec fn p_str_body(s: Seq<char>, i: int, acc: Seq<char>) -> Option<(Seq<char>, int)>
    decreases s.len() - i,
{
    if i < 0 || i >= s.len() {
        None
    } else if s[i] == '"' {
        Some((acc, i + 1))
    } else if s[i] == '\\' {
        if i + 2 <= s.len() {
            if s[i + 1] == '"' {
                p_str_body(s, i + 2, acc.push('"'))
            } else if s[i + 1] == '\\' {
                p_str_body(s, i + 2, acc.push('\\'))
            } else if s[i + 1] == 'u' && i + 6 <= s.len() {
                if hex_val(s[i + 2]) >= 0 && hex_val(s[i + 3]) >= 0 && hex_val(s[i + 4]) >= 0
                    && hex_val(s[i + 5]) >= 0 {
                    let code = hex_val(s[i + 2]) * 4096 + hex_val(s[i + 3]) * 256 + hex_val(
                        s[i + 4],
                    ) * 16 + hex_val(s[i + 5]);
                    if code < 32 {
                        p_str_body(s, i + 6, acc.push((code as u8) as char))
                    } else {
                        None
                    }
                } else {
                    None
                }
            } else {
                None
            }
        } else {
            None
        }
    } else if (s[i] as u32) < 32 {
        None
    } else {
        p_str_body(s, i + 1, acc.push(s[i]))
    }
}

/// Consume a quoted JSON string at position `i`.
pub open spec fn p_qstr(s: Seq<char>, i: int) -> Option<(Seq<char>, int)> {
    if 0 <= i < s.len() && s[i] == '"' {
        p_str_body(s, i + 1, Seq::empty())
    } else {
        None
    }
}

/// Consume decimal digits greedily from position `i`, with `acc` the value
/// of the digits already read; a value beyond the 64-bit range is an error.
pub open spec fn p_digits(s: Seq<char>, i: int, acc: u64) -> Option<(u64, int)>
    decreases s.len() - i,
{
    if i < 0 {
        None
    } else if i >= s.len() || digit_val(s[i]) < 0 {
        Some((acc, i))
    } else if acc * 10 + digit_val(s[i]) > 0xffff_ffff_ffff_ffffu64 {
        None
    } else {
        p_digits(s, i + 1, (acc * 10 + digit_val(s[i])) as u64)
    }
}

/// Consume an unsigned decimal number at position `i`: at least one digit,
/// and a value within the 64-bit range.
pub open spec fn p_num(s: Seq<char>, i: int) -> Option<(u64, int)> {
    if 0 <= i < s.len() && digit_val(s[i]) >= 0 {
        p_digits(s, i, 0)
    } else {
        None
    }
}

/// Consume `true` or `false` at position `i`.
pub open spec fn p_bool(s: Seq<char>, i: int) -> Option<(bool, int)> {
    if lit_at(s, i, "true"@) {
        Some((true, i + "true"@.len() as int))
    } else if lit_at(s, i, "false"@) {
        Some((false, i + "false"@.len() as int))
    } else {
        None
    }
}

/// Consume one loader entry at position `i`.
pub open spec fn p_loader(s: Seq<char>, i: int) -> Option<(LoaderModel, int)> {
    match p_lit(s, i, "{\"id\": "@) {
        None => None,
        Some(j1) => match p_qstr(s, j1) {
            None => None,
            Some((id, j2)) => match p_lit(s, j2, ", \"primary\": "@) {
                None => None,
                Some(j3) => match p_bool(s, j3) {
                    None => None,
                    Some((primary, j4)) => match p_lit(s, j4, "}"@) {
                        None => None,
                        Some(j5) => Some(((LoaderModel { id, primary }), j5)),
                    },
                },
            },
        },
    }
}

/// Consume the loader entries after the first one, and the closing bracket,
/// with `acc` the entries already read. The recursion steps only to a
/// strictly later position, which also bounds it.
pub open spec fn p_loaders_tail(s: Seq<char>, i: int, acc: Seq<LoaderModel>) -> Option<
    (Seq<LoaderModel>, int),
>
    decreases s.len() - i,
{
    if i < 0 || i >= s.len() {
        None
    } else if s[i] == ']' {
        Some((acc, i + 1))
    } else {
        match p_lit(s, i, ", "@) {
            None => None,
            Some(j) => match p_loader(s, j) {
                None => None,
                Some((l, j2)) => if i < j2 <= s.len() {
                    p_loaders_tail(s, j2, acc.push(l))
                } else {
                    None
                },
            },
        }
    }
}

/// Consume a loader list from just past the opening bracket up to and
/// including the closing bracket.
pub open spec fn p_loaders(s: Seq<char>, i: int) -> Option<(Seq<LoaderModel>, int)> {
    if 0 <= i < s.len() && s[i] == ']' {
        Some((Seq::empty(), i + 1))
    } else {
        match p_loader(s, i) {
            None => None,
            Some((l, j)) => p_loaders_tail(s, j, seq![l]),
        }
    }
}

/// Consume one file-reference entry at position `i`.
pub open spec fn p_file(s: Seq<char>, i: int) -> Option<(FileRefModel, int)> {
    match p_lit(s, i, "{\"projectID\": "@) {
        None => None,
        Some(j1) => match p_num(s, j1) {
            None => None,
            Some((project_id, j2)) => match p_lit(s, j2, ", \"fileID\": "@) {
                None => None,
                Some(j3) => match p_num(s, j3) {
                    None => None,
                    Some((file_id, j4)) => match p_lit(s, j4, ", \"required\": "@) {
                        None => None,
                        Some(j5) => match p_bool(s, j5) {
                            None => None,
                            Some((required, j6)) => match p_lit(s, j6, "}"@) {
                                None => None,
                                Some(j7) => Some(
                                    ((FileRefModel { project_id, file_id, required }), j7),
                                ),
                            },
                        },
                    },
                },
            },
        },
    }
}

/// Consume the file entries after the first one, and the closing bracket.
pub open spec fn p_files_tail(s: Seq<char>, i: int, acc: Seq<FileRefModel>) -> Option<
    (Seq<FileRefModel>, int),
>
    decreases s.len() - i,
{
    if i < 0 || i >= s.len() {
        None
    } else if s[i] == ']' {
        Some((acc, i + 1))
    } else {
        match p_lit(s, i, ", "@) {
            None => None,
            Some(j) => match p_file(s, j) {
                None => None,
                Some((f, j2)) => if i < j2 <= s.len() {
                    p_files_tail(s, j2, acc.push(f))
                } else {
                    None
                },
            },
        }
    }
}

/// Consume a file list from just past the opening bracket up to and
/// including the closing bracket.
pub open spec fn p_files(s: Seq<char>, i: int) -> Option<(Seq<FileRefModel>, int)> {
    if 0 <= i < s.len() && s[i] == ']' {
        Some((Seq::empty(), i + 1))
    } else {
        match p_file(s, i) {
            None => None,
            Some((f, j)) => p_files_tail(s, j, seq![f]),
        }
    }
}

/// Parse the rest of a document from the author field on, the fields
/// before it already in hand.
pub open spec fn p_manifest_tail2(
    s: Seq<char>,
    i: int,
    mc_version: Seq<char>,
    mod_loaders: Seq<LoaderModel>,
    manifest_type: Seq<char>,
    mv: u64,
    name: Seq<char>,
    version: Seq<char>,
) -> Option<ManifestModel> {
    match p_lit(s, i, ",\n  \"author\": "@) {
        None => None,
        Some(i13) => match p_qstr(s, i13) {
            None => None,
            Some((author, i14)) => match p_lit(s, i14, ",\n  \"files\": ["@) {
                None => None,
                Some(i15) => match p_files(s, i15) {
                    None => None,
                    Some((files, i16)) => match p_lit(s, i16, ",\n  \"overrides\": "@) {
                        None => None,
                        Some(i17) => match p_qstr(s, i17) {
                            None => None,
                            Some((overrides, i18)) => match p_lit(s, i18, "\n}"@) {
                                None => None,
                                Some(i19) => if i19 == s.len() {
                                    Some(
                                        (ManifestModel {
                                            mc_version,
                                            mod_loaders,
                                            manifest_type,
                                            manifest_version: mv as u8,
                                            name,
                                            version,
                                            author,
                                            files,
                                            overrides,
                                        }),
                                    )
                                } else {
                                    None
                                },
                            },
                        },
                    },
                },
            },
        },
    }
}

/// Parse the rest of a document from the document kind on, the platform
/// version and the loader list already in hand.
pub open spec fn p_manifest_tail(
    s: Seq<char>,
    i: int,
    mc_version: Seq<char>,
    mod_loaders: Seq<LoaderModel>,
) -> Option<ManifestModel> {
    match p_lit(s, i, "\n  },\n  \"manifestType\": "@) {
        None => None,
        Some(i5) => match p_qstr(s, i5) {
            None => None,
            Some((manifest_type, i6)) => match p_lit(s, i6, ",\n  \"manifestVersion\": "@) {
                None => None,
                Some(i7) => match p_num(s, i7) {
                    None => None,
                    Some((mv, i8)) => if mv > 255 {
                        None
                    } else {
                        match p_lit(s, i8, ",\n  \"name\": "@) {
                            None => None,
                            Some(i9) => match p_qstr(s, i9) {
                                None => None,
                                Some((name, i10)) => match p_lit(s, i10, ",\n  \"version\": "@) {
                                    None => None,
                                    Some(i11) => match p_qstr(s, i11) {
                                        None => None,
                                        Some((version, i12)) => p_manifest_tail2(
                                            s,
                                            i12,
                                            mc_version,
                                            mod_loaders,
                                            manifest_type,
                                            mv,
                                            name,
                                            version,
                                        ),
                                    },
                                },
                            },
                        }
                    },
                },
            },
        },
    }
}

/// Parse a complete document: the fixed schema of
/// [`crate::ser::ser_manifest`], read field by field, with nothing allowed
/// after the closing brace. A format version beyond 255 is an error.
pub open spec fn p_manifest(s: Seq<char>) -> Option<ManifestModel> {
    match p_lit(s, 0, "{\n  \"minecraft\": {\n    \"version\": "@) {
        None => None,
        Some(i1) => match p_qstr(s, i1) {
            None => None,
            Some((mc_version, i2)) => match p_lit(s, i2, ",\n    \"modLoaders\": ["@) {
                None => None,
                Some(i3) => match p_loaders(s, i3) {
                    None => None,
                    Some((mod_loaders, i4)) => p_manifest_tail(s, i4, mc_version, mod_loaders),
                },
            },
        },
    }
}

/// The value of a decimal digit character, as executable code; `-1` for any
/// other character.
fn digit_val_of(c: char) -> (v: i32)
    ensures
        v as int == digit_val(c),
{
    if c == '0' {
        0
    } else if c == '1' {
        1
    } else if c == '2' {
        2
    } else if c == '3' {
        3
    } else if c == '4' {
        4
    } else if c == '5' {
        5
    } else if c == '6' {
        6
    } else if c == '7' {
        7
    } else if c == '8' {
        8
    } else if c == '9' {
        9
    } else {
        -1
    }
}

/// The value of a lowercase hexadecimal digit character, as executable code.
fn hex_val_of(c: char) -> (v: i32)
    ensures
        v as int == hex_val(c),
{
    let d = digit_val_of(c);
    if d >= 0 {
        d
    } else if c == 'a' {
        10
    } else if c == 'b' {
        11
    } else if c == 'c' {
        12
    } else if c == 'd' {
        13
    } else if c == 'e' {
        14
    } else if c == 'f' {
        15
    } else {
        -1
    }
}

/// Consume the exact text `lit` at position `i`, as executable code.
fn parse_lit(s: &str, i: usize, lit: &str) -> (r: Option<usize>)
    ensures
        (match r {
            Some(j) => p_lit(s@, i as int, lit@) == Some(j as int) && j == i + lit@.len()
                && j <= s@.len(),
            None => p_lit(s@, i as int, lit@) is None,
        }),
{
    let n = s.unicode_len();
    let m = lit.unicode_len();
    if i > n || n - i < m {
        proof {
            assert(!lit_at(s@, i as int, lit@));
        }
        return None;
    }
    let mut k: usize = 0;
    while k < m
        invariant
            n == s@.len(),
            m == lit@.len(),
            i + m <= n,
            k <= m,
            forall|t: int| 0 <= t < k ==> s@[i + t] == lit@[t],
        decreases m - k,
    {
        if s.get_char(i + k) != lit.get_char(k) {
            proof {
                assert(s@.subrange(i as int, i + m) != lit@) by {
                    assert(s@.subrange(i as int, i + m)[k as int] == s@[i + k]);
                }
                assert(!lit_at(s@, i as int, lit@));
            }
            return None;
        }
        k = k + 1;
    }
    proof {
        assert(s@.subrange(i as int, i + m) =~= lit@);
        assert(lit_at(s@, i as int, lit@));
    }
    Some(i + m)
}

/// Consume a quoted JSON string at position `i`, as executable code.
fn parse_qstr(s: &str, i: usize) -> (r: Option<(Vec<char>, usize)>)
    ensures
        (match r {
            Some(v) => p_qstr(s@, i as int) == Some((v.0@, v.1 as int)) && i < v.1 <= s@.len(),
            None => p_qstr(s@, i as int) is None,
        }),
{
    let n = s.unicode_len();
    if i >= n || s.get_char(i) != '"' {
        return None;
    }
    let mut acc: Vec<char> = Vec::new();
    let mut k: usize = i + 1;
    while k < n
        invariant
            n == s@.len(),
            i + 1 <= k <= n,
            i < n && s@[i as int] == '"',
            p_str_body(s@, i + 1, Seq::empty()) == p_str_body(s@, k as int, acc@),
        decreases n - k,
    {
        let c = s.get_char(k);
        if c == '"' {
            proof {
                assert(p_str_body(s@, k as int, acc@) == Some((acc@, k + 1 as int)));
            }
            return Some((acc, k + 1));
        } else if c == '\\' {
            if n - k < 2 {
                return None;
            }
            let e = s.get_char(k + 1);
            if e == '"' {
                acc.push('"');
                k = k + 2;
            } else if e == '\\' {
                acc.push('\\');
                k = k + 2;
            } else if e == 'u' {
                if n - k < 6 {
                    return None;
                }
                let v1 = hex_val_of(s.get_char(k + 2));
                let v2 = hex_val_of(s.get_char(k + 3));
                let v3 = hex_val_of(s.get_char(k + 4));
                let v4 = hex_val_of(s.get_char(k + 5));
                if v1 < 0 || v2 < 0 || v3 < 0 || v4 < 0 {
                    return None;
                }
                let code: i32 = v1 * 4096 + v2 * 256 + v3 * 16 + v4;
                if code >= 32 {
                    return None;
                }
                acc.push((code as u8) as char);
                k = k + 6;
            } else {
                return None;
            }
        } else {
            if (c as u32) < 32 {
                return None;
            }
            acc.push(c);
            k = k + 1;
        }
    }
    None
}

/// Consume an unsigned decimal number at position `i`, as executable code.
fn parse_num(s: &str, i: usize) -> (r: Option<(u64, usize)>)
    ensures
        (match r {
            Some(v) => p_num(s@, i as int) == Some((v.0, v.1 as int)) && i < v.1 <= s@.len(),
            None => p_num(s@, i as int) is None,
        }),
{
    let n = s.unicode_len();
    if i >= n || digit_val_of(s.get_char(i)) < 0 {
        return None;
    }
    let mut acc: u64 = 0;
    let mut k: usize = i;
    while k < n
        invariant
            n == s@.len(),
            i <= k <= n,
            k > i || acc == 0,
            p_digits(s@, i as int, 0) == p_digits(s@, k as int, acc),
            0 <= i < n && digit_val(s@[i as int]) >= 0,
        decreases n - k,
    {
        let d = digit_val_of(s.get_char(k));
        if d < 0 {
            return Some((acc, k));
        }
        let t: u128 = (acc as u128) * 10 + (d as u128);
        if t > 0xffff_ffff_ffff_ffffu128 {
            return None;
        }
        acc = t as u64;
        k = k + 1;
    }
    Some((acc, k))
}

/// Consume `true` or `false` at position `i`, as executable code.
fn parse_bool(s: &str, i: usize) -> (r: Option<(bool, usize)>)
    ensures
        (match r {
            Some(v) => p_bool(s@, i as int) == Some((v.0, v.1 as int)) && i < v.1 <= s@.len(),
            None => p_bool(s@, i as int) is None,
        }),
{
    proof {
        reveal_strlit("true");
        reveal_strlit("false");
    }
    match parse_lit(s, i, "true") {
        Some(j) => Some((true, j)),
        None => match parse_lit(s, i, "false") {
            Some(j) => Some((false, j)),
            None => None,
        },
    }
}

/// Consume one loader entry at position `i`, as executable code.
fn parse_loader(s: &str, i: usize) -> (r: Option<(Loader, usize)>)
    ensures
        (match r {
            Some(v) => p_loader(s@, i as int) == Some((v.0@, v.1 as int)) && i < v.1 <= s@.len(),
            None => p_loader(s@, i as int) is None,
        }),
{
    proof {
        reveal_strlit("{\"id\": ");
    }
    let j1 = match parse_lit(s, i, "{\"id\": ") {
        None => {
            return None;
        },
        Some(j) => j,
    };
    let (id, j2) = match parse_qstr(s, j1) {
        None => {
            return None;
        },
        Some(v) => v,
    };
    let j3 = match parse_lit(s, j2, ", \"primary\": ") {
        None => {
            return None;
        },
        Some(j) => j,
    };
    let (primary, j4) = match parse_bool(s, j3) {
        None => {
            return None;
        },
        Some(v) => v,
    };
    let j5 = match parse_lit(s, j4, "}") {
        None => {
            return None;
        },
        Some(j) => j,
    };
    Some((Loader { id: chars_to_string(id), primary }, j5))
}

/// Consume a loader list at position `i`, as executable code.
fn parse_loaders(s: &str, i: usize) -> (r: Option<(Vec<Loader>, usize)>)
    ensures
        (match r {
            Some(v) => p_loaders(s@, i as int) == Some(
                (v.0@.map_values(|l: Loader| l@), v.1 as int),
            ) && i < v.1 <= s@.len(),
            None => p_loaders(s@, i as int) is None,
        }),
{
    let n = s.unicode_len();
    if i < n && s.get_char(i) == ']' {
        let empty: Vec<Loader> = Vec::new();
        proof {
            assert(empty@.map_values(|l: Loader| l@) =~= Seq::<LoaderModel>::empty());
        }
        return Some((empty, i + 1));
    }
    let (first, j) = match parse_loader(s, i) {
        None => {
            return None;
        },
        Some(v) => v,
    };
    let mut ls: Vec<Loader> = Vec::new();
    ls.push(first);
    let mut k: usize = j;
    proof {
        assert(ls@.map_values(|l: Loader| l@) =~= seq![first@]);
    }
    while k < n
        invariant
            n == s@.len(),
            i < k <= n,
            p_loaders(s@, i as int) == p_loaders_tail(s@, k as int, ls@.map_values(|l: Loader| l@)),
        decreases n - k,
    {
        if s.get_char(k) == ']' {
            return Some((ls, k + 1));
        }
        proof {
            reveal_strlit(", ");
        }
        let j1 = match parse_lit(s, k, ", ") {
            None => {
                return None;
            },
            Some(v) => v,
        };
        let (l, j2) = match parse_loader(s, j1) {
            None => {
                return None;
            },
            Some(v) => v,
        };
        proof {
            assert(ls@.push(l).map_values(|x: Loader| x@) =~= ls@.map_values(
                |x: Loader| x@,
            ).push(l@));
        }
        ls.push(l);
        k = j2;
    }
    None
}

/// Consume one file-reference entry at position `i`, as executable code.
fn parse_file(s: &str, i: usize) -> (r: Option<(FileRef, usize)>)
    ensures
        (match r {
            Some(v) => p_file(s@, i as int) == Some((v.0@, v.1 as int)) && i < v.1 <= s@.len(),
            None => p_file(s@, i as int) is None,
        }),
{
    proof {
        reveal_strlit("{\"projectID\": ");
    }
    let j1 = match parse_lit(s, i, "{\"projectID\": ") {
        None => {
            return None;
        },
        Some(j) => j,
    };
    let (project_id, j2) = match parse_num(s, j1) {
        None => {
            return None;
        },
        Some(v) => v,
    };
    let j3 = match parse_lit(s, j2, ", \"fileID\": ") {
        None => {
            return None;
        },
        Some(j) => j,
    };
    let (file_id, j4) = match parse_num(s, j3) {
        None => {
            return None;
        },
        Some(v) => v,
    };
    let j5 = match parse_lit(s, j4, ", \"required\": ") {
        None => {
            return None;
        },
        Some(j) => j,
    };
    let (required, j6) = match parse_bool(s, j5) {
        None => {
            return None;
        },
        Some(v) => v,
    };
    let j7 = match parse_lit(s, j6, "}") {
        None => {
            return None;
        },
        Some(j) => j,
    };
    Some((FileRef { project_id, file_id, required }, j7))
}

/// Consume a file list at position `i`, as executable code.
fn parse_files(s: &str, i: usize) -> (r: Option<(Vec<FileRef>, usize)>)
    ensures
        (match r {
            Some(v) => p_files(s@, i as int) == Some(
                (v.0@.map_values(|f: FileRef| f@), v.1 as int),
            ) && i < v.1 <= s@.len(),
            None => p_files(s@, i as int) is None,
        }),
{
    let n = s.unicode_len();
    if i < n && s.get_char(i) == ']' {
        let empty: Vec<FileRef> = Vec::new();
        proof {
            assert(empty@.map_values(|f: FileRef| f@) =~= Seq::<FileRefModel>::empty());
        }
        return Some((empty, i + 1));
    }
    let (first, j) = match parse_file(s, i) {
        None => {
            return None;
        },
        Some(v) => v,
    };
    let mut fs: Vec<FileRef> = Vec::new();
    fs.push(first);
    let mut k: usize = j;
    proof {
        assert(fs@.map_values(|f: FileRef| f@) =~= seq![first@]);
    }
    while k < n
        invariant
            n == s@.len(),
            i < k <= n,
            p_files(s@, i as int) == p_files_tail(s@, k as int, fs@.map_values(|f: FileRef| f@)),
        decreases n - k,
    {
        if s.get_char(k) == ']' {
            return Some((fs, k + 1));
        }
        proof {
            reveal_strlit(", ");
        }
        let j1 = match parse_lit(s, k, ", ") {
            None => {
                return None;
            },
            Some(v) => v,
        };
        let (f, j2) = match parse_file(s, j1) {
            None => {
                return None;
            },
            Some(v) => v,
        };
        proof {
            assert(fs@.push(f).map_values(|x: FileRef| x@) =~= fs@.map_values(
                |x: FileRef| x@,
            ).push(f@));
        }
        fs.push(f);
        k = j2;
    }
    None
}

impl Manifest {
    /// Parse a document text into a manifest. The result is exactly what the
    /// spec function [`p_manifest`] says of the text: `Some` with every
    /// field read back, on precisely the canonical documents; `None` on
    /// every other text.
    pub fn from_json(s: &str) -> (r: Option<Manifest>)
        ensures
            (match r {
                Some(m) => p_manifest(s@) == Some(m@),
                None => p_manifest(s@) is None,
            }),
    {
        let i1 = match parse_lit(s, 0, "{\n  \"minecraft\": {\n    \"version\": ") {
            None => {
                return None;
            },
            Some(j) => j,
        };
        let (mc_version, i2) = match parse_qstr(s, i1) {
            None => {
                return None;
            },
            Some(v) => v,
        };
        let i3 = match parse_lit(s, i2, ",\n    \"modLoaders\": [") {
            None => {
                return None;
            },
            Some(j) => j,
        };
        let (mod_loaders, i4) = match parse_loaders(s, i3) {
            None => {
                return None;
            },
            Some(v) => v,
        };
        let i5 = match parse_lit(s, i4, "\n  },\n  \"manifestType\": ") {
            None => {
                return None;
            },
            Some(j) => j,
        };
        let (manifest_type, i6) = match parse_qstr(s, i5) {
            None => {
                return None;
            },
            Some(v) => v,
        };
        let i7 = match parse_lit(s, i6, ",\n  \"manifestVersion\": ") {
            None => {
                return None;
            },
            Some(j) => j,
        };
        let (mv, i8) = match parse_num(s, i7) {
            None => {
                return None;
            },
            Some(v) => v,
        };
        if mv > 255 {
            return None;
        }
        let i9 = match parse_lit(s, i8, ",\n  \"name\": ") {
            None => {
                return None;
            },
            Some(j) => j,
        };
        let (name, i10) = match parse_qstr(s, i9) {
            None => {
                return None;
            },
            Some(v) => v,
        };
        let i11 = match parse_lit(s, i10, ",\n  \"version\": ") {
            None => {
                return None;
            },
            Some(j) => j,
        };
        let (version, i12) = match parse_qstr(s, i11) {
            None => {
                return None;
            },
            Some(v) => v,
        };
        let i13 = match parse_lit(s, i12, ",\n  \"author\": ") {
            None => {
                return None;
            },
            Some(j) => j,
        };
        let (author, i14) = match parse_qstr(s, i13) {
            None => {
                return None;
            },
            Some(v) => v,
        };
        let i15 = match parse_lit(s, i14, ",\n  \"files\": [") {
            None => {
                return None;
            },
            Some(j) => j,
        };
        let (files, i16) = match parse_files(s, i15) {
            None => {
                return None;
            },
            Some(v) => v,
        };
        let i17 = match parse_lit(s, i16, ",\n  \"overrides\": ") {
            None => {
                return None;
            },
            Some(j) => j,
        };
        let (overrides, i18) = match parse_qstr(s, i17) {
            None => {
                return None;
            },
            Some(v) => v,
        };
        let i19 = match parse_lit(s, i18, "\n}") {
            None => {
                return None;
            },
            Some(j) => j,
        };
        let n = s.unicode_len();
        if i19 != n {
            return None;
        }
        let m = Manifest {
            mc_version: chars_to_string(mc_version),
            mod_loaders,
            manifest_type: chars_to_string(manifest_type),
            manifest_version: mv as u8,
            name: chars_to_string(name),
            version: chars_to_string(version),
            author: chars_to_string(author),
            files,
            overrides: chars_to_string(overrides),
        };
        Some(m)
    }
}

/// The 64-bit value that a whole text denotes in decimal, if it is one or
/// more decimal digits with a value in range, and nothing else.
pub open spec fn u64_text(s: Seq<char>) -> Option<u64> {
    match p_num(s, 0) {
        None => None,
        Some((v, j)) => if j == s.len() {
            Some(v)
        } else {
            None
        },
    }
}

/// Read a command argument as an unsigned 64-bit integer: the whole text
/// must be decimal digits and the value must fit; anything else is refused.
pub fn parse_u64_arg(s: &str) -> (r: Option<u64>)
    ensures
        r == u64_text(s@),
{
    let n = s.unicode_len();
    match parse_num(s, 0) {
        None => None,
        Some(v) => if v.1 == n {
            Some(v.0)
        } else {
            None
        },
    }
}

/// The boolean that a whole text denotes, if it is exactly `true` or
/// `false`.
pub open spec fn bool_text(s: Seq<char>) -> Option<bool> {
    match p_bool(s, 0) {
        None => None,
        Some((b, j)) => if j == s.len() {
            Some(b)
        } else {
            None
        },
    }
}

/// Read a command argument as a boolean: the whole text must be exactly
/// `true` or `false`; anything else is refused.
pub fn parse_bool_arg(s: &str) -> (r: Option<bool>)
    ensures
        r == bool_text(s@),
{
    let n = s.unicode_len();
    match parse_bool(s, 0) {
        None => None,
        Some(v) => if v.1 == n {
            Some(v.0)
        } else {
            None
        },
    }
}

} // verus!
