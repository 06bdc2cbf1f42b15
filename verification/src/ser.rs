//! Serialization of a manifest to the fixed on-disk JSON schema.
//!
//! The exact document text is defined by the spec function [`ser_manifest`]:
//! one JSON object with the platform version and the loader list nested under
//! a `minecraft` key, camelCase keys throughout except the literal keys
//! `projectID` and `fileID`, and two-space indentation for the top-level and
//! `minecraft` members. The executable serializer produces exactly that text.

use vstd::prelude::*;
use crate::model::FileRefModel;
use crate::model::LoaderModel;
use crate::model::Manifest;
use crate::model::ManifestModel;
use vstd::string::StrSliceExecFns;

verus! {

/// The decimal digit character for `d` (`0 <= d <= 9`).
pub open spec fn digit_char(d: int) -> char {
    if d == 0 {
        '0'
    } else if d == 1 {
        '1'
    } else if d == 2 {
        '2'
    } else if d == 3 {
        '3'
    } else if d == 4 {
        '4'
    } else if d == 5 {
        '5'
    } else if d == 6 {
        '6'
    } else if d == 7 {
        '7'
    } else if d == 8 {
        '8'
    } else {
        '9'
    }
}

/// The lowercase hexadecimal digit character for `d` (`0 <= d <= 15`).
pub open spec fn hex_char(d: int) -> char {
    if d < 10 {
        digit_char(d)
    } else if d == 10 {
        'a'
    } else if d == 11 {
        'b'
    } else if d == 12 {
        'c'
    } else if d == 13 {
        'd'
    } else if d == 14 {
        'e'
    } else {
        'f'
    }
}

/// The JSON string-body encoding of one character: quote and backslash get a
/// backslash escape, control characters a `\u00XX` escape, and every other
/// character stands for itself.
pub open spec fn ser_echar(c: char) -> Seq<char> {
    if c == '"' {
        seq!['\\', '"']
    } else if c == '\\' {
        seq!['\\', '\\']
    } else if (c as u32) < 32 {
        seq!['\\', 'u', '0', '0', hex_char((c as u32) as int / 16), hex_char((c as u32) as int % 16)]
    } else {
        seq![c]
    }
}

/// The JSON string-body encoding of `s` from index `k` on.
pub open spec fn ser_estr_from(s: Seq<char>, k: int) -> Seq<char>
    decreases s.len() - k,
{
    if k < 0 || k >= s.len() {
        Seq::empty()
    } else {
        ser_echar(s[k]) + ser_estr_from(s, k + 1)
    }
}

/// The JSON string-body encoding of `s`.
pub open spec fn ser_estr(s: Seq<char>) -> Seq<char> {
    ser_estr_from(s, 0)
}

/// The quoted JSON string encoding of `s`.
pub open spec fn ser_qstr(s: Seq<char>) -> Seq<char> {
    seq!['"'] + ser_estr(s) + seq!['"']
}

/// The decimal digits of `n`, most significant first, with no sign and no
/// leading zeros (`0` itself is the single digit `0`).
pub open spec fn ser_nat(n: nat) -> Seq<char>
    decreases n,
{
    if n < 10 {
        seq![digit_char(n as int)]
    } else {
        ser_nat(n / 10).push(digit_char((n % 10) as int))
    }
}

/// The JSON encoding of a boolean.
pub open spec fn ser_bool(b: bool) -> Seq<char> {
    if b {
        "true"@
    } else {
        "false"@
    }
}

/// The JSON encoding of one loader entry.
pub open spec fn ser_loader(l: LoaderModel) -> Seq<char> {
    "{\"id\": "@ + ser_qstr(l.id) + ", \"primary\": "@ + ser_bool(l.primary) + "}"@
}

/// The JSON encoding of the loader list from index `k` on, with `", "`
/// before every entry but the first.
pub open spec fn ser_loaders_from(ls: Seq<LoaderModel>, k: int) -> Seq<char>
    decreases ls.len() - k,
{
    if k < 0 || k >= ls.len() {
        Seq::empty()
    } else {
        (if k > 0 {
            ", "@
        } else {
            Seq::<char>::empty()
        }) + ser_loader(ls[k]) + ser_loaders_from(ls, k + 1)
    }
}

/// The JSON encoding of one file-reference entry, with the literal keys
/// `projectID` and `fileID`.
pub open spec fn ser_file(f: FileRefModel) -> Seq<char> {
    "{\"projectID\": "@ + ser_nat(f.project_id as nat) + ", \"fileID\": "@ + ser_nat(
        f.file_id as nat,
    ) + ", \"required\": "@ + ser_bool(f.required) + "}"@
}

/// The JSON encoding of the file list from index `k` on.
pub open spec fn ser_files_from(fs: Seq<FileRefModel>, k: int) -> Seq<char>
    decreases fs.len() - k,
{
    if k < 0 || k >= fs.len() {
        Seq::empty()
    } else {
        (if k > 0 {
            ", "@
        } else {
            Seq::<char>::empty()
        }) + ser_file(fs[k]) + ser_files_from(fs, k + 1)
    }
}

/// The complete document text for a manifest: the fixed schema with every
/// field of the model written as data.
pub open spec fn ser_manifest(m: ManifestModel) -> Seq<char> {
    "{\n  \"minecraft\": {\n    \"version\": "@ + ser_qstr(m.mc_version)
        + ",\n    \"modLoaders\": ["@ + ser_loaders_from(m.mod_loaders, 0)
        + "]\n  },\n  \"manifestType\": "@
        + ser_qstr(m.manifest_type) + ",\n  \"manifestVersion\": "@ + ser_nat(
        m.manifest_version as nat,
    ) + ",\n  \"name\": "@ + ser_qstr(m.name) + ",\n  \"version\": "@ + ser_qstr(m.version)
        + ",\n  \"author\": "@ + ser_qstr(m.author) + ",\n  \"files\": ["@ + ser_files_from(
        m.files,
        0,
    ) + "],\n  \"overrides\": "@ + ser_qstr(m.overrides) + "\n}"@
}

/// Append the characters of `s` to `out`.
pub fn push_str_chars(out: &mut Vec<char>, s: &str)
    ensures
        final(out)@ == old(out)@ + s@,
{
    let n = s.unicode_len();
    let mut i: usize = 0;
    while i < n
        invariant
            n == s@.len(),
            i <= n,
            out@ == old(out)@ + s@.subrange(0, i as int),
        decreases n - i,
    {
        out.push(s.get_char(i));
        i = i + 1;
        proof {
            assert(old(out)@ + s@.subrange(0, i as int) =~= (old(out)@ + s@.subrange(
                0,
                i - 1,
            )).push(s@[i - 1]));
        }
    }
    proof {
        assert(s@.subrange(0, n as int) =~= s@);
    }
}

/// The decimal digit character for `d`, as executable code.
fn digit_char_of(d: u64) -> (c: char)
    requires
        d < 10,
    ensures
        c == digit_char(d as int),
{
    if d == 0 {
        '0'
    } else if d == 1 {
        '1'
    } else if d == 2 {
        '2'
    } else if d == 3 {
        '3'
    } else if d == 4 {
        '4'
    } else if d == 5 {
        '5'
    } else if d == 6 {
        '6'
    } else if d == 7 {
        '7'
    } else if d == 8 {
        '8'
    } else {
        '9'
    }
}

/// The lowercase hexadecimal digit character for `d`, as executable code.
fn hex_char_of(d: u32) -> (c: char)
    requires
        d < 16,
    ensures
        c == hex_char(d as int),
{
    if d < 10 {
        digit_char_of(d as u64)
    } else if d == 10 {
        'a'
    } else if d == 11 {
        'b'
    } else if d == 12 {
        'c'
    } else if d == 13 {
        'd'
    } else if d == 14 {
        'e'
    } else {
        'f'
    }
}

/// Append the string-body encoding of one character to `out`.
fn push_echar(out: &mut Vec<char>, c: char)
    ensures
        final(out)@ == old(out)@ + ser_echar(c),
{
    if c == '"' {
        out.push('\\');
        out.push('"');
        proof {
            assert(out@ =~= old(out)@ + ser_echar(c));
        }
    } else if c == '\\' {
        out.push('\\');
        out.push('\\');
        proof {
            assert(out@ =~= old(out)@ + ser_echar(c));
        }
    } else {
        let code: u32 = c as u32;
        if code < 32 {
            out.push('\\');
            out.push('u');
            out.push('0');
            out.push('0');
            out.push(hex_char_of(code / 16));
            out.push(hex_char_of(code % 16));
            proof {
                assert(out@ =~= old(out)@ + ser_echar(c));
            }
        } else {
            out.push(c);
            proof {
                assert(out@ =~= old(out)@ + ser_echar(c));
            }
        }
    }
}

/// Append the quoted JSON string encoding of `s` to `out`.
pub fn push_qstr(out: &mut Vec<char>, s: &str)
    ensures
        final(out)@ == old(out)@ + ser_qstr(s@),
{
    out.push('"');
    let n = s.unicode_len();
    let mut i: usize = 0;
    while i < n
        invariant
            n == s@.len(),
            i <= n,
            out@ + ser_estr_from(s@, i as int) == old(out)@ + seq!['"'] + ser_estr(s@),
        decreases n - i,
    {
        let c = s.get_char(i);
        push_echar(out, c);
        proof {
            assert(ser_estr_from(s@, i as int) =~= ser_echar(s@[i as int]) + ser_estr_from(
                s@,
                i + 1,
            ));
            assert(out@ + ser_estr_from(s@, i + 1) =~= old(out)@ + seq!['"'] + ser_estr(s@));
        }
        i = i + 1;
    }
    out.push('"');
    proof {
        assert(ser_estr_from(s@, n as int) =~= Seq::<char>::empty());
        assert(out@ =~= old(out)@ + ser_qstr(s@));
    }
}

/// Append the decimal digits of `n` to `out`.
pub fn push_u64(out: &mut Vec<char>, n: u64)
    ensures
        final(out)@ == old(out)@ + ser_nat(n as nat),
    decreases n,
{
    if n < 10 {
        out.push(digit_char_of(n));
        proof {
            assert(out@ =~= old(out)@ + ser_nat(n as nat));
        }
    } else {
        push_u64(out, n / 10);
        out.push(digit_char_of(n % 10));
        proof {
            assert(out@ =~= old(out)@ + ser_nat(n as nat));
        }
    }
}

/// Append `true` or `false` to `out`.
pub fn push_bool(out: &mut Vec<char>, b: bool)
    ensures
        final(out)@ == old(out)@ + ser_bool(b),
{
    if b {
        push_str_chars(out, "true");
    } else {
        push_str_chars(out, "false");
    }
}

/// Turn the accumulated characters into a `String`.
///
/// Relies on `String`'s `FromIterator` implementation: collecting an iterator
/// of characters yields the string of exactly those characters in order.
#[verifier::external_body]
pub(crate) fn chars_to_string(v: Vec<char>) -> (s: String)
    ensures
        s@ == v@,
{
    v.into_iter().collect()
}

impl Manifest {
    /// Serialize this manifest to its document text: exactly the fixed
    /// schema that [`ser_manifest`] defines for the manifest's model.
    #[verifier::rlimit(50)]
    pub fn to_json(&self) -> (r: String)
        ensures
            r@ == ser_manifest(self@),
    {
        let mut out: Vec<char> = Vec::new();
        push_str_chars(&mut out, "{\n  \"minecraft\": {\n    \"version\": ");
        push_qstr(&mut out, self.mc_version.as_str());
        push_str_chars(&mut out, ",\n    \"modLoaders\": [");
        let ghost upto_loaders = out@;
        let mut i: usize = 0;
        while i < self.mod_loaders.len()
            invariant
                i <= self.mod_loaders.len(),
                out@ + ser_loaders_from(self@.mod_loaders, i as int) == upto_loaders
                    + ser_loaders_from(self@.mod_loaders, 0),
                self@.mod_loaders.len() == self.mod_loaders.len(),
            decreases self.mod_loaders.len() - i,
        {
            if i > 0 {
                push_str_chars(&mut out, ", ");
            }
            push_str_chars(&mut out, "{\"id\": ");
            push_qstr(&mut out, self.mod_loaders[i].id.as_str());
            push_str_chars(&mut out, ", \"primary\": ");
            push_bool(&mut out, self.mod_loaders[i].primary);
            push_str_chars(&mut out, "}");
            proof {
                assert(self@.mod_loaders[i as int] == self.mod_loaders@[i as int]@);
                assert(ser_loaders_from(self@.mod_loaders, i as int) =~= (if i > 0 {
                    ", "@
                } else {
                    Seq::<char>::empty()
                }) + ser_loader(self@.mod_loaders[i as int]) + ser_loaders_from(
                    self@.mod_loaders,
                    i + 1,
                ));
                assert(out@ + ser_loaders_from(self@.mod_loaders, i + 1) =~= upto_loaders
                    + ser_loaders_from(self@.mod_loaders, 0));
            }
            i = i + 1;
        }
        proof {
            assert(ser_loaders_from(self@.mod_loaders, self.mod_loaders.len() as int)
                =~= Seq::<char>::empty());
            assert(out@ =~= upto_loaders + ser_loaders_from(self@.mod_loaders, 0));
        }
        push_str_chars(&mut out, "]\n  },\n  \"manifestType\": ");
        push_qstr(&mut out, self.manifest_type.as_str());
        push_str_chars(&mut out, ",\n  \"manifestVersion\": ");
        push_u64(&mut out, self.manifest_version as u64);
        push_str_chars(&mut out, ",\n  \"name\": ");
        push_qstr(&mut out, self.name.as_str());
        push_str_chars(&mut out, ",\n  \"version\": ");
        push_qstr(&mut out, self.version.as_str());
        push_str_chars(&mut out, ",\n  \"author\": ");
        push_qstr(&mut out, self.author.as_str());
        push_str_chars(&mut out, ",\n  \"files\": [");
        let ghost upto_files = out@;
        let mut j: usize = 0;
        while j < self.files.len()
            invariant
                j <= self.files.len(),
                out@ + ser_files_from(self@.files, j as int) == upto_files + ser_files_from(
                    self@.files,
                    0,
                ),
                self@.files.len() == self.files.len(),
            decreases self.files.len() - j,
        {
            if j > 0 {
                push_str_chars(&mut out, ", ");
            }
            push_str_chars(&mut out, "{\"projectID\": ");
            push_u64(&mut out, self.files[j].project_id);
            push_str_chars(&mut out, ", \"fileID\": ");
            push_u64(&mut out, self.files[j].file_id);
            push_str_chars(&mut out, ", \"required\": ");
            push_bool(&mut out, self.files[j].required);
            push_str_chars(&mut out, "}");
            proof {
                assert(self@.files[j as int] == self.files@[j as int]@);
                assert(ser_files_from(self@.files, j as int) =~= (if j > 0 {
                    ", "@
                } else {
                    Seq::<char>::empty()
                }) + ser_file(self@.files[j as int]) + ser_files_from(self@.files, j + 1));
                assert(out@ + ser_files_from(self@.files, j + 1) =~= upto_files + ser_files_from(
                    self@.files,
                    0,
                ));
            }
            j = j + 1;
        }
        proof {
            assert(ser_files_from(self@.files, self.files.len() as int) =~= Seq::<char>::empty());
            assert(out@ =~= upto_files + ser_files_from(self@.files, 0));
        }
        push_str_chars(&mut out, "],\n  \"overrides\": ");
        push_qstr(&mut out, self.overrides.as_str());
        push_str_chars(&mut out, "\n}");
        proof {
            assert(out@ =~= ser_manifest(self@));
        }
        chars_to_string(out)
    }
}

} // verus!
