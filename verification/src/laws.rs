//! The laws that tie the serializer and the parser together.
//!
//! The central result is [`lemma_manifest_round_trip`]: parsing the document
//! text written for any manifest model gives back exactly that model. With
//! the exact contracts of `Manifest::to_json` and `Manifest::from_json`,
//! saving a manifest and loading the result therefore reproduces it field
//! for field. [`lemma_read_deterministic`] records that reading one and the
//! same document twice cannot give two different manifests.

use vstd::prelude::*;
use crate::de::digit_val;
use crate::de::hex_val;
use crate::de::lit_at;
use crate::de::p_bool;
use crate::de::p_digits;
use crate::de::p_file;
use crate::de::p_files;
use crate::de::p_files_tail;
use crate::de::p_lit;
use crate::de::p_loader;
use crate::de::p_loaders;
use crate::de::p_loaders_tail;
use crate::de::p_manifest;
use crate::de::p_manifest_tail;
use crate::de::p_manifest_tail2;
use crate::de::p_num;
use crate::de::p_qstr;
use crate::de::p_str_body;
use crate::model::FileRefModel;
use crate::model::LoaderModel;
use crate::model::ManifestModel;
use crate::ser::digit_char;
use crate::ser::hex_char;
use crate::ser::ser_bool;
use crate::ser::ser_echar;
use crate::ser::ser_estr;
use crate::ser::ser_estr_from;
use crate::ser::ser_file;
use crate::ser::ser_files_from;
use crate::ser::ser_loader;
use crate::ser::ser_loaders_from;
use crate::ser::ser_manifest;
use crate::ser::ser_nat;
use crate::ser::ser_qstr;
use vstd::arithmetic::div_mod::lemma_fundamental_div_mod;

verus! {

/// The characters of `s` from position `i` to the end.
spec fn suffix(s: Seq<char>, i: int) -> Seq<char> {
    s.subrange(i, s.len() as int)
}

/// When the text from position `i` on starts with the chunk `a`, the chunk's
/// characters stand at `i`, and past the chunk the remaining text is `rest`.
proof fn lemma_chunk(s: Seq<char>, i: int, a: Seq<char>, rest: Seq<char>)
    requires
        0 <= i <= s.len(),
        suffix(s, i) == a + rest,
    ensures
        i + a.len() + rest.len() == s.len(),
        forall|t: int| 0 <= t < a.len() ==> s[i + t] == a[t],
        s.subrange(i, i + a.len() as int) == a,
        suffix(s, i + a.len() as int) == rest,
{
    assert(suffix(s, i).len() == s.len() - i);
    assert forall|t: int| 0 <= t < a.len() implies s[i + t] == a[t] by {
        assert(suffix(s, i)[t] == s[i + t]);
        assert((a + rest)[t] == a[t]);
    }
    assert(s.subrange(i, i + a.len() as int) =~= a);
    assert(suffix(s, i + a.len() as int) =~= rest) by {
        assert forall|t: int| 0 <= t < rest.len() implies suffix(s, i + a.len() as int)[t]
            == rest[t] by {
            assert(suffix(s, i)[a.len() + t] == s[i + a.len() + t]);
            assert((a + rest)[a.len() + t] == rest[t]);
        }
    }
}

/// Parsing the exact text `lit` where it stands succeeds and steps past it.
proof fn lemma_p_lit(s: Seq<char>, i: int, lit: Seq<char>, rest: Seq<char>)
    requires
        0 <= i <= s.len(),
        suffix(s, i) == lit + rest,
    ensures
        p_lit(s, i, lit) == Some(i + lit.len() as int),
        suffix(s, i + lit.len() as int) == rest,
        i + lit.len() + rest.len() == s.len(),
{
    lemma_chunk(s, i, lit, rest);
    assert(lit_at(s, i, lit));
}

/// Reading back the hexadecimal digit written for `d` gives `d`.
proof fn lemma_hex_round(d: int)
    requires
        0 <= d < 16,
    ensures
        hex_val(hex_char(d)) == d,
{
}

/// Reading back the decimal digit written for `d` gives `d`.
proof fn lemma_digit_round(d: int)
    requires
        0 <= d < 10,
    ensures
        digit_val(digit_char(d)) == d,
{
}

/// Parsing a string body over the encoding of the characters of `v` from
/// index `k` on, followed by the closing quote and then `rest`, decodes
/// those characters onto `acc` and stops just past the quote.
proof fn lemma_p_str_body(s: Seq<char>, i: int, v: Seq<char>, k: int, acc: Seq<char>, rest: Seq<
    char,
>)
    requires
        0 <= i <= s.len(),
        0 <= k <= v.len(),
        suffix(s, i) == ser_estr_from(v, k) + seq!['"'] + rest,
    ensures
        p_str_body(s, i, acc) == Some(
            (acc + v.subrange(k, v.len() as int), i + ser_estr_from(v, k).len() + 1),
        ),
        suffix(s, i + ser_estr_from(v, k).len() + 1) == rest,
    decreases v.len() - k,
{
    if k == v.len() {
        assert(ser_estr_from(v, k) =~= Seq::<char>::empty());
        assert(suffix(s, i) =~= seq!['"'] + rest);
        lemma_chunk(s, i, seq!['"'], rest);
        assert(s[i + 0] == seq!['"'][0]);
        assert(s[i] == '"');
        assert(acc + v.subrange(k, v.len() as int) =~= acc);
    } else {
        let c = v[k];
        let e = ser_echar(c);
        let tail = ser_estr_from(v, k + 1) + seq!['"'] + rest;
        assert(ser_estr_from(v, k) == e + ser_estr_from(v, k + 1));
        assert(suffix(s, i) =~= e + tail);
        lemma_chunk(s, i, e, tail);
        assert(s[i + 0] == e[0]);
        if c == '"' {
            assert(s[i] == '\\' && s[i + 1] == '"');
            lemma_p_str_body(s, i + 2, v, k + 1, acc.push(c), rest);
        } else if c == '\\' {
            assert(s[i] == '\\' && s[i + 1] == '\\');
            lemma_p_str_body(s, i + 2, v, k + 1, acc.push(c), rest);
        } else if (c as u32) < 32 {
            let code = (c as u32) as int;
            assert(s[i] == '\\' && s[i + 1] == 'u' && s[i + 2] == '0' && s[i + 3] == '0');
            assert(s[i + 4] == hex_char(code / 16) && s[i + 5] == hex_char(code % 16));
            lemma_fundamental_div_mod(code, 16);
            assert(0 <= code / 16 < 2 && 0 <= code % 16 < 16);
            lemma_hex_round(code / 16);
            lemma_hex_round(code % 16);
            assert(hex_val(s[i + 2]) == 0 && hex_val(s[i + 3]) == 0);
            let got = hex_val(s[i + 2]) * 4096 + hex_val(s[i + 3]) * 256 + hex_val(s[i + 4]) * 16
                + hex_val(s[i + 5]);
            assert(got == code);
            assert((code as u8) as char == c) by {
                vstd::utf8::char_u32_cast(c, c as u32);
            }
            lemma_p_str_body(s, i + 6, v, k + 1, acc.push(c), rest);
        } else {
            assert(s[i] == c);
            assert(c != '"' && c != '\\' && (c as u32) >= 32);
            lemma_p_str_body(s, i + 1, v, k + 1, acc.push(c), rest);
        }
        assert(acc.push(c) + v.subrange(k + 1, v.len() as int) =~= acc + v.subrange(
            k,
            v.len() as int,
        ));
    }
}

/// Parsing a quoted string over the encoding of `v` followed by `rest`
/// yields `v` and stops just past the closing quote.
proof fn lemma_p_qstr(s: Seq<char>, i: int, v: Seq<char>, rest: Seq<char>)
    requires
        0 <= i <= s.len(),
        suffix(s, i) == ser_qstr(v) + rest,
    ensures
        p_qstr(s, i) == Some((v, i + ser_qstr(v).len() as int)),
        suffix(s, i + ser_qstr(v).len() as int) == rest,
        i + ser_qstr(v).len() + rest.len() == s.len(),
{
    let body = ser_estr(v) + seq!['"'] + rest;
    assert(suffix(s, i) =~= seq!['"'] + body);
    lemma_chunk(s, i, seq!['"'], body);
    assert(s[i + 0] == seq!['"'][0]);
    assert(s[i] == '"');
    lemma_p_str_body(s, i + 1, v, 0, Seq::empty(), rest);
    assert(Seq::<char>::empty() + v.subrange(0, v.len() as int) =~= v);
    assert(ser_qstr(v).len() == ser_estr(v).len() + 2);
}

/// Ten to the power `k`.
spec fn pow10(k: nat) -> nat
    decreases k,
{
    if k == 0 {
        1
    } else {
        10 * pow10((k - 1) as nat)
    }
}

/// Every run of digits written for `n` is read back onto the accumulator:
/// consuming them multiplies `acc` by ten per digit and adds `n`, as long as
/// the combined value still fits in 64 bits.
proof fn lemma_p_digits_consume(s: Seq<char>, i: int, n: u64, acc: u64, rest: Seq<char>)
    requires
        0 <= i <= s.len(),
        suffix(s, i) == ser_nat(n as nat) + rest,
        acc * pow10(ser_nat(n as nat).len()) + n <= 0xffff_ffff_ffff_ffffu64,
    ensures
        p_digits(s, i, acc) == p_digits(
            s,
            i + ser_nat(n as nat).len() as int,
            (acc * pow10(ser_nat(n as nat).len()) + n) as u64,
        ),
        suffix(s, i + ser_nat(n as nat).len() as int) == rest,
    decreases n,
{
    let ser = ser_nat(n as nat);
    lemma_chunk(s, i, ser, rest);
    if n < 10 {
        assert(ser == seq![digit_char(n as int)]);
        assert(s[i + 0] == ser[0]);
        lemma_digit_round(n as int);
        assert(digit_val(s[i]) == n);
        assert(pow10(1) == 10 * pow10(0));
        assert(acc * 10 + n <= 0xffff_ffff_ffff_ffffu64);
        assert(p_digits(s, i, acc) == p_digits(s, i + 1, (acc * 10 + n) as u64));
    } else {
        let hi = n / 10;
        let d = n % 10;
        vstd::arithmetic::div_mod::lemma_div_pos_is_pos(n as int, 10);
        lemma_fundamental_div_mod(n as int, 10);
        let serhi = ser_nat(hi as nat);
        let lhi = serhi.len();
        assert(ser == serhi.push(digit_char(d as int)));
        assert(ser =~= serhi + seq![digit_char(d as int)]);
        assert(suffix(s, i) =~= serhi + (seq![digit_char(d as int)] + rest));
        let mid = (acc * pow10(lhi) + hi) as u64;
        assert((acc * pow10(lhi) + hi) * 10 + d == acc * pow10(lhi + 1) + n) by (nonlinear_arith)
            requires
                pow10(lhi + 1) == 10 * pow10(lhi),
                n == 10 * hi + d,
        {
        }
        assert(pow10(lhi + 1) == 10 * pow10(lhi));
        assert(acc * pow10(lhi) + hi <= 0xffff_ffff_ffff_ffffu64) by (nonlinear_arith)
            requires
                (acc * pow10(lhi) + hi) * 10 + d == acc * pow10(lhi + 1) + n,
                acc * pow10(lhi + 1) + n <= 0xffff_ffff_ffff_ffffu64,
                d >= 0,
                acc >= 0,
                hi >= 0,
                pow10(lhi) >= 0,
        {
        }
        lemma_p_digits_consume(s, i, hi as u64, acc, seq![digit_char(d as int)] + rest);
        let j = i + lhi as int;
        lemma_chunk(s, j, seq![digit_char(d as int)], rest);
        assert(s[j + 0] == seq![digit_char(d as int)][0]);
        assert(s[i + lhi] == digit_char(d as int));
        lemma_digit_round(d as int);
        assert(digit_val(s[i + lhi]) == d);
        assert(mid * 10 + d <= 0xffff_ffff_ffff_ffffu64);
        assert(p_digits(s, i + lhi as int, mid) == p_digits(
            s,
            i + lhi + 1,
            (mid * 10 + d) as u64,
        ));
        assert((mid * 10 + d) as u64 == (acc * pow10(ser.len()) + n) as u64);
        assert(ser.len() == lhi + 1);
    }
}

/// Parsing a number over the digits written for `n`, followed by text that
/// does not begin with a digit, yields exactly `n`.
proof fn lemma_p_num(s: Seq<char>, i: int, n: u64, rest: Seq<char>)
    requires
        0 <= i <= s.len(),
        suffix(s, i) == ser_nat(n as nat) + rest,
        rest.len() == 0 || digit_val(rest[0]) < 0,
    ensures
        p_num(s, i) == Some((n, i + ser_nat(n as nat).len() as int)),
        suffix(s, i + ser_nat(n as nat).len() as int) == rest,
        i + ser_nat(n as nat).len() + rest.len() == s.len(),
    decreases n,
{
    let ser = ser_nat(n as nat);
    lemma_chunk(s, i, ser, rest);
    lemma_ser_nat_first_digit(n as nat);
    assert(s[i + 0] == ser[0]);
    assert(digit_val(s[i]) >= 0);
    assert(0 * pow10(ser.len()) + n <= 0xffff_ffff_ffff_ffffu64) by (nonlinear_arith)
        requires
            n <= 0xffff_ffff_ffff_ffffu64,
            pow10(ser.len()) >= 0,
    {
    }
    lemma_p_digits_consume(s, i, n, 0, rest);
    assert((0 * pow10(ser.len()) + n) as u64 == n) by (nonlinear_arith)
        requires
            n >= 0,
    {
    }
    let j = i + ser.len() as int;
    if rest.len() == 0 {
        assert(j == s.len());
        assert(p_digits(s, j, n) == Some((n, j)));
    } else {
        assert(suffix(s, j)[0] == s[j + 0]);
        assert(s[j] == rest[0]);
        assert(p_digits(s, j, n) == Some((n, j)));
    }
}

/// The digits written for any number begin with a digit character, and there
/// is at least one of them.
proof fn lemma_ser_nat_first_digit(n: nat)
    ensures
        ser_nat(n).len() >= 1,
        digit_val(ser_nat(n)[0]) >= 0,
    decreases n,
{
    if n < 10 {
        lemma_digit_round(n as int);
    } else {
        lemma_ser_nat_first_digit(n / 10);
        assert(ser_nat(n)[0] == ser_nat(n / 10)[0]);
    }
}

/// Parsing a boolean over the text written for `b` yields `b`.
proof fn lemma_p_bool(s: Seq<char>, i: int, b: bool, rest: Seq<char>)
    requires
        0 <= i <= s.len(),
        suffix(s, i) == ser_bool(b) + rest,
    ensures
        p_bool(s, i) == Some((b, i + ser_bool(b).len() as int)),
        suffix(s, i + ser_bool(b).len() as int) == rest,
        i + ser_bool(b).len() + rest.len() == s.len(),
{
    reveal_strlit("true");
    reveal_strlit("false");
    lemma_chunk(s, i, ser_bool(b), rest);
    if b {
        assert(lit_at(s, i, "true"@));
    } else {
        assert(s[i + 0] == "false"@[0]);
        assert(s[i] == 'f');
        if lit_at(s, i, "true"@) {
            assert(s.subrange(i, i + 4)[0] == s[i]);
            assert(false);
        }
        assert(lit_at(s, i, "false"@));
    }
}

/// Parsing one loader entry over the text written for `l` yields `l`.
proof fn lemma_p_loader(s: Seq<char>, i: int, l: LoaderModel, rest: Seq<char>)
    requires
        0 <= i <= s.len(),
        suffix(s, i) == ser_loader(l) + rest,
    ensures
        p_loader(s, i) == Some((l, i + ser_loader(l).len() as int)),
        suffix(s, i + ser_loader(l).len() as int) == rest,
        i + ser_loader(l).len() + rest.len() == s.len(),
{
    let l1 = "{\"id\": "@;
    let l2 = ", \"primary\": "@;
    let l3 = "}"@;
    let r3 = l3 + rest;
    let r2 = ser_bool(l.primary) + r3;
    let r1 = l2 + r2;
    let r0 = ser_qstr(l.id) + r1;
    assert(suffix(s, i) =~= l1 + r0);
    lemma_p_lit(s, i, l1, r0);
    let i1 = i + l1.len() as int;
    lemma_p_qstr(s, i1, l.id, r1);
    let i2 = i1 + ser_qstr(l.id).len() as int;
    lemma_p_lit(s, i2, l2, r2);
    let i3 = i2 + l2.len() as int;
    lemma_p_bool(s, i3, l.primary, r3);
    let i4 = i3 + ser_bool(l.primary).len() as int;
    lemma_p_lit(s, i4, l3, rest);
    let i5 = i4 + l3.len() as int;
    assert((LoaderModel { id: l.id, primary: l.primary }) =~= l);
    assert(p_loader(s, i) == Some((l, i5)));
}

/// Parsing the remainder of a loader list, over the text written for the
/// entries of `ls` from index `k` on followed by the closing bracket,
/// completes the accumulated prefix to the whole of `ls`.
proof fn lemma_p_loaders_tail(s: Seq<char>, i: int, ls: Seq<LoaderModel>, k: int, rest: Seq<char>)
    requires
        0 <= i <= s.len(),
        1 <= k <= ls.len(),
        suffix(s, i) == ser_loaders_from(ls, k) + seq![']'] + rest,
    ensures
        p_loaders_tail(s, i, ls.subrange(0, k)) == Some(
            (ls, i + ser_loaders_from(ls, k).len() + 1),
        ),
        suffix(s, i + ser_loaders_from(ls, k).len() + 1) == rest,
    decreases ls.len() - k,
{
    reveal_strlit(", ");
    if k == ls.len() {
        assert(ser_loaders_from(ls, k) =~= Seq::<char>::empty());
        assert(suffix(s, i) =~= seq![']'] + rest);
        lemma_chunk(s, i, seq![']'], rest);
        assert(s[i + 0] == seq![']'][0]);
        assert(ls.subrange(0, k) =~= ls);
    } else {
        let sep = ", "@;
        let r1 = ser_loader(ls[k]) + (ser_loaders_from(ls, k + 1) + seq![']'] + rest);
        assert(ser_loaders_from(ls, k) == sep + ser_loader(ls[k]) + ser_loaders_from(ls, k + 1));
        assert(suffix(s, i) =~= sep + r1);
        lemma_p_lit(s, i, sep, r1);
        assert(s[i + 0] == sep[0]);
        assert(s[i] == ',');
        let j = i + sep.len() as int;
        lemma_p_loader(s, j, ls[k], ser_loaders_from(ls, k + 1) + seq![']'] + rest);
        let j2 = j + ser_loader(ls[k]).len() as int;
        lemma_p_loaders_tail(s, j2, ls, k + 1, rest);
        assert(ls.subrange(0, k).push(ls[k]) =~= ls.subrange(0, k + 1));
        assert(p_loaders_tail(s, i, ls.subrange(0, k)) == p_loaders_tail(
            s,
            j2,
            ls.subrange(0, k + 1),
        ));
    }
}

/// Parsing a loader list over the text written for `ls` followed by the
/// closing bracket yields exactly `ls`.
proof fn lemma_p_loaders(s: Seq<char>, i: int, ls: Seq<LoaderModel>, rest: Seq<char>)
    requires
        0 <= i <= s.len(),
        suffix(s, i) == ser_loaders_from(ls, 0) + seq![']'] + rest,
    ensures
        p_loaders(s, i) == Some((ls, i + ser_loaders_from(ls, 0).len() + 1)),
        suffix(s, i + ser_loaders_from(ls, 0).len() + 1) == rest,
{
    if ls.len() == 0 {
        assert(ser_loaders_from(ls, 0) =~= Seq::<char>::empty());
        assert(suffix(s, i) =~= seq![']'] + rest);
        lemma_chunk(s, i, seq![']'], rest);
        assert(s[i + 0] == seq![']'][0]);
        assert(ls =~= Seq::<LoaderModel>::empty());
    } else {
        reveal_strlit("{\"id\": ");
        let r1 = ser_loaders_from(ls, 1) + seq![']'] + rest;
        assert(ser_loaders_from(ls, 0) == ser_loader(ls[0]) + ser_loaders_from(ls, 1));
        assert(suffix(s, i) =~= ser_loader(ls[0]) + r1);
        lemma_chunk(s, i, ser_loader(ls[0]), r1);
        assert(s[i + 0] == ser_loader(ls[0])[0]);
        assert(ser_loader(ls[0])[0] == "{\"id\": "@[0]);
        assert(s[i] == '{');
        lemma_p_loader(s, i, ls[0], r1);
        let j = i + ser_loader(ls[0]).len() as int;
        lemma_p_loaders_tail(s, j, ls, 1, rest);
        assert(ls.subrange(0, 1) =~= seq![ls[0]]);
    }
}

/// Parsing one file entry over the text written for `f` yields `f`.
proof fn lemma_p_file(s: Seq<char>, i: int, f: FileRefModel, rest: Seq<char>)
    requires
        0 <= i <= s.len(),
        suffix(s, i) == ser_file(f) + rest,
    ensures
        p_file(s, i) == Some((f, i + ser_file(f).len() as int)),
        suffix(s, i + ser_file(f).len() as int) == rest,
        i + ser_file(f).len() + rest.len() == s.len(),
{
    let l1 = "{\"projectID\": "@;
    let l2 = ", \"fileID\": "@;
    let l3 = ", \"required\": "@;
    let l4 = "}"@;
    reveal_strlit(", \"fileID\": ");
    reveal_strlit(", \"required\": ");
    let r4 = l4 + rest;
    let r3 = ser_bool(f.required) + r4;
    let r2b = l3 + r3;
    let r2 = ser_nat(f.file_id as nat) + r2b;
    let r1b = l2 + r2;
    let r1 = ser_nat(f.project_id as nat) + r1b;
    assert(suffix(s, i) =~= l1 + r1);
    lemma_p_lit(s, i, l1, r1);
    let i1 = i + l1.len() as int;
    assert(r1b[0] == l2[0]);
    assert(digit_val(r1b[0]) < 0);
    lemma_p_num(s, i1, f.project_id, r1b);
    let i2 = i1 + ser_nat(f.project_id as nat).len() as int;
    lemma_p_lit(s, i2, l2, r2);
    let i3 = i2 + l2.len() as int;
    assert(r2b[0] == l3[0]);
    assert(digit_val(r2b[0]) < 0);
    lemma_p_num(s, i3, f.file_id, r2b);
    let i4 = i3 + ser_nat(f.file_id as nat).len() as int;
    lemma_p_lit(s, i4, l3, r3);
    let i5 = i4 + l3.len() as int;
    lemma_p_bool(s, i5, f.required, r4);
    let i6 = i5 + ser_bool(f.required).len() as int;
    lemma_p_lit(s, i6, l4, rest);
    let i7 = i6 + l4.len() as int;
    assert((FileRefModel {
        project_id: f.project_id,
        file_id: f.file_id,
        required: f.required,
    }) =~= f);
    assert(p_file(s, i) == Some((f, i7)));
}

/// Parsing the remainder of a file list completes the accumulated prefix to
/// the whole of `fs`.
proof fn lemma_p_files_tail(s: Seq<char>, i: int, fs: Seq<FileRefModel>, k: int, rest: Seq<char>)
    requires
        0 <= i <= s.len(),
        1 <= k <= fs.len(),
        suffix(s, i) == ser_files_from(fs, k) + seq![']'] + rest,
    ensures
        p_files_tail(s, i, fs.subrange(0, k)) == Some((fs, i + ser_files_from(fs, k).len() + 1)),
        suffix(s, i + ser_files_from(fs, k).len() + 1) == rest,
    decreases fs.len() - k,
{
    reveal_strlit(", ");
    if k == fs.len() {
        assert(ser_files_from(fs, k) =~= Seq::<char>::empty());
        assert(suffix(s, i) =~= seq![']'] + rest);
        lemma_chunk(s, i, seq![']'], rest);
        assert(s[i + 0] == seq![']'][0]);
        assert(fs.subrange(0, k) =~= fs);
    } else {
        let sep = ", "@;
        let r1 = ser_file(fs[k]) + (ser_files_from(fs, k + 1) + seq![']'] + rest);
        assert(ser_files_from(fs, k) == sep + ser_file(fs[k]) + ser_files_from(fs, k + 1));
        assert(suffix(s, i) =~= sep + r1);
        lemma_p_lit(s, i, sep, r1);
        assert(s[i + 0] == sep[0]);
        assert(s[i] == ',');
        let j = i + sep.len() as int;
        lemma_p_file(s, j, fs[k], ser_files_from(fs, k + 1) + seq![']'] + rest);
        let j2 = j + ser_file(fs[k]).len() as int;
        lemma_p_files_tail(s, j2, fs, k + 1, rest);
        assert(fs.subrange(0, k).push(fs[k]) =~= fs.subrange(0, k + 1));
        assert(p_files_tail(s, i, fs.subrange(0, k)) == p_files_tail(
            s,
            j2,
            fs.subrange(0, k + 1),
        ));
    }
}

/// Parsing a file list over the text written for `fs` followed by the
/// closing bracket yields exactly `fs`.
proof fn lemma_p_files(s: Seq<char>, i: int, fs: Seq<FileRefModel>, rest: Seq<char>)
    requires
        0 <= i <= s.len(),
        suffix(s, i) == ser_files_from(fs, 0) + seq![']'] + rest,
    ensures
        p_files(s, i) == Some((fs, i + ser_files_from(fs, 0).len() + 1)),
        suffix(s, i + ser_files_from(fs, 0).len() + 1) == rest,
{
    if fs.len() == 0 {
        assert(ser_files_from(fs, 0) =~= Seq::<char>::empty());
        assert(suffix(s, i) =~= seq![']'] + rest);
        lemma_chunk(s, i, seq![']'], rest);
        assert(s[i + 0] == seq![']'][0]);
        assert(fs =~= Seq::<FileRefModel>::empty());
    } else {
        reveal_strlit("{\"projectID\": ");
        let r1 = ser_files_from(fs, 1) + seq![']'] + rest;
        assert(ser_files_from(fs, 0) == ser_file(fs[0]) + ser_files_from(fs, 1));
        assert(suffix(s, i) =~= ser_file(fs[0]) + r1);
        lemma_chunk(s, i, ser_file(fs[0]), r1);
        assert(s[i + 0] == ser_file(fs[0])[0]);
        assert(ser_file(fs[0])[0] == "{\"projectID\": "@[0]);
        assert(s[i] == '{');
        lemma_p_file(s, i, fs[0], r1);
        let j = i + ser_file(fs[0]).len() as int;
        lemma_p_files_tail(s, j, fs, 1, rest);
        assert(fs.subrange(0, 1) =~= seq![fs[0]]);
    }
}

/// The tail of the regrouped document text: the overrides field and the
/// closing brace.
spec fn nested_overrides(m: ManifestModel) -> Seq<char> {
    ",\n  \"overrides\": "@ + (ser_qstr(m.overrides) + "\n}"@)
}

/// The regrouped text from the files list on.
spec fn nested_files(m: ManifestModel) -> Seq<char> {
    ",\n  \"files\": ["@ + (ser_files_from(m.files, 0) + (seq![']'] + nested_overrides(m)))
}

/// The regrouped text from the author field on.
spec fn nested_author(m: ManifestModel) -> Seq<char> {
    ",\n  \"author\": "@ + (ser_qstr(m.author) + nested_files(m))
}

/// The regrouped text from the version field on.
spec fn nested_version(m: ManifestModel) -> Seq<char> {
    ",\n  \"version\": "@ + (ser_qstr(m.version) + nested_author(m))
}

/// The regrouped text from the name field on.
spec fn nested_name(m: ManifestModel) -> Seq<char> {
    ",\n  \"name\": "@ + (ser_qstr(m.name) + nested_version(m))
}

/// The regrouped text from the format version on.
spec fn nested_mversion(m: ManifestModel) -> Seq<char> {
    ",\n  \"manifestVersion\": "@ + (ser_nat(m.manifest_version as nat) + nested_name(m))
}

/// The regrouped text from the document kind on.
spec fn nested_mtype(m: ManifestModel) -> Seq<char> {
    "\n  },\n  \"manifestType\": "@ + (ser_qstr(m.manifest_type) + nested_mversion(m))
}

/// The regrouped text from the loader list on.
spec fn nested_loaders(m: ManifestModel) -> Seq<char> {
    ",\n    \"modLoaders\": ["@ + (ser_loaders_from(m.mod_loaders, 0) + (seq![']']
        + nested_mtype(m)))
}

/// The document text regrouped around the parser's own chunks: the same
/// characters as [`ser_manifest`], with the two bracket-carrying chunks
/// split off and the pieces nested to the right.
spec fn ser_manifest_nested(m: ManifestModel) -> Seq<char> {
    "{\n  \"minecraft\": {\n    \"version\": "@ + (ser_qstr(m.mc_version) + nested_loaders(m))
}

/// The serializer's text and its regrouped form are the same characters.
#[verifier::rlimit(100)]
proof fn lemma_ser_manifest_nested(m: ManifestModel)
    ensures
        ser_manifest(m) == ser_manifest_nested(m),
{
    reveal_strlit("]\n  },\n  \"manifestType\": ");
    reveal_strlit("\n  },\n  \"manifestType\": ");
    reveal_strlit("],\n  \"overrides\": ");
    reveal_strlit(",\n  \"overrides\": ");
    assert("]\n  },\n  \"manifestType\": "@ =~= seq![']'] + "\n  },\n  \"manifestType\": "@);
    assert("],\n  \"overrides\": "@ =~= seq![']'] + ",\n  \"overrides\": "@);
    assert(ser_manifest(m) =~= ser_manifest_nested(m));
}

/// Parsing the regrouped text from the author field on completes a
/// manifest whose earlier fields are already in hand.
proof fn lemma_p_manifest_tail2(s: Seq<char>, i: int, m: ManifestModel)
    requires
        0 <= i <= s.len(),
        suffix(s, i) == nested_author(m),
    ensures
        p_manifest_tail2(
            s,
            i,
            m.mc_version,
            m.mod_loaders,
            m.manifest_type,
            m.manifest_version as u64,
            m.name,
            m.version,
        ) == Some(m),
{
    let l6 = ",\n  \"author\": "@;
    let l7 = ",\n  \"files\": ["@;
    let l8 = ",\n  \"overrides\": "@;
    let l9 = "\n}"@;
    assert(suffix(s, i) == l6 + (ser_qstr(m.author) + nested_files(m)));
    lemma_p_lit(s, i, l6, ser_qstr(m.author) + nested_files(m));
    let i13 = i + l6.len() as int;
    lemma_p_qstr(s, i13, m.author, nested_files(m));
    let i14 = i13 + ser_qstr(m.author).len() as int;
    assert(suffix(s, i14) =~= l7 + (ser_files_from(m.files, 0) + (seq![']']
        + nested_overrides(m))));
    lemma_p_lit(s, i14, l7, ser_files_from(m.files, 0) + (seq![']'] + nested_overrides(m)));
    let i15 = i14 + l7.len() as int;
    assert(suffix(s, i15) =~= ser_files_from(m.files, 0) + seq![']'] + nested_overrides(m));
    lemma_p_files(s, i15, m.files, nested_overrides(m));
    let i16 = i15 + ser_files_from(m.files, 0).len() + 1;
    assert(suffix(s, i16) == l8 + (ser_qstr(m.overrides) + l9));
    lemma_p_lit(s, i16, l8, ser_qstr(m.overrides) + l9);
    let i17 = i16 + l8.len() as int;
    lemma_p_qstr(s, i17, m.overrides, l9);
    let i18 = i17 + ser_qstr(m.overrides).len() as int;
    assert(suffix(s, i18) =~= l9 + Seq::<char>::empty());
    lemma_p_lit(s, i18, l9, Seq::empty());
    let i19 = i18 + l9.len() as int;
    assert(i19 == s.len());
    assert((ManifestModel {
        mc_version: m.mc_version,
        mod_loaders: m.mod_loaders,
        manifest_type: m.manifest_type,
        manifest_version: (m.manifest_version as u64) as u8,
        name: m.name,
        version: m.version,
        author: m.author,
        files: m.files,
        overrides: m.overrides,
    }) =~= m);
}

/// Parsing the regrouped text from the document kind on completes a
/// manifest whose platform version and loader list are already in hand.
proof fn lemma_p_manifest_tail(s: Seq<char>, i: int, m: ManifestModel)
    requires
        0 <= i <= s.len(),
        suffix(s, i) == nested_mtype(m),
    ensures
        p_manifest_tail(s, i, m.mc_version, m.mod_loaders) == Some(m),
{
    let l2 = "\n  },\n  \"manifestType\": "@;
    let l3 = ",\n  \"manifestVersion\": "@;
    let l4 = ",\n  \"name\": "@;
    let l5 = ",\n  \"version\": "@;
    assert(suffix(s, i) == l2 + (ser_qstr(m.manifest_type) + nested_mversion(m)));
    lemma_p_lit(s, i, l2, ser_qstr(m.manifest_type) + nested_mversion(m));
    let i5 = i + l2.len() as int;
    lemma_p_qstr(s, i5, m.manifest_type, nested_mversion(m));
    let i6 = i5 + ser_qstr(m.manifest_type).len() as int;
    assert(suffix(s, i6) == l3 + (ser_nat(m.manifest_version as nat) + nested_name(m)));
    lemma_p_lit(s, i6, l3, ser_nat(m.manifest_version as nat) + nested_name(m));
    let i7 = i6 + l3.len() as int;
    assert(digit_val(nested_name(m)[0]) < 0) by {
        reveal_strlit(",\n  \"name\": ");
        assert(nested_name(m)[0] == l4[0]);
    }
    lemma_p_num(s, i7, m.manifest_version as u64, nested_name(m));
    let i8 = i7 + ser_nat(m.manifest_version as nat).len() as int;
    assert(suffix(s, i8) == l4 + (ser_qstr(m.name) + nested_version(m)));
    lemma_p_lit(s, i8, l4, ser_qstr(m.name) + nested_version(m));
    let i9 = i8 + l4.len() as int;
    lemma_p_qstr(s, i9, m.name, nested_version(m));
    let i10 = i9 + ser_qstr(m.name).len() as int;
    assert(suffix(s, i10) == l5 + (ser_qstr(m.version) + nested_author(m)));
    lemma_p_lit(s, i10, l5, ser_qstr(m.version) + nested_author(m));
    let i11 = i10 + l5.len() as int;
    lemma_p_qstr(s, i11, m.version, nested_author(m));
    let i12 = i11 + ser_qstr(m.version).len() as int;
    lemma_p_manifest_tail2(s, i12, m);
    assert(m.manifest_version as u64 <= 255);
}

/// Round trip: parsing the document text written for any manifest model
/// gives back exactly that model, whatever metadata it carries and whatever
/// loaders and file references it holds, in their order.
pub proof fn lemma_manifest_round_trip(m: ManifestModel)
    ensures
        p_manifest(ser_manifest(m)) == Some(m),
{
    let s = ser_manifest(m);
    let l0 = "{\n  \"minecraft\": {\n    \"version\": "@;
    let l1 = ",\n    \"modLoaders\": ["@;
    lemma_ser_manifest_nested(m);
    assert(suffix(s, 0) =~= s);
    assert(suffix(s, 0) == l0 + (ser_qstr(m.mc_version) + nested_loaders(m)));
    lemma_p_lit(s, 0, l0, ser_qstr(m.mc_version) + nested_loaders(m));
    let i1 = l0.len() as int;
    lemma_p_qstr(s, i1, m.mc_version, nested_loaders(m));
    let i2 = i1 + ser_qstr(m.mc_version).len() as int;
    assert(suffix(s, i2) == l1 + (ser_loaders_from(m.mod_loaders, 0) + (seq![']']
        + nested_mtype(m))));
    lemma_p_lit(s, i2, l1, ser_loaders_from(m.mod_loaders, 0) + (seq![']'] + nested_mtype(m)));
    let i3 = i2 + l1.len() as int;
    assert(suffix(s, i3) =~= ser_loaders_from(m.mod_loaders, 0) + seq![']'] + nested_mtype(m));
    lemma_p_loaders(s, i3, m.mod_loaders, nested_mtype(m));
    let i4 = i3 + ser_loaders_from(m.mod_loaders, 0).len() + 1;
    lemma_p_manifest_tail(s, i4, m);
}

/// Reading is deterministic: one and the same document text cannot parse to
/// two different manifests.
pub proof fn lemma_read_deterministic(s: Seq<char>, m1: ManifestModel, m2: ManifestModel)
    requires
        p_manifest(s) == Some(m1),
        p_manifest(s) == Some(m2),
    ensures
        m1 == m2,
{
}

} // verus!
