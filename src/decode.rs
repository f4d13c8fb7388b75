//! The header parsers, each following its reading in `parse` exactly.
use vstd::prelude::*;
use crate::bytes::bytes_eq;
use crate::dtype::{parse_dtype, Dtype};
use crate::error::SafetensorError;
use crate::header::{bytes_of, info_of, key_bytes, meta_model, infos_model, Header, TensorInfo};
use crate::name_map::{lemma_insert_map_vals, lemma_map_vals, map_vals, NameMap};
use crate::parse::{at, hex_val, info_fields, info_value, is_digit, is_ws, list_items, meta_members, parse_header_text, parse_info, parse_list, parse_meta, parse_str, parse_uint, skip_ws, str_body, top_members, top_value, text_end, unescape, hex4, utf8_of, digits_val, HeaderModel, InfoAcc};

verus! {

proof fn lemma_skip_ws_bounds(s: Seq<u8>, i: int)
    requires
        0 <= i <= s.len(),
    ensures
        i <= skip_ws(s, i) <= s.len(),
    decreases s.len() - i,
{
    if i < s.len() && is_ws(s[i]) {
        lemma_skip_ws_bounds(s, i + 1);
    }
}

/// Skips whitespace from `i` on.
fn ws(s: &[u8], i: usize) -> (r: usize)
    requires
        i <= s@.len(),
    ensures
        r as int == skip_ws(s@, i as int),
        i <= r <= s@.len(),
{
    let mut j = i;
    while j < s.len() && (s[j] == 32 || s[j] == 9 || s[j] == 10 || s[j] == 13)
        invariant
            i <= j <= s@.len(),
            skip_ws(s@, i as int) == skip_ws(s@, j as int),
        decreases s@.len() - j,
    {
        j = j + 1;
    }
    j
}

fn hex(c: u8) -> (r: i16)
    ensures
        r as int == hex_val(c),
{
    if 48 <= c && c <= 57 {
        (c - 48) as i16
    } else if 97 <= c && c <= 102 {
        (c - 87) as i16
    } else if 65 <= c && c <= 70 {
        (c - 55) as i16
    } else {
        -1
    }
}

fn read_hex4(s: &[u8], i: usize) -> (r: i32)
    ensures
        r as int == hex4(s@, i as int),
{
    if i < s.len() && s.len() - i > 3 {
        let a = hex(s[i]);
        let b = hex(s[i + 1]);
        let c = hex(s[i + 2]);
        let d = hex(s[i + 3]);
        if a >= 0 && b >= 0 && c >= 0 && d >= 0 {
            return (a as i32) * 4096 + (b as i32) * 256 + (c as i32) * 16 + (d as i32);
        }
    }
    -1
}

fn write_utf8(out: &mut Vec<u8>, cp: u32)
    requires
        cp < 0x110000,
    ensures
        final(out)@ == old(out)@ + utf8_of(cp as int),
{
    if cp < 0x80 {
        out.push(cp as u8);
    } else if cp < 0x800 {
        out.push((192 + cp / 64) as u8);
        out.push((128 + cp % 64) as u8);
    } else if cp < 0x10000 {
        out.push((224 + cp / 4096) as u8);
        out.push((128 + (cp / 64) % 64) as u8);
        out.push((128 + cp % 64) as u8);
    } else {
        out.push((240 + cp / 262144) as u8);
        out.push((128 + (cp / 4096) % 64) as u8);
        out.push((128 + (cp / 64) % 64) as u8);
        out.push((128 + cp % 64) as u8);
    }
    assert(final(out)@ =~= old(out)@ + utf8_of(cp as int));
}

/// Appends what the escape sequence at `i` denotes and gives the position after it.
fn read_escape(s: &[u8], i: usize, out: &mut Vec<u8>) -> (r: Option<usize>)
    requires
        i < s@.len(),
    ensures
        match unescape(s@, i as int) {
            Some((b, j)) => r == Some(j as usize) && final(out)@ == old(out)@ + b && i < j <= s@.len(),
            None => r is None,
        },
{
    if s.len() - i < 2 {
        return None;
    }
    let e = s[i + 1];
    let simple: u8 = if e == 34 {
        34
    } else if e == 92 {
        92
    } else if e == 47 {
        47
    } else if e == 98 {
        8
    } else if e == 102 {
        12
    } else if e == 110 {
        10
    } else if e == 114 {
        13
    } else if e == 116 {
        9
    } else {
        0
    };
    if e == 34 || e == 92 || e == 47 || e == 98 || e == 102 || e == 110 || e == 114 || e == 116 {
        out.push(simple);
        assert(out@ =~= old(out)@ + unescape(s@, i as int)->Some_0.0);
        return Some(i + 2);
    }
    if e != 117 {
        return None;
    }
    let v = read_hex4(s, i + 2);
    if v < 0 {
        return None;
    }
    if v < 0xD800 || v > 0xDFFF {
        write_utf8(out, v as u32);
        return Some(i + 6);
    }
    if v <= 0xDBFF && s.len() - i > 7 && s[i + 6] == 92 && s[i + 7] == 117 {
        let w = read_hex4(s, i + 8);
        if 0xDC00 <= w && w <= 0xDFFF {
            write_utf8(out, (0x10000 + (v - 0xD800) * 1024 + (w - 0xDC00)) as u32);
            return Some(i + 12);
        }
    }
    None
}

/// Reads the string starting at `i`.
pub fn read_str(s: &[u8], i: usize) -> (r: Result<(Vec<u8>, usize), SafetensorError>)
    requires
        i <= s@.len(),
    ensures
        match r {
            Ok((v, j)) => parse_str(s@, i as int) == Ok::<_, SafetensorError>((v@, j as int)) && i < j <= s@.len(),
            Err(e) => parse_str(s@, i as int) == Err::<(Seq<u8>, int), _>(e),
        },
{
    if i >= s.len() || s[i] != 34 {
        return Err(SafetensorError::MalformedHeader);
    }
    let mut out: Vec<u8> = Vec::new();
    let mut j = i + 1;
    loop
        invariant
            i < j <= s@.len(),
            parse_str(s@, i as int) == str_body(s@, j as int, out@),
        decreases s@.len() - j,
    {
        if j >= s.len() {
            return Err(SafetensorError::MalformedHeader);
        }
        let c = s[j];
        if c == 34 {
            return Ok((out, j + 1));
        } else if c == 92 {
            match read_escape(s, j, &mut out) {
                Some(n) => {
                    j = n;
                },
                None => {
                    return Err(SafetensorError::MalformedHeader);
                },
            }
        } else if c < 32 {
            return Err(SafetensorError::MalformedHeader);
        } else {
            out.push(c);
            j = j + 1;
        }
    }
}

proof fn lemma_digits_val_grows(s: Seq<u8>, i: int, acc: nat)
    ensures
        digits_val(s, i, acc).0 >= acc,
        digits_val(s, i, acc).1 >= i,
    decreases s.len() - i,
{
    if 0 <= i < s.len() && is_digit(s[i]) {
        lemma_digits_val_grows(s, i + 1, acc * 10 + (s[i] - 48) as nat);
    }
}

/// Reads the unsigned integer starting at `i`.
pub fn read_uint(s: &[u8], i: usize) -> (r: Result<(usize, usize), SafetensorError>)
    requires
        i <= s@.len(),
    ensures
        match r {
            Ok((v, j)) => parse_uint(s@, i as int) == Ok::<_, SafetensorError>((v, j as int)) && i < j <= s@.len(),
            Err(e) => parse_uint(s@, i as int) == Err::<(usize, int), _>(e),
        },
{
    if i >= s.len() || s[i] < 48 || s[i] > 57 {
        return Err(SafetensorError::MalformedHeader);
    }
    if s[i] == 48 {
        return Ok((0, i + 1));
    }
    let mut acc: usize = 0;
    let mut j = i;
    while j < s.len() && 48 <= s[j] && s[j] <= 57
        invariant
            i <= j <= s@.len(),
            digits_val(s@, i as int, 0) == digits_val(s@, j as int, acc as nat),
            j == i ==> acc == 0,
            i < s@.len(),
            s@[i as int] != 48,
            is_digit(s@[i as int]),
        decreases s@.len() - j,
    {
        let d = (s[j] - 48) as usize;
        let next = match acc.checked_mul(10) {
            Some(m) => m.checked_add(d),
            None => None,
        };
        match next {
            Some(n) => {
                acc = n;
            },
            None => {
                proof {
                    lemma_digits_val_grows(s@, j + 1, acc as nat * 10 + d as nat);
                    assert(digits_val(s@, j as int, acc as nat) == digits_val(s@, j + 1, acc as nat * 10 + d as nat));
                    assert(acc as nat * 10 + d as nat > usize::MAX);
                    assert(digits_val(s@, i as int, 0).0 > usize::MAX);
                    assert(s@[i as int] != 48);
                }
                return Err(SafetensorError::MalformedHeader);
            },
        }
        j = j + 1;
    }
    Ok((acc, j))
}

/// Reads the list of unsigned integers starting at `i`.
pub fn read_list(s: &[u8], i: usize) -> (r: Result<(Vec<usize>, usize), SafetensorError>)
    requires
        i <= s@.len(),
    ensures
        match r {
            Ok((v, j)) => parse_list(s@, i as int) == Ok::<_, SafetensorError>((v@, j as int)) && i < j <= s@.len(),
            Err(e) => parse_list(s@, i as int) == Err::<(Seq<usize>, int), _>(e),
        },
{
    if i >= s.len() || s[i] != 91 {
        return Err(SafetensorError::MalformedHeader);
    }
    let mut j = ws(s, i + 1);
    let mut acc: Vec<usize> = Vec::new();
    if j < s.len() && s[j] == 93 {
        return Ok((acc, j + 1));
    }
    loop
        invariant
            i < j <= s@.len(),
            parse_list(s@, i as int) == list_items(s@, j as int, acc@),
        decreases s@.len() - j,
    {
        let (v, k0) = match read_uint(s, j) {
            Ok(p) => p,
            Err(e) => return Err(e),
        };
        let k = ws(s, k0);
        if k < s.len() && s[k] == 44 {
            let n = ws(s, k + 1);
            acc.push(v);
            j = n;
        } else if k < s.len() && s[k] == 93 {
            acc.push(v);
            return Ok((acc, k + 1));
        } else {
            return Err(SafetensorError::MalformedHeader);
        }
    }
}

/// A tensor entry's fields as read so far.
type InfoParts = (Option<Dtype>, Option<Vec<usize>>, Option<(usize, usize)>);

spec fn parts_view(a: InfoParts) -> InfoAcc {
    (a.0, match a.1 { Some(v) => Some(v@), None => None }, a.2)
}

fn read_info_value(s: &[u8], key: &[u8], m: usize, acc: InfoParts) -> (r: Result<(InfoParts, usize), SafetensorError>)
    requires
        m <= s@.len(),
    ensures
        match r {
            Ok((a, n)) => info_value(s@, key@, m as int, parts_view(acc)) == Ok::<_, SafetensorError>((parts_view(a), n as int))
                && m < n <= s@.len(),
            Err(e) => info_value(s@, key@, m as int, parts_view(acc)) == Err::<(InfoAcc, int), _>(e),
        },
{
    let (d0, sh0, off0) = acc;
    if bytes_eq(key, key_bytes(1).as_slice()) {
        if d0.is_some() {
            return Err(SafetensorError::MalformedHeader);
        }
        let (name, n) = match read_str(s, m) {
            Ok(p) => p,
            Err(e) => return Err(e),
        };
        match parse_dtype(name.as_slice()) {
            Ok(d) => Ok(((Some(d), sh0, off0), n)),
            Err(e) => Err(e),
        }
    } else if bytes_eq(key, key_bytes(2).as_slice()) {
        if sh0.is_some() {
            return Err(SafetensorError::MalformedHeader);
        }
        match read_list(s, m) {
            Ok((l, n)) => Ok(((d0, Some(l), off0), n)),
            Err(e) => Err(e),
        }
    } else if bytes_eq(key, key_bytes(3).as_slice()) {
        if off0.is_some() {
            return Err(SafetensorError::MalformedHeader);
        }
        match read_list(s, m) {
            Ok((l, n)) => if l.len() == 2 {
                Ok(((d0, sh0, Some((l[0], l[1]))), n))
            } else {
                Err(SafetensorError::MalformedHeader)
            },
            Err(e) => Err(e),
        }
    } else {
        Err(SafetensorError::MalformedHeader)
    }
}

/// Reads the tensor entry object starting at `i`.
pub fn read_info(s: &[u8], i: usize) -> (r: Result<(TensorInfo, usize), SafetensorError>)
    requires
        i <= s@.len(),
    ensures
        match r {
            Ok((v, j)) => parse_info(s@, i as int) == Ok::<_, SafetensorError>((v@, j as int)) && i < j <= s@.len(),
            Err(e) => parse_info(s@, i as int) == Err::<(crate::header::InfoModel, int), _>(e),
        },
{
    if i >= s.len() || s[i] != 123 {
        return Err(SafetensorError::MalformedHeader);
    }
    let mut j = ws(s, i + 1);
    if j < s.len() && s[j] == 125 {
        return Err(SafetensorError::MalformedHeader);
    }
    let mut acc: InfoParts = (None, None, None);
    loop
        invariant
            i < j <= s@.len(),
            parse_info(s@, i as int) == info_fields(s@, j as int, parts_view(acc)),
        decreases s@.len() - j,
    {
        let (key, j1) = match read_str(s, j) {
            Ok(p) => p,
            Err(e) => return Err(e),
        };
        let k = ws(s, j1);
        if !(k < s.len() && s[k] == 58) {
            return Err(SafetensorError::MalformedHeader);
        }
        let m = ws(s, k + 1);
        let (acc2, n) = match read_info_value(s, key.as_slice(), m, acc) {
            Ok(p) => p,
            Err(e) => return Err(e),
        };
        let p = ws(s, n);
        if p < s.len() && s[p] == 44 {
            j = ws(s, p + 1);
            acc = acc2;
        } else if p < s.len() && s[p] == 125 {
            return match acc2 {
                (Some(d), Some(sh), Some((b, e))) => Ok((TensorInfo { dtype: d, shape: sh, data_offsets: (b, e) }, p + 1)),
                _ => Err(SafetensorError::MalformedHeader),
            };
        } else {
            return Err(SafetensorError::MalformedHeader);
        }
    }
}

/// Reads the metadata object starting at `i`.
pub fn read_meta(s: &[u8], i: usize) -> (r: Result<(NameMap<Vec<u8>>, usize), SafetensorError>)
    requires
        i <= s@.len(),
    ensures
        match r {
            Ok((m, j)) => parse_meta(s@, i as int) == Ok::<_, SafetensorError>((meta_model(Some(m))->0, j as int))
                && m.wf() && i < j <= s@.len(),
            Err(e) => parse_meta(s@, i as int) == Err::<(Seq<(Seq<u8>, Seq<u8>)>, int), _>(e),
        },
{
    if i >= s.len() || s[i] != 123 {
        return Err(SafetensorError::MalformedHeader);
    }
    let mut j = ws(s, i + 1);
    let mut acc: NameMap<Vec<u8>> = NameMap::new();
    assert(map_vals(acc@, bytes_of()) =~= Seq::<(Seq<u8>, Seq<u8>)>::empty());
    if j < s.len() && s[j] == 125 {
        return Ok((acc, j + 1));
    }
    loop
        invariant
            i < j <= s@.len(),
            acc.wf(),
            parse_meta(s@, i as int) == meta_members(s@, j as int, map_vals(acc@, bytes_of())),
        decreases s@.len() - j,
    {
        let (key, j1) = match read_str(s, j) {
            Ok(p) => p,
            Err(e) => return Err(e),
        };
        let k = ws(s, j1);
        if !(k < s.len() && s[k] == 58) {
            return Err(SafetensorError::MalformedHeader);
        }
        let m = ws(s, k + 1);
        let (val, n) = match read_str(s, m) {
            Ok(p) => p,
            Err(e) => return Err(e),
        };
        proof { lemma_map_vals(acc@, bytes_of()); }
        if acc.find(key.as_slice()).is_some() {
            return Err(SafetensorError::MalformedHeader);
        }
        let ghost before = acc@;
        let ghost kv = key@;
        let ghost vv = val;
        acc.insert(key, val);
        proof {
            lemma_insert_map_vals(before, kv, vv, bytes_of());
        }
        let p = ws(s, n);
        if p < s.len() && s[p] == 44 {
            j = ws(s, p + 1);
        } else if p < s.len() && s[p] == 125 {
            return Ok((acc, p + 1));
        } else {
            return Err(SafetensorError::MalformedHeader);
        }
    }
}

/// A header being read: the metadata so far and the tensor entries so far.
type TopParts = (Option<NameMap<Vec<u8>>>, NameMap<TensorInfo>);

spec fn top_view(a: TopParts) -> HeaderModel {
    (meta_model(a.0), infos_model(a.1))
}

spec fn top_wf(a: TopParts) -> bool {
    a.1.wf() && (a.0 matches Some(m) ==> m.wf())
}

fn read_top_value(s: &[u8], key: Vec<u8>, m: usize, acc: TopParts) -> (r: Result<(TopParts, usize), SafetensorError>)
    requires
        m <= s@.len(),
        top_wf(acc),
    ensures
        match r {
            Ok((a, n)) => top_value(s@, key@, m as int, top_view(acc)) == Ok::<_, SafetensorError>((top_view(a), n as int))
                && m < n <= s@.len() && top_wf(a),
            Err(e) => top_value(s@, key@, m as int, top_view(acc)) == Err::<(HeaderModel, int), _>(e),
        },
{
    let (meta, mut tensors) = acc;
    if bytes_eq(key.as_slice(), key_bytes(0).as_slice()) {
        if meta.is_some() {
            return Err(SafetensorError::MalformedHeader);
        }
        match read_meta(s, m) {
            Ok((md, n)) => Ok(((Some(md), tensors), n)),
            Err(e) => Err(e),
        }
    } else {
        proof { lemma_map_vals(tensors@, info_of()); }
        if tensors.find(key.as_slice()).is_some() {
            return Err(SafetensorError::MalformedHeader);
        }
        match read_info(s, m) {
            Ok((info, n)) => {
                let ghost before = tensors@;
                let ghost kv = key@;
                let ghost iv = info;
                tensors.insert(key, info);
                proof { lemma_insert_map_vals(before, kv, iv, info_of()); }
                Ok(((meta, tensors), n))
            },
            Err(e) => Err(e),
        }
    }
}

/// Reads a header text: one JSON object with whitespace around it.
pub fn read_header_text(s: &[u8]) -> (r: Result<Header, SafetensorError>)
    ensures
        match r {
            Ok(h) => parse_header_text(s@) == Ok::<_, SafetensorError>((meta_model(h.metadata), infos_model(h.tensors)))
                && h.wf(),
            Err(e) => parse_header_text(s@) == Err::<HeaderModel, _>(e),
        },
{
    reveal(parse_header_text);
    let i = ws(s, 0);
    if !(i < s.len() && s[i] == 123) {
        return Err(SafetensorError::MalformedHeader);
    }
    let mut j = ws(s, i + 1);
    let mut acc: TopParts = (None, NameMap::new());
    assert(infos_model(acc.1) =~= Seq::<(Seq<u8>, crate::header::InfoModel)>::empty());
    let mut end: usize = j;
    if j < s.len() && s[j] == 125 {
        end = j + 1;
    } else {
        loop
            invariant_except_break
                i < j <= s@.len(),
                top_wf(acc),
                parse_header_text(s@) == text_end(s@, top_members(s@, j as int, top_view(acc))),
            ensures
                end <= s@.len(),
                top_wf(acc),
                parse_header_text(s@) == text_end(s@, Ok((top_view(acc), end as int))),
            decreases s@.len() - j,
        {
            let (key, j1) = match read_str(s, j) {
                Ok(p) => p,
                Err(e) => return Err(e),
            };
            let k = ws(s, j1);
            if !(k < s.len() && s[k] == 58) {
                return Err(SafetensorError::MalformedHeader);
            }
            let m = ws(s, k + 1);
            let (acc2, n) = match read_top_value(s, key, m, acc) {
                Ok(p) => p,
                Err(e) => return Err(e),
            };
            let p = ws(s, n);
            if p < s.len() && s[p] == 44 {
                j = ws(s, p + 1);
                acc = acc2;
            } else if p < s.len() && s[p] == 125 {
                acc = acc2;
                end = p + 1;
                break;
            } else {
                return Err(SafetensorError::MalformedHeader);
            }
        }
    }
    if ws(s, end) != s.len() {
        return Err(SafetensorError::MalformedHeader);
    }
    let (metadata, tensors) = acc;
    Ok(Header { metadata, tensors })
}

} // verus!
