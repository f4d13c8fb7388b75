//! Reading the header JSON: what each part of the text means, and the
//! parsers that follow that reading exactly.
use vstd::prelude::*;
use crate::dtype::{dtype_of_name, Dtype};
use crate::error::SafetensorError;
use crate::header::{key_dtype, key_offsets, key_shape, metadata_key, InfoModel};
use crate::name_map::{has_name, insert_sorted};

verus! {

/// What a header says: the metadata, if present, and the tensor entries, both sorted by name.
pub type HeaderModel = (Option<Seq<(Seq<u8>, Seq<u8>)>>, Seq<(Seq<u8>, InfoModel)>);

/// What is known of a tensor entry while its fields are read.
pub type InfoAcc = (Option<Dtype>, Option<Seq<usize>>, Option<(usize, usize)>);

pub open spec fn is_ws(c: u8) -> bool {
    c == 32 || c == 9 || c == 10 || c == 13
}

/// Whether `s[i]` exists and is `c`.
pub open spec fn at(s: Seq<u8>, i: int, c: u8) -> bool {
    0 <= i < s.len() && s[i] == c
}

/// The first position from `i` on that holds no whitespace.
pub open spec fn skip_ws(s: Seq<u8>, i: int) -> int
    decreases s.len() - i,
{
    if 0 <= i < s.len() && is_ws(s[i]) {
        skip_ws(s, i + 1)
    } else {
        i
    }
}

/// The value of a hexadecimal digit, or -1.
pub open spec fn hex_val(c: u8) -> int {
    if 48 <= c <= 57 {
        c - 48
    } else if 97 <= c <= 102 {
        c - 87
    } else if 65 <= c <= 70 {
        c - 55
    } else {
        -1
    }
}

/// The value of the four hexadecimal digits at `i`, or -1.
pub open spec fn hex4(s: Seq<u8>, i: int) -> int {
    if 0 <= i && i + 3 < s.len() && hex_val(s[i]) >= 0 && hex_val(s[i + 1]) >= 0 && hex_val(s[i + 2]) >= 0
        && hex_val(s[i + 3]) >= 0 {
        hex_val(s[i]) * 4096 + hex_val(s[i + 1]) * 256 + hex_val(s[i + 2]) * 16 + hex_val(s[i + 3])
    } else {
        -1
    }
}

/// The UTF-8 encoding of the code point `cp`.
pub open spec fn utf8_of(cp: int) -> Seq<u8> {
    if cp < 0x80 {
        seq![cp as u8]
    } else if cp < 0x800 {
        seq![(192 + cp / 64) as u8, (128 + cp % 64) as u8]
    } else if cp < 0x10000 {
        seq![(224 + cp / 4096) as u8, (128 + (cp / 64) % 64) as u8, (128 + cp % 64) as u8]
    } else {
        seq![(240 + cp / 262144) as u8, (128 + (cp / 4096) % 64) as u8, (128 + (cp / 64) % 64) as u8, (128 + cp % 64) as u8]
    }
}

/// The bytes denoted by the escape sequence whose backslash is at `i`, and
/// the position after it. A `\u` escape denotes a code point, written in
/// UTF-8; a high surrogate must be followed by an escaped low surrogate.
pub open spec fn unescape(s: Seq<u8>, i: int) -> Option<(Seq<u8>, int)> {
    if !(0 <= i && i + 1 < s.len()) {
        None
    } else {
        let e = s[i + 1];
        if e == 34 {
            Some((seq![34u8], i + 2))
        } else if e == 92 {
            Some((seq![92u8], i + 2))
        } else if e == 47 {
            Some((seq![47u8], i + 2))
        } else if e == 98 {
            Some((seq![8u8], i + 2))
        } else if e == 102 {
            Some((seq![12u8], i + 2))
        } else if e == 110 {
            Some((seq![10u8], i + 2))
        } else if e == 114 {
            Some((seq![13u8], i + 2))
        } else if e == 116 {
            Some((seq![9u8], i + 2))
        } else if e == 117 {
            let v = hex4(s, i + 2);
            if v < 0 {
                None
            } else if v < 0xD800 || v > 0xDFFF {
                Some((utf8_of(v), i + 6))
            } else if v <= 0xDBFF && i + 7 < s.len() && s[i + 6] == 92 && s[i + 7] == 117
                && 0xDC00 <= hex4(s, i + 8) <= 0xDFFF {
                Some((utf8_of(0x10000 + (v - 0xD800) * 1024 + (hex4(s, i + 8) - 0xDC00)), i + 12))
            } else {
                None
            }
        } else {
            None
        }
    }
}

/// The rest of a string from `i` on, after the bytes `acc` already read.
pub open spec fn str_body(s: Seq<u8>, i: int, acc: Seq<u8>) -> Result<(Seq<u8>, int), SafetensorError>
    decreases s.len() - i,
{
    if !(0 <= i < s.len()) {
        Err(SafetensorError::MalformedHeader)
    } else if s[i] == 34 {
        Ok((acc, i + 1))
    } else if s[i] == 92 {
        match unescape(s, i) {
            Some((b, j)) => if i < j <= s.len() {
                str_body(s, j, acc + b)
            } else {
                Err(SafetensorError::MalformedHeader)
            },
            None => Err(SafetensorError::MalformedHeader),
        }
    } else if s[i] < 32 {
        Err(SafetensorError::MalformedHeader)
    } else {
        str_body(s, i + 1, acc.push(s[i]))
    }
}

/// The string starting at `i`, and the position after it.
pub open spec fn parse_str(s: Seq<u8>, i: int) -> Result<(Seq<u8>, int), SafetensorError> {
    if at(s, i, 34) {
        str_body(s, i + 1, Seq::empty())
    } else {
        Err(SafetensorError::MalformedHeader)
    }
}

pub open spec fn is_digit(c: u8) -> bool {
    48 <= c <= 57
}

/// The value of the digits from `i` on, after the value `acc` already read.
pub open spec fn digits_val(s: Seq<u8>, i: int, acc: nat) -> (nat, int)
    decreases s.len() - i,
{
    if 0 <= i < s.len() && is_digit(s[i]) {
        digits_val(s, i + 1, acc * 10 + (s[i] - 48) as nat)
    } else {
        (acc, i)
    }
}

/// The unsigned integer starting at `i` (no leading zero), and the position after it.
pub open spec fn parse_uint(s: Seq<u8>, i: int) -> Result<(usize, int), SafetensorError> {
    if !(0 <= i < s.len() && is_digit(s[i])) {
        Err(SafetensorError::MalformedHeader)
    } else if s[i] == 48 {
        Ok((0usize, i + 1))
    } else {
        let (v, j) = digits_val(s, i, 0);
        if v > usize::MAX {
            Err(SafetensorError::MalformedHeader)
        } else {
            Ok((v as usize, j))
        }
    }
}

/// The items of a list from `i` on, after the items `acc` already read.
pub open spec fn list_items(s: Seq<u8>, i: int, acc: Seq<usize>) -> Result<(Seq<usize>, int), SafetensorError>
    decreases s.len() - i,
{
    match parse_uint(s, i) {
        Err(e) => Err(e),
        Ok((v, j)) => {
            let k = skip_ws(s, j);
            if at(s, k, 44) {
                let n = skip_ws(s, k + 1);
                if i < n <= s.len() {
                    list_items(s, n, acc.push(v))
                } else {
                    Err(SafetensorError::MalformedHeader)
                }
            } else if at(s, k, 93) {
                Ok((acc.push(v), k + 1))
            } else {
                Err(SafetensorError::MalformedHeader)
            }
        },
    }
}

/// The list of unsigned integers starting at `i`, and the position after it.
pub open spec fn parse_list(s: Seq<u8>, i: int) -> Result<(Seq<usize>, int), SafetensorError> {
    if at(s, i, 91) {
        let j = skip_ws(s, i + 1);
        if at(s, j, 93) {
            Ok((Seq::empty(), j + 1))
        } else {
            list_items(s, j, Seq::empty())
        }
    } else {
        Err(SafetensorError::MalformedHeader)
    }
}

/// Reads the value of the tensor field `key` at `m`.
pub open spec fn info_value(s: Seq<u8>, key: Seq<u8>, m: int, acc: InfoAcc) -> Result<(InfoAcc, int), SafetensorError> {
    if key == key_dtype() {
        if acc.0 is Some {
            Err(SafetensorError::MalformedHeader)
        } else {
            match parse_str(s, m) {
                Err(e) => Err(e),
                Ok((name, n)) => match dtype_of_name(name) {
                    None => Err(SafetensorError::UnsupportedDtype),
                    Some(d) => Ok(((Some(d), acc.1, acc.2), n)),
                },
            }
        }
    } else if key == key_shape() {
        if acc.1 is Some {
            Err(SafetensorError::MalformedHeader)
        } else {
            match parse_list(s, m) {
                Err(e) => Err(e),
                Ok((l, n)) => Ok(((acc.0, Some(l), acc.2), n)),
            }
        }
    } else if key == key_offsets() {
        if acc.2 is Some {
            Err(SafetensorError::MalformedHeader)
        } else {
            match parse_list(s, m) {
                Err(e) => Err(e),
                Ok((l, n)) => if l.len() == 2 {
                    Ok(((acc.0, acc.1, Some((l[0], l[1]))), n))
                } else {
                    Err(SafetensorError::MalformedHeader)
                },
            }
        }
    } else {
        Err(SafetensorError::MalformedHeader)
    }
}

/// The tensor entry once all fields are read: all three must be present.
pub open spec fn info_finish(acc: InfoAcc, e: int) -> Result<(InfoModel, int), SafetensorError> {
    match acc {
        (Some(d), Some(sh), Some((b, en))) => Ok((InfoModel { dtype: d, shape: sh, begin: b as nat, end: en as nat }, e)),
        _ => Err(SafetensorError::MalformedHeader),
    }
}

/// The fields of a tensor entry from `i` on.
pub open spec fn info_fields(s: Seq<u8>, i: int, acc: InfoAcc) -> Result<(InfoModel, int), SafetensorError>
    decreases s.len() - i,
{
    match parse_str(s, i) {
        Err(e) => Err(e),
        Ok((key, j)) => {
            let k = skip_ws(s, j);
            if !at(s, k, 58) {
                Err(SafetensorError::MalformedHeader)
            } else {
                match info_value(s, key, skip_ws(s, k + 1), acc) {
                    Err(e) => Err(e),
                    Ok((acc2, n)) => {
                        let p = skip_ws(s, n);
                        if at(s, p, 44) {
                            let q = skip_ws(s, p + 1);
                            if i < q <= s.len() {
                                info_fields(s, q, acc2)
                            } else {
                                Err(SafetensorError::MalformedHeader)
                            }
                        } else if at(s, p, 125) {
                            info_finish(acc2, p + 1)
                        } else {
                            Err(SafetensorError::MalformedHeader)
                        }
                    },
                }
            }
        },
    }
}

/// The tensor entry object starting at `i`, and the position after it.
pub open spec fn parse_info(s: Seq<u8>, i: int) -> Result<(InfoModel, int), SafetensorError> {
    if at(s, i, 123) {
        let j = skip_ws(s, i + 1);
        if at(s, j, 125) {
            Err(SafetensorError::MalformedHeader)
        } else {
            info_fields(s, j, (None, None, None))
        }
    } else {
        Err(SafetensorError::MalformedHeader)
    }
}

/// The members of the metadata object from `i` on; a repeated key is an error.
pub open spec fn meta_members(
    s: Seq<u8>,
    i: int,
    acc: Seq<(Seq<u8>, Seq<u8>)>,
) -> Result<(Seq<(Seq<u8>, Seq<u8>)>, int), SafetensorError>
    decreases s.len() - i,
{
    match parse_str(s, i) {
        Err(e) => Err(e),
        Ok((key, j)) => {
            let k = skip_ws(s, j);
            if !at(s, k, 58) {
                Err(SafetensorError::MalformedHeader)
            } else {
                match parse_str(s, skip_ws(s, k + 1)) {
                    Err(e) => Err(e),
                    Ok((val, n)) => {
                        if has_name(acc, key) {
                            Err(SafetensorError::MalformedHeader)
                        } else {
                            let acc2 = insert_sorted(acc, key, val);
                            let p = skip_ws(s, n);
                            if at(s, p, 44) {
                                let q = skip_ws(s, p + 1);
                                if i < q <= s.len() {
                                    meta_members(s, q, acc2)
                                } else {
                                    Err(SafetensorError::MalformedHeader)
                                }
                            } else if at(s, p, 125) {
                                Ok((acc2, p + 1))
                            } else {
                                Err(SafetensorError::MalformedHeader)
                            }
                        }
                    },
                }
            }
        },
    }
}

/// The metadata object starting at `i`, and the position after it.
pub open spec fn parse_meta(s: Seq<u8>, i: int) -> Result<(Seq<(Seq<u8>, Seq<u8>)>, int), SafetensorError> {
    if at(s, i, 123) {
        let j = skip_ws(s, i + 1);
        if at(s, j, 125) {
            Ok((Seq::empty(), j + 1))
        } else {
            meta_members(s, j, Seq::empty())
        }
    } else {
        Err(SafetensorError::MalformedHeader)
    }
}

/// Reads the value of the header member `key` at `m`.
pub open spec fn top_value(s: Seq<u8>, key: Seq<u8>, m: int, acc: HeaderModel) -> Result<(HeaderModel, int), SafetensorError> {
    if key == metadata_key() {
        if acc.0 is Some {
            Err(SafetensorError::MalformedHeader)
        } else {
            match parse_meta(s, m) {
                Err(e) => Err(e),
                Ok((md, n)) => Ok(((Some(md), acc.1), n)),
            }
        }
    } else if has_name(acc.1, key) {
        Err(SafetensorError::MalformedHeader)
    } else {
        match parse_info(s, m) {
            Err(e) => Err(e),
            Ok((info, n)) => Ok(((acc.0, insert_sorted(acc.1, key, info)), n)),
        }
    }
}

/// The members of the header object from `i` on.
pub open spec fn top_members(s: Seq<u8>, i: int, acc: HeaderModel) -> Result<(HeaderModel, int), SafetensorError>
    decreases s.len() - i,
{
    match parse_str(s, i) {
        Err(e) => Err(e),
        Ok((key, j)) => {
            let k = skip_ws(s, j);
            if !at(s, k, 58) {
                Err(SafetensorError::MalformedHeader)
            } else {
                match top_value(s, key, skip_ws(s, k + 1), acc) {
                    Err(e) => Err(e),
                    Ok((acc2, n)) => {
                        let p = skip_ws(s, n);
                        if at(s, p, 44) {
                            let q = skip_ws(s, p + 1);
                            if i < q <= s.len() {
                                top_members(s, q, acc2)
                            } else {
                                Err(SafetensorError::MalformedHeader)
                            }
                        } else if at(s, p, 125) {
                            Ok((acc2, p + 1))
                        } else {
                            Err(SafetensorError::MalformedHeader)
                        }
                    },
                }
            }
        },
    }
}

/// What the header text `s` says: one JSON object, with whitespace around it
/// and between its tokens.
#[verifier::opaque]
pub open spec fn parse_header_text(s: Seq<u8>) -> Result<HeaderModel, SafetensorError> {
    let i = skip_ws(s, 0);
    if !at(s, i, 123) {
        Err(SafetensorError::MalformedHeader)
    } else {
        let j = skip_ws(s, i + 1);
        if at(s, j, 125) {
            text_end(s, Ok(((None, Seq::empty()), j + 1)))
        } else {
            text_end(s, top_members(s, j, (None, Seq::empty())))
        }
    }
}

/// The header read, provided only whitespace follows the object.
pub open spec fn text_end(s: Seq<u8>, r: Result<(HeaderModel, int), SafetensorError>) -> Result<HeaderModel, SafetensorError> {
    match r {
        Err(e) => Err(e),
        Ok((h, e)) => if skip_ws(s, e) == s.len() {
            Ok(h)
        } else {
            Err(SafetensorError::MalformedHeader)
        },
    }
}

} // verus!
