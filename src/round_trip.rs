//! Reading back what the writer produces.
use vstd::prelude::*;
use crate::validate::le_u64;
use crate::view::TensorView;
use crate::writer::{data_concat, layout, le_bytes};
use crate::json::{digits, enc_list, enc_str, esc_byte, escaped, hex_digit, join};
use crate::bytes::{lex_lt, lemma_lex_irreflexive, lemma_lex_total};
use crate::dtype::lemma_dtype_of_own_name;
use crate::header::{enc_header, enc_info, enc_meta, header_members, key_dtype, key_offsets, key_shape, member, metadata_key, InfoModel};
use crate::name_map::{has_name, insert_sorted, sorted_by_name};
use crate::parse::{
    at, digits_val, hex4, hex_val, utf8_of, info_fields, info_value, is_digit, is_ws, list_items, meta_members,
    parse_header_text, parse_info, parse_list, parse_meta, parse_str, parse_uint, skip_ws, str_body, text_end,
    top_members, top_value, unescape, HeaderModel,
};

verus! {

/// Splits a subrange equality over a concatenation.
pub proof fn lemma_split(s: Seq<u8>, i: int, a: Seq<u8>, b: Seq<u8>)
    requires
        0 <= i,
        i + a.len() + b.len() <= s.len(),
        s.subrange(i, i + a.len() + b.len()) == a + b,
    ensures
        s.subrange(i, i + a.len()) == a,
        s.subrange(i + a.len(), i + a.len() + b.len()) == b,
{
    assert(s.subrange(i, i + a.len()) =~= (a + b).subrange(0, a.len() as int));
    assert(s.subrange(i + a.len(), i + a.len() + b.len()) =~= (a + b).subrange(a.len() as int, (a.len() + b.len()) as int));
}

/// The byte at `i + k` of a subrange equal to `a`.
pub proof fn lemma_at(s: Seq<u8>, i: int, a: Seq<u8>, k: int)
    requires
        0 <= i,
        i + a.len() <= s.len(),
        s.subrange(i, i + a.len()) == a,
        0 <= k < a.len(),
    ensures
        s[i + k] == a[k],
{
    assert(s.subrange(i, i + a.len())[k] == s[i + k]);
}

proof fn lemma_escaped_front(c: u8, w: Seq<u8>)
    ensures
        escaped(seq![c] + w) == esc_byte(c) + escaped(w),
    decreases w.len(),
{
    if w.len() == 0 {
        assert(seq![c] + w =~= seq![c]);
        assert(seq![c].drop_last() =~= Seq::<u8>::empty());
        assert(escaped(Seq::<u8>::empty()) =~= Seq::<u8>::empty());
        assert(esc_byte(c) + escaped(w) =~= esc_byte(c));
    } else {
        assert((seq![c] + w).drop_last() =~= seq![c] + w.drop_last());
        lemma_escaped_front(c, w.drop_last());
        assert((seq![c] + w).last() == w.last());
        assert(esc_byte(c) + escaped(w) =~= esc_byte(c) + escaped(w.drop_last()) + esc_byte(w.last()));
    }
}

proof fn lemma_hex(n: u8)
    requires
        n < 16,
    ensures
        hex_val(hex_digit(n)) == n,
        hex_digit(n) != 34 && hex_digit(n) != 92,
{
}

/// The body of a written string reads back as the bytes written.
proof fn lemma_str_body(s: Seq<u8>, j: int, w: Seq<u8>, acc: Seq<u8>)
    requires
        0 <= j,
        j + escaped(w).len() + 1 <= s.len(),
        s.subrange(j, j + escaped(w).len() + 1) == escaped(w) + seq![34u8],
    ensures
        str_body(s, j, acc) == Ok::<_, crate::error::SafetensorError>((acc + w, j + escaped(w).len() + 1)),
    decreases w.len(),
{
    if w.len() == 0 {
        assert(escaped(w) =~= Seq::<u8>::empty());
        lemma_at(s, j, escaped(w) + seq![34u8], 0);
        assert(acc + w =~= acc);
    } else {
        let c = w[0];
        let rest = w.drop_first();
        assert(w =~= seq![c] + rest);
        lemma_escaped_front(c, rest);
        let e = esc_byte(c);
        let total = escaped(w) + seq![34u8];
        assert(total =~= e + (escaped(rest) + seq![34u8]));
        lemma_split(s, j, e, escaped(rest) + seq![34u8]);
        lemma_at(s, j, e, 0);
        if c == 34 || c == 92 {
            lemma_at(s, j, e, 1);
            assert(unescape(s, j) == Some((seq![c], j + 2)));
        } else if c < 32 {
            lemma_at(s, j, e, 1);
            lemma_at(s, j, e, 2);
            lemma_at(s, j, e, 3);
            lemma_at(s, j, e, 4);
            lemma_at(s, j, e, 5);
            lemma_hex(c / 16);
            lemma_hex(c % 16);
            assert(hex4(s, j + 2) == c as int);
            assert(utf8_of(c as int) == seq![c]);
            assert(unescape(s, j) == Some((seq![c], j + 6)));
        }
        assert(acc + seq![c] =~= acc.push(c));
        lemma_str_body(s, j + e.len(), rest, acc.push(c));
        assert(acc.push(c) + rest =~= acc + w);
    }
}

/// A written string reads back as the bytes written.
pub proof fn lemma_parse_str(s: Seq<u8>, i: int, w: Seq<u8>)
    requires
        0 <= i,
        i + enc_str(w).len() <= s.len(),
        s.subrange(i, i + enc_str(w).len()) == enc_str(w),
    ensures
        parse_str(s, i) == Ok::<_, crate::error::SafetensorError>((w, i + enc_str(w).len())),
{
    assert(enc_str(w) =~= seq![34u8] + (escaped(w) + seq![34u8]));
    lemma_split(s, i, seq![34u8], escaped(w) + seq![34u8]);
    lemma_at(s, i, enc_str(w), 0);
    lemma_str_body(s, i + 1, w, Seq::empty());
    assert(Seq::<u8>::empty() + w =~= w);
}

/// The scale of the digits of `n`: ten to the power of their count.
pub open spec fn scale(n: nat) -> nat
    decreases n,
{
    if n < 10 {
        10
    } else {
        scale(n / 10) * 10
    }
}

proof fn lemma_digits_shape(n: nat)
    ensures
        digits(n).len() >= 1,
        forall|k: int| 0 <= k < digits(n).len() ==> is_digit(#[trigger] digits(n)[k]),
        n > 0 ==> digits(n)[0] != 48,
        n == 0 ==> digits(n) == seq![48u8],
    decreases n,
{
    if n >= 10 {
        lemma_digits_shape(n / 10);
        let d = digits(n);
        assert forall|k: int| 0 <= k < d.len() implies is_digit(#[trigger] d[k]) by {
            if k < d.len() - 1 {
                assert(d[k] == digits(n / 10)[k]);
            }
        }
        assert(d[0] == digits(n / 10)[0]);
    }
}

proof fn lemma_digits_val(s: Seq<u8>, i: int, n: nat, acc: nat)
    requires
        0 <= i,
        i + digits(n).len() <= s.len(),
        s.subrange(i, i + digits(n).len()) == digits(n),
    ensures
        digits_val(s, i, acc) == digits_val(s, i + digits(n).len(), acc * scale(n) + n),
    decreases n,
{
    lemma_digits_shape(n);
    if n < 10 {
        lemma_at(s, i, digits(n), 0);
        assert(digits_val(s, i, acc) == digits_val(s, i + 1, acc * 10 + n));
    } else {
        let q = n / 10;
        let r = n % 10;
        let dq = digits(q);
        assert(digits(n) =~= dq + seq![(48 + r) as u8]);
        lemma_split(s, i, dq, seq![(48 + r) as u8]);
        lemma_digits_val(s, i, q, acc);
        let l = dq.len() as int;
        lemma_at(s, i, digits(n), l);
        let x = acc * scale(q) + q;
        assert(digits_val(s, i + l, x) == digits_val(s, i + l + 1, x * 10 + r));
        assert(x * 10 + r == acc * (scale(q) * 10) + n) by (nonlinear_arith)
            requires x == acc * scale(q) + q, n == q * 10 + r;
    }
}

/// A written unsigned integer, followed by a byte that is no digit, reads back.
pub proof fn lemma_parse_uint(s: Seq<u8>, i: int, n: usize)
    requires
        0 <= i,
        i + digits(n as nat).len() < s.len(),
        s.subrange(i, i + digits(n as nat).len()) == digits(n as nat),
        !is_digit(s[i + digits(n as nat).len()]),
    ensures
        parse_uint(s, i) == Ok::<_, crate::error::SafetensorError>((n, i + digits(n as nat).len())),
{
    lemma_digits_shape(n as nat);
    lemma_at(s, i, digits(n as nat), 0);
    if n == 0 {
    } else {
        lemma_digits_val(s, i, n as nat, 0);
        let l = digits(n as nat).len() as int;
        assert(digits_val(s, i + l, n as nat) == (n as nat, i + l));
    }
}

/// `join` read from the front.
pub proof fn lemma_join_front(items: Seq<Seq<u8>>)
    requires
        items.len() >= 2,
    ensures
        join(items) == items[0] + seq![44u8] + join(items.drop_first()),
    decreases items.len(),
{
    if items.len() == 2 {
        assert(items.drop_last() =~= seq![items[0]]);
        assert(items.drop_first() =~= seq![items[1]]);
        assert(join(seq![items[0]]) == items[0]);
        assert(join(seq![items[1]]) == items[1]);
    } else {
        lemma_join_front(items.drop_last());
        assert(items.drop_last().drop_first() =~= items.drop_first().drop_last());
        assert(items.drop_first().last() == items.last());
        assert(join(items) =~= items[0] + seq![44u8] + join(items.drop_first()));
    }
}

/// The items of a written list, from some item on, read back.
proof fn lemma_list_items(s: Seq<u8>, j: int, l: Seq<usize>, acc: Seq<usize>)
    requires
        0 <= j,
        l.len() >= 1,
        ({
            let t = join(l.map_values(|n: usize| digits(n as nat))) + seq![93u8];
            j + t.len() <= s.len() && s.subrange(j, j + t.len()) == t
        }),
    ensures
        list_items(s, j, acc) == Ok::<_, crate::error::SafetensorError>(
            (acc + l, j + join(l.map_values(|n: usize| digits(n as nat))).len() + 1),
        ),
    decreases l.len(),
{
    let items = l.map_values(|n: usize| digits(n as nat));
    let d0 = digits(l[0] as nat);
    lemma_digits_shape(l[0] as nat);
    if l.len() == 1 {
        assert(join(items) == d0);
        lemma_split(s, j, d0, seq![93u8]);
        lemma_at(s, j + d0.len(), seq![93u8], 0);
        lemma_parse_uint(s, j, l[0]);
        assert(acc.push(l[0]) =~= acc + l);
    } else {
        lemma_join_front(items);
        let rest = l.drop_first();
        assert(items.drop_first() =~= rest.map_values(|n: usize| digits(n as nat)));
        let tail = join(rest.map_values(|n: usize| digits(n as nat))) + seq![93u8];
        assert(join(items) + seq![93u8] =~= d0 + (seq![44u8] + tail));
        lemma_split(s, j, d0, seq![44u8] + tail);
        lemma_split(s, j + d0.len(), seq![44u8], tail);
        lemma_at(s, j + d0.len(), seq![44u8], 0);
        lemma_parse_uint(s, j, l[0]);
        let k = j + d0.len();
        lemma_digits_shape(rest[0] as nat);
        assert(rest.map_values(|n: usize| digits(n as nat))[0] == digits(rest[0] as nat));
        assert(join(rest.map_values(|n: usize| digits(n as nat))).len() >= 1) by {
            if rest.len() >= 2 {
                lemma_join_front(rest.map_values(|n: usize| digits(n as nat)));
            }
        }
        assert(tail[0] == join(rest.map_values(|n: usize| digits(n as nat)))[0]);
        assert(join(rest.map_values(|n: usize| digits(n as nat)))[0] == digits(rest[0] as nat)[0]) by {
            if rest.len() >= 2 {
                lemma_join_front(rest.map_values(|n: usize| digits(n as nat)));
            }
        }
        lemma_at(s, k + 1, tail, 0);
        lemma_list_items(s, k + 1, rest, acc.push(l[0]));
        assert(acc.push(l[0]) + rest =~= acc + l);
    }
}

/// A written list reads back.
pub proof fn lemma_parse_list(s: Seq<u8>, i: int, l: Seq<usize>)
    requires
        0 <= i,
        i + enc_list(l).len() <= s.len(),
        s.subrange(i, i + enc_list(l).len()) == enc_list(l),
    ensures
        parse_list(s, i) == Ok::<_, crate::error::SafetensorError>((l, i + enc_list(l).len())),
{
    let items = l.map_values(|n: usize| digits(n as nat));
    let body = join(items) + seq![93u8];
    assert(enc_list(l) =~= seq![91u8] + body);
    lemma_split(s, i, seq![91u8], body);
    lemma_at(s, i, enc_list(l), 0);
    if l.len() == 0 {
        assert(join(items) =~= Seq::<u8>::empty());
        lemma_at(s, i + 1, body, 0);
        assert(l =~= Seq::<usize>::empty());
    } else {
        lemma_digits_shape(l[0] as nat);
        assert(items[0] == digits(l[0] as nat));
        assert(join(items)[0] == items[0][0] && join(items).len() >= 1) by {
            if l.len() >= 2 {
                lemma_join_front(items);
            }
        }
        lemma_at(s, i + 1, body, 0);
        lemma_list_items(s, i + 1, l, Seq::empty());
        assert(Seq::<usize>::empty() + l =~= l);
    }
}

/// A written member `"k":v` reads as its key, a colon, and the value's text.
proof fn lemma_member(s: Seq<u8>, i: int, k: Seq<u8>, v: Seq<u8>)
    requires
        0 <= i,
        i + member(k, v).len() <= s.len(),
        s.subrange(i, i + member(k, v).len()) == member(k, v),
        v.len() > 0,
        !is_ws(v[0]),
    ensures
        parse_str(s, i) == Ok::<_, crate::error::SafetensorError>((k, i + enc_str(k).len())),
        skip_ws(s, i + enc_str(k).len()) == i + enc_str(k).len(),
        at(s, i + enc_str(k).len(), 58),
        skip_ws(s, i + enc_str(k).len() + 1) == i + enc_str(k).len() + 1,
        s.subrange(i + enc_str(k).len() + 1, i + member(k, v).len()) == v,
        member(k, v).len() == enc_str(k).len() + 1 + v.len(),
{
    assert(member(k, v) =~= enc_str(k) + (seq![58u8] + v));
    lemma_split(s, i, enc_str(k), seq![58u8] + v);
    lemma_split(s, i + enc_str(k).len(), seq![58u8], v);
    lemma_parse_str(s, i, k);
    lemma_at(s, i + enc_str(k).len(), seq![58u8] + v, 0);
    lemma_at(s, i + enc_str(k).len() + 1, v, 0);
}

proof fn lemma_enc_str_start(w: Seq<u8>)
    ensures
        enc_str(w).len() >= 2,
        enc_str(w)[0] == 34,
{
}

proof fn lemma_enc_list_start(l: Seq<usize>)
    ensures
        enc_list(l).len() >= 2,
        enc_list(l)[0] == 91,
{
}

/// A written tensor entry reads back.
#[verifier::rlimit(60)]
pub proof fn lemma_parse_info(s: Seq<u8>, i: int, info: InfoModel)
    requires
        0 <= i,
        info.begin <= usize::MAX,
        info.end <= usize::MAX,
        i + enc_info(info).len() <= s.len(),
        s.subrange(i, i + enc_info(info).len()) == enc_info(info),
    ensures
        parse_info(s, i) == Ok::<_, crate::error::SafetensorError>((info, i + enc_info(info).len())),
{
    let name = info.dtype.spec_name();
    let offs = seq![info.begin as usize, info.end as usize];
    let m0 = member(key_dtype(), enc_str(name));
    let m1 = member(key_shape(), enc_list(info.shape));
    let m2 = member(key_offsets(), enc_list(offs));
    let ms = seq![m0, m1, m2];
    lemma_join_front(ms);
    lemma_join_front(ms.drop_first());
    assert(ms.drop_first().drop_first() =~= seq![m2]);
    assert(join(seq![m2]) == m2);
    let e = enc_info(info);
    reveal(enc_info);
    assert(e =~= seq![123u8] + (m0 + (seq![44u8] + (m1 + (seq![44u8] + (m2 + seq![125u8]))))));
    let f0 = i + 1;
    lemma_split(s, i, seq![123u8], m0 + (seq![44u8] + (m1 + (seq![44u8] + (m2 + seq![125u8])))));
    lemma_split(s, f0, m0, seq![44u8] + (m1 + (seq![44u8] + (m2 + seq![125u8]))));
    let n0 = f0 + m0.len();
    lemma_split(s, n0, seq![44u8], m1 + (seq![44u8] + (m2 + seq![125u8])));
    let f1 = n0 + 1;
    lemma_split(s, f1, m1, seq![44u8] + (m2 + seq![125u8]));
    let n1 = f1 + m1.len();
    lemma_split(s, n1, seq![44u8], m2 + seq![125u8]);
    let f2 = n1 + 1;
    lemma_split(s, f2, m2, seq![125u8]);
    let n2 = f2 + m2.len();
    lemma_at(s, i, e, 0);
    lemma_at(s, n0, seq![44u8], 0);
    lemma_at(s, n1, seq![44u8], 0);
    lemma_at(s, n2, seq![125u8], 0);
    lemma_enc_str_start(key_dtype());
    lemma_enc_str_start(key_shape());
    lemma_enc_str_start(key_offsets());
    lemma_enc_str_start(name);
    lemma_enc_list_start(info.shape);
    lemma_enc_list_start(offs);
    assert(m0[0] == 34 && m1[0] == 34 && m2[0] == 34);
    lemma_at(s, f0, m0, 0);
    lemma_at(s, f1, m1, 0);
    lemma_at(s, f2, m2, 0);
    assert(skip_ws(s, f0) == f0);
    assert(!at(s, f0, 125));
    // the dtype field
    lemma_member(s, f0, key_dtype(), enc_str(name));
    let a0 = f0 + enc_str(key_dtype()).len() + 1;
    lemma_parse_str(s, a0, name);
    lemma_dtype_of_own_name(info.dtype);
    let acc1: crate::parse::InfoAcc = (Some(info.dtype), None, None);
    assert(info_value(s, key_dtype(), a0, (None, None, None)) == Ok::<_, crate::error::SafetensorError>((acc1, n0)));
    assert(skip_ws(s, n0) == n0);
    assert(skip_ws(s, n0 + 1) == f1);
    // the shape field
    assert(key_shape() != key_dtype()) by {
        assert(key_shape()[0] != key_dtype()[0]);
    }
    lemma_member(s, f1, key_shape(), enc_list(info.shape));
    let a1 = f1 + enc_str(key_shape()).len() + 1;
    lemma_parse_list(s, a1, info.shape);
    let acc2: crate::parse::InfoAcc = (Some(info.dtype), Some(info.shape), None);
    assert(info_value(s, key_shape(), a1, acc1) == Ok::<_, crate::error::SafetensorError>((acc2, n1)));
    assert(skip_ws(s, n1) == n1);
    assert(skip_ws(s, n1 + 1) == f2);
    // the offsets field
    assert(key_offsets() != key_dtype()) by {
        assert(key_offsets().len() != key_dtype().len());
    }
    assert(key_offsets() != key_shape()) by {
        assert(key_offsets().len() != key_shape().len());
    }
    lemma_member(s, f2, key_offsets(), enc_list(offs));
    let a2 = f2 + enc_str(key_offsets()).len() + 1;
    lemma_parse_list(s, a2, offs);
    let acc3: crate::parse::InfoAcc = (Some(info.dtype), Some(info.shape), Some((info.begin as usize, info.end as usize)));
    assert(info_value(s, key_offsets(), a2, acc2) == Ok::<_, crate::error::SafetensorError>((acc3, n2)));
    assert(skip_ws(s, n2) == n2);
    assert(info_fields(s, f2, acc2) == Ok::<_, crate::error::SafetensorError>((info, n2 + 1)));
    assert(info_fields(s, f1, acc1) == info_fields(s, f2, acc2));
    assert(info_fields(s, f0, (None, None, None)) == info_fields(s, f1, acc1));
    assert(n2 + 1 == i + e.len());
}

/// Inserting a name above all present ones appends it.
pub proof fn lemma_insert_above<V>(s: Seq<(Seq<u8>, V)>, k: Seq<u8>, v: V)
    requires
        forall|i: int| 0 <= i < s.len() ==> lex_lt(#[trigger] s[i].0, k),
    ensures
        insert_sorted(s, k, v) == s.push((k, v)),
        !has_name(s, k),
    decreases s.len(),
{
    lemma_lex_irreflexive(k);
    if s.len() > 0 {
        lemma_lex_total(s[0].0, k);
        let t = s.drop_first();
        assert forall|i: int| 0 <= i < t.len() implies lex_lt(#[trigger] t[i].0, k) by {
            assert(t[i] == s[i + 1]);
        }
        lemma_insert_above(t, k, v);
        assert(seq![s[0]] + t.push((k, v)) =~= s.push((k, v)));
    }
}

/// The metadata members written.
pub open spec fn meta_items(m: Seq<(Seq<u8>, Seq<u8>)>) -> Seq<Seq<u8>> {
    m.map_values(|e: (Seq<u8>, Seq<u8>)| member(e.0, enc_str(e.1)))
}

proof fn lemma_join_nonempty_start(items: Seq<Seq<u8>>)
    requires
        items.len() >= 1,
        items[0].len() >= 1,
    ensures
        join(items).len() >= 1,
        join(items)[0] == items[0][0],
{
    if items.len() >= 2 {
        lemma_join_front(items);
    }
}

proof fn lemma_meta_members(s: Seq<u8>, j: int, m: Seq<(Seq<u8>, Seq<u8>)>, idx: int)
    requires
        sorted_by_name(m),
        0 <= idx < m.len(),
        0 <= j,
        ({
            let t = join(meta_items(m).subrange(idx, m.len() as int)) + seq![125u8];
            j + t.len() <= s.len() && s.subrange(j, j + t.len()) == t
        }),
    ensures
        meta_members(s, j, m.subrange(0, idx)) == Ok::<_, crate::error::SafetensorError>(
            (m, j + join(meta_items(m).subrange(idx, m.len() as int)).len() + 1),
        ),
    decreases m.len() - idx,
{
    let items = meta_items(m);
    let r = items.subrange(idx, m.len() as int);
    let (k, v) = (m[idx].0, m[idx].1);
    let mi = member(k, enc_str(v));
    assert(r[0] == mi);
    lemma_enc_str_start(v);
    lemma_enc_str_start(k);
    assert forall|a: int| 0 <= a < idx implies lex_lt(#[trigger] m.subrange(0, idx)[a].0, k) by {
        assert(m.subrange(0, idx)[a] == m[a]);
    }
    lemma_insert_above(m.subrange(0, idx), k, v);
    assert(m.subrange(0, idx).push((k, v)) =~= m.subrange(0, idx + 1));
    if idx == m.len() - 1 {
        assert(r =~= seq![mi]);
        assert(join(r) == mi);
        lemma_split(s, j, mi, seq![125u8]);
        lemma_member(s, j, k, enc_str(v));
        let a = j + enc_str(k).len() + 1;
        lemma_parse_str(s, a, v);
        let n = j + mi.len();
        lemma_at(s, n, seq![125u8], 0);
        assert(skip_ws(s, n) == n);
        assert(m.subrange(0, idx + 1) =~= m);
    } else {
        lemma_join_front(r);
        let rest = items.subrange(idx + 1, m.len() as int);
        assert(r.drop_first() =~= rest);
        let tail = join(rest) + seq![125u8];
        assert(join(r) + seq![125u8] =~= mi + (seq![44u8] + tail));
        lemma_split(s, j, mi, seq![44u8] + tail);
        let n = j + mi.len();
        lemma_split(s, n, seq![44u8], tail);
        lemma_member(s, j, k, enc_str(v));
        let a = j + enc_str(k).len() + 1;
        lemma_parse_str(s, a, v);
        lemma_at(s, n, seq![44u8], 0);
        lemma_enc_str_start(m[idx + 1].0);
        assert(rest[0] == member(m[idx + 1].0, enc_str(m[idx + 1].1)));
        lemma_join_nonempty_start(rest);
        lemma_at(s, n + 1, tail, 0);
        assert(skip_ws(s, n) == n);
        assert(skip_ws(s, n + 1) == n + 1);
        lemma_meta_members(s, n + 1, m, idx + 1);
    }
}

/// Written metadata reads back.
pub proof fn lemma_parse_meta(s: Seq<u8>, i: int, m: Seq<(Seq<u8>, Seq<u8>)>)
    requires
        sorted_by_name(m),
        0 <= i,
        i + enc_meta(m).len() <= s.len(),
        s.subrange(i, i + enc_meta(m).len()) == enc_meta(m),
    ensures
        parse_meta(s, i) == Ok::<_, crate::error::SafetensorError>((m, i + enc_meta(m).len())),
{
    let items = meta_items(m);
    reveal(enc_meta);
    assert(enc_meta(m) == seq![123u8] + join(items) + seq![125u8]);
    let body = join(items) + seq![125u8];
    assert(enc_meta(m) =~= seq![123u8] + body);
    lemma_split(s, i, seq![123u8], body);
    lemma_at(s, i, enc_meta(m), 0);
    if m.len() == 0 {
        assert(items.len() == 0);
        assert(join(items) =~= Seq::<u8>::empty());
        lemma_at(s, i + 1, body, 0);
        assert(m =~= Seq::<(Seq<u8>, Seq<u8>)>::empty());
    } else {
        lemma_enc_str_start(m[0].0);
        assert(items[0] == member(m[0].0, enc_str(m[0].1)));
        lemma_join_nonempty_start(items);
        lemma_at(s, i + 1, body, 0);
        assert(items.subrange(0, m.len() as int) =~= items);
        assert(m.subrange(0, 0) =~= Seq::<(Seq<u8>, Seq<u8>)>::empty());
        lemma_meta_members(s, i + 1, m, 0);
    }
}

/// What is known of the header after its first `idx` members are read.
pub open spec fn top_acc(
    meta: Option<Seq<(Seq<u8>, Seq<u8>)>>,
    t: Seq<(Seq<u8>, InfoModel)>,
    idx: int,
) -> HeaderModel {
    let off: int = if meta is Some { 1 } else { 0 };
    if idx >= off {
        (meta, t.subrange(0, idx - off))
    } else {
        (None, t.subrange(0, 0))
    }
}

/// Entries whose ranges fit in a `usize`.
pub open spec fn offsets_fit(t: Seq<(Seq<u8>, InfoModel)>) -> bool {
    forall|a: int| 0 <= a < t.len() ==> (#[trigger] t[a]).1.begin <= usize::MAX && t[a].1.end <= usize::MAX
}

/// The key of the `idx`-th header member written.
pub open spec fn top_key(meta: Option<Seq<(Seq<u8>, Seq<u8>)>>, t: Seq<(Seq<u8>, InfoModel)>, idx: int) -> Seq<u8> {
    if meta is Some && idx == 0 {
        metadata_key()
    } else {
        t[idx - (if meta is Some { 1int } else { 0 })].0
    }
}

/// The value text of the `idx`-th header member written.
pub open spec fn top_val(meta: Option<Seq<(Seq<u8>, Seq<u8>)>>, t: Seq<(Seq<u8>, InfoModel)>, idx: int) -> Seq<u8> {
    if meta is Some && idx == 0 {
        enc_meta(meta->Some_0)
    } else {
        enc_info(t[idx - (if meta is Some { 1int } else { 0 })].1)
    }
}

proof fn lemma_top_item(meta: Option<Seq<(Seq<u8>, Seq<u8>)>>, t: Seq<(Seq<u8>, InfoModel)>, idx: int)
    requires
        0 <= idx < header_members(meta, t).len(),
    ensures
        header_members(meta, t)[idx] == member(top_key(meta, t, idx), top_val(meta, t, idx)),
        header_members(meta, t).len() == t.len() + (if meta is Some { 1int } else { 0 }),
        top_val(meta, t, idx)[0] == 123,
        top_val(meta, t, idx).len() > 0,
        header_members(meta, t)[idx][0] == 34,
{
    lemma_enc_str_start(top_key(meta, t, idx));
    reveal(enc_meta);
    reveal(enc_info);
}

#[verifier::rlimit(40)]
proof fn lemma_top_value(
    s: Seq<u8>,
    j: int,
    meta: Option<Seq<(Seq<u8>, Seq<u8>)>>,
    t: Seq<(Seq<u8>, InfoModel)>,
    idx: int,
)
    requires
        sorted_by_name(t),
        !has_name(t, metadata_key()),
        offsets_fit(t),
        meta matches Some(md) ==> sorted_by_name(md),
        0 <= idx < header_members(meta, t).len(),
        0 <= j,
        j + header_members(meta, t)[idx].len() <= s.len(),
        s.subrange(j, j + header_members(meta, t)[idx].len()) == header_members(meta, t)[idx],
    ensures
        ({
            let key = top_key(meta, t, idx);
            let k = j + enc_str(key).len();
            &&& parse_str(s, j) == Ok::<_, crate::error::SafetensorError>((key, k))
            &&& skip_ws(s, k) == k
            &&& at(s, k, 58)
            &&& skip_ws(s, k + 1) == k + 1
            &&& top_value(s, key, k + 1, top_acc(meta, t, idx)) == Ok::<_, crate::error::SafetensorError>(
                (top_acc(meta, t, idx + 1), j + header_members(meta, t)[idx].len()),
            )
        }),
{
    lemma_top_item(meta, t, idx);
    let off: int = if meta is Some { 1 } else { 0 };
    let key = top_key(meta, t, idx);
    let val = top_val(meta, t, idx);
    lemma_member(s, j, key, val);
    let vstart = j + enc_str(key).len() + 1;
    if idx < off {
        lemma_parse_meta(s, vstart, meta->Some_0);
        assert(t.subrange(0, 0) =~= t.subrange(0, idx + 1 - off));
    } else {
        let a = idx - off;
        assert forall|b: int| 0 <= b < a implies lex_lt(#[trigger] t.subrange(0, a)[b].0, key) by {
            assert(t.subrange(0, a)[b] == t[b]);
        }
        lemma_insert_above(t.subrange(0, a), key, t[a].1);
        assert(t.subrange(0, a).push((key, t[a].1)) =~= t.subrange(0, a + 1));
        assert(key != metadata_key()) by {
            if key == metadata_key() {
                assert(t[a].0 == metadata_key());
            }
        }
        lemma_parse_info(s, vstart, t[a].1);
    }
}

proof fn lemma_top_step(s: Seq<u8>, j: int, acc: HeaderModel, key: Seq<u8>, k: int, n: int, next: HeaderModel)
    requires
        parse_str(s, j) == Ok::<_, crate::error::SafetensorError>((key, k)),
        skip_ws(s, k) == k,
        at(s, k, 58),
        skip_ws(s, k + 1) == k + 1,
        top_value(s, key, k + 1, acc) == Ok::<_, crate::error::SafetensorError>((next, n)),
        skip_ws(s, n) == n,
        j < n < s.len(),
    ensures
        at(s, n, 125) ==> top_members(s, j, acc) == Ok::<_, crate::error::SafetensorError>((next, n + 1)),
        at(s, n, 44) && skip_ws(s, n + 1) == n + 1 ==> top_members(s, j, acc) == top_members(s, n + 1, next),
{
}

#[verifier::spinoff_prover]
#[verifier::rlimit(60)]
proof fn lemma_top_members(
    s: Seq<u8>,
    j: int,
    meta: Option<Seq<(Seq<u8>, Seq<u8>)>>,
    t: Seq<(Seq<u8>, InfoModel)>,
    idx: int,
)
    requires
        sorted_by_name(t),
        !has_name(t, metadata_key()),
        offsets_fit(t),
        meta matches Some(md) ==> sorted_by_name(md),
        0 <= idx < header_members(meta, t).len(),
        0 <= j,
        ({
            let r = header_members(meta, t).subrange(idx, header_members(meta, t).len() as int);
            let x = join(r) + seq![125u8];
            j + x.len() <= s.len() && s.subrange(j, j + x.len()) == x
        }),
    ensures
        top_members(s, j, top_acc(meta, t, idx)) == Ok::<_, crate::error::SafetensorError>((
            (meta, t),
            j + join(header_members(meta, t).subrange(idx, header_members(meta, t).len() as int)).len() + 1,
        )),
    decreases header_members(meta, t).len() - idx,
{
    let items = header_members(meta, t);
    let len = items.len() as int;
    let off: int = if meta is Some { 1 } else { 0 };
    lemma_top_item(meta, t, idx);
    let r = items.subrange(idx, len);
    let item = items[idx];
    assert(r[0] == item);
    let n = j + item.len();
    let key = top_key(meta, t, idx);
    let k = j + enc_str(key).len();
    if idx == len - 1 {
        assert(r =~= seq![item]);
        assert(join(r) == item);
        lemma_split(s, j, item, seq![125u8]);
        lemma_top_value(s, j, meta, t, idx);
        lemma_at(s, n, seq![125u8], 0);
        lemma_top_step(s, j, top_acc(meta, t, idx), key, k, n, top_acc(meta, t, idx + 1));
        assert(t.subrange(0, len - off) =~= t);
    } else {
        lemma_join_front(r);
        let rest = items.subrange(idx + 1, len);
        assert(r.drop_first() =~= rest);
        let tail = join(rest) + seq![125u8];
        assert(join(r) + seq![125u8] =~= item + (seq![44u8] + tail));
        lemma_split(s, j, item, seq![44u8] + tail);
        lemma_split(s, n, seq![44u8], tail);
        lemma_top_value(s, j, meta, t, idx);
        lemma_at(s, n, seq![44u8], 0);
        lemma_top_item(meta, t, idx + 1);
        assert(rest[0] == items[idx + 1]);
        lemma_join_nonempty_start(rest);
        lemma_at(s, n + 1, tail, 0);
        lemma_top_step(s, j, top_acc(meta, t, idx), key, k, n, top_acc(meta, t, idx + 1));
        lemma_top_members(s, n + 1, meta, t, idx + 1);
    }
}

/// A written header text reads back as the metadata and entries written.
pub proof fn lemma_parse_header_text(meta: Option<Seq<(Seq<u8>, Seq<u8>)>>, t: Seq<(Seq<u8>, InfoModel)>)
    requires
        sorted_by_name(t),
        !has_name(t, metadata_key()),
        offsets_fit(t),
        meta matches Some(md) ==> sorted_by_name(md),
    ensures
        parse_header_text(enc_header(meta, t)) == Ok::<_, crate::error::SafetensorError>((meta, t)),
{
    reveal(parse_header_text);
    let s = enc_header(meta, t);
    let items = header_members(meta, t);
    let body = join(items) + seq![125u8];
    assert(s =~= seq![123u8] + body);
    assert(s.subrange(1, s.len() as int) =~= body);
    assert(s[0] == 123);
    assert(skip_ws(s, 0) == 0);
    if items.len() == 0 {
        assert(join(items) =~= Seq::<u8>::empty());
        assert(s[1] == 125);
        assert(skip_ws(s, 1) == 1);
        assert(skip_ws(s, 2) == 2);
        assert(meta is None);
        assert(t =~= Seq::<(Seq<u8>, InfoModel)>::empty());
        assert(text_end(s, Ok(((None, Seq::empty()), 2))) == Ok::<_, crate::error::SafetensorError>((meta, t)));
    } else {
        let off: int = if meta is Some { 1 } else { 0 };
        let k0: Seq<u8> = if meta is Some { metadata_key() } else { t[0].0 };
        if meta is Some {
            assert(items[0] == member(metadata_key(), enc_meta(meta->Some_0)));
        } else {
            assert(items[0] == member(t[0].0, enc_info(t[0].1)));
        }
        lemma_enc_str_start(k0);
        lemma_join_nonempty_start(items);
        assert(s[1] == 34);
        assert(skip_ws(s, 1) == 1);
        assert(items.subrange(0, items.len() as int) =~= items);
        assert(s.subrange(1, 1 + body.len() as int) =~= body);
        lemma_top_members(s, 1, meta, t, 0);
        assert(t.subrange(0, 0) =~= Seq::<(Seq<u8>, InfoModel)>::empty());
        assert(top_acc(meta, t, 0) == (None::<Seq<(Seq<u8>, Seq<u8>)>>, Seq::<(Seq<u8>, InfoModel)>::empty()));
        assert(skip_ws(s, s.len() as int) == s.len());
    }
}

pub proof fn lemma_concat_step(ts: Seq<(Seq<u8>, TensorView)>, i: int)
    requires
        0 <= i < ts.len(),
    ensures
        data_concat(ts.subrange(0, i + 1)) == data_concat(ts.subrange(0, i)) + ts[i].1.spec_data(),
{
    assert(ts.subrange(0, i + 1).drop_last() =~= ts.subrange(0, i));
}

pub proof fn lemma_concat_is_prefix(ts: Seq<(Seq<u8>, TensorView)>, i: int)
    requires
        0 <= i <= ts.len(),
    ensures
        data_concat(ts.subrange(0, i)).len() <= data_concat(ts).len(),
        data_concat(ts).subrange(0, data_concat(ts.subrange(0, i)).len() as int) == data_concat(ts.subrange(0, i)),
    decreases ts.len() - i,
{
    if i == ts.len() {
        assert(ts.subrange(0, i) =~= ts);
        assert(data_concat(ts).subrange(0, data_concat(ts).len() as int) =~= data_concat(ts));
    } else {
        lemma_concat_is_prefix(ts, i + 1);
        lemma_concat_step(ts, i);
        let c = data_concat(ts.subrange(0, i));
        let c1 = data_concat(ts.subrange(0, i + 1));
        assert(data_concat(ts).subrange(0, c.len() as int) =~= c1.subrange(0, c.len() as int));
        assert(c1.subrange(0, c.len() as int) =~= c);
    }
}

/// Where the writer puts each tensor: right after the one before it.
pub proof fn lemma_layout(ts: Seq<(Seq<u8>, TensorView)>)
    ensures
        layout(ts).len() == ts.len(),
        forall|i: int| 0 <= i < ts.len() ==> #[trigger] layout(ts)[i] == (ts[i].0, InfoModel {
            dtype: ts[i].1.spec_dtype(),
            shape: ts[i].1.spec_shape(),
            begin: data_concat(ts.subrange(0, i)).len(),
            end: data_concat(ts.subrange(0, i + 1)).len(),
        }),
    decreases ts.len(),
{
    if ts.len() > 0 {
        let d = ts.drop_last();
        lemma_layout(d);
        assert forall|i: int| 0 <= i < ts.len() implies #[trigger] layout(ts)[i] == (ts[i].0, InfoModel {
            dtype: ts[i].1.spec_dtype(),
            shape: ts[i].1.spec_shape(),
            begin: data_concat(ts.subrange(0, i)).len(),
            end: data_concat(ts.subrange(0, i + 1)).len(),
        }) by {
            if i < ts.len() - 1 {
                assert(layout(ts)[i] == layout(d)[i]);
                assert(d.subrange(0, i) =~= ts.subrange(0, i));
                assert(d.subrange(0, i + 1) =~= ts.subrange(0, i + 1));
                assert(d[i] == ts[i]);
            } else {
                assert(ts.subrange(0, i) =~= d);
                assert(ts.subrange(0, i + 1) =~= ts);
            }
        }
    }
}

pub proof fn lemma_le_bytes(n: u64, rest: Seq<u8>)
    ensures
        le_u64(le_bytes(n) + rest) == n,
{
    let b = le_bytes(n) + rest;
    assert(b[0] == (n & 0xff) as u8);
    assert(b[1] == ((n >> 8u64) & 0xff) as u8);
    assert(b[2] == ((n >> 16u64) & 0xff) as u8);
    assert(b[3] == ((n >> 24u64) & 0xff) as u8);
    assert(b[4] == ((n >> 32u64) & 0xff) as u8);
    assert(b[5] == ((n >> 40u64) & 0xff) as u8);
    assert(b[6] == ((n >> 48u64) & 0xff) as u8);
    assert(b[7] == ((n >> 56u64) & 0xff) as u8);
    assert(((n & 0xff) as u8 as u64) | ((((n >> 8u64) & 0xff) as u8 as u64) << 8u64)
        | ((((n >> 16u64) & 0xff) as u8 as u64) << 16u64) | ((((n >> 24u64) & 0xff) as u8 as u64) << 24u64)
        | ((((n >> 32u64) & 0xff) as u8 as u64) << 32u64) | ((((n >> 40u64) & 0xff) as u8 as u64) << 40u64)
        | ((((n >> 48u64) & 0xff) as u8 as u64) << 48u64) | ((((n >> 56u64) & 0xff) as u8 as u64) << 56u64) == n)
        by (bit_vector);
}

} // verus!
