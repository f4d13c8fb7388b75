//! Properties that relate several operations, or hold of every input.
use vstd::prelude::*;
use crate::bytes::{lex_lt, lemma_lex_irreflexive, lemma_lex_total};
use crate::error::SafetensorError;
use crate::header::{metadata_key, MAX_HEADER_LEN};
use crate::name_map::{has_name, lemma_map_vals, lookup, map_vals, names_of, sorted_by_name};
use crate::parse::parse_header_text;
use crate::round_trip::{lemma_layout, lemma_parse_header_text, offsets_fit};
use crate::validate::{decode_spec, disjoint, info_ok, le_u64, offsets_valid};
use crate::view::{byte_size, TensorView};
use crate::writer::{container, data_concat, encode_error, header_text, layout, le_bytes};

verus! {

proof fn lemma_lookup_index<V>(s: Seq<(Seq<u8>, V)>, i: int)
    requires
        sorted_by_name(s),
        0 <= i < s.len(),
    ensures
        lookup(s, s[i].0) == Some(s[i].1),
    decreases s.len(),
{
    if i > 0 {
        let t = s.drop_first();
        assert(lex_lt(s[0].0, s[i].0));
        lemma_lex_irreflexive(s[i].0);
        assert forall|a: int, b: int| 0 <= a < b < t.len() implies lex_lt(#[trigger] t[a].0, #[trigger] t[b].0) by {
            assert(t[a] == s[a + 1] && t[b] == s[b + 1]);
        }
        assert(t[i - 1] == s[i]);
        lemma_lookup_index(t, i - 1);
    }
}

proof fn lemma_lookup_none_below<V>(s: Seq<(Seq<u8>, V)>, k: Seq<u8>)
    requires
        sorted_by_name(s),
        s.len() > 0,
        lex_lt(k, s[0].0),
    ensures
        lookup(s, k) is None,
    decreases s.len(),
{
    lemma_lex_irreflexive(k);
    let t = s.drop_first();
    assert(k != s[0].0);
    assert(lookup(s, k) == lookup(t, k));
    if t.len() > 0 {
        assert forall|a: int, b: int| 0 <= a < b < t.len() implies lex_lt(#[trigger] t[a].0, #[trigger] t[b].0) by {
            assert(t[a] == s[a + 1] && t[b] == s[b + 1]);
        }
        assert(lex_lt(s[0].0, t[0].0));
        crate::bytes::lemma_lex_transitive(k, s[0].0, t[0].0);
        lemma_lookup_none_below(t, k);
    }
}

/// Entries sorted by name are determined by what each name looks up: two such
/// sequences that agree on every name are equal. So the sorted names that
/// `keys` returns depend only on which tensors a header holds, not on the
/// order in which its text lists them.
pub proof fn law_sorted_entries_determined<V>(s: Seq<(Seq<u8>, V)>, t: Seq<(Seq<u8>, V)>)
    requires
        sorted_by_name(s),
        sorted_by_name(t),
        forall|k: Seq<u8>| lookup(s, k) == lookup(t, k),
    ensures
        s == t,
        names_of(s) == names_of(t),
    decreases s.len() + t.len(),
{
    if s.len() == 0 && t.len() > 0 {
        lemma_lookup_index(t, 0);
        assert(lookup(s, t[0].0) is None);
    } else if t.len() == 0 && s.len() > 0 {
        lemma_lookup_index(s, 0);
        assert(lookup(t, s[0].0) is None);
    } else if s.len() > 0 && t.len() > 0 {
        lemma_lookup_index(s, 0);
        lemma_lookup_index(t, 0);
        lemma_lex_total(s[0].0, t[0].0);
        if lex_lt(s[0].0, t[0].0) {
            lemma_lookup_none_below(t, s[0].0);
        } else if lex_lt(t[0].0, s[0].0) {
            lemma_lookup_none_below(s, t[0].0);
        } else {
            let (s1, t1) = (s.drop_first(), t.drop_first());
            assert forall|a: int, b: int| 0 <= a < b < s1.len() implies lex_lt(#[trigger] s1[a].0, #[trigger] s1[b].0) by {
                assert(s1[a] == s[a + 1] && s1[b] == s[b + 1]);
            }
            assert forall|a: int, b: int| 0 <= a < b < t1.len() implies lex_lt(#[trigger] t1[a].0, #[trigger] t1[b].0) by {
                assert(t1[a] == t[a + 1] && t1[b] == t[b + 1]);
            }
            assert forall|k: Seq<u8>| lookup(s1, k) == lookup(t1, k) by {
                if k == s[0].0 {
                    if s1.len() > 0 {
                        assert(lex_lt(s[0].0, s1[0].0));
                        lemma_lookup_none_below(s1, k);
                    }
                    if t1.len() > 0 {
                        assert(lex_lt(t[0].0, t1[0].0));
                        lemma_lookup_none_below(t1, k);
                    }
                } else {
                    assert(lookup(s, k) == lookup(s1, k));
                    assert(lookup(t, k) == lookup(t1, k));
                }
            }
            law_sorted_entries_determined(s1, t1);
            assert(s =~= seq![s[0]] + s1);
            assert(t =~= seq![t[0]] + t1);
        }
    }
    assert(names_of(s) =~= names_of(t));
}

/// What a view holds: its dtype, shape and bytes.
pub open spec fn view_content(v: TensorView) -> (crate::dtype::Dtype, Seq<usize>, Seq<u8>) {
    (v.spec_dtype(), v.spec_shape(), v.spec_data())
}

/// Encoding depends only on the names, dtypes, shapes and bytes given: two
/// inputs with the same content encode to byte-identical containers.
pub proof fn law_encoding_deterministic(
    meta: Option<Seq<(Seq<u8>, Seq<u8>)>>,
    a: Seq<(Seq<u8>, TensorView)>,
    b: Seq<(Seq<u8>, TensorView)>,
)
    requires
        a.len() == b.len(),
        forall|i: int| 0 <= i < a.len() ==> (#[trigger] a[i]).0 == b[i].0 && view_content(a[i].1) == view_content(b[i].1),
    ensures
        container(meta, a) == container(meta, b),
        layout(a) == layout(b),
        data_concat(a) == data_concat(b),
    decreases a.len(),
{
    if a.len() > 0 {
        let (a1, b1) = (a.drop_last(), b.drop_last());
        assert forall|i: int| 0 <= i < a1.len() implies (#[trigger] a1[i]).0 == b1[i].0 && view_content(a1[i].1) == view_content(b1[i].1) by {
            assert(a1[i] == a[i] && b1[i] == b[i]);
        }
        law_encoding_deterministic(meta, a1, b1);
        assert(a.last() == a[a.len() - 1]);
    }
}

/// What each view of `s` holds, by name.
pub open spec fn contents(s: Seq<(Seq<u8>, TensorView)>) -> Seq<(Seq<u8>, (crate::dtype::Dtype, Seq<usize>, Seq<u8>))> {
    map_vals(s, |v: TensorView| view_content(v))
}

/// Two sorted inputs that give every name the same dtype, shape and bytes
/// encode to the same container, whatever order their entries were inserted in.
pub proof fn law_encoding_ignores_insertion_order(
    meta: Option<Seq<(Seq<u8>, Seq<u8>)>>,
    a: Seq<(Seq<u8>, TensorView)>,
    b: Seq<(Seq<u8>, TensorView)>,
)
    requires
        sorted_by_name(a),
        sorted_by_name(b),
        forall|k: Seq<u8>| lookup(contents(a), k) == lookup(contents(b), k),
    ensures
        container(meta, a) == container(meta, b),
{
    let f = |v: TensorView| view_content(v);
    lemma_map_vals(a, f);
    lemma_map_vals(b, f);
    law_sorted_entries_determined(contents(a), contents(b));
    assert(a.len() == contents(a).len() && b.len() == contents(b).len());
    assert forall|i: int| 0 <= i < a.len() implies (#[trigger] a[i]).0 == b[i].0 && view_content(a[i].1) == view_content(b[i].1) by {
        assert(contents(a)[i] == contents(b)[i]);
    }
    law_encoding_deterministic(meta, a, b);
}

/// A buffer shorter than the length prefix, or than the prefix and the
/// header it announces, fails `TruncatedInput`.
pub proof fn law_short_input_truncated(b: Seq<u8>)
    requires
        b.len() < 8 || 8 + le_u64(b) > b.len(),
    ensures
        decode_spec(b) == Err::<(nat, crate::parse::HeaderModel), _>(SafetensorError::TruncatedInput),
{
}

/// A header whose text reads well but where two tensors' byte ranges
/// overlap fails `InvalidOffsets`.
pub proof fn law_overlap_rejected(b: Seq<u8>, i: int, j: int)
    requires
        b.len() >= 8,
        8 + le_u64(b) <= b.len(),
        le_u64(b) <= MAX_HEADER_LEN,
        parse_header_text(b.subrange(8, 8 + le_u64(b))) is Ok,
        ({
            let t = parse_header_text(b.subrange(8, 8 + le_u64(b)))->Ok_0.1;
            0 <= i < j < t.len() && !disjoint(t[i].1, t[j].1)
        }),
    ensures
        decode_spec(b) == Err::<(nat, crate::parse::HeaderModel), _>(SafetensorError::InvalidOffsets),
{
}

/// A header whose text reads well but where a tensor's byte range is not as
/// long as its dtype and shape ask fails `InvalidOffsets`.
pub proof fn law_length_mismatch_rejected(b: Seq<u8>, i: int)
    requires
        b.len() >= 8,
        8 + le_u64(b) <= b.len(),
        le_u64(b) <= MAX_HEADER_LEN,
        parse_header_text(b.subrange(8, 8 + le_u64(b))) is Ok,
        ({
            let t = parse_header_text(b.subrange(8, 8 + le_u64(b)))->Ok_0.1;
            0 <= i < t.len() && t[i].1.end - t[i].1.begin != byte_size(t[i].1.dtype, t[i].1.shape)
        }),
    ensures
        decode_spec(b) == Err::<(nat, crate::parse::HeaderModel), _>(SafetensorError::InvalidOffsets),
{
}

/// Decoding what was encoded gives back the same metadata and, name by
/// name in the same sorted order, the same dtype, shape and bytes.
pub proof fn law_round_trip(meta: Option<Seq<(Seq<u8>, Seq<u8>)>>, ts: Seq<(Seq<u8>, TensorView)>)
    requires
        sorted_by_name(ts),
        meta matches Some(md) ==> sorted_by_name(md),
        forall|i: int| 0 <= i < ts.len() ==> (#[trigger] ts[i]).1.spec_data().len()
            == byte_size(ts[i].1.spec_dtype(), ts[i].1.spec_shape()),
        encode_error(meta, ts) is None,
    ensures
        ({
            let b = container(meta, ts);
            let off: int = 8 + header_text(meta, ts).len() as int;
            let t = layout(ts);
            &&& decode_spec(b) == Ok::<_, SafetensorError>((off as nat, (meta, t)))
            &&& t.len() == ts.len()
            &&& forall|i: int| 0 <= i < ts.len() ==> {
                &&& (#[trigger] t[i]).0 == ts[i].0
                &&& t[i].1.dtype == ts[i].1.spec_dtype()
                &&& t[i].1.shape == ts[i].1.spec_shape()
                &&& b.subrange(off + t[i].1.begin, off + t[i].1.end) == ts[i].1.spec_data()
            }
        }),
{
    let t = layout(ts);
    let text = header_text(meta, ts);
    let d = data_concat(ts);
    let b = container(meta, ts);
    let l = text.len();
    let off: int = 8 + l as int;
    lemma_layout(ts);
    assert forall|i: int| 0 <= i < ts.len() implies {
        &&& info_ok(#[trigger] t[i].1, d.len())
        &&& data_concat(ts.subrange(0, i + 1)) == data_concat(ts.subrange(0, i)) + ts[i].1.spec_data()
        &&& d.subrange(0, t[i].1.end as int) == data_concat(ts.subrange(0, i + 1))
    } by {
        crate::round_trip::lemma_concat_step(ts, i);
        crate::round_trip::lemma_concat_is_prefix(ts, i + 1);
        assert(ts[i] == ts[i]);
    }
    assert forall|i: int, j: int| 0 <= i < j < t.len() implies disjoint(#[trigger] t[i].1, #[trigger] t[j].1) by {
        crate::writer::lemma_concat_prefix(ts.subrange(0, j), i + 1);
        assert(ts.subrange(0, j).subrange(0, i + 1) =~= ts.subrange(0, i + 1));
    }
    assert(offsets_fit(t));
    assert forall|i: int, j: int| 0 <= i < j < t.len() implies lex_lt(#[trigger] t[i].0, #[trigger] t[j].0) by {
        assert(t[i].0 == ts[i].0 && t[j].0 == ts[j].0);
    }
    assert(!has_name(t, metadata_key())) by {
        if has_name(t, metadata_key()) {
            let i = choose|i: int| 0 <= i < t.len() && t[i].0 == metadata_key();
            assert(ts[i].0 == metadata_key());
        }
    }
    lemma_parse_header_text(meta, t);
    crate::round_trip::lemma_le_bytes(l as u64, text + d);
    assert(b =~= le_bytes(l as u64) + (text + d));
    assert(b.subrange(8, 8 + l as int) =~= text);
    assert(offsets_valid(t, (b.len() - off) as nat));
    assert forall|i: int| 0 <= i < ts.len() implies b.subrange(off + (#[trigger] t[i]).1.begin, off + t[i].1.end) == ts[i].1.spec_data() by {
        let c = data_concat(ts.subrange(0, i));
        assert(b.subrange(off + t[i].1.begin, off + t[i].1.end) =~= d.subrange(t[i].1.begin as int, t[i].1.end as int));
        assert(d.subrange(t[i].1.begin as int, t[i].1.end as int) =~= d.subrange(0, t[i].1.end as int).subrange(c.len() as int, t[i].1.end as int));
        assert((c + ts[i].1.spec_data()).subrange(c.len() as int, t[i].1.end as int) =~= ts[i].1.spec_data());
    }
}

} // verus!
