//! The header: its model, how it is written, and the container writer.
use vstd::prelude::*;
use crate::dtype::Dtype;
use crate::json::{enc_list, enc_str, join, write_list, write_str};
use crate::name_map::{map_vals, NameMap};

verus! {

/// The largest header length accepted, in bytes.
pub const MAX_HEADER_LEN: usize = 100_000_000;

/// The persisted description of one tensor: its dtype, shape and byte range
/// relative to the start of the data block.
pub struct TensorInfo {
    pub dtype: Dtype,
    pub shape: Vec<usize>,
    pub data_offsets: (usize, usize),
}

/// What a `TensorInfo` stands for.
pub struct InfoModel {
    pub dtype: Dtype,
    pub shape: Seq<usize>,
    pub begin: nat,
    pub end: nat,
}

impl View for TensorInfo {
    type V = InfoModel;

    open spec fn view(&self) -> InfoModel {
        InfoModel {
            dtype: self.dtype,
            shape: self.shape@,
            begin: self.data_offsets.0 as nat,
            end: self.data_offsets.1 as nat,
        }
    }
}

/// A parsed header: optional free-form metadata and the tensors, both sorted by name.
pub struct Header {
    pub metadata: Option<NameMap<Vec<u8>>>,
    pub tensors: NameMap<TensorInfo>,
}

/// The bytes a vector holds.
pub open spec fn bytes_of() -> spec_fn(Vec<u8>) -> Seq<u8> {
    |v: Vec<u8>| v@
}

/// What a tensor entry stands for.
pub open spec fn info_of() -> spec_fn(TensorInfo) -> InfoModel {
    |i: TensorInfo| i@
}

/// The metadata entries as byte strings.
pub open spec fn meta_model(m: Option<NameMap<Vec<u8>>>) -> Option<Seq<(Seq<u8>, Seq<u8>)>> {
    match m {
        Some(m) => Some(map_vals(m@, bytes_of())),
        None => None,
    }
}

/// The tensor entries as models.
pub open spec fn infos_model(t: NameMap<TensorInfo>) -> Seq<(Seq<u8>, InfoModel)> {
    map_vals(t@, info_of())
}

impl Header {
    pub open spec fn wf(&self) -> bool {
        &&& self.tensors.wf()
        &&& (self.metadata matches Some(m) ==> m.wf())
    }
}

/// `__metadata__`, the reserved key of the metadata object.
pub open spec fn metadata_key() -> Seq<u8> {
    seq![95u8, 95u8, 109u8, 101u8, 116u8, 97u8, 100u8, 97u8, 116u8, 97u8, 95u8, 95u8]
}

pub open spec fn key_dtype() -> Seq<u8> {
    seq![100u8, 116u8, 121u8, 112u8, 101u8]
}

pub open spec fn key_shape() -> Seq<u8> {
    seq![115u8, 104u8, 97u8, 112u8, 101u8]
}

pub open spec fn key_offsets() -> Seq<u8> {
    seq![100u8, 97u8, 116u8, 97u8, 95u8, 111u8, 102u8, 102u8, 115u8, 101u8, 116u8, 115u8]
}

/// A `"key":value` member.
pub open spec fn member(k: Seq<u8>, v: Seq<u8>) -> Seq<u8> {
    enc_str(k) + seq![58u8] + v
}

/// The JSON object describing one tensor.
#[verifier::opaque]
pub open spec fn enc_info(i: InfoModel) -> Seq<u8> {
    seq![123u8] + join(seq![
        member(key_dtype(), enc_str(i.dtype.spec_name())),
        member(key_shape(), enc_list(i.shape)),
        member(key_offsets(), enc_list(seq![i.begin as usize, i.end as usize])),
    ]) + seq![125u8]
}

/// The JSON object of the metadata.
#[verifier::opaque]
pub open spec fn enc_meta(m: Seq<(Seq<u8>, Seq<u8>)>) -> Seq<u8> {
    seq![123u8] + join(m.map_values(|e: (Seq<u8>, Seq<u8>)| member(e.0, enc_str(e.1)))) + seq![125u8]
}

/// The members of the header object, metadata first, then the tensors in order.
pub open spec fn header_members(
    meta: Option<Seq<(Seq<u8>, Seq<u8>)>>,
    t: Seq<(Seq<u8>, InfoModel)>,
) -> Seq<Seq<u8>> {
    (match meta {
        Some(m) => seq![member(metadata_key(), enc_meta(m))],
        None => Seq::empty(),
    }) + t.map_values(|e: (Seq<u8>, InfoModel)| member(e.0, enc_info(e.1)))
}

/// The header JSON text.
pub open spec fn enc_header(meta: Option<Seq<(Seq<u8>, Seq<u8>)>>, t: Seq<(Seq<u8>, InfoModel)>) -> Seq<u8> {
    seq![123u8] + join(header_members(meta, t)) + seq![125u8]
}

proof fn lemma_join_push(a: Seq<Seq<u8>>, x: Seq<u8>)
    ensures
        join(a.push(x)) == if a.len() == 0 { x } else { join(a) + seq![44u8] + x },
{
    assert(a.push(x).drop_last() =~= a);
    if a.len() == 0 {
        assert(a.push(x).len() == 1);
    }
}

pub(crate) fn key_bytes(k: u8) -> (r: Vec<u8>)
    requires
        k < 4,
    ensures
        k == 0 ==> r@ == metadata_key(),
        k == 1 ==> r@ == key_dtype(),
        k == 2 ==> r@ == key_shape(),
        k == 3 ==> r@ == key_offsets(),
{
    let r = if k == 0 {
        vec![95u8, 95u8, 109u8, 101u8, 116u8, 97u8, 100u8, 97u8, 116u8, 97u8, 95u8, 95u8]
    } else if k == 1 {
        vec![100u8, 116u8, 121u8, 112u8, 101u8]
    } else if k == 2 {
        vec![115u8, 104u8, 97u8, 112u8, 101u8]
    } else {
        vec![100u8, 97u8, 116u8, 97u8, 95u8, 111u8, 102u8, 102u8, 115u8, 101u8, 116u8, 115u8]
    };
    assert(k == 0 ==> r@ =~= metadata_key());
    assert(k == 1 ==> r@ =~= key_dtype());
    assert(k == 2 ==> r@ =~= key_shape());
    assert(k == 3 ==> r@ =~= key_offsets());
    r
}

fn write_key(out: &mut Vec<u8>, k: u8)
    requires
        k < 4,
    ensures
        k == 0 ==> final(out)@ == old(out)@ + enc_str(metadata_key()) + seq![58u8],
        k == 1 ==> final(out)@ == old(out)@ + enc_str(key_dtype()) + seq![58u8],
        k == 2 ==> final(out)@ == old(out)@ + enc_str(key_shape()) + seq![58u8],
        k == 3 ==> final(out)@ == old(out)@ + enc_str(key_offsets()) + seq![58u8],
{
    let kb = key_bytes(k);
    write_str(out, kb.as_slice());
    out.push(58u8);
}

/// Appends the JSON object describing one tensor.
#[verifier::rlimit(40)]
pub fn write_info(out: &mut Vec<u8>, info: &TensorInfo)
    ensures
        final(out)@ == old(out)@ + enc_info(info@),
{
    let ghost o = old(out)@;
    let ghost m = seq![
        member(key_dtype(), enc_str(info@.dtype.spec_name())),
        member(key_shape(), enc_list(info@.shape)),
        member(key_offsets(), enc_list(seq![info@.begin as usize, info@.end as usize])),
    ];
    out.push(123u8);
    write_key(out, 1);
    let name = info.dtype.name();
    write_str(out, name.as_slice());
    assert(out@ =~= o + seq![123u8] + m[0]);
    out.push(44u8);
    write_key(out, 2);
    write_list(out, info.shape.as_slice());
    assert(out@ =~= o + seq![123u8] + m[0] + seq![44u8] + m[1]);
    out.push(44u8);
    write_key(out, 3);
    let offs = [info.data_offsets.0, info.data_offsets.1];
    assert(offs@ =~= seq![info@.begin as usize, info@.end as usize]);
    write_list(out, offs.as_slice());
    assert(out@ =~= o + seq![123u8] + m[0] + seq![44u8] + m[1] + seq![44u8] + m[2]);
    out.push(125u8);
    proof {
        lemma_join_push(m.subrange(0, 1), m[1]);
        lemma_join_push(m.subrange(0, 2), m[2]);
        assert(m.subrange(0, 1).push(m[1]) =~= m.subrange(0, 2));
        assert(m.subrange(0, 2).push(m[2]) =~= m);
        assert(join(m.subrange(0, 1)) == m[0]);
    }
    reveal(enc_info);
    assert(out@ =~= o + enc_info(info@));
}

/// Appends the JSON object of the metadata.
pub fn write_meta(out: &mut Vec<u8>, m: &NameMap<Vec<u8>>)
    ensures
        final(out)@ == old(out)@ + enc_meta(meta_model(Some(*m))->0),
{
    let ghost model = meta_model(Some(*m))->0;
    let ghost f = |e: (Seq<u8>, Seq<u8>)| member(e.0, enc_str(e.1));
    let ghost items = model.map_values(f);
    out.push(123u8);
    let mut i: usize = 0;
    assert(items.subrange(0, 0) =~= Seq::<Seq<u8>>::empty());
    while i < m.len()
        invariant
            i <= m@.len(),
            model == meta_model(Some(*m))->0,
            items == model.map_values(f),
            f == (|e: (Seq<u8>, Seq<u8>)| member(e.0, enc_str(e.1))),
            out@ == old(out)@ + seq![123u8] + join(items.subrange(0, i as int)),
        decreases m@.len() - i,
    {
        if i > 0 {
            out.push(44u8);
        }
        write_str(out, m.name_at(i));
        out.push(58u8);
        write_str(out, m.value_at(i).as_slice());
        proof {
            lemma_join_push(items.subrange(0, i as int), items[i as int]);
            assert(items.subrange(0, i as int).push(items[i as int]) =~= items.subrange(0, i + 1));
        }
        i = i + 1;
        assert(out@ =~= old(out)@ + seq![123u8] + join(items.subrange(0, i as int)));
    }
    out.push(125u8);
    assert(items.subrange(0, i as int) =~= items);
    reveal(enc_meta);
    assert(out@ =~= old(out)@ + enc_meta(model));
}

/// Appends the header JSON text.
pub fn write_header(out: &mut Vec<u8>, meta: &Option<NameMap<Vec<u8>>>, tensors: &NameMap<TensorInfo>)
    ensures
        final(out)@ == old(out)@ + enc_header(meta_model(*meta), infos_model(*tensors)),
{
    let ghost items = header_members(meta_model(*meta), infos_model(*tensors));
    out.push(123u8);
    let ghost mut k: int = 0;
    assert(items.subrange(0, 0) =~= Seq::<Seq<u8>>::empty());
    match meta {
        Some(m) => {
            write_key(out, 0);
            write_meta(out, m);
            proof {
                lemma_join_push(items.subrange(0, 0), items[0]);
                assert(items.subrange(0, 0).push(items[0]) =~= items.subrange(0, 1));
            }
            proof { k = 1; }
        },
        None => {},
    }
    let mut i: usize = 0;
    while i < tensors.len()
        invariant
            i <= tensors@.len(),
            k == i + (if meta.is_some() { 1int } else { 0 }),
            meta.is_some() == (meta_model(*meta) is Some),
            items == header_members(meta_model(*meta), infos_model(*tensors)),
            items.len() == tensors@.len() + (if meta.is_some() { 1int } else { 0 }),
            out@ == old(out)@ + seq![123u8] + join(items.subrange(0, k)),
        decreases tensors@.len() - i,
    {
        if i > 0 || meta.is_some() {
            out.push(44u8);
        }
        write_str(out, tensors.name_at(i));
        out.push(58u8);
        write_info(out, tensors.value_at(i));
        proof {
            lemma_join_push(items.subrange(0, k), items[k]);
            assert(items.subrange(0, k).push(items[k]) =~= items.subrange(0, k + 1));
            k = k + 1;
        }
        i = i + 1;
        assert(out@ =~= old(out)@ + seq![123u8] + join(items.subrange(0, k)));
    }
    out.push(125u8);
    assert(items.subrange(0, k) =~= items);
}

} // verus!
